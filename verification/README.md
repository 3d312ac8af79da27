# dirsync

Keeps two directories in sync through a shared-memory ring buffer. Two processes
watch one directory each and exchange events; a file travels as an announcement
with its BLAKE3 hash and size, followed by its content in chunks.

    dirsync host -i /path/to/directory-a
    dirsync join -i /path/to/directory-b

The host creates the segment; the other process waits for it.

## Layout

`src/` is a library that decides everything and touches neither the disk nor
shared memory. It is verified with Verus: every function carries a contract, and
the functions named `law_..` state what holds of the library as a whole.

| module | what it is about |
|--------|------------------|
| `path`, `path_map`, `names` | paths as lists of components, maps keyed by them, names of kept copies |
| `event` | events, envelopes, the header of the segment |
| `ring`, `shm` | the frames of the ring, pushing and popping, readers, the lock |
| `chunker`, `hash` | file content in pieces, content hashes |
| `watcher`, `watcher_laws` | which events the changes on the disk give rise to |
| `stability` | waiting until a file has stopped changing |
| `apply`, `apply_laws` | applying the events of the other side, conflicts |
| `delivery` | what becomes of files that are sent or deleted, on a disk on which nothing fails |
| `sync`, `cli` | the sync loop, signs of life, settings |

`app/` is the program around it: arguments, the mapped segment, the disk, the file
watcher and the encoding of events. `tests/` runs the library.

## Steps and requests

Where a decision depends on the disk, the library hands out a request and goes on
with the reply: see `apply::ChangeApplier::apply_event` and `resume`. The sync loop
(`sync::SyncEngine::run_sync_loop`) and the wait for a stable file
(`stability::wait_for_stable`) work in the same way.

## What is trusted

Three calls into `blake3` (`Hasher::new`, `update`, `finalize`) in `hash`, and
`String::from_utf8_lossy` in `names`.

## Conflicts

| strategy | behaviour |
|----------|-----------|
| `last-write-wins` | the newer of the remote event and the local file wins |
| `keep-both` | the local copy becomes `<name>.local.<extension>`, the remote version is accepted |
