use dirsync::apply::{
    deepest_existing_ancestor, local_mtime_millis, request_of, validate_event_path, AncestorStep,
    ApplyError, ApplyStep, Area, BatchStep, ChangeApplier, ConflictInfo, FsReply, FsRequest, Reply,
    Request, Step,
};
use dirsync::chunker::chunk_data;
use dirsync::cli::{ConflictStrategy, NameStyle};
use dirsync::event::SyncEvent;
use dirsync::path::{Component, Prefix, SyncPath};
use dirsync::shm::ShmTransport;
use dirsync::watcher::{hash_data, initial_scan, FileState, Probe, Sighting, INTERNAL_TEMP_DIR};
use std::collections::{BTreeMap, BTreeSet};

const NOW: i64 = 1_700_000_000_000;
const ROOT: &str = "/sync";
const MTIME: u128 = 1_750_000_000_000;

fn p(text: &str) -> SyncPath {
    SyncPath::parse(text)
}

fn key(path: &SyncPath) -> String {
    let names: Vec<String> = path
        .parts
        .iter()
        .map(|part| match part {
            Component::Normal(name) => String::from_utf8(name.clone()).unwrap(),
            _ => panic!("A request left the directory"),
        })
        .collect();
    names.join("/")
}

fn state(content: &[u8]) -> FileState {
    let (hash, size) = hash_data(content);
    FileState { hash, size }
}

fn write_at(content: &mut Vec<u8>, offset: usize, data: &[u8]) {
    if data.is_empty() {
        return;
    }
    if content.len() < offset + data.len() {
        content.resize(offset + data.len(), 0);
    }
    content[offset..offset + data.len()].copy_from_slice(data);
}

/// A directory in memory.
struct Disk {
    dirs: BTreeSet<String>,
    files: BTreeMap<String, Vec<u8>>,
    temp: BTreeMap<String, Vec<u8>>,
    ancestor: Option<SyncPath>,
    temp_is_link: bool,
    temp_root: SyncPath,
    failing: Option<FsRequest>,
    requests: usize,
}

impl Disk {
    fn new() -> Disk {
        Disk {
            dirs: BTreeSet::new(),
            files: BTreeMap::new(),
            temp: BTreeMap::new(),
            ancestor: Some(p(ROOT)),
            temp_is_link: false,
            temp_root: p(ROOT).join(&p(INTERNAL_TEMP_DIR)),
            failing: None,
            requests: 0,
        }
    }

    fn is_dir(&self, path: &str) -> bool {
        self.dirs.contains(path)
    }

    fn has(&self, path: &str) -> bool {
        self.dirs.contains(path) || self.files.contains_key(path)
    }

    fn read(&self, path: &str) -> &[u8] {
        self.files.get(path).unwrap()
    }

    fn write(&mut self, path: &str, content: &[u8]) {
        self.make_parent(path);
        self.files.insert(path.to_string(), content.to_vec());
    }

    fn make_dir(&mut self, path: &str) {
        self.make_parent(path);
        self.dirs.insert(path.to_string());
    }

    fn make_parent(&mut self, path: &str) {
        for (i, byte) in path.bytes().enumerate() {
            if byte == b'/' {
                self.dirs.insert(path[..i].to_string());
            }
        }
    }

    fn sightings(&self) -> Vec<Sighting> {
        let mut found = vec![Sighting { path: p(ROOT), probe: Probe::Dir }];
        for dir in &self.dirs {
            found.push(Sighting { path: p(ROOT).join(&p(dir)), probe: Probe::Dir });
        }
        for (file, content) in &self.files {
            found.push(Sighting {
                path: p(ROOT).join(&p(file)),
                probe: Probe::File(state(content)),
            });
        }
        found
    }

    fn scan_with_content(&self) -> Vec<SyncEvent> {
        let mut events = initial_scan(&p(ROOT), b"sync", &self.sightings(), &[]);
        for (file, content) in &self.files {
            events.extend(chunk_data(&p(file), content, 65536));
        }
        events
    }

    fn digest(files: &BTreeMap<String, Vec<u8>>, path: &str) -> FsReply {
        match files.get(path) {
            Some(content) => Reply::Digest(state(content)),
            None => Reply::Failed,
        }
    }

    fn serve(&mut self, request: FsRequest) -> FsReply {
        self.requests += 1;
        if self.failing.as_ref() == Some(&request) {
            return Reply::Failed;
        }
        match request {
            Request::Locate { area: Area::Target, path } => {
                key(&path);
                Reply::Located(self.ancestor.clone())
            }
            Request::Locate { area: Area::Temp, path } => {
                key(&path);
                Reply::Located(Some(self.temp_root.clone()))
            }
            Request::Exists { path } => Reply::Flag(self.has(&key(&path))),
            Request::Digest { area: Area::Target, path } => {
                Disk::digest(&self.files, &key(&path))
            }
            Request::Digest { area: Area::Temp, path } => Disk::digest(&self.temp, &key(&path)),
            Request::Mtime { .. } => Reply::Millis(Some(MTIME)),
            Request::Rename { path, to } => {
                let content = self.files.remove(&key(&path)).unwrap();
                self.files.insert(key(&to), content);
                Reply::Done
            }
            Request::CreateParent { area: Area::Target, path } => {
                self.make_parent(&key(&path));
                Reply::Done
            }
            Request::CreateParent { area: Area::Temp, .. } => Reply::Done,
            Request::CreateDir { path } => {
                self.make_dir(&key(&path));
                Reply::Done
            }
            Request::WriteEmpty { path } => {
                self.files.insert(key(&path), Vec::new());
                Reply::Done
            }
            Request::IsTempRootLink => Reply::Flag(self.temp_is_link),
            Request::MakeTempRoot => Reply::TempRoot(self.temp_root.clone()),
            Request::OpenTemp { path } => {
                self.temp.insert(key(&path), Vec::new());
                Reply::Done
            }
            Request::WriteTemp { path, offset, data } => {
                write_at(self.temp.get_mut(&key(&path)).unwrap(), offset as usize, &data);
                Reply::Done
            }
            Request::TempSize { path } => Reply::Size(self.temp[&key(&path)].len() as u64),
            Request::FlushTemp { .. } => Reply::Done,
            Request::WriteTarget { path, offset, truncate, data } => {
                let content = self.files.entry(key(&path)).or_default();
                if truncate {
                    content.clear();
                }
                write_at(content, offset as usize, &data);
                Reply::Done
            }
            Request::RemoveFile { area: Area::Target, path } => {
                match self.files.remove(&key(&path)) {
                    Some(_) => Reply::Done,
                    None => Reply::Failed,
                }
            }
            Request::RemoveFile { area: Area::Temp, path } => match self.temp.remove(&key(&path)) {
                Some(_) => Reply::Done,
                None => Reply::Failed,
            },
            Request::RemoveDir { area: Area::Target, path } => {
                let dir = key(&path);
                let under = format!("{}/", dir);
                self.dirs.retain(|d| d != &dir && !d.starts_with(&under));
                self.files.retain(|f, _| !f.starts_with(&under));
                Reply::Done
            }
            Request::RemoveDir { area: Area::Temp, path } => {
                let under = format!("{}/", key(&path));
                self.temp.retain(|f, _| !f.starts_with(&under));
                Reply::Done
            }
            Request::MoveIntoPlace { path } => {
                let content = self.temp.remove(&key(&path)).unwrap();
                assert!(!self.files.contains_key(&key(&path)));
                self.files.insert(key(&path), content);
                Reply::Done
            }
        }
    }
}

fn apply_events(
    disk: &mut Disk,
    applier: &mut ChangeApplier,
    events: &[SyncEvent],
    timestamp: i64,
) -> Result<Vec<ConflictInfo>, ApplyError> {
    let mut step = applier.apply_events(events, timestamp);
    loop {
        match step {
            BatchStep::Finished(result) => return result,
            BatchStep::Continue(batch) => {
                let reply = disk.serve(request_of(&batch.task));
                step = applier.resume_events(batch, &reply);
            }
        }
    }
}

fn apply_event(
    disk: &mut Disk,
    applier: &mut ChangeApplier,
    event: &SyncEvent,
    timestamp: i64,
) -> Result<Option<ConflictInfo>, ApplyError> {
    let mut step: ApplyStep = applier.apply_event(event, timestamp);
    loop {
        match step {
            Step::Finished(result) => return result,
            Step::Continue(task) => {
                let reply = disk.serve(request_of(&task));
                step = applier.resume(task, &reply);
            }
        }
    }
}

fn setup(strategy: ConflictStrategy) -> (Disk, ChangeApplier) {
    (Disk::new(), ChangeApplier::new(p(ROOT), strategy))
}

fn created(path: &str, content: &[u8]) -> SyncEvent {
    let (content_hash, size) = hash_data(content);
    SyncEvent::FileCreated { path: p(path), content_hash, size }
}

fn content(path: &str, offset: u64, data: &[u8]) -> SyncEvent {
    SyncEvent::FileContent { path: p(path), offset, data: data.to_vec() }
}

fn modified(path: &str, hash: u8, size: u64) -> SyncEvent {
    SyncEvent::FileModified { path: p(path), content_hash: [hash; 32], size }
}

#[test]
fn test_dir_created() {
    let (mut dir, mut applier) = setup(ConflictStrategy::LastWriteWins);
    let events = vec![SyncEvent::DirCreated { path: p("subdir") }];
    apply_events(&mut dir, &mut applier, &events, NOW).unwrap();
    assert!(dir.is_dir("subdir"));
}

#[test]
fn test_dir_deleted() {
    let (mut dir, mut applier) = setup(ConflictStrategy::LastWriteWins);
    dir.make_dir("to_delete");

    let events = vec![SyncEvent::DirDeleted { path: p("to_delete") }];
    apply_events(&mut dir, &mut applier, &events, NOW).unwrap();
    assert!(!dir.has("to_delete"));
}

#[test]
fn test_file_created() {
    let (mut dir, mut applier) = setup(ConflictStrategy::LastWriteWins);
    let events = vec![SyncEvent::FileCreated {
        path: p("new.txt"),
        content_hash: [0u8; 32],
        size: 0,
    }];
    apply_events(&mut dir, &mut applier, &events, NOW).unwrap();
    assert!(dir.has("new.txt"));
}

#[test]
fn test_file_created_skips_existing() {
    let (mut dir, mut applier) = setup(ConflictStrategy::LastWriteWins);
    dir.write("existing.txt", b"original");

    let events = vec![SyncEvent::FileCreated {
        path: p("existing.txt"),
        content_hash: [1u8; 32],
        size: 1,
    }];
    let conflicts = apply_events(&mut dir, &mut applier, &events, NOW).unwrap();
    assert!(conflicts.is_empty());
    assert_eq!(dir.read("existing.txt"), b"original");
}

#[test]
fn test_file_deleted() {
    let (mut dir, mut applier) = setup(ConflictStrategy::LastWriteWins);
    dir.write("del.txt", b"data");

    let events = vec![SyncEvent::FileDeleted { path: p("del.txt") }];
    apply_events(&mut dir, &mut applier, &events, NOW).unwrap();
    assert!(!dir.has("del.txt"));
}

#[test]
fn test_file_deleted_nonexistent() {
    let (mut dir, mut applier) = setup(ConflictStrategy::LastWriteWins);
    let events = vec![SyncEvent::FileDeleted { path: p("ghost.txt") }];
    assert!(apply_events(&mut dir, &mut applier, &events, NOW).is_ok());
}

#[test]
fn test_file_content_writes_at_offset() {
    let (mut dir, mut applier) = setup(ConflictStrategy::LastWriteWins);
    dir.write("chunked.bin", &[0u8; 100]);

    let events = vec![content("chunked.bin", 50, &[0xAB; 10])];
    apply_events(&mut dir, &mut applier, &events, NOW).unwrap();

    let data = dir.read("chunked.bin");
    assert_eq!(data.len(), 100);
    assert_eq!(&data[50..60], &[0xAB; 10]);
    assert_eq!(&data[0..50], &[0u8; 50]);
}

#[test]
fn test_file_content_creates_parent_dirs() {
    let (mut dir, mut applier) = setup(ConflictStrategy::LastWriteWins);
    let events = vec![content("deep/nested/file.txt", 0, b"hello")];
    apply_events(&mut dir, &mut applier, &events, NOW).unwrap();
    assert_eq!(dir.read("deep/nested/file.txt"), b"hello");
}

#[test]
fn test_rejects_parent_path_escape() {
    let (mut dir, mut applier) = setup(ConflictStrategy::LastWriteWins);
    let result = apply_events(
        &mut dir,
        &mut applier,
        &[content("../dirsync_escape_parent.txt", 0, b"escape")],
        NOW,
    );

    assert!(result.is_err());
    assert_eq!(dir.requests, 0);
}

#[test]
fn test_rejects_absolute_event_path() {
    let (mut dir, mut applier) = setup(ConflictStrategy::LastWriteWins);
    let result = apply_events(
        &mut dir,
        &mut applier,
        &[content("/sync/absolute.txt", 0, b"absolute")],
        NOW,
    );

    assert!(result.is_err());
    assert!(!dir.has("absolute.txt"));
    assert_eq!(dir.requests, 0);
}

#[test]
fn test_rejects_internal_temp_event_path() {
    let (mut dir, mut applier) = setup(ConflictStrategy::LastWriteWins);
    let result = apply_events(
        &mut dir,
        &mut applier,
        &[SyncEvent::FileContent {
            path: p(INTERNAL_TEMP_DIR).join(&p("payload.txt")),
            offset: 0,
            data: b"internal".to_vec(),
        }],
        NOW,
    );

    assert!(result.is_err());
}

#[test]
fn test_file_commits_only_after_complete_verified_chunks() {
    let (mut dir, mut applier) = setup(ConflictStrategy::LastWriteWins);
    let whole = b"abcdefghij";

    apply_events(
        &mut dir,
        &mut applier,
        &[created("large.bin", whole), content("large.bin", 0, &whole[..5])],
        NOW,
    )
    .unwrap();
    assert!(!dir.has("large.bin"));

    apply_events(&mut dir, &mut applier, &[content("large.bin", 5, &whole[5..])], NOW).unwrap();
    assert_eq!(dir.read("large.bin"), whole);
}

#[test]
fn test_nested_dir_created() {
    let (mut dir, mut applier) = setup(ConflictStrategy::LastWriteWins);
    let events = vec![SyncEvent::DirCreated { path: p("a/b/c") }];
    apply_events(&mut dir, &mut applier, &events, NOW).unwrap();
    assert!(dir.is_dir("a/b/c"));
}

#[test]
fn test_heartbeat_ignored() {
    let (mut dir, mut applier) = setup(ConflictStrategy::LastWriteWins);
    let events = vec![SyncEvent::Heartbeat { timestamp: 12345 }];
    assert!(apply_events(&mut dir, &mut applier, &events, NOW).is_ok());
    assert_eq!(dir.requests, 0);
}

#[test]
fn test_multiple_events_in_batch() {
    let (mut dir, mut applier) = setup(ConflictStrategy::LastWriteWins);
    let events = vec![
        SyncEvent::DirCreated { path: p("docs") },
        created("docs/readme.md", b"# Hello"),
        content("docs/readme.md", 0, b"# Hello"),
    ];
    apply_events(&mut dir, &mut applier, &events, NOW).unwrap();
    assert!(dir.is_dir("docs"));
    assert!(dir.has("docs/readme.md"));
    assert_eq!(dir.read("docs/readme.md"), b"# Hello");
}

#[test]
fn test_no_conflict_on_first_sync() {
    let (mut dir, mut applier) = setup(ConflictStrategy::LastWriteWins);
    let events = vec![SyncEvent::FileCreated {
        path: p("new.txt"),
        content_hash: [0xAA; 32],
        size: 100,
    }];
    let conflicts = apply_events(&mut dir, &mut applier, &events, NOW).unwrap();
    assert!(conflicts.is_empty());
}

fn sync_file(dir: &mut Disk, applier: &mut ChangeApplier, path: &str, data: &[u8]) {
    apply_events(dir, applier, &[created(path, data), content(path, 0, data)], NOW).unwrap();
    assert_eq!(dir.read(path), data);
}

#[test]
fn test_conflict_detected_when_both_changed() {
    let (mut dir, mut applier) = setup(ConflictStrategy::LastWriteWins);
    sync_file(&mut dir, &mut applier, "shared.txt", b"remote data");
    assert!(dir.has("shared.txt"));

    dir.write("shared.txt", b"local change");

    let conflicts =
        apply_events(&mut dir, &mut applier, &[modified("shared.txt", 0xBB, 20)], 1000).unwrap();
    assert_eq!(conflicts.len(), 1);
    assert_eq!(conflicts[0].path, p("shared.txt"));
}

#[test]
fn test_no_conflict_when_remote_unchanged() {
    let (mut dir, mut applier) = setup(ConflictStrategy::LastWriteWins);
    dir.write("file.txt", b"test content");
    let events = vec![created("file.txt", b"test content")];
    let conflicts = apply_events(&mut dir, &mut applier, &events, NOW).unwrap();
    assert!(conflicts.is_empty());
}

#[test]
fn test_lww_remote_wins_when_newer() {
    let (mut dir, mut applier) = setup(ConflictStrategy::LastWriteWins);
    sync_file(&mut dir, &mut applier, "f.txt", b"version one");
    dir.write("f.txt", b"local edit");

    let future_ts: i64 = 9_999_999_999_999;
    let conflicts =
        apply_events(&mut dir, &mut applier, &[modified("f.txt", 0xCC, 30)], future_ts).unwrap();
    assert!(conflicts.is_empty());
}

#[test]
fn test_lww_local_wins_when_newer() {
    let (mut dir, mut applier) = setup(ConflictStrategy::LastWriteWins);
    sync_file(&mut dir, &mut applier, "f.txt", b"version one");
    dir.write("f.txt", b"local edit");

    let conflicts =
        apply_events(&mut dir, &mut applier, &[modified("f.txt", 0xDD, 50)], 1000).unwrap();
    assert_eq!(conflicts.len(), 1);
    assert_eq!(dir.read("f.txt"), b"local edit");
}

#[test]
fn test_keep_both_creates_local_copy() {
    let (mut dir, mut applier) = setup(ConflictStrategy::KeepBoth);
    sync_file(&mut dir, &mut applier, "doc.txt", b"original  ");
    dir.write("doc.txt", b"my changes");

    let conflicts =
        apply_events(&mut dir, &mut applier, &[modified("doc.txt", 0xEE, 15)], NOW).unwrap();

    assert_eq!(conflicts.len(), 1);
    assert!(dir.has("doc.local.txt"));
    assert_eq!(dir.read("doc.local.txt"), b"my changes");
}

#[test]
fn test_keep_both_avoids_overwrite() {
    let (mut dir, mut applier) = setup(ConflictStrategy::KeepBoth);
    dir.write("f.txt", b"old local");
    dir.write("f.local.txt", b"already exists");
    sync_file(&mut dir, &mut applier, "f.txt", b"original");
    dir.write("f.txt", b"new local");

    apply_events(&mut dir, &mut applier, &[modified("f.txt", 0xFF, 20)], NOW).unwrap();

    assert!(dir.has("f.local.1.txt"));
    assert_eq!(dir.read("f.local.1.txt"), b"new local");
}

#[test]
fn test_full_file_lifecycle() {
    let (mut dir, mut applier) = setup(ConflictStrategy::LastWriteWins);

    apply_events(
        &mut dir,
        &mut applier,
        &[SyncEvent::DirCreated { path: p("project") }],
        NOW,
    )
    .unwrap();
    assert!(dir.is_dir("project"));

    sync_file(&mut dir, &mut applier, "project/data.txt", b"Hello, World!");
    assert_eq!(dir.read("project/data.txt"), b"Hello, World!");

    apply_events(&mut dir, &mut applier, &[content("project/data.txt", 7, b"Rust!")], NOW)
        .unwrap();
    assert_eq!(dir.read("project/data.txt"), b"Hello, Rust!!");

    apply_events(
        &mut dir,
        &mut applier,
        &[SyncEvent::FileDeleted { path: p("project/data.txt") }],
        NOW,
    )
    .unwrap();
    assert!(!dir.has("project/data.txt"));

    apply_events(
        &mut dir,
        &mut applier,
        &[SyncEvent::DirDeleted { path: p("project") }],
        NOW,
    )
    .unwrap();
    assert!(!dir.has("project"));
}

#[test]
fn test_chunked_file_through_shm() {
    let data = vec![0xABu8; 200];
    let chunks = chunk_data(&p("big.bin"), &data, 64);
    assert_eq!(chunks.len(), 4);

    let (mut out_dir, mut applier) = setup(ConflictStrategy::LastWriteWins);
    apply_events(&mut out_dir, &mut applier, &through_ring(131072, &chunks), NOW).unwrap();
    assert_eq!(out_dir.read("big.bin"), data);
}

#[test]
fn test_large_file_chunked_transfer() {
    let data = vec![0x42u8; 100_000];
    let chunks = chunk_data(&p("large.bin"), &data, 65536);
    assert_eq!(chunks.len(), 2);

    let (mut out_dir, mut applier) = setup(ConflictStrategy::LastWriteWins);
    apply_events(&mut out_dir, &mut applier, &through_ring(262144, &chunks), NOW).unwrap();
    assert_eq!(out_dir.read("large.bin"), data);
}

/// Sends content events through a ring and gives back what comes out.
fn through_ring(total_size: usize, chunks: &[SyncEvent]) -> Vec<SyncEvent> {
    let (shm, mut header) = ShmTransport::create(NameStyle::Posix, "ring", total_size);
    let mut ring = vec![0u8; header.rb_capacity as usize];
    for chunk in chunks {
        match chunk {
            SyncEvent::FileContent { path, offset, data } => {
                let payload = bincode::serialize(&(key(path), *offset, data.clone())).unwrap();
                shm.push_event(&mut header, &mut ring, 0, &payload).unwrap();
            }
            _ => panic!("Expected FileContent"),
        }
    }
    let payloads = shm.pop_events(&mut header, &ring, 1).unwrap();
    payloads
        .iter()
        .map(|payload| {
            let (path, offset, data): (String, u64, Vec<u8>) =
                bincode::deserialize(payload).unwrap();
            SyncEvent::FileContent { path: p(&path), offset, data }
        })
        .collect()
}

#[test]
fn test_initial_scan_and_apply() {
    let mut src = Disk::new();
    src.make_dir("src");
    src.write("src/main.rs", b"fn main() {}");
    src.write("Cargo.toml", b"[package]");

    let events = initial_scan(&p(ROOT), b"sync", &src.sightings(), &[]);
    assert!(events.len() >= 3);

    let (mut dst, mut applier) = setup(ConflictStrategy::LastWriteWins);
    apply_events(&mut dst, &mut applier, &src.scan_with_content(), NOW).unwrap();

    assert!(dst.is_dir("src"));
    assert_eq!(dst.read("src/main.rs"), b"fn main() {}");
    assert_eq!(dst.read("Cargo.toml"), b"[package]");
}

#[test]
fn test_hash_consistency_across_operations() {
    let (mut dir, mut applier) = setup(ConflictStrategy::LastWriteWins);
    let data = b"consistent content for hashing";
    dir.write("data.bin", data);
    let (hash1, size1) = hash_data(dir.read("data.bin"));

    apply_events(&mut dir, &mut applier, &[content("data.bin", 0, data)], NOW).unwrap();

    let (hash2, size2) = hash_data(dir.read("data.bin"));
    assert_eq!(hash1, hash2);
    assert_eq!(size1, size2);
}

#[test]
fn test_conflict_last_write_wins_local_kept() {
    let (mut dir, mut applier) = setup(ConflictStrategy::LastWriteWins);
    sync_file(&mut dir, &mut applier, "shared.txt", b"remote version");
    dir.write("shared.txt", b"local version");

    let conflicts =
        apply_events(&mut dir, &mut applier, &[modified("shared.txt", 0xBB, 20)], 1000).unwrap();

    assert_eq!(conflicts.len(), 1);
    assert_eq!(conflicts[0].path, p("shared.txt"));
    assert_eq!(conflicts[0].local_hash, hash_data(dir.read("shared.txt")).0);
    assert_eq!(conflicts[0].remote_hash, [0xBB; 32]);
    assert_eq!(dir.read("shared.txt"), b"local version");
}

#[test]
fn test_conflict_last_write_wins_remote_overwrites() {
    let (mut dir, mut applier) = setup(ConflictStrategy::LastWriteWins);
    sync_file(&mut dir, &mut applier, "shared.txt", b"remote version");
    dir.write("shared.txt", b"local version");

    let conflicts = apply_events(
        &mut dir,
        &mut applier,
        &[modified("shared.txt", 0xBB, 20)],
        9_999_999_999_999,
    )
    .unwrap();

    assert!(conflicts.is_empty());
}

#[test]
fn test_conflict_keep_both_strategy() {
    let (mut dir, mut applier) = setup(ConflictStrategy::KeepBoth);
    sync_file(&mut dir, &mut applier, "doc.txt", b"original  ");
    dir.write("doc.txt", b"my changes");

    let conflicts =
        apply_events(&mut dir, &mut applier, &[modified("doc.txt", 0xCC, 15)], NOW).unwrap();

    assert_eq!(conflicts.len(), 1);
    assert!(dir.has("doc.local.txt"));
    assert_eq!(dir.read("doc.local.txt"), b"my changes");
}

#[test]
fn test_no_conflict_same_content() {
    let (mut dir, mut applier) = setup(ConflictStrategy::LastWriteWins);
    dir.write("same.txt", b"identical content");
    let conflicts = apply_events(
        &mut dir,
        &mut applier,
        &[created("same.txt", b"identical content")],
        NOW,
    )
    .unwrap();
    assert!(conflicts.is_empty());
}

#[test]
fn test_no_conflict_on_new_file() {
    let (mut dir, mut applier) = setup(ConflictStrategy::LastWriteWins);
    let conflicts = apply_events(
        &mut dir,
        &mut applier,
        &[
            created("brand_new.txt", b"brand new content"),
            content("brand_new.txt", 0, b"brand new content"),
        ],
        NOW,
    )
    .unwrap();
    assert!(conflicts.is_empty());
    assert!(dir.has("brand_new.txt"));
}

#[test]
fn test_conflict_on_second_modify() {
    let (mut dir, mut applier) = setup(ConflictStrategy::LastWriteWins);
    sync_file(&mut dir, &mut applier, "evolving.txt", b"version one");

    let conflicts =
        apply_events(&mut dir, &mut applier, &[modified("evolving.txt", 0x22, 10)], NOW).unwrap();
    assert!(conflicts.is_empty());

    dir.write("evolving.txt", b"local edit here");

    let conflicts =
        apply_events(&mut dir, &mut applier, &[modified("evolving.txt", 0x33, 15)], 1000).unwrap();
    assert_eq!(conflicts.len(), 1);
}

#[test]
fn test_full_sync_simulation_two_dirs() {
    let mut dir_a = Disk::new();
    dir_a.write("file_a.txt", b"from A");
    dir_a.make_dir("subdir");
    dir_a.write("subdir/nested.txt", b"nested from A");

    let (mut dir_b, mut applier_b) = setup(ConflictStrategy::LastWriteWins);
    let conflicts =
        apply_events(&mut dir_b, &mut applier_b, &dir_a.scan_with_content(), NOW).unwrap();
    assert!(conflicts.is_empty());

    assert_eq!(dir_b.read("file_a.txt"), b"from A");
    assert!(dir_b.is_dir("subdir"));
    assert_eq!(dir_b.read("subdir/nested.txt"), b"nested from A");

    dir_b.write("file_a.txt", b"modified by B");
    dir_b.write("new_in_b.txt", b"new from B");

    let mut applier_a = ChangeApplier::new(p(ROOT), ConflictStrategy::LastWriteWins);
    let _conflicts =
        apply_events(&mut dir_a, &mut applier_a, &dir_b.scan_with_content(), NOW).unwrap();

    assert!(dir_a.has("new_in_b.txt"));
    assert_eq!(dir_a.read("file_a.txt"), b"modified by B");
}

#[test]
fn the_newer_side_wins_and_the_remote_one_in_a_draw() {
    for (timestamp, found) in [(MTIME as i64 - 1, 1), (MTIME as i64, 0), (MTIME as i64 + 1, 0)] {
        let (mut dir, mut applier) = setup(ConflictStrategy::LastWriteWins);
        sync_file(&mut dir, &mut applier, "f", b"one");
        dir.write("f", b"local");
        let events = [modified("f", 9, 5)];
        let conflicts = apply_events(&mut dir, &mut applier, &events, timestamp).unwrap();
        assert_eq!(conflicts.len(), found);
        assert_eq!(applier.is_pending(&p("f")), found == 0);
    }
}

#[test]
fn content_of_a_kept_local_file_is_ignored() {
    let (mut dir, mut applier) = setup(ConflictStrategy::LastWriteWins);
    sync_file(&mut dir, &mut applier, "f", b"one");
    dir.write("f", b"local");
    apply_events(&mut dir, &mut applier, &[modified("f", 9, 5)], 1000).unwrap();
    let before = dir.requests;
    apply_events(&mut dir, &mut applier, &[content("f", 0, b"12345")], 1000).unwrap();
    assert_eq!(dir.requests, before);
    assert_eq!(dir.read("f"), b"local");
    sync_file(&mut dir, &mut applier, "f2", b"other");
}

#[test]
fn content_that_does_not_match_its_announcement_is_never_placed() {
    let (mut dir, mut applier) = setup(ConflictStrategy::LastWriteWins);
    apply_events(&mut dir, &mut applier, &[created("f", b"abcd"), content("f", 0, b"abcX")], NOW)
        .unwrap();
    assert!(!dir.has("f"));
    assert!(applier.is_pending(&p("f")));
    apply_events(&mut dir, &mut applier, &[content("f", 3, b"d")], NOW).unwrap();
    assert_eq!(dir.read("f"), b"abcd");
    assert!(!applier.is_pending(&p("f")));
    assert_eq!(applier.last_synced(&p("f")), Some(state(b"abcd")));
}

#[test]
fn too_much_content_is_never_placed() {
    let (mut dir, mut applier) = setup(ConflictStrategy::LastWriteWins);
    apply_events(&mut dir, &mut applier, &[created("f", b"abcd"), content("f", 0, b"abcde")], NOW)
        .unwrap();
    assert!(!dir.has("f"));
}

#[test]
fn a_deleted_directory_ends_the_transfers_in_it() {
    let (mut dir, mut applier) = setup(ConflictStrategy::LastWriteWins);
    sync_file(&mut dir, &mut applier, "d/old", b"old");
    apply_events(&mut dir, &mut applier, &[created("d/new", b"abcd")], NOW).unwrap();
    assert!(applier.is_pending(&p("d/new")));
    apply_event(&mut dir, &mut applier, &SyncEvent::DirDeleted { path: p("d") }, NOW).unwrap();
    assert!(!applier.is_pending(&p("d/new")));
    assert_eq!(applier.last_synced(&p("d/old")), None);
    assert!(dir.temp.is_empty());
    assert!(!dir.has("d/old"));
}

#[test]
fn bad_paths_are_told_apart() {
    assert_eq!(validate_event_path(&p("")), Err(ApplyError::EmptyPath));
    assert_eq!(validate_event_path(&p("a/../b")), Err(ApplyError::UnsafePath));
    assert_eq!(validate_event_path(&p("/a")), Err(ApplyError::UnsafePath));
    assert_eq!(validate_event_path(&p("./a")), Err(ApplyError::UnsafePath));
    assert_eq!(validate_event_path(&p("a/.dirsync_tmp/b")), Err(ApplyError::InternalPath));
    assert_eq!(validate_event_path(&p("../.dirsync_tmp")), Err(ApplyError::UnsafePath));
    assert_eq!(validate_event_path(&p("a/b.c")), Ok(()));
    let drive = SyncPath { parts: vec![Component::Prefix(Prefix::Disk(b'C'))] };
    assert_eq!(validate_event_path(&drive), Err(ApplyError::UnsafePath));
}

#[test]
fn places_outside_the_directory_are_refused() {
    let (mut dir, mut applier) = setup(ConflictStrategy::LastWriteWins);
    dir.ancestor = Some(p("/elsewhere"));
    let event = SyncEvent::DirCreated { path: p("link/d") };
    assert_eq!(
        apply_event(&mut dir, &mut applier, &event, NOW),
        Err(ApplyError::EscapesRoot)
    );
    assert_eq!(
        apply_event(&mut dir, &mut applier, &created("link/f", b"x"), NOW),
        Err(ApplyError::EscapesRoot)
    );
    dir.ancestor = None;
    assert_eq!(
        apply_event(&mut dir, &mut applier, &event, NOW),
        Err(ApplyError::NoAncestor)
    );
    assert!(dir.dirs.is_empty() && dir.files.is_empty());
}

#[test]
fn a_strange_internal_directory_is_refused() {
    let (mut dir, mut applier) = setup(ConflictStrategy::LastWriteWins);
    dir.temp_root = p("/elsewhere");
    assert_eq!(
        apply_event(&mut dir, &mut applier, &created("f", b"x"), NOW),
        Err(ApplyError::TempRootEscapes)
    );
    dir.temp_is_link = true;
    assert_eq!(
        apply_event(&mut dir, &mut applier, &created("f", b"x"), NOW),
        Err(ApplyError::TempRootIsLink)
    );
    assert!(!applier.is_pending(&p("f")));
}

#[test]
fn a_failure_ends_the_batch() {
    let (mut dir, mut applier) = setup(ConflictStrategy::LastWriteWins);
    dir.failing = Some(Request::CreateDir { path: p("b") });
    let events: Vec<SyncEvent> =
        ["a", "b", "c"].iter().map(|d| SyncEvent::DirCreated { path: p(d) }).collect();
    assert_eq!(
        apply_events(&mut dir, &mut applier, &events, NOW),
        Err(ApplyError::RequestFailed)
    );
    assert!(dir.has("a"));
    assert!(!dir.has("c"));
}

#[test]
fn a_reply_has_to_answer_the_request() {
    let mut applier = ChangeApplier::new(p(ROOT), ConflictStrategy::LastWriteWins);
    match applier.apply_event(&SyncEvent::DirCreated { path: p("d") }, NOW) {
        Step::Continue(task) => {
            let step = applier.resume(task, &Reply::Size(3));
            assert_eq!(step, Step::Finished(Err(ApplyError::UnexpectedReply)));
        }
        Step::Finished(_) => panic!("Expected a request"),
    }
}

#[test]
fn keep_both_falls_back_to_the_first_name() {
    let (mut dir, mut applier) = setup(ConflictStrategy::KeepBoth);
    sync_file(&mut dir, &mut applier, "f", b"one");
    dir.write("f", b"mine");
    dir.write("f.local", b"taken");
    for i in 1..1000 {
        dir.write(&format!("f.local.{}", i), b"taken");
    }
    let conflict = apply_event(&mut dir, &mut applier, &modified("f", 7, 3), NOW).unwrap();
    assert!(conflict.is_some());
    assert_eq!(dir.read("f.local"), b"mine");
    assert_eq!(dir.read("f.local.999"), b"taken");
}

#[test]
fn the_deepest_existing_ancestor_is_found_upwards() {
    assert_eq!(deepest_existing_ancestor(&p("/a/b"), true), AncestorStep::Found);
    assert_eq!(deepest_existing_ancestor(&p("/a/b"), false), AncestorStep::Try(p("/a")));
    assert_eq!(deepest_existing_ancestor(&p("/"), false), AncestorStep::Missing);
}

#[test]
fn an_unknown_modification_time_is_the_epoch() {
    assert_eq!(local_mtime_millis(None), 0);
    assert_eq!(local_mtime_millis(Some(1_700_000_000_123)), 1_700_000_000_123);
}

#[test]
fn both_versions_are_kept_at_any_time() {
    for timestamp in [i64::MIN, 0, MTIME as i64, i64::MAX] {
        let (mut dir, mut applier) = setup(ConflictStrategy::KeepBoth);
        sync_file(&mut dir, &mut applier, "f.txt", b"one");
        dir.write("f.txt", b"local");
        let events = [created("f.txt", b"remote"), content("f.txt", 0, b"remote")];
        let conflicts = apply_events(&mut dir, &mut applier, &events, timestamp).unwrap();
        assert_eq!(conflicts.len(), 1);
        assert_eq!(dir.read("f.local.txt"), b"local");
        assert_eq!(dir.read("f.txt"), b"remote");
    }
}

#[test]
fn a_directory_that_is_absent_stays_absent() {
    let (mut dir, mut applier) = setup(ConflictStrategy::LastWriteWins);
    sync_file(&mut dir, &mut applier, "kept", b"one");
    let events = [SyncEvent::DirDeleted { path: p("gone") }];
    assert_eq!(apply_events(&mut dir, &mut applier, &events, NOW).unwrap(), vec![]);
    assert!(!dir.has("gone"));
    assert_eq!(dir.read("kept"), b"one");
}

#[test]
fn a_sent_file_arrives_in_directories_that_are_made_for_it() {
    let (mut dir, mut applier) = setup(ConflictStrategy::LastWriteWins);
    let data = b"some content".to_vec();
    let mut events = vec![created("a/b/c.txt", &data)];
    events.extend(chunk_data(&p("a/b/c.txt"), &data, 5));
    assert_eq!(apply_events(&mut dir, &mut applier, &events, NOW).unwrap(), vec![]);
    assert!(dir.is_dir("a") && dir.is_dir("a/b"));
    assert_eq!(dir.read("a/b/c.txt"), data);
}

#[test]
fn conflicts_follow_the_strategy() {
    let (local, remote) = (state(b"local"), state(b"remote"));
    let mtime = Some(MTIME);
    for strategy in [ConflictStrategy::LastWriteWins, ConflictStrategy::KeepBoth] {
        let (mut dir, mut applier) = setup(strategy);
        assert_eq!(applier.detect_conflict(&p("f"), &remote, 0, &local, mtime), None);
        sync_file(&mut dir, &mut applier, "f", b"one");
        let found = |at: i64| applier.detect_conflict(&p("f"), &remote, at, &local, mtime);
        let conflict = ConflictInfo {
            path: p("f"),
            local_hash: local.hash,
            local_size: 5,
            remote_hash: remote.hash,
            remote_size: 6,
        };
        let keeps = strategy == ConflictStrategy::KeepBoth;
        assert_eq!(found(MTIME as i64 - 1), Some(conflict));
        assert_eq!(found(MTIME as i64).is_some(), keeps);
        assert_eq!(found(MTIME as i64 + 1).is_some(), keeps);
        let same = applier.detect_conflict(&p("f"), &remote, 0, &remote, mtime);
        assert_eq!(same, None);
        let synced = applier.detect_conflict(&p("f"), &remote, 0, &state(b"one"), mtime);
        assert_eq!(synced, None);
    }
}

#[test]
fn a_kept_local_version_stays_until_it_is_announced_or_deleted() {
    let (mut dir, mut applier) = setup(ConflictStrategy::LastWriteWins);
    sync_file(&mut dir, &mut applier, "d/f", b"one");
    dir.write("d/f", b"local");
    let events = [modified("d/f", 9, 5)];
    assert_eq!(apply_events(&mut dir, &mut applier, &events, 0).unwrap().len(), 1);
    sync_file(&mut dir, &mut applier, "d/g", b"other");
    let events = [
        SyncEvent::FileDeleted { path: p("d/g") },
        SyncEvent::DirCreated { path: p("e") },
        SyncEvent::DirDeleted { path: p("e") },
        content("d/f", 0, b"zzzzz"),
    ];
    apply_events(&mut dir, &mut applier, &events, NOW).unwrap();
    assert_eq!(dir.read("d/f"), b"local");
    let events = [created("d/f", b"two"), content("d/f", 0, b"two")];
    apply_events(&mut dir, &mut applier, &events, i64::MAX).unwrap();
    assert_eq!(dir.read("d/f"), b"two");
}

#[test]
fn events_that_come_together_are_applied_in_turn() {
    let events = [
        SyncEvent::DirCreated { path: p("d") },
        created("d/a", b"one"),
        content("d/a", 0, b"one"),
        created("b", b""),
        SyncEvent::FileDeleted { path: p("d/a") },
        created("../x", b"bad"),
        created("late", b""),
    ];
    let (mut whole, mut applier) = setup(ConflictStrategy::LastWriteWins);
    let together = apply_events(&mut whole, &mut applier, &events, NOW);
    let (mut single, mut other) = setup(ConflictStrategy::LastWriteWins);
    let mut ended = None;
    for event in &events {
        if let Err(error) = apply_event(&mut single, &mut other, event, NOW) {
            ended = Some(error);
            break;
        }
    }
    assert_eq!(together.err(), ended);
    assert!(ended.is_some());
    assert_eq!((whole.files.clone(), whole.dirs.clone()), (single.files, single.dirs));
    assert_eq!(whole.temp, single.temp);
    assert!(!whole.has("late") && whole.has("b") && !whole.has("d/a"));
}
