//! What becomes of the files that the other side sends or deletes.
//!
//! The laws are stated over a model of a disk on which nothing fails.

use crate::apply;
use crate::apply::{
    ApplierView, Area, BatchStepView, BatchView, ConflictView, Reply, ReplyView,
    Request, RequestView, Step, StepView, Task, TaskView,
};
use crate::apply_laws;
use crate::event::EventView;
use crate::path::Part;
use crate::watcher::FileState;
use vstd::prelude::*;

verus! {

/// The files and directories of a synchronised directory, and the files that are
/// on their way.
#[verifier::ext_equal]
pub struct Disk {
    pub root: Seq<Part>,
    pub files: Map<Seq<Part>, Seq<u8>>,
    pub dirs: Set<Seq<Part>>,
    pub temp: Map<Seq<Part>, Seq<u8>>,
    /// When files were last changed by others than the applier, in milliseconds
    /// since the epoch.
    pub mtimes: Map<Seq<Part>, u128>,
}

/// Canonical path of the internal directory.
pub open spec fn temp_root(disk: Disk) -> Seq<Part> {
    disk.root.push(Part::Normal(crate::watcher::temp_dir_name()))
}

/// `state` is the hash and the size of `content`.
pub open spec fn describes(state: FileState, content: Seq<u8>) -> bool {
    state.hash@ == crate::hash::blake3_digest(content) && state.size == content.len()
}

/// Hash and size of a content.
pub open spec fn state_of(content: Seq<u8>) -> FileState {
    choose|state: FileState| describes(state, content)
}

/// The modification time of a file, if it is known.
pub open spec fn mtime_of(disk: Disk, path: Seq<Part>) -> Option<u128> {
    if disk.mtimes.contains_key(path) {
        Some(disk.mtimes[path])
    } else {
        None
    }
}

/// What a disk replies of the content of a file.
pub open spec fn digest_reply(files: Map<Seq<Part>, Seq<u8>>, path: Seq<Part>) -> ReplyView {
    if files.contains_key(path) {
        Reply::Digest(state_of(files[path]))
    } else {
        Reply::Failed
    }
}

/// The part of the files that does not lie at or under a directory.
pub open spec fn files_outside(files: Map<Seq<Part>, Seq<u8>>, dir: Seq<Part>) -> Map<
    Seq<Part>,
    Seq<u8>,
> {
    crate::path_map::outside(files, dir)
}

/// The directories that do not lie at or under a directory.
pub open spec fn dirs_outside(dirs: Set<Seq<Part>>, dir: Seq<Part>) -> Set<Seq<Part>> {
    Set::new(|path: Seq<Part>| dirs.contains(path) && !dir.is_prefix_of(path))
}

/// There is a file or a directory of this path.
pub open spec fn taken(disk: Disk, path: Seq<Part>) -> bool {
    disk.files.contains_key(path) || disk.dirs.contains(path)
}

/// `dir` is one of the directories above a path.
pub open spec fn is_above(dir: Seq<Part>, path: Seq<Part>) -> bool {
    0 < dir.len() < path.len() && dir == path.take(dir.len() as int)
}

/// A file stands where a directory above a path has to be.
pub open spec fn file_above(files: Map<Seq<Part>, Seq<u8>>, path: Seq<Part>) -> bool {
    exists|dir: Seq<Part>| #[trigger] files.contains_key(dir) && is_above(dir, path)
}

/// The directories with all those above a path.
pub open spec fn with_parents(dirs: Set<Seq<Part>>, path: Seq<Part>) -> Set<Seq<Part>> {
    Set::new(|dir: Seq<Part>| dirs.contains(dir) || is_above(dir, path))
}

/// How a disk on which nothing fails carries out a request. Only a directory
/// cannot be made where a file stands above it.
pub open spec fn serve(disk: Disk, request: RequestView) -> (Disk, ReplyView) {
    match request {
        Request::Locate { area: Area::Target, .. } => (disk, Reply::Located(Some(disk.root))),
        Request::Locate { area: Area::Temp, .. } => (
            disk,
            Reply::Located(Some(temp_root(disk))),
        ),
        Request::Exists { path } => (disk, Reply::Flag(taken(disk, path))),
        Request::Digest { area: Area::Target, path } => (disk, digest_reply(disk.files, path)),
        Request::Digest { area: Area::Temp, path } => (disk, digest_reply(disk.temp, path)),
        Request::Mtime { path } => (disk, Reply::Millis(mtime_of(disk, path))),
        Request::Rename { path, to } => (
            Disk { files: disk.files.remove(path).insert(to, disk.files[path]), ..disk },
            Reply::Done,
        ),
        Request::CreateParent { area: Area::Target, path } => if file_above(disk.files, path) {
            (disk, Reply::Failed)
        } else {
            (Disk { dirs: with_parents(disk.dirs, path), ..disk }, Reply::Done)
        },
        Request::CreateParent { area: Area::Temp, .. } => (disk, Reply::Done),
        Request::CreateDir { path } => if file_above(disk.files, path) {
            (disk, Reply::Failed)
        } else {
            (Disk { dirs: with_parents(disk.dirs, path).insert(path), ..disk }, Reply::Done)
        },
        Request::WriteEmpty { path } => (
            Disk { files: disk.files.insert(path, Seq::empty()), ..disk },
            Reply::Done,
        ),
        Request::IsTempRootLink => (disk, Reply::Flag(false)),
        Request::MakeTempRoot => (disk, Reply::TempRoot(temp_root(disk))),
        Request::OpenTemp { path } => (
            Disk { temp: disk.temp.insert(path, Seq::empty()), ..disk },
            Reply::Done,
        ),
        Request::WriteTemp { path, offset, data } => (
            Disk {
                temp: disk.temp.insert(
                    path,
                    crate::chunker::write_at(disk.temp[path], offset as int, data),
                ),
                ..disk
            },
            Reply::Done,
        ),
        Request::TempSize { path } => (disk, Reply::Size(disk.temp[path].len() as u64)),
        Request::FlushTemp { .. } => (disk, Reply::Done),
        Request::WriteTarget { path, offset, truncate, data } => (
            Disk {
                files: disk.files.insert(
                    path,
                    crate::chunker::write_at(
                        if truncate || !disk.files.contains_key(path) {
                            Seq::empty()
                        } else {
                            disk.files[path]
                        },
                        offset as int,
                        data,
                    ),
                ),
                ..disk
            },
            Reply::Done,
        ),
        Request::RemoveFile { area: Area::Target, path } => (
            Disk { files: disk.files.remove(path), ..disk },
            Reply::Done,
        ),
        Request::RemoveFile { area: Area::Temp, path } => (
            Disk { temp: disk.temp.remove(path), ..disk },
            Reply::Done,
        ),
        Request::RemoveDir { area: Area::Target, path } => (
            Disk {
                files: files_outside(disk.files, path),
                dirs: dirs_outside(disk.dirs, path),
                ..disk
            },
            Reply::Done,
        ),
        Request::RemoveDir { area: Area::Temp, path } => (
            Disk { temp: files_outside(disk.temp, path), ..disk },
            Reply::Done,
        ),
        Request::MoveIntoPlace { path } => (
            Disk {
                files: disk.files.insert(path, disk.temp[path]),
                temp: disk.temp.remove(path),
                ..disk
            },
            Reply::Done,
        ),
    }
}

/// An applier and its disk in the course of an event.
#[verifier::ext_equal]
pub struct Scene {
    pub state: ApplierView,
    pub disk: Disk,
    pub step: StepView,
}

/// One request is carried out and answered.
pub open spec fn served(scene: Scene) -> Scene {
    match scene.step {
        Step::Continue(task) => {
            let answer = serve(scene.disk, apply::task_request(task));
            let after = apply::next_step(scene.state, task, answer.1);
            Scene { state: after.0, disk: answer.0, step: after.1 }
        },
        Step::Finished(_) => scene,
    }
}

/// How many more replies a step takes at most.
pub open spec fn step_left(step: StepView) -> nat {
    match step {
        Step::Continue(task) => apply_laws::replies_left(task) + 1,
        Step::Finished(_) => 0,
    }
}

/// Requests are carried out and answered until the event is done.
pub open spec fn run(scene: Scene) -> Scene
    decreases step_left(scene.step),
{
    match scene.step {
        Step::Continue(task) => {
            proof {
                apply_laws::law_every_event_ends(
                    scene.state,
                    task,
                    serve(scene.disk, apply::task_request(task)).1,
                );
            }
            run(served(scene))
        },
        Step::Finished(_) => scene,
    }
}

/// An event is applied.
pub open spec fn carry_out(
    state: ApplierView,
    disk: Disk,
    event: EventView,
    timestamp: i64,
) -> Scene {
    let started = apply::start(state, event, timestamp);
    run(Scene { state: started.0, disk, step: started.1 })
}

/// An applier and its disk in the course of several events.
#[verifier::ext_equal]
pub struct BatchScene {
    pub state: ApplierView,
    pub disk: Disk,
    pub step: BatchStepView,
}

/// One request is carried out and answered.
pub open spec fn batch_served(scene: BatchScene) -> BatchScene {
    match scene.step {
        BatchStepView::Continue(batch) => {
            let answer = serve(scene.disk, apply::task_request(batch.task));
            let after = apply::next_batch(scene.state, batch, answer.1);
            BatchScene { state: after.0, disk: answer.0, step: after.1 }
        },
        BatchStepView::Finished(_) => scene,
    }
}

/// How many events are still to come.
pub open spec fn events_left(step: BatchStepView) -> nat {
    match step {
        BatchStepView::Continue(batch) => batch.rest.len(),
        BatchStepView::Finished(_) => 0,
    }
}

/// How many more replies the event that is under way takes at most.
pub open spec fn event_left(step: BatchStepView) -> nat {
    match step {
        BatchStepView::Continue(batch) => apply_laws::replies_left(batch.task) + 1,
        BatchStepView::Finished(_) => 0,
    }
}

/// Requests are carried out and answered until all events are done, or one of
/// them failed.
pub open spec fn batch_run(scene: BatchScene) -> BatchScene
    decreases events_left(scene.step), event_left(scene.step),
{
    match scene.step {
        BatchStepView::Continue(batch) => {
            proof {
                law_every_batch_ends(scene.state, scene.disk, batch);
            }
            batch_run(batch_served(scene))
        },
        BatchStepView::Finished(_) => scene,
    }
}

proof fn lemma_rest_gets_shorter(
    state: ApplierView,
    rest: Seq<EventView>,
    timestamp: i64,
    conflicts: Seq<ConflictView>,
)
    ensures
        apply::start_rest(state, rest, timestamp, conflicts).1 matches BatchStepView::Continue(
            batch,
        ) ==> batch.rest.len() < rest.len(),
    decreases rest.len(),
{
    if rest.len() > 0 {
        let after = apply::start(state, rest[0], timestamp);
        match after.1 {
            Step::Finished(Ok(conflict)) => {
                lemma_rest_gets_shorter(
                    after.0,
                    rest.skip(1),
                    timestamp,
                    apply::noted(conflicts, conflict),
                );
            },
            _ => {},
        }
    }
}

/// Several events come to an end: each reply brings the one that is under way
/// nearer, or leaves fewer to come.
pub proof fn law_every_batch_ends(state: ApplierView, disk: Disk, batch: BatchView)
    ensures
        ({
            let before = BatchStepView::Continue(batch);
            let after = batch_served(BatchScene { state, disk, step: before }).step;
            events_left(after) < events_left(before) || (events_left(after) == events_left(before)
                && event_left(after) < event_left(before))
        }),
{
    let reply = serve(disk, apply::task_request(batch.task)).1;
    apply_laws::law_every_event_ends(state, batch.task, reply);
    let after = apply::next_step(state, batch.task, reply);
    match after.1 {
        Step::Finished(Ok(conflict)) => {
            lemma_rest_gets_shorter(
                after.0,
                batch.rest,
                batch.timestamp,
                apply::noted(batch.conflicts, conflict),
            );
        },
        _ => {},
    }
}

/// Several events are applied, of which `conflicts` were found before.
pub open spec fn carry_out_all(
    state: ApplierView,
    disk: Disk,
    events: Seq<EventView>,
    timestamp: i64,
    conflicts: Seq<ConflictView>,
) -> BatchScene {
    let started = apply::start_rest(state, events, timestamp, conflicts);
    batch_run(BatchScene { state: started.0, disk, step: started.1 })
}

/// What becomes of several events once the first of them is done.
spec fn after_first(
    first: Scene,
    rest: Seq<EventView>,
    timestamp: i64,
    conflicts: Seq<ConflictView>,
) -> BatchScene {
    match first.step {
        Step::Finished(Ok(conflict)) => carry_out_all(
            first.state,
            first.disk,
            rest,
            timestamp,
            apply::noted(conflicts, conflict),
        ),
        Step::Finished(Err(error)) => BatchScene {
            state: first.state,
            disk: first.disk,
            step: BatchStepView::Finished(Err(error)),
        },
        Step::Continue(task) => BatchScene {
            state: first.state,
            disk: first.disk,
            step: BatchStepView::Continue(BatchView { task, rest, timestamp, conflicts }),
        },
    }
}

/// Every event runs to its end.
pub proof fn law_event_runs_to_its_end(scene: Scene)
    ensures
        run(scene).step is Finished,
    decreases step_left(scene.step),
{
    match scene.step {
        Step::Continue(task) => {
            let reply = serve(scene.disk, apply::task_request(task)).1;
            apply_laws::law_every_event_ends(scene.state, task, reply);
            law_event_runs_to_its_end(served(scene));
        },
        Step::Finished(_) => {},
    }
}

proof fn lemma_first_runs(
    state: ApplierView,
    disk: Disk,
    task: TaskView,
    rest: Seq<EventView>,
    timestamp: i64,
    conflicts: Seq<ConflictView>,
)
    ensures
        batch_run(
            (BatchScene {
                state,
                disk,
                step: BatchStepView::Continue(BatchView { task, rest, timestamp, conflicts }),
            }),
        ) == after_first(
            run(Scene { state, disk, step: Step::Continue(task) }),
            rest,
            timestamp,
            conflicts,
        ),
    decreases apply_laws::replies_left(task),
{
    let scene = Scene { state, disk, step: Step::Continue(task) };
    let batch = BatchView { task, rest, timestamp, conflicts };
    let reply = serve(disk, apply::task_request(task)).1;
    apply_laws::law_every_event_ends(state, task, reply);
    let next = served(scene);
    let whole = BatchScene { state, disk, step: BatchStepView::Continue(batch) };
    assert(run(scene) == run(next));
    assert(batch_run(whole) == batch_run(batch_served(whole)));
    match next.step {
        Step::Continue(after) => {
            lemma_first_runs(next.state, next.disk, after, rest, timestamp, conflicts);
            let further = BatchView { task: after, rest, timestamp, conflicts };
            assert(batch_served(whole) == (BatchScene {
                state: next.state,
                disk: next.disk,
                step: BatchStepView::Continue(further),
            }));
            assert(next == (Scene {
                state: next.state,
                disk: next.disk,
                step: Step::Continue(after),
            }));
            assert(batch_run(whole) == after_first(run(next), rest, timestamp, conflicts));
        },
        Step::Finished(Ok(conflict)) => {
            let started = apply::start_rest(
                next.state,
                rest,
                timestamp,
                apply::noted(conflicts, conflict),
            );
            assert(batch_served(whole) == (BatchScene {
                state: started.0,
                disk: next.disk,
                step: started.1,
            }));
            assert(run(next) == next);
            assert(batch_run(whole) == after_first(run(next), rest, timestamp, conflicts));
        },
        Step::Finished(Err(error)) => {
            assert(batch_served(whole) == (BatchScene {
                state: next.state,
                disk: next.disk,
                step: BatchStepView::Finished(Err(error)),
            }));
            assert(run(next) == next);
            assert(batch_run(whole) == after_first(run(next), rest, timestamp, conflicts));
        },
    }
}

/// Several events are the first of them and then the rest.
proof fn lemma_carry_first(
    state: ApplierView,
    disk: Disk,
    events: Seq<EventView>,
    timestamp: i64,
    conflicts: Seq<ConflictView>,
)
    requires
        events.len() > 0,
    ensures
        carry_out_all(state, disk, events, timestamp, conflicts) == after_first(
            carry_out(state, disk, events[0], timestamp),
            events.skip(1),
            timestamp,
            conflicts,
        ),
{
    let started = apply::start(state, events[0], timestamp);
    match started.1 {
        Step::Continue(task) => {
            lemma_first_runs(started.0, disk, task, events.skip(1), timestamp, conflicts);
        },
        Step::Finished(_) => {},
    }
}

/// Several events are carried out one by one, each on its own, until one fails.
pub open spec fn one_by_one(
    state: ApplierView,
    disk: Disk,
    events: Seq<EventView>,
    timestamp: i64,
    conflicts: Seq<ConflictView>,
) -> BatchScene
    decreases events.len(),
{
    if events.len() == 0 {
        BatchScene { state, disk, step: BatchStepView::Finished(Ok(conflicts)) }
    } else {
        let first = carry_out(state, disk, events[0], timestamp);
        match first.step {
            Step::Finished(Ok(conflict)) => one_by_one(
                first.state,
                first.disk,
                events.skip(1),
                timestamp,
                apply::noted(conflicts, conflict),
            ),
            Step::Finished(Err(error)) => BatchScene {
                state: first.state,
                disk: first.disk,
                step: BatchStepView::Finished(Err(error)),
            },
            Step::Continue(task) => BatchScene {
                state: first.state,
                disk: first.disk,
                step: BatchStepView::Continue(
                    BatchView { task, rest: events.skip(1), timestamp, conflicts },
                ),
            },
        }
    }
}

/// Several events that come together are applied as if they came one after the
/// other: they lead to the same state, the same disk and the same conflicts, and
/// the first that fails ends them.
pub proof fn law_events_are_applied_in_turn(
    state: ApplierView,
    disk: Disk,
    events: Seq<EventView>,
    timestamp: i64,
    conflicts: Seq<ConflictView>,
)
    ensures
        carry_out_all(state, disk, events, timestamp, conflicts) == one_by_one(
            state,
            disk,
            events,
            timestamp,
            conflicts,
        ),
        carry_out_all(state, disk, events, timestamp, conflicts).step is Finished,
    decreases events.len(),
{
    if events.len() > 0 {
        let first = carry_out(state, disk, events[0], timestamp);
        lemma_carry_first(state, disk, events, timestamp, conflicts);
        let started = apply::start(state, events[0], timestamp);
        law_event_runs_to_its_end(Scene { state: started.0, disk, step: started.1 });
        match first.step {
            Step::Finished(Ok(conflict)) => {
                law_events_are_applied_in_turn(
                    first.state,
                    first.disk,
                    events.skip(1),
                    timestamp,
                    apply::noted(conflicts, conflict),
                );
            },
            _ => {},
        }
    }
}

/// A local file is there that changed since both sides agreed on it, and not to
/// what is announced.
pub open spec fn differs(
    state: ApplierView,
    disk: Disk,
    path: Seq<Part>,
    remote: FileState,
) -> bool {
    &&& disk.files.contains_key(path)
    &&& state_of(disk.files[path]).hash != remote.hash
    &&& state.synced.contains_key(path)
    &&& state_of(disk.files[path]).hash != state.synced[path].hash
}

/// The announced version takes the place of the local one: there is no conflict,
/// or it is resolved by the time of the last write and the local one is not the
/// newer.
pub open spec fn accepts(
    state: ApplierView,
    disk: Disk,
    path: Seq<Part>,
    remote: FileState,
    timestamp: i64,
) -> bool {
    !differs(state, disk, path, remote) || (state.strategy is LastWriteWins && timestamp
        >= apply::mtime_millis(mtime_of(disk, path)))
}

proof fn lemma_digest(files: Map<Seq<Part>, Seq<u8>>, path: Seq<Part>, state: FileState)
    requires
        files.contains_key(path),
        describes(state, files[path]),
    ensures
        digest_reply(files, path) == ReplyView::Digest(state),
{
    let chosen = state_of(files[path]);
    assert(describes(chosen, files[path]));
    assert(chosen.hash =~= state.hash);
}

/// The announcement of a file.
pub open spec fn announcement(path: Seq<Part>, modified: bool, remote: FileState) -> EventView {
    if modified {
        EventView::FileModified { path, content_hash: remote.hash, size: remote.size }
    } else {
        EventView::FileCreated { path, content_hash: remote.hash, size: remote.size }
    }
}

/// The scene in which a transfer starts to be prepared.
spec fn preparing(
    state: ApplierView,
    disk: Disk,
    task: apply::UpsertView,
) -> Scene {
    let prepared = apply::prepare(state, task);
    Scene { state: prepared.0, disk, step: prepared.1 }
}

/// The task of an announced file that has just started.
spec fn announced_task(
    path: Seq<Part>,
    modified: bool,
    remote: FileState,
    timestamp: i64,
) -> apply::UpsertView {
    apply::Upsert {
        path,
        modified,
        remote,
        timestamp,
        conflict: None,
        stage: apply::UpsertStage::ConflictLocate,
    }
}

/// A scene in which an announced file is on its way.
spec fn upsert_scene(
    state: ApplierView,
    disk: Disk,
    task: apply::UpsertView,
    stage: apply::UpsertStage<Seq<Part>>,
) -> Scene {
    Scene { state, disk, step: apply::upsert_at(task, stage) }
}

/// The search for a conflict comes to the hash of the local file, if there is
/// one, and else to the transfer.
proof fn lemma_looked_up(
    state: ApplierView,
    disk: Disk,
    path: Seq<Part>,
    modified: bool,
    remote: FileState,
    timestamp: i64,
)
    requires
        disk.root == state.root,
        !disk.dirs.contains(path),
        apply::is_plain(path),
    ensures
        ({
            let task = announced_task(path, modified, remote, timestamp);
            carry_out(state, disk, announcement(path, modified, remote), timestamp) == run(
                if disk.files.contains_key(path) {
                    upsert_scene(state, disk, task, apply::UpsertStage::ConflictDigest)
                } else {
                    preparing(state, disk, task)
                },
            )
        }),
{
    apply::law_accepted_paths_are_plain(path);
    let task = announced_task(path, modified, remote, timestamp);
    let started = apply::start(state, announcement(path, modified, remote), timestamp);
    let scene0 = Scene { state: started.0, disk, step: started.1 };
    let scene1 = upsert_scene(state, disk, task, apply::UpsertStage::ConflictExists);
    assert(served(scene0) == scene1);
    assert(run(scene0) == run(scene1));
    assert(run(scene1) == run(served(scene1)));
}

proof fn lemma_announced(
    state: ApplierView,
    disk: Disk,
    path: Seq<Part>,
    modified: bool,
    remote: FileState,
    timestamp: i64,
)
    requires
        disk.root == state.root,
        !disk.dirs.contains(path),
        apply::is_plain(path),
        accepts(state, disk, path, remote, timestamp),
    ensures
        carry_out(state, disk, announcement(path, modified, remote), timestamp) == run(
            preparing(state, disk, announced_task(path, modified, remote, timestamp)),
        ),
{
    let task = announced_task(path, modified, remote, timestamp);
    lemma_looked_up(state, disk, path, modified, remote, timestamp);
    if disk.files.contains_key(path) {
        let scene = upsert_scene(state, disk, task, apply::UpsertStage::ConflictDigest);
        let after = served(scene);
        assert(run(scene) == run(after));
        if differs(state, disk, path, remote) {
            let local = state_of(disk.files[path]);
            assert(after == upsert_scene(
                state,
                disk,
                task,
                apply::UpsertStage::ConflictMtime { local },
            ));
            assert(run(after) == run(served(after)));
        }
    }
}

proof fn lemma_prepared(state: ApplierView, disk: Disk, task: apply::UpsertView)
    requires
        disk.root == state.root,
        !file_above(disk.files, task.path),
        task.remote.size > 0,
    ensures
        run(preparing(state, disk, task)) == (Scene {
            state: apply::with_pending(
                apply::without_transfer(state, task.path),
                task.path,
                task.remote,
            ),
            disk: (Disk {
                temp: disk.temp.insert(task.path, Seq::empty()),
                dirs: with_parents(disk.dirs, task.path),
                ..disk
            }),
            step: Step::Finished(Ok(task.conflict)),
        }),
{
    let scene0 = preparing(state, disk, task);
    let scene1 = served(scene0);
    let scene2 = served(scene1);
    let scene3 = served(scene2);
    let scene4 = served(scene3);
    let scene5 = served(scene4);
    let scene6 = served(scene5);
    let scene7 = served(scene6);
    assert(disk.root.is_prefix_of(temp_root(disk)));
    reveal_with_fuel(run, 8);
}

proof fn lemma_prepared_empty(state: ApplierView, disk: Disk, task: apply::UpsertView)
    requires
        disk.root == state.root,
        !file_above(disk.files, task.path),
        describes(task.remote, Seq::empty()),
    ensures
        run(preparing(state, disk, task)) == (Scene {
            state: apply::with_synced(
                apply::without_transfer(state, task.path),
                task.path,
                task.remote,
            ),
            disk: (Disk {
                files: disk.files.insert(task.path, Seq::empty()),
                dirs: with_parents(disk.dirs, task.path),
                ..disk
            }),
            step: Step::Finished(Ok(task.conflict)),
        }),
{
    let scene0 = preparing(state, disk, task);
    let scene1 = served(scene0);
    let scene2 = served(scene1);
    let scene3 = served(scene2);
    let scene4 = served(scene3);
    let files = disk.files.insert(task.path, Seq::empty());
    lemma_digest(files, task.path, task.remote);
    reveal_with_fuel(run, 5);
}

/// A file does not stand above itself.
proof fn lemma_file_above(
    files: Map<Seq<Part>, Seq<u8>>,
    path: Seq<Part>,
    at: Seq<Part>,
    data: Seq<u8>,
)
    requires
        !file_above(files, path),
        at.len() >= path.len(),
    ensures
        !file_above(files.insert(at, data), path),
{
    let after = files.insert(at, data);
    assert forall|dir: Seq<Part>| #[trigger] after.contains_key(dir) implies !is_above(
        dir,
        path,
    ) by {
        if dir != at {
            assert(files.contains_key(dir));
        }
    }
}

proof fn lemma_parents_once(dirs: Set<Seq<Part>>, path: Seq<Part>)
    ensures
        with_parents(with_parents(dirs, path), path) == with_parents(dirs, path),
        with_parents(dirs, path).contains(path) == dirs.contains(path),
{
    assert(with_parents(with_parents(dirs, path), path) =~= with_parents(dirs, path));
}

proof fn lemma_direct_empty(
    state: ApplierView,
    disk: Disk,
    path: Seq<Part>,
    remote: FileState,
    timestamp: i64,
)
    requires
        disk.root == state.root,
        !file_above(disk.files, path),
        apply::is_plain(path),
        !state.pending.contains_key(path),
        !state.blocked.contains(path),
        describes(remote, Seq::empty()),
    ensures
        carry_out(
            state,
            disk,
            (EventView::FileContent { path, offset: 0, data: Seq::empty() }),
            timestamp,
        ) == (Scene {
            state: apply::with_synced(state, path, remote),
            disk: (Disk {
                files: disk.files.insert(path, Seq::empty()),
                dirs: with_parents(disk.dirs, path),
                ..disk
            }),
            step: Step::Finished(Ok(None)),
        }),
{
    apply::law_accepted_paths_are_plain(path);
    let event = EventView::FileContent { path, offset: 0, data: Seq::empty() };
    let started = apply::start(state, event, timestamp);
    let scene0 = Scene { state: started.0, disk, step: started.1 };
    let scene1 = served(scene0);
    let scene2 = served(scene1);
    let scene3 = served(scene2);
    let scene4 = served(scene3);
    assert(crate::chunker::write_at(Seq::empty(), 0, Seq::empty()) =~= Seq::empty());
    let files = disk.files.insert(path, Seq::empty());
    lemma_digest(files, path, remote);
    reveal_with_fuel(run, 5);
}

/// A scene in which a piece of content is on its way.
spec fn content_scene(state: ApplierView, disk: Disk, task: apply::ContentView) -> Scene {
    Scene { state, disk, step: Step::Continue(Task::Content(task)) }
}

/// The disk once the file of a transfer is in its place.
spec fn placed(disk: Disk, path: Seq<Part>, data: Seq<u8>) -> Disk {
    Disk {
        files: disk.files.insert(path, data),
        dirs: with_parents(disk.dirs, path),
        temp: disk.temp.remove(path),
        ..disk
    }
}

/// The applier once both sides agree on a file that was on its way.
spec fn received(state: ApplierView, path: Seq<Part>, remote: FileState) -> ApplierView {
    apply::with_synced(
        ApplierView { pending: state.pending.remove(path), ..state },
        path,
        remote,
    )
}

proof fn lemma_commit(
    state: ApplierView,
    disk: Disk,
    task: apply::ContentView,
    remote: FileState,
    data: Seq<u8>,
)
    requires
        disk.root == state.root,
        !disk.dirs.contains(task.path),
        !file_above(disk.files, task.path),
        task.stage == (apply::ContentStage::Flush { expected: remote, size: remote.size }),
        describes(remote, data),
        disk.temp.contains_key(task.path),
        disk.temp[task.path] == data,
    ensures
        run(content_scene(state, disk, task)) == (Scene {
            state: received(state, task.path, remote),
            disk: placed(disk, task.path, data),
            step: Step::Finished(Ok(None)),
        }),
{
    let path = task.path;
    lemma_digest(disk.temp, path, remote);
    let task1 = apply::Content { stage: apply::ContentStage::Digest { expected: remote }, ..task };
    let task2 = apply::Content {
        stage: apply::ContentStage::CommitLocate { expected: remote },
        ..task
    };
    let task3 = apply::Content {
        stage: apply::ContentStage::CommitParent { expected: remote },
        ..task
    };
    let task4 = apply::Content {
        stage: apply::ContentStage::CommitExists { expected: remote },
        ..task
    };
    let task5 = apply::Content {
        stage: apply::ContentStage::CommitMove { expected: remote },
        ..task
    };
    let state4 = ApplierView { pending: state.pending.remove(path), ..state };
    let disk4 = Disk { dirs: with_parents(disk.dirs, path), ..disk };
    lemma_parents_once(disk.dirs, path);
    assert(served(content_scene(state, disk, task)) == content_scene(state, disk, task1));
    assert(served(content_scene(state, disk, task1)) == content_scene(state, disk, task2));
    assert(served(content_scene(state, disk, task2)) == content_scene(state, disk, task3));
    assert(served(content_scene(state, disk, task3)) == content_scene(state4, disk4, task4));
    assert(run(content_scene(state, disk, task)) == run(content_scene(state4, disk4, task4))) by {
        reveal_with_fuel(run, 5);
    }
    if disk.files.contains_key(path) {
        let bare = Disk { files: disk.files.remove(path), ..disk4 };
        let scene6 = served(served(content_scene(state4, disk4, task4)));
        assert(scene6 == content_scene(state4, bare, task5));
        assert(bare.files.insert(path, data) =~= disk.files.insert(path, data));
        let scene7 = served(scene6);
        assert(scene7.step is Finished);
        reveal_with_fuel(run, 4);
    } else {
        assert(served(content_scene(state4, disk4, task4)) == content_scene(
            state4,
            disk4,
            task5,
        ));
        let scene6 = served(content_scene(state4, disk4, task5));
        assert(scene6.step is Finished);
        reveal_with_fuel(run, 3);
    }
}

proof fn lemma_chunk(
    state: ApplierView,
    disk: Disk,
    path: Seq<Part>,
    remote: FileState,
    data: Seq<u8>,
    from: nat,
    to: nat,
    timestamp: i64,
)
    requires
        disk.root == state.root,
        !disk.dirs.contains(path),
        !file_above(disk.files, path),
        state.pending.contains_key(path),
        state.pending[path] == remote,
        !state.blocked.contains(path),
        describes(remote, data),
        disk.temp.contains_key(path),
        disk.temp[path] == data.take(from as int),
        from < to <= data.len(),
    ensures
        carry_out(
            state,
            disk,
            (EventView::FileContent {
                path,
                offset: from as u64,
                data: data.subrange(from as int, to as int),
            }),
            timestamp,
        ) == (if to < data.len() {
            Scene {
                state,
                disk: (Disk { temp: disk.temp.insert(path, data.take(to as int)), ..disk }),
                step: Step::Finished(Ok(None)),
            }
        } else {
            Scene {
                state: received(state, path, remote),
                disk: placed(disk, path, data),
                step: Step::Finished(Ok(None)),
            }
        }),
{
    let piece = data.subrange(from as int, to as int);
    let event = EventView::FileContent { path, offset: from as u64, data: piece };
    let started = apply::start(state, event, timestamp);
    let scene0 = Scene { state: started.0, disk, step: started.1 };
    let scene1 = served(scene0);
    let scene2 = served(scene1);
    let grown = crate::chunker::write_at(data.take(from as int), from as int, piece);
    assert(grown =~= data.take(to as int));
    assert(run(scene0) == run(scene1));
    assert(run(scene1) == run(scene2));
    if to == data.len() {
        assert(data.take(to as int) =~= data);
        let after = Disk { temp: disk.temp.insert(path, data), ..disk };
        let task = apply::Content {
            path,
            offset: from as u64,
            data: piece,
            stage: apply::ContentStage::Flush { expected: remote, size: remote.size },
        };
        assert(scene2 == content_scene(state, after, task));
        lemma_commit(state, after, task, remote, data);
        assert(after.temp.remove(path) =~= disk.temp.remove(path));
    }
}

proof fn lemma_chunks(
    state: ApplierView,
    disk: Disk,
    path: Seq<Part>,
    remote: FileState,
    data: Seq<u8>,
    chunk_size: nat,
    from: nat,
    timestamp: i64,
    conflicts: Seq<ConflictView>,
)
    requires
        disk.root == state.root,
        !disk.dirs.contains(path),
        !file_above(disk.files, path),
        state.pending.contains_key(path),
        state.pending[path] == remote,
        !state.blocked.contains(path),
        describes(remote, data),
        disk.temp.contains_key(path),
        disk.temp[path] == data.take(from as int),
        from < data.len(),
        chunk_size > 0,
    ensures
        carry_out_all(
            state,
            disk,
            crate::chunker::chunks_from(path, data, chunk_size, from),
            timestamp,
            conflicts,
        ) == (BatchScene {
            state: received(state, path, remote),
            disk: placed(disk, path, data),
            step: BatchStepView::Finished(Ok(conflicts)),
        }),
    decreases data.len() - from,
{
    let events = crate::chunker::chunks_from(path, data, chunk_size, from);
    let to = if from + chunk_size < data.len() {
        from + chunk_size
    } else {
        data.len()
    };
    let rest = crate::chunker::chunks_from(path, data, chunk_size, to);
    lemma_chunk(state, disk, path, remote, data, from, to, timestamp);
    let event = EventView::FileContent {
        path,
        offset: from as u64,
        data: data.subrange(from as int, to as int),
    };
    assert(events =~= seq![event] + rest);
    assert(events.skip(1) =~= rest);
    lemma_carry_first(state, disk, events, timestamp, conflicts);
    if to < data.len() {
        let after = Disk { temp: disk.temp.insert(path, data.take(to as int)), ..disk };
        lemma_chunks(state, after, path, remote, data, chunk_size, to, timestamp, conflicts);
        assert(after.temp.remove(path) =~= disk.temp.remove(path));
    } else {
        assert(rest =~= Seq::empty());
    }
}

/// What was announced and is being prepared arrives with its content.
proof fn lemma_transferred(
    state: ApplierView,
    disk: Disk,
    task: apply::UpsertView,
    data: Seq<u8>,
    chunk_size: nat,
    conflicts: Seq<ConflictView>,
)
    requires
        disk.root == state.root,
        !disk.dirs.contains(task.path),
        !file_above(disk.files, task.path),
        apply::is_plain(task.path),
        describes(task.remote, data),
        chunk_size > 0,
    ensures
        ({
            let scene = run(preparing(state, disk, task));
            let after = carry_out_all(
                scene.state,
                scene.disk,
                crate::chunker::content_events(task.path, data, chunk_size),
                task.timestamp,
                conflicts,
            );
            &&& scene.step == StepView::Finished(Ok(task.conflict))
            &&& after.step == BatchStepView::Finished(Ok(conflicts))
            &&& after.state == apply::with_synced(
                apply::without_transfer(state, task.path),
                task.path,
                task.remote,
            )
            &&& after.disk.files == disk.files.insert(task.path, data)
            &&& after.disk.dirs == with_parents(disk.dirs, task.path)
            &&& after.disk.temp.remove(task.path) == disk.temp.remove(task.path)
            &&& after.disk.root == disk.root
            &&& after.disk.mtimes == disk.mtimes
        }),
{
    let path = task.path;
    let remote = task.remote;
    let timestamp = task.timestamp;
    let sent = crate::chunker::content_events(path, data, chunk_size);
    let state1 = apply::without_transfer(state, path);
    let dirs = with_parents(disk.dirs, path);
    lemma_parents_once(disk.dirs, path);
    if data.len() == 0 {
        assert(data =~= Seq::empty());
        lemma_prepared_empty(state, disk, task);
        let state2 = apply::with_synced(state1, path, remote);
        let disk2 = Disk { files: disk.files.insert(path, Seq::empty()), dirs, ..disk };
        lemma_file_above(disk.files, path, path, Seq::empty());
        lemma_direct_empty(state2, disk2, path, remote, timestamp);
        assert(sent.skip(1) =~= Seq::empty());
        assert(state2.synced.insert(path, remote) =~= state2.synced);
        assert(disk2.files.insert(path, Seq::empty()) =~= disk2.files);
        lemma_carry_first(state2, disk2, sent, timestamp, conflicts);
    } else {
        lemma_prepared(state, disk, task);
        let state2 = apply::with_pending(state1, path, remote);
        let disk2 = Disk { temp: disk.temp.insert(path, Seq::empty()), dirs, ..disk };
        assert(data.take(0) =~= Seq::empty());
        lemma_chunks(state2, disk2, path, remote, data, chunk_size, 0, timestamp, conflicts);
        assert(state2.pending.remove(path) =~= state1.pending);
        assert(disk2.temp.remove(path).remove(path) =~= disk.temp.remove(path));
    }
}

/// The announcement of a file and its content in pieces.
pub open spec fn sending(
    path: Seq<Part>,
    modified: bool,
    remote: FileState,
    data: Seq<u8>,
    chunk_size: nat,
) -> Seq<EventView> {
    seq![announcement(path, modified, remote)] + crate::chunker::content_events(
        path,
        data,
        chunk_size,
    )
}

/// A file that the other side announces and sends in pieces arrives where it is
/// accepted: all events succeed without a conflict, the file then holds the data,
/// the directories above it are there, no other file or directory has changed, no
/// transfer of it is under way, and both sides agree on it.
pub proof fn law_sent_file_arrives(
    state: ApplierView,
    disk: Disk,
    path: Seq<Part>,
    modified: bool,
    remote: FileState,
    data: Seq<u8>,
    chunk_size: nat,
    timestamp: i64,
)
    requires
        disk.root == state.root,
        !disk.dirs.contains(path),
        !file_above(disk.files, path),
        apply::is_plain(path),
        describes(remote, data),
        accepts(state, disk, path, remote, timestamp),
        chunk_size > 0,
    ensures
        ({
            let after = carry_out_all(
                state,
                disk,
                sending(path, modified, remote, data, chunk_size),
                timestamp,
                Seq::empty(),
            );
            &&& after.step == BatchStepView::Finished(Ok(Seq::empty()))
            &&& after.state == apply::with_synced(
                apply::without_transfer(state, path),
                path,
                remote,
            )
            &&& after.disk.files == disk.files.insert(path, data)
            &&& after.disk.dirs == with_parents(disk.dirs, path)
            &&& after.disk.root == disk.root
            &&& after.disk.temp.remove(path) == disk.temp.remove(path)
        }),
{
    let events = sending(path, modified, remote, data, chunk_size);
    assert(events.skip(1) =~= crate::chunker::content_events(path, data, chunk_size));
    lemma_announced(state, disk, path, modified, remote, timestamp);
    let task = announced_task(path, modified, remote, timestamp);
    lemma_transferred(state, disk, task, data, chunk_size, Seq::empty());
    lemma_carry_first(state, disk, events, timestamp, Seq::empty());
}

proof fn lemma_blocked_content(
    state: ApplierView,
    disk: Disk,
    path: Seq<Part>,
    data: Seq<u8>,
    chunk_size: nat,
    from: nat,
    timestamp: i64,
    conflicts: Seq<ConflictView>,
)
    requires
        state.blocked.contains(path),
    ensures
        carry_out_all(
            state,
            disk,
            crate::chunker::chunks_from(path, data, chunk_size, from),
            timestamp,
            conflicts,
        ) == (BatchScene { state, disk, step: BatchStepView::Finished(Ok(conflicts)) }),
    decreases data.len() - from,
{
    let events = crate::chunker::chunks_from(path, data, chunk_size, from);
    if chunk_size > 0 && from < data.len() {
        let to = if from + chunk_size < data.len() {
            from + chunk_size
        } else {
            data.len()
        };
        assert(events.skip(1) =~= crate::chunker::chunks_from(path, data, chunk_size, to));
        lemma_carry_first(state, disk, events, timestamp, conflicts);
        lemma_blocked_content(state, disk, path, data, chunk_size, to, timestamp, conflicts);
    }
}

/// The report of a conflict between a local file and an announced one.
pub open spec fn report(disk: Disk, path: Seq<Part>, remote: FileState) -> ConflictView {
    ConflictView {
        path,
        local_hash: state_of(disk.files[path]).hash,
        local_size: state_of(disk.files[path]).size,
        remote_hash: remote.hash,
        remote_size: remote.size,
    }
}

/// Under last-write-wins a local file that both sides changed, and that is newer
/// than the announcement, stays as it is: nothing on the disk changes, whatever
/// content is sent, and the conflict is reported.
pub proof fn law_newer_local_file_survives(
    state: ApplierView,
    disk: Disk,
    path: Seq<Part>,
    modified: bool,
    remote: FileState,
    data: Seq<u8>,
    chunk_size: nat,
    timestamp: i64,
)
    requires
        disk.root == state.root,
        !disk.dirs.contains(path),
        apply::is_plain(path),
        state.strategy is LastWriteWins,
        differs(state, disk, path, remote),
        timestamp < apply::mtime_millis(mtime_of(disk, path)),
    ensures
        ({
            let after = carry_out_all(
                state,
                disk,
                sending(path, modified, remote, data, chunk_size),
                timestamp,
                Seq::empty(),
            );
            &&& after.step == BatchStepView::Finished(Ok(seq![report(disk, path, remote)]))
            &&& after.disk == disk
            &&& after.state.synced == state.synced
        }),
{
    let kept = lemma_kept(state, disk, path, modified, remote, timestamp);
    let events = sending(path, modified, remote, data, chunk_size);
    let sent = crate::chunker::content_events(path, data, chunk_size);
    assert(events.skip(1) =~= sent);
    let found = seq![report(disk, path, remote)];
    assert(Seq::empty().push(report(disk, path, remote)) =~= found);
    lemma_carry_first(state, disk, events, timestamp, Seq::empty());
    lemma_blocked_file(kept, disk, path, data, chunk_size, timestamp, found);
}

proof fn lemma_kept(
    state: ApplierView,
    disk: Disk,
    path: Seq<Part>,
    modified: bool,
    remote: FileState,
    timestamp: i64,
) -> (kept: ApplierView)
    requires
        disk.root == state.root,
        !disk.dirs.contains(path),
        apply::is_plain(path),
        state.strategy is LastWriteWins,
        differs(state, disk, path, remote),
        timestamp < apply::mtime_millis(mtime_of(disk, path)),
    ensures
        kept.blocked.contains(path),
        kept.synced == state.synced,
        carry_out(state, disk, announcement(path, modified, remote), timestamp) == (Scene {
            state: kept,
            disk,
            step: Step::Finished(Ok(Some(report(disk, path, remote)))),
        }),
{
    let task = announced_task(path, modified, remote, timestamp);
    let local = state_of(disk.files[path]);
    lemma_looked_up(state, disk, path, modified, remote, timestamp);
    let scene = upsert_scene(state, disk, task, apply::UpsertStage::ConflictDigest);
    let after = upsert_scene(state, disk, task, apply::UpsertStage::ConflictMtime { local });
    assert(served(scene) == after);
    assert(run(scene) == run(after));
    assert(run(after) == run(served(after)));
    served(after).state
}

proof fn lemma_blocked_file(
    state: ApplierView,
    disk: Disk,
    path: Seq<Part>,
    data: Seq<u8>,
    chunk_size: nat,
    timestamp: i64,
    conflicts: Seq<ConflictView>,
)
    requires
        state.blocked.contains(path),
    ensures
        carry_out_all(
            state,
            disk,
            crate::chunker::content_events(path, data, chunk_size),
            timestamp,
            conflicts,
        ) == (BatchScene { state, disk, step: BatchStepView::Finished(Ok(conflicts)) }),
{
    let sent = crate::chunker::content_events(path, data, chunk_size);
    if data.len() == 0 {
        assert(sent.skip(1) =~= Seq::empty());
        lemma_carry_first(state, disk, sent, timestamp, conflicts);
    } else {
        lemma_blocked_content(state, disk, path, data, chunk_size, 0, timestamp, conflicts);
    }
}

/// The first candidate name for the kept copy of a file that is free is that of
/// the given turn.
pub open spec fn first_free(disk: Disk, path: Seq<Part>, turn: u32) -> bool {
    &&& turn < crate::names::MAX_COPIES
    &&& !taken(disk, apply::kept_copy(path, turn))
    &&& forall|earlier: u32|
        earlier < turn ==> taken(disk, #[trigger] apply::kept_copy(path, earlier))
}

proof fn lemma_probed(
    state: ApplierView,
    disk: Disk,
    task: apply::UpsertView,
    from: u32,
    turn: u32,
)
    requires
        first_free(disk, task.path, turn),
        from <= turn,
    ensures
        run(
            upsert_scene(state, disk, task, (apply::UpsertStage::AsideProbe { turn: from })),
        ) == run(upsert_scene(state, disk, task, (apply::UpsertStage::AsideRename { turn }))),
    decreases turn - from,
{
    let scene = upsert_scene(state, disk, task, apply::UpsertStage::AsideProbe { turn: from });
    assert(run(scene) == run(served(scene)));
    if from == turn {
        assert(served(scene) == upsert_scene(
            state,
            disk,
            task,
            apply::UpsertStage::AsideRename { turn },
        ));
    } else {
        let next = (from + 1) as u32;
        assert(taken(disk, apply::kept_copy(task.path, from)));
        assert(served(scene) == upsert_scene(
            state,
            disk,
            task,
            apply::UpsertStage::AsideProbe { turn: next },
        ));
        lemma_probed(state, disk, task, next, turn);
    }
}

/// Under keep-both a local file that both sides changed is kept under the first
/// free name beside it, the remote version takes its place, and the conflict is
/// reported. No other file or directory changes.
pub proof fn law_keep_both_keeps_both(
    state: ApplierView,
    disk: Disk,
    path: Seq<Part>,
    modified: bool,
    remote: FileState,
    data: Seq<u8>,
    chunk_size: nat,
    timestamp: i64,
    turn: u32,
)
    requires
        disk.root == state.root,
        !disk.dirs.contains(path),
        !file_above(disk.files, path),
        apply::is_plain(path),
        describes(remote, data),
        state.strategy is KeepBoth,
        differs(state, disk, path, remote),
        first_free(disk, path, turn),
        chunk_size > 0,
    ensures
        ({
            let after = carry_out_all(
                state,
                disk,
                sending(path, modified, remote, data, chunk_size),
                timestamp,
                Seq::empty(),
            );
            &&& after.step == BatchStepView::Finished(Ok(seq![report(disk, path, remote)]))
            &&& after.disk.files == disk.files.insert(
                apply::kept_copy(path, turn),
                disk.files[path],
            ).insert(path, data)
            &&& after.disk.dirs == with_parents(disk.dirs, path)
        }),
{
    let start = announced_task(path, modified, remote, timestamp);
    let task = apply::Upsert { conflict: Some(report(disk, path, remote)), ..start };
    let copy = apply::kept_copy(path, turn);
    let moved = Disk { files: disk.files.remove(path).insert(copy, disk.files[path]), ..disk };
    lemma_moved_aside(state, disk, path, modified, remote, timestamp, turn);
    lemma_still_clear(disk, path, turn);
    let found = seq![report(disk, path, remote)];
    assert(Seq::empty().push(report(disk, path, remote)) =~= found);
    lemma_transferred(state, moved, task, data, chunk_size, found);
    let events = sending(path, modified, remote, data, chunk_size);
    assert(events.skip(1) =~= crate::chunker::content_events(path, data, chunk_size));
    lemma_carry_first(state, disk, events, timestamp, Seq::empty());
    assert(moved.files.insert(path, data) =~= disk.files.insert(copy, disk.files[path]).insert(
        path,
        data,
    ));
}

proof fn lemma_still_clear(disk: Disk, path: Seq<Part>, turn: u32)
    requires
        apply::is_plain(path),
        !file_above(disk.files, path),
    ensures
        !file_above(
            disk.files.remove(path).insert(apply::kept_copy(path, turn), disk.files[path]),
            path,
        ),
{
    let copy = apply::kept_copy(path, turn);
    apply_laws::law_kept_copy_lies_beside(path, turn);
    assert(copy.len() == path.len()) by {
        assert(copy.drop_last().len() == path.drop_last().len());
    }
    assert forall|dir: Seq<Part>| #[trigger]
        disk.files.remove(path).contains_key(dir) implies !is_above(dir, path) by {
        assert(disk.files.contains_key(dir));
    }
    lemma_file_above(disk.files.remove(path), path, copy, disk.files[path]);
}

proof fn lemma_moved_aside(
    state: ApplierView,
    disk: Disk,
    path: Seq<Part>,
    modified: bool,
    remote: FileState,
    timestamp: i64,
    turn: u32,
)
    requires
        disk.root == state.root,
        !disk.dirs.contains(path),
        apply::is_plain(path),
        state.strategy is KeepBoth,
        differs(state, disk, path, remote),
        first_free(disk, path, turn),
    ensures
        carry_out(state, disk, announcement(path, modified, remote), timestamp) == run(
            preparing(
                state,
                (Disk {
                    files: disk.files.remove(path).insert(
                        apply::kept_copy(path, turn),
                        disk.files[path],
                    ),
                    ..disk
                }),
                (apply::Upsert {
                    conflict: Some(report(disk, path, remote)),
                    ..announced_task(path, modified, remote, timestamp)
                }),
            ),
        ),
{
    let start = announced_task(path, modified, remote, timestamp);
    let task = apply::Upsert { conflict: Some(report(disk, path, remote)), ..start };
    lemma_looked_up(state, disk, path, modified, remote, timestamp);
    let scene0 = upsert_scene(state, disk, start, apply::UpsertStage::ConflictDigest);
    let scene1 = upsert_scene(state, disk, task, apply::UpsertStage::AsideLocate);
    let scene2 = upsert_scene(state, disk, task, apply::UpsertStage::AsideExists);
    let scene3 = upsert_scene(state, disk, task, apply::UpsertStage::AsideProbe { turn: 0 });
    assert(served(scene0) == scene1);
    assert(served(scene1) == scene2);
    assert(served(scene2) == scene3);
    assert(run(scene0) == run(scene1));
    assert(run(scene1) == run(scene2));
    assert(run(scene2) == run(scene3));
    lemma_probed(state, disk, task, 0, turn);
    let copy = apply::kept_copy(path, turn);
    let scene4 = upsert_scene(state, disk, task, apply::UpsertStage::AsideRename { turn });
    let moved = Disk { files: disk.files.remove(path).insert(copy, disk.files[path]), ..disk };
    assert(served(scene4) == preparing(state, moved, task));
    assert(run(scene4) == run(preparing(state, moved, task)));
}

/// A file that the other side deleted is gone, and nothing is known of it any
/// more. No other file changes.
pub proof fn law_deleted_file_is_gone(
    state: ApplierView,
    disk: Disk,
    path: Seq<Part>,
    timestamp: i64,
)
    requires
        disk.root == state.root,
        !disk.dirs.contains(path),
        apply::is_plain(path),
    ensures
        carry_out(state, disk, EventView::FileDeleted { path }, timestamp) == (Scene {
            state: (ApplierView {
                synced: state.synced.remove(path),
                ..apply::without_transfer(state, path)
            }),
            disk: (Disk {
                files: disk.files.remove(path),
                temp: disk.temp.remove(path),
                ..disk
            }),
            step: Step::Finished(Ok(None)),
        }),
{
    let searching = apply::without_transfer(state, path);
    let known = ApplierView { synced: state.synced.remove(path), ..searching };
    lemma_removal(state, disk, path, false, searching, timestamp);
    let bare = Disk { temp: disk.temp.remove(path), ..disk };
    let scene = removal_scene(known, bare, path, false, apply::RemovalStage::Exists);
    assert(run(scene) == run(served(scene)));
    if disk.files.contains_key(path) {
        assert(run(served(scene)) == run(served(served(scene))));
    } else {
        assert(disk.files.remove(path) =~= disk.files);
    }
}

/// A directory that the other side deleted is gone with all under it, and
/// nothing is known of that any more. No other file or directory changes, and
/// none at all if there was no such directory.
pub proof fn law_deleted_directory_is_gone(
    state: ApplierView,
    disk: Disk,
    path: Seq<Part>,
    timestamp: i64,
)
    requires
        disk.root == state.root,
        !disk.files.contains_key(path),
        apply::is_plain(path),
    ensures
        carry_out(state, disk, EventView::DirDeleted { path }, timestamp) == (Scene {
            state: apply::without_tree(state, path),
            disk: (Disk {
                files: if disk.dirs.contains(path) {
                    files_outside(disk.files, path)
                } else {
                    disk.files
                },
                dirs: if disk.dirs.contains(path) {
                    dirs_outside(disk.dirs, path)
                } else {
                    disk.dirs
                },
                temp: files_outside(disk.temp, path),
                ..disk
            }),
            step: Step::Finished(Ok(None)),
        }),
{
    let searching = apply::without_tree(state, path);
    lemma_removal(state, disk, path, true, searching, timestamp);
    let bare = Disk { temp: files_outside(disk.temp, path), ..disk };
    let scene = removal_scene(searching, bare, path, true, apply::RemovalStage::Exists);
    assert(run(scene) == run(served(scene)));
    if disk.dirs.contains(path) {
        assert(run(served(scene)) == run(served(served(scene))));
    }
}

/// A scene in which a removal is on its way.
spec fn removal_scene(
    state: ApplierView,
    disk: Disk,
    path: Seq<Part>,
    tree: bool,
    stage: apply::RemovalStage<Seq<Part>>,
) -> Scene {
    Scene { state, disk, step: Step::Continue(Task::Removal(apply::Removal { path, tree, stage })) }
}

proof fn lemma_removal(
    state: ApplierView,
    disk: Disk,
    path: Seq<Part>,
    tree: bool,
    searching: ApplierView,
    timestamp: i64,
)
    requires
        disk.root == state.root,
        apply::is_plain(path),
        searching == (if tree {
            apply::without_tree(state, path)
        } else {
            apply::without_transfer(state, path)
        }),
    ensures
        carry_out(
            state,
            disk,
            (if tree {
                EventView::DirDeleted { path }
            } else {
                EventView::FileDeleted { path }
            }),
            timestamp,
        ) == run(
            removal_scene(
                (if tree {
                    searching
                } else {
                    ApplierView { synced: state.synced.remove(path), ..searching }
                }),
                (Disk {
                    temp: if tree {
                        files_outside(disk.temp, path)
                    } else {
                        disk.temp.remove(path)
                    },
                    ..disk
                }),
                path,
                tree,
                apply::RemovalStage::Exists,
            ),
        ),
{
    apply::law_accepted_paths_are_plain(path);
    assert(disk.root.is_prefix_of(temp_root(disk)));
    let base = temp_root(disk);
    let scene0 = removal_scene(state, disk, path, tree, apply::RemovalStage::Locate);
    let scene1 = removal_scene(
        searching,
        disk,
        path,
        tree,
        apply::RemovalStage::Temp(apply::TempStage::Link),
    );
    let scene2 = removal_scene(
        searching,
        disk,
        path,
        tree,
        apply::RemovalStage::Temp(apply::TempStage::Root),
    );
    let scene3 = removal_scene(
        searching,
        disk,
        path,
        tree,
        apply::RemovalStage::Temp(apply::TempStage::Spot { base }),
    );
    let scene4 = removal_scene(searching, disk, path, tree, apply::RemovalStage::TempRemove);
    assert(served(scene0) == scene1);
    assert(served(scene1) == scene2);
    assert(served(scene2) == scene3);
    assert(served(scene3) == scene4);
    assert(run(scene0) == run(scene1));
    assert(run(scene1) == run(scene2));
    assert(run(scene2) == run(scene3));
    assert(run(scene3) == run(scene4));
    assert(run(scene4) == run(served(scene4)));
}

/// A directory that the other side created is there, with all those above it. No
/// file changes.
pub proof fn law_created_directory_is_there(
    state: ApplierView,
    disk: Disk,
    path: Seq<Part>,
    timestamp: i64,
)
    requires
        disk.root == state.root,
        !disk.files.contains_key(path),
        !file_above(disk.files, path),
        apply::is_plain(path),
    ensures
        carry_out(state, disk, EventView::DirCreated { path }, timestamp) == (Scene {
            state,
            disk: (Disk {
                dirs: if disk.dirs.contains(path) {
                    disk.dirs
                } else {
                    with_parents(disk.dirs, path).insert(path)
                },
                ..disk
            }),
            step: Step::Finished(Ok(None)),
        }),
{
    apply::law_accepted_paths_are_plain(path);
    let started = apply::start(state, EventView::DirCreated { path }, timestamp);
    let scene0 = Scene { state, disk, step: started.1 };
    let scene1 = served(scene0);
    let scene2 = served(scene1);
    assert(run(scene0) == run(scene1));
    assert(run(scene1) == run(scene2));
    if !disk.dirs.contains(path) {
        assert(run(scene2) == run(served(scene2)));
    }
}

/// What a file is announced with, followed by its content in pieces.
proof fn lemma_sending(
    path: Seq<Part>,
    modified: bool,
    remote: FileState,
    data: Seq<u8>,
    chunk_size: nat,
)
    ensures
        sending(path, modified, remote, data, chunk_size) == seq![
            if modified {
                EventView::FileModified { path, content_hash: remote.hash, size: remote.size }
            } else {
                EventView::FileCreated { path, content_hash: remote.hash, size: remote.size }
            },
        ] + crate::chunker::content_events(path, data, chunk_size),
{
}

/// The directories above a path are its proper beginnings.
proof fn lemma_parents(dirs: Set<Seq<Part>>, path: Seq<Part>, dir: Seq<Part>)
    ensures
        with_parents(dirs, path).contains(dir) <==> dirs.contains(dir) || (0 < dir.len()
            < path.len() && path.take(dir.len() as int) == dir),
{
}

/// A file that is new here arrives, whatever its path and its length: announced
/// with its hash and size and sent in pieces of any size, it holds the data, every
/// directory above it is there, no other file has changed, and no conflict is
/// reported.
pub proof fn law_new_file_arrives(
    state: ApplierView,
    disk: Disk,
    path: Seq<Part>,
    content_hash: [u8; 32],
    data: Seq<u8>,
    chunk_size: nat,
    timestamp: i64,
    dir: Seq<Part>,
)
    requires
        disk.root == state.root,
        path.len() > 0,
        forall|i: int|
            0 <= i < path.len() ==> (#[trigger] path[i]) is Normal && path[i] != Part::Normal(
                crate::watcher::temp_dir_name(),
            ),
        !disk.files.contains_key(path),
        !disk.dirs.contains(path),
        forall|n: int| 0 < n < path.len() ==> !disk.files.contains_key(#[trigger] path.take(n)),
        content_hash@ == crate::hash::blake3_digest(data),
        data.len() <= u64::MAX,
        chunk_size > 0,
    ensures
        ({
            let size = data.len() as u64;
            let after = carry_out_all(
                state,
                disk,
                seq![EventView::FileCreated { path, content_hash, size }]
                    + crate::chunker::content_events(path, data, chunk_size),
                timestamp,
                Seq::empty(),
            );
            &&& after.step == BatchStepView::Finished(Ok(Seq::empty()))
            &&& after.disk.files == disk.files.insert(path, data)
            &&& after.disk.dirs.contains(dir) <==> disk.dirs.contains(dir) || (0 < dir.len()
                < path.len() && path.take(dir.len() as int) == dir)
            &&& after.state.synced == state.synced.insert(
                path,
                FileState { hash: content_hash, size },
            )
            &&& !after.state.pending.contains_key(path)
            &&& !after.state.blocked.contains(path)
        }),
{
    let remote = FileState { hash: content_hash, size: data.len() as u64 };
    lemma_sending(path, false, remote, data, chunk_size);
    lemma_parents(disk.dirs, path, dir);
    lemma_clear_above(disk, path);
    law_sent_file_arrives(state, disk, path, false, remote, data, chunk_size, timestamp);
}

proof fn lemma_clear_above(disk: Disk, path: Seq<Part>)
    requires
        forall|n: int| 0 < n < path.len() ==> !disk.files.contains_key(#[trigger] path.take(n)),
    ensures
        !file_above(disk.files, path),
{
    if file_above(disk.files, path) {
        let dir = choose|dir: Seq<Part>| #[trigger]
            disk.files.contains_key(dir) && is_above(dir, path);
        assert(path.take(dir.len() as int) == dir);
        assert(!disk.files.contains_key(path.take(dir.len() as int)));
    }
}

/// The hash of a content, which its state holds, is a function of the content.
proof fn lemma_hash_of(content: Seq<u8>, state: FileState)
    requires
        describes(state, content),
    ensures
        state_of(content).hash == state.hash,
        state_of(content).size == state.size,
{
    assert(describes(state_of(content), content));
    assert(state_of(content).hash =~= state.hash);
}

/// Under last-write-wins, where a file changed on both sides since they agreed on
/// it, the version wins that was changed last. The local file was changed `millis`
/// after the epoch. If the announcement is older than that, the disk stays as it
/// is and the conflict is reported; else the file holds the announced data and
/// there is no conflict.
pub proof fn law_last_write_wins_on_the_disk(
    state: ApplierView,
    disk: Disk,
    path: Seq<Part>,
    local: FileState,
    content_hash: [u8; 32],
    data: Seq<u8>,
    chunk_size: nat,
    timestamp: i64,
    millis: u128,
)
    requires
        disk.root == state.root,
        state.strategy is LastWriteWins,
        path.len() > 0,
        forall|i: int|
            0 <= i < path.len() ==> (#[trigger] path[i]) is Normal && path[i] != Part::Normal(
                crate::watcher::temp_dir_name(),
            ),
        disk.files.contains_key(path),
        !disk.dirs.contains(path),
        forall|n: int| 0 < n < path.len() ==> !disk.files.contains_key(#[trigger] path.take(n)),
        local.hash@ == crate::hash::blake3_digest(disk.files[path]),
        local.size == disk.files[path].len(),
        content_hash@ == crate::hash::blake3_digest(data),
        data.len() <= u64::MAX,
        chunk_size > 0,
        state.synced.contains_key(path),
        local.hash != content_hash,
        local.hash != state.synced[path].hash,
        disk.mtimes.contains_key(path),
        disk.mtimes[path] == millis,
        millis <= 9_223_372_036_854_775_807,
    ensures
        ({
            let size = data.len() as u64;
            let after = carry_out_all(
                state,
                disk,
                seq![EventView::FileModified { path, content_hash, size }]
                    + crate::chunker::content_events(path, data, chunk_size),
                timestamp,
                Seq::empty(),
            );
            let found = ConflictView {
                path,
                local_hash: local.hash,
                local_size: local.size,
                remote_hash: content_hash,
                remote_size: size,
            };
            &&& timestamp < millis ==> after.disk == disk && after.step == BatchStepView::Finished(
                Ok(seq![found]),
            )
            &&& timestamp >= millis ==> after.disk.files == disk.files.insert(path, data)
                && after.step == BatchStepView::Finished(Ok(Seq::empty()))
        }),
{
    let remote = FileState { hash: content_hash, size: data.len() as u64 };
    lemma_sending(path, true, remote, data, chunk_size);
    lemma_clear_above(disk, path);
    lemma_hash_of(disk.files[path], local);
    crate::protocol_laws::law_local_time(millis);
    if timestamp < millis {
        law_newer_local_file_survives(
            state,
            disk,
            path,
            true,
            remote,
            data,
            chunk_size,
            timestamp,
        );
    } else {
        law_sent_file_arrives(state, disk, path, true, remote, data, chunk_size, timestamp);
    }
}

/// Content that comes without an announcement is written into the file itself: at
/// the start of a file it replaces all of it, and elsewhere it leaves the rest as
/// it is. Both sides then agree on what the file holds.
pub proof fn law_content_alone_is_written(
    state: ApplierView,
    disk: Disk,
    path: Seq<Part>,
    offset: u64,
    data: Seq<u8>,
    timestamp: i64,
)
    requires
        disk.root == state.root,
        path.len() > 0,
        forall|i: int|
            0 <= i < path.len() ==> (#[trigger] path[i]) is Normal && path[i] != Part::Normal(
                crate::watcher::temp_dir_name(),
            ),
        forall|n: int| 0 < n < path.len() ==> !disk.files.contains_key(#[trigger] path.take(n)),
        !state.pending.contains_key(path),
        !state.blocked.contains(path),
    ensures
        ({
            let before = if offset == 0 || !disk.files.contains_key(path) {
                Seq::empty()
            } else {
                disk.files[path]
            };
            let written = crate::chunker::write_at(before, offset as int, data);
            let after = carry_out(
                state,
                disk,
                EventView::FileContent { path, offset, data },
                timestamp,
            );
            &&& after.step == StepView::Finished(Ok(None))
            &&& after.disk.files == disk.files.insert(path, written)
            &&& after.disk.temp == disk.temp
            &&& after.state == (ApplierView {
                synced: state.synced.insert(path, state_of(written)),
                ..state
            })
        }),
{
    apply::law_accepted_paths_are_plain(path);
    lemma_clear_above(disk, path);
    let event = EventView::FileContent { path, offset, data };
    let started = apply::start(state, event, timestamp);
    let scene0 = Scene { state, disk, step: started.1 };
    let scene1 = served(scene0);
    let scene2 = served(scene1);
    let scene3 = served(scene2);
    let scene4 = served(scene3);
    assert(run(scene0) == run(scene1));
    assert(run(scene1) == run(scene2));
    assert(run(scene2) == run(scene3));
    assert(run(scene3) == run(scene4));
    assert(run(scene4) == scene4);
}

/// Content of a file that is on its way, but that makes it neither complete nor
/// right, touches no file of the directory: the transfer stays under way, and both
/// sides agree on no more than before.
pub proof fn law_unfinished_transfer_touches_no_file(
    state: ApplierView,
    disk: Disk,
    path: Seq<Part>,
    offset: u64,
    data: Seq<u8>,
    timestamp: i64,
    actual: FileState,
)
    requires
        disk.root == state.root,
        state.pending.contains_key(path),
        !state.blocked.contains(path),
        disk.temp.contains_key(path),
        ({
            let written = crate::chunker::write_at(disk.temp[path], offset as int, data);
            &&& written.len() <= u64::MAX
            &&& actual.hash@ == crate::hash::blake3_digest(written)
            &&& actual.size == written.len()
        }),
        actual.hash != state.pending[path].hash || actual.size != state.pending[path].size,
    ensures
        ({
            let after = carry_out(
                state,
                disk,
                EventView::FileContent { path, offset, data },
                timestamp,
            );
            &&& after.step == StepView::Finished(Ok(None))
            &&& after.disk.files == disk.files
            &&& after.disk.dirs == disk.dirs
            &&& after.disk.temp == disk.temp.insert(
                path,
                crate::chunker::write_at(disk.temp[path], offset as int, data),
            )
            &&& after.state == state
        }),
{
    let event = EventView::FileContent { path, offset, data };
    let written = crate::chunker::write_at(disk.temp[path], offset as int, data);
    let started = apply::start(state, event, timestamp);
    let scene0 = Scene { state, disk, step: started.1 };
    let scene1 = served(scene0);
    let scene2 = served(scene1);
    lemma_hash_of(written, actual);
    assert(run(scene0) == run(scene1));
    assert(run(scene1) == run(scene2));
    if written.len() >= state.pending[path].size {
        let scene3 = served(scene2);
        assert(run(scene2) == run(scene3));
        if written.len() == state.pending[path].size {
            let scene4 = served(scene3);
            assert(run(scene3) == run(scene4));
            assert(run(scene4) == scene4);
        } else {
            assert(run(scene3) == scene3);
        }
    } else {
        assert(run(scene2) == scene2);
    }
}

} // verus!
