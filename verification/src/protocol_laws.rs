//! Laws of [`crate::apply`]: which request an event makes, and what each answer to
//! it leads to, whatever the disk replies.

use crate::apply;
use crate::apply::{
    ApplierView, ApplyError, Area, ContentStage, ContentView, NewDirStage, NewDirView,
    RemovalStage, RemovalView, Reply, ReplyView, Request, RequestView, Step, StepView, Task,
    TaskView, TempStage, Upsert, UpsertStage, UpsertView,
};
use crate::event::EventView;
use crate::path::Part;
use crate::watcher::FileState;
use vstd::prelude::*;

verus! {

/// A component is a name, and not that of the internal directory.
pub open spec fn is_plain_name(part: Part) -> bool {
    part is Normal && part != Part::Normal(crate::watcher::temp_dir_name())
}

/// An empty path is refused for that. Else the first component counts that is no
/// plain name: one that is no name makes the path unsafe, and the internal
/// directory an internal one. A path of plain names is accepted, however long.
pub proof fn law_path_faults(path: Seq<Part>, at: int)
    ensures
        path.len() == 0 <==> apply::path_fault(path) == Some(ApplyError::EmptyPath),
        path.len() > 0 && (forall|i: int|
            0 <= i < path.len() ==> is_plain_name(#[trigger] path[i])) ==> apply::path_fault(path)
            is None,
        0 <= at < path.len() && (forall|i: int|
            0 <= i < at ==> is_plain_name(#[trigger] path[i])) && !(path[at] is Normal)
            ==> apply::path_fault(path) == Some(ApplyError::UnsafePath),
        0 <= at < path.len() && (forall|i: int|
            0 <= i < at ==> is_plain_name(#[trigger] path[i])) && path[at] == Part::Normal(
            crate::watcher::temp_dir_name(),
        ) ==> apply::path_fault(path) == Some(ApplyError::InternalPath),
{
    lemma_fault(path, 0, at);
    lemma_fault(path, 0, path.len() as int);
    lemma_no_empty_fault(path, 0);
}

proof fn lemma_fault(path: Seq<Part>, from: int, at: int)
    requires
        0 <= from,
    ensures
        from <= at <= path.len() && (forall|i: int|
            from <= i < at ==> is_plain_name(#[trigger] path[i])) ==> apply::fault_from(path, from)
            == apply::fault_from(path, at),
    decreases path.len() - from,
{
    if from < at <= path.len() {
        if forall|i: int| from <= i < at ==> is_plain_name(#[trigger] path[i]) {
            assert(is_plain_name(path[from]));
        }
        lemma_fault(path, from + 1, at);
    }
}

proof fn lemma_no_empty_fault(path: Seq<Part>, from: int)
    requires
        0 <= from,
    ensures
        apply::fault_from(path, from) != Some(ApplyError::EmptyPath),
    decreases path.len() - from,
{
    if from < path.len() {
        lemma_no_empty_fault(path, from + 1);
    }
}

/// The time of the last change of a local file is the number of milliseconds that
/// the disk tells, for every time that fits; an unknown time is the epoch.
pub proof fn law_local_time(millis: u128)
    ensures
        millis <= 9_223_372_036_854_775_807 ==> apply::mtime_millis(Some(millis)) == millis,
        9_223_372_036_854_775_807 < millis <= 18_446_744_073_709_551_615 ==> apply::mtime_millis(
            Some(millis),
        ) == millis - 18_446_744_073_709_551_616,
        apply::mtime_millis(Some(millis)) == apply::mtime_millis(
            Some((millis % 18_446_744_073_709_551_616) as u128),
        ),
        apply::mtime_millis(None) == 0,
{
    assert(millis <= 9_223_372_036_854_775_807 ==> (millis as i64) == millis) by (bit_vector);
    assert(9_223_372_036_854_775_807 < millis <= 18_446_744_073_709_551_615 ==> (millis as i64)
        == millis - 18_446_744_073_709_551_616) by (bit_vector);
    assert((millis as i64) == ((millis % 18_446_744_073_709_551_616) as u128) as i64)
        by (bit_vector);
}

/// Where the local file changed since both sides agreed on it, and not to what is
/// announced: under last-write-wins there is a conflict exactly if the announcement
/// is older than the local file, which was changed `millis` after the epoch. Under
/// keep-both there always is one. It tells both versions.
pub proof fn law_conflict_of_diverged_versions(
    s: ApplierView,
    path: Seq<Part>,
    remote: FileState,
    timestamp: i64,
    local: FileState,
    millis: u128,
)
    requires
        s.synced.contains_key(path),
        local.hash != remote.hash,
        local.hash != s.synced[path].hash,
        millis <= 9_223_372_036_854_775_807,
    ensures
        s.strategy is LastWriteWins ==> (apply::conflict_found(
            s,
            path,
            remote,
            timestamp,
            local,
            Some(millis),
        ) is Some <==> timestamp < millis),
        s.strategy is LastWriteWins ==> (apply::conflict_found(
            s,
            path,
            remote,
            timestamp,
            local,
            None,
        ) is Some <==> timestamp < 0),
        s.strategy is KeepBoth ==> apply::conflict_found(
            s,
            path,
            remote,
            timestamp,
            local,
            Some(millis),
        ) is Some && apply::conflict_found(s, path, remote, timestamp, local, None) is Some,
        apply::conflict_found(s, path, remote, timestamp, local, Some(millis)) matches Some(found)
            ==> found.path == path && found.local_hash == local.hash && found.local_size
            == local.size && found.remote_hash == remote.hash && found.remote_size == remote.size,
{
    law_local_time(millis);
}

/// Where the two sides never agreed on a file, or the local one is as it was then,
/// or as it is announced, there is no conflict, whatever the times.
pub proof fn law_no_conflict_otherwise(
    s: ApplierView,
    path: Seq<Part>,
    remote: FileState,
    timestamp: i64,
    local: FileState,
    modified: Option<u128>,
)
    requires
        !s.synced.contains_key(path) || local.hash == remote.hash || local.hash
            == s.synced[path].hash,
    ensures
        apply::conflict_found(s, path, remote, timestamp, local, modified) is None,
{
}

/// Every request of an event is about the path of the event, or about the
/// candidate for a copy of it, and each stage makes the request that it is for.
pub proof fn law_requests(task: TaskView)
    ensures
        ({
            let asked = apply::task_request(task);
            match task {
                Task::Upsert(t) => match t.stage {
                    UpsertStage::ConflictLocate | UpsertStage::AsideLocate
                    | UpsertStage::Locate => asked == (RequestView::Locate {
                        area: Area::Target,
                        path: t.path,
                    }),
                    UpsertStage::ConflictExists | UpsertStage::AsideExists => asked == (
                    RequestView::Exists { path: t.path }),
                    UpsertStage::ConflictDigest | UpsertStage::EmptyDigest => asked == (
                    RequestView::Digest { area: Area::Target, path: t.path }),
                    UpsertStage::ConflictMtime { .. } => asked == (RequestView::Mtime {
                        path: t.path,
                    }),
                    UpsertStage::AsideProbe { turn } => asked == (RequestView::Exists {
                        path: apply::kept_copy(t.path, turn),
                    }),
                    UpsertStage::AsideRename { turn } => asked == (RequestView::Rename {
                        path: t.path,
                        to: apply::kept_copy(t.path, turn),
                    }),
                    UpsertStage::Parent => asked == (RequestView::CreateParent {
                        area: Area::Target,
                        path: t.path,
                    }),
                    UpsertStage::EmptyWrite => asked == (RequestView::WriteEmpty { path: t.path }),
                    UpsertStage::Temp(stage) => asked == temp_asked(stage, t.path),
                    UpsertStage::TempParent => asked == (RequestView::CreateParent {
                        area: Area::Temp,
                        path: t.path,
                    }),
                    UpsertStage::TempOpen => asked == (RequestView::OpenTemp { path: t.path }),
                },
                Task::Removal(t) => match t.stage {
                    RemovalStage::Locate => asked == (RequestView::Locate {
                        area: Area::Target,
                        path: t.path,
                    }),
                    RemovalStage::Temp(stage) => asked == temp_asked(stage, t.path),
                    RemovalStage::TempRemove => asked == removal_asked(Area::Temp, t),
                    RemovalStage::Exists => asked == (RequestView::Exists { path: t.path }),
                    RemovalStage::Remove => asked == removal_asked(Area::Target, t),
                },
                Task::NewDir(t) => asked == (match t.stage {
                    NewDirStage::Locate => RequestView::Locate {
                        area: Area::Target,
                        path: t.path,
                    },
                    NewDirStage::Exists => RequestView::Exists { path: t.path },
                    NewDirStage::Create => RequestView::CreateDir { path: t.path },
                }),
                Task::Content(t) => match t.stage {
                    ContentStage::DirectLocate | ContentStage::CommitLocate { .. } => asked == (
                    RequestView::Locate { area: Area::Target, path: t.path }),
                    ContentStage::DirectParent | ContentStage::CommitParent { .. } => asked == (
                    RequestView::CreateParent { area: Area::Target, path: t.path }),
                    ContentStage::DirectWrite => asked == (RequestView::WriteTarget {
                        path: t.path,
                        offset: t.offset,
                        truncate: t.offset == 0,
                        data: t.data,
                    }),
                    ContentStage::DirectDigest => asked == (RequestView::Digest {
                        area: Area::Target,
                        path: t.path,
                    }),
                    ContentStage::Write => asked == (RequestView::WriteTemp {
                        path: t.path,
                        offset: t.offset,
                        data: t.data,
                    }),
                    ContentStage::Size { .. } => asked == (RequestView::TempSize { path: t.path }),
                    ContentStage::Flush { .. } => asked == (RequestView::FlushTemp {
                        path: t.path,
                    }),
                    ContentStage::Digest { .. } => asked == (RequestView::Digest {
                        area: Area::Temp,
                        path: t.path,
                    }),
                    ContentStage::CommitExists { .. } => asked == (RequestView::Exists {
                        path: t.path,
                    }),
                    ContentStage::CommitRemove { .. } => asked == (RequestView::RemoveFile {
                        area: Area::Target,
                        path: t.path,
                    }),
                    ContentStage::CommitMove { .. } => asked == (RequestView::MoveIntoPlace {
                        path: t.path,
                    }),
                },
            }
        }),
{
}

/// The request with which a place in the internal directory is looked for.
pub open spec fn temp_asked(stage: TempStage<Seq<Part>>, path: Seq<Part>) -> RequestView {
    match stage {
        TempStage::Link => RequestView::IsTempRootLink,
        TempStage::Root => RequestView::MakeTempRoot,
        TempStage::Spot { .. } => RequestView::Locate { area: Area::Temp, path },
    }
}

/// The request with which a file, or a directory with all under it, is removed.
pub open spec fn removal_asked(area: Area, task: RemovalView) -> RequestView {
    if task.tree {
        RequestView::RemoveDir { area, path: task.path }
    } else {
        RequestView::RemoveFile { area, path: task.path }
    }
}

/// A reply says that a place lies in the directory with the canonical path `base`:
/// the deepest ancestor that exists does, however deep.
pub open spec fn lies_in(base: Seq<Part>, reply: ReplyView) -> bool {
    reply matches Reply::Located(Some(ancestor)) && base.len() <= ancestor.len()
        && ancestor.take(base.len() as int) == base
}

/// Why a place does not do, by the reply to the search for it.
pub open spec fn misplaced(reply: ReplyView) -> ApplyError {
    match reply {
        Reply::Located(Some(_)) => ApplyError::EscapesRoot,
        Reply::Located(None) => ApplyError::NoAncestor,
        Reply::Failed => ApplyError::RequestFailed,
        _ => ApplyError::UnexpectedReply,
    }
}

/// Why a request counts as failed, by a reply that does not answer it.
pub open spec fn unanswered(reply: ReplyView) -> ApplyError {
    if reply is Failed {
        ApplyError::RequestFailed
    } else {
        ApplyError::UnexpectedReply
    }
}

/// An event ends with an error and leaves the state as it is.
pub open spec fn ends_with(after: (ApplierView, StepView), s: ApplierView, e: ApplyError) -> bool {
    after == (s, StepView::Finished(Err(e)))
}

/// A file goes on at another stage and leaves the state as it is.
pub open spec fn file_at(
    after: (ApplierView, StepView),
    s: ApplierView,
    task: UpsertView,
    stage: UpsertStage<Seq<Part>>,
) -> bool {
    after == (s, StepView::Continue(Task::Upsert(Upsert { stage, ..task })))
}

/// The announced version of a file is accepted: what was under way of it is given
/// up, nothing of it is ignored any more, and the transfer is prepared.
pub open spec fn is_accepted(
    after: (ApplierView, StepView),
    s: ApplierView,
    task: UpsertView,
) -> bool {
    &&& after.1 == StepView::Continue(
        Task::Upsert(Upsert { stage: UpsertStage::Locate, ..task }),
    )
    &&& after.0.root == s.root
    &&& after.0.strategy == s.strategy
    &&& after.0.synced == s.synced
    &&& after.0.pending == s.pending.remove(task.path)
    &&& after.0.blocked == s.blocked.remove(task.path)
}

proof fn lemma_lies_in(base: Seq<Part>, reply: ReplyView)
    ensures
        apply::located(base, reply) == (if lies_in(base, reply) {
            Ok::<(), ApplyError>(())
        } else {
            Err(misplaced(reply))
        }),
{
    if let Reply::Located(Some(ancestor)) = reply {
        if base.len() <= ancestor.len() {
            assert(ancestor.take(base.len() as int) =~= ancestor.subrange(0, base.len() as int));
        }
    }
}

/// While a conflict is looked for, the search goes on as long as there is a local
/// file that can be read. Anything else means that there is none to keep, and the
/// announced version is accepted.
pub proof fn law_search_for_a_conflict(s: ApplierView, task: UpsertView, reply: ReplyView)
    ensures
        ({
            let after = apply::next_upsert(s, task, reply);
            match task.stage {
                UpsertStage::ConflictLocate => if lies_in(s.root, reply) {
                    file_at(after, s, task, UpsertStage::ConflictExists)
                } else {
                    is_accepted(after, s, task)
                },
                UpsertStage::ConflictExists => if reply == ReplyView::Flag(true) {
                    file_at(after, s, task, UpsertStage::ConflictDigest)
                } else {
                    is_accepted(after, s, task)
                },
                UpsertStage::ConflictDigest => match reply {
                    Reply::Digest(local) => if !s.synced.contains_key(task.path) || local.hash
                        == task.remote.hash || local.hash == s.synced[task.path].hash {
                        is_accepted(after, s, task)
                    } else if s.strategy is LastWriteWins {
                        file_at(after, s, task, UpsertStage::ConflictMtime { local })
                    } else {
                        &&& after.0 == s
                        &&& after.1 matches Step::Continue(Task::Upsert(next))
                        &&& next.stage == UpsertStage::<Seq<Part>>::AsideLocate
                        &&& next.path == task.path && next.modified == task.modified
                        &&& next.remote == task.remote && next.timestamp == task.timestamp
                        &&& next.conflict matches Some(found)
                        &&& found.path == task.path
                        &&& found.local_hash == local.hash && found.local_size == local.size
                        &&& found.remote_hash == task.remote.hash
                        &&& found.remote_size == task.remote.size
                    },
                    _ => is_accepted(after, s, task),
                },
                _ => true,
            }
        }),
{
    lemma_lies_in(s.root, reply);
}

/// Once the time of the last change of a diverged local file is known, the local
/// version is kept exactly if it is the newer one: then the conflict is reported
/// and the content of the announced version is ignored from now on.
pub proof fn law_newer_version_is_kept(
    s: ApplierView,
    task: UpsertView,
    local: FileState,
    reply: ReplyView,
)
    requires
        task.stage == (UpsertStage::<Seq<Part>>::ConflictMtime { local }),
        s.strategy is LastWriteWins,
        s.synced.contains_key(task.path),
        local.hash != task.remote.hash,
        local.hash != s.synced[task.path].hash,
        reply matches Reply::Millis(Some(millis)) ==> millis <= 9_223_372_036_854_775_807,
    ensures
        ({
            let after = apply::next_upsert(s, task, reply);
            let millis = match reply {
                Reply::Millis(Some(millis)) => millis as int,
                _ => 0,
            };
            &&& task.timestamp >= millis ==> is_accepted(after, s, task)
            &&& task.timestamp < millis ==> {
                &&& after.1 matches Step::Finished(Ok(Some(found)))
                &&& found.path == task.path
                &&& found.local_hash == local.hash && found.local_size == local.size
                &&& found.remote_hash == task.remote.hash
                &&& found.remote_size == task.remote.size
                &&& after.0.blocked == s.blocked.insert(task.path)
                &&& after.0.synced == s.synced
                &&& after.0.root == s.root && after.0.strategy == s.strategy
                &&& task.modified ==> after.0.pending == s.pending.remove(task.path)
                &&& !task.modified ==> after.0.pending == s.pending
            }
        }),
{
    if let Reply::Millis(Some(millis)) = reply {
        law_local_time(millis);
    } else {
        law_local_time(0);
    }
}

/// A local version that is kept beside the announced one is moved to the first
/// candidate that is not taken, or to the first of all if a thousand are. Whatever
/// comes of that, and if it cannot be moved at all, the announced version is
/// accepted.
pub proof fn law_local_version_is_moved_aside(
    s: ApplierView,
    task: UpsertView,
    reply: ReplyView,
)
    ensures
        ({
            let after = apply::next_upsert(s, task, reply);
            match task.stage {
                UpsertStage::AsideLocate => if lies_in(s.root, reply) {
                    file_at(after, s, task, UpsertStage::AsideExists)
                } else {
                    is_accepted(after, s, task)
                },
                UpsertStage::AsideExists => if reply == ReplyView::Flag(true) {
                    file_at(after, s, task, UpsertStage::AsideProbe { turn: 0 })
                } else {
                    is_accepted(after, s, task)
                },
                UpsertStage::AsideProbe { turn } => if reply != ReplyView::Flag(true) {
                    file_at(after, s, task, UpsertStage::AsideRename { turn })
                } else if turn < 999 {
                    file_at(after, s, task, UpsertStage::AsideProbe { turn: (turn + 1) as u32 })
                } else {
                    file_at(after, s, task, UpsertStage::AsideRename { turn: 0 })
                },
                UpsertStage::AsideRename { .. } => is_accepted(after, s, task),
                _ => true,
            }
        }),
{
    lemma_lies_in(s.root, reply);
}

/// An accepted file gets its parent directory; an empty one is then written and
/// both sides agree on it, any other gets a place in the internal directory and is
/// on its way. Each step needs the answer that it asks for, and any other ends the
/// event with what is wrong with it.
pub proof fn law_preparing_a_transfer(s: ApplierView, task: UpsertView, reply: ReplyView)
    ensures
        ({
            let after = apply::next_upsert(s, task, reply);
            let finished = StepView::Finished(Ok(task.conflict));
            match task.stage {
                UpsertStage::Locate => if lies_in(s.root, reply) {
                    file_at(after, s, task, UpsertStage::Parent)
                } else {
                    ends_with(after, s, misplaced(reply))
                },
                UpsertStage::Parent => if !(reply is Done) {
                    ends_with(after, s, unanswered(reply))
                } else if task.remote.size == 0 {
                    file_at(after, s, task, UpsertStage::EmptyWrite)
                } else {
                    file_at(after, s, task, UpsertStage::Temp(TempStage::Link))
                },
                UpsertStage::EmptyWrite => if reply is Done {
                    file_at(after, s, task, UpsertStage::EmptyDigest)
                } else {
                    ends_with(after, s, unanswered(reply))
                },
                UpsertStage::EmptyDigest => match reply {
                    Reply::Digest(actual) => after == (
                        (ApplierView { synced: s.synced.insert(task.path, actual), ..s }),
                        finished,
                    ),
                    _ => ends_with(after, s, unanswered(reply)),
                },
                UpsertStage::Temp(stage) => match temp_answer(s.root, stage, reply) {
                    Ok(Some(next)) => file_at(after, s, task, UpsertStage::Temp(next)),
                    Ok(None) => file_at(after, s, task, UpsertStage::TempParent),
                    Err(error) => ends_with(after, s, error),
                },
                UpsertStage::TempParent => if reply is Done {
                    file_at(after, s, task, UpsertStage::TempOpen)
                } else {
                    ends_with(after, s, unanswered(reply))
                },
                UpsertStage::TempOpen => if reply is Done {
                    after == (
                        (ApplierView { pending: s.pending.insert(task.path, task.remote), ..s }),
                        finished,
                    )
                } else {
                    ends_with(after, s, unanswered(reply))
                },
                _ => true,
            }
        }),
{
    lemma_lies_in(s.root, reply);
    if let UpsertStage::Temp(stage) = task.stage {
        lemma_temp(s.root, stage, reply);
    }
}

/// The search for a place in the internal directory: that must be no link and lie
/// in the synchronised directory, and the place must lie in it.
pub open spec fn temp_answer(
    root: Seq<Part>,
    stage: TempStage<Seq<Part>>,
    reply: ReplyView,
) -> Result<Option<TempStage<Seq<Part>>>, ApplyError> {
    match (stage, reply) {
        (TempStage::Link, Reply::Flag(true)) => Err(ApplyError::TempRootIsLink),
        (TempStage::Link, Reply::Flag(false)) => Ok(Some(TempStage::Root)),
        (TempStage::Root, Reply::TempRoot(base)) => if root.len() <= base.len() && base.take(
            root.len() as int,
        ) == root {
            Ok(Some(TempStage::Spot { base }))
        } else {
            Err(ApplyError::TempRootEscapes)
        },
        (TempStage::Spot { base }, _) => if lies_in(base, reply) {
            Ok(None)
        } else {
            Err(misplaced(reply))
        },
        _ => Err(unanswered(reply)),
    }
}

proof fn lemma_temp(root: Seq<Part>, stage: TempStage<Seq<Part>>, reply: ReplyView)
    ensures
        apply::next_temp(root, stage, reply) == temp_answer(root, stage, reply),
{
    if let TempStage::Spot { base } = stage {
        lemma_lies_in(base, reply);
    }
    if let Reply::TempRoot(base) = reply {
        if root.len() <= base.len() {
            assert(base.take(root.len() as int) =~= base.subrange(0, root.len() as int));
        }
    }
}

/// A removal goes on at another stage and leaves the state as it is.
pub open spec fn removal_goes_to(
    after: (ApplierView, StepView),
    s: ApplierView,
    task: RemovalView,
    stage: RemovalStage<Seq<Part>>,
) -> bool {
    after == (s, StepView::Continue(Task::Removal(apply::Removal { stage, ..task })))
}

/// A removal first gives up what is under way of its path, or under it, in the
/// state and then in the internal directory, and then removes what is there. A
/// file is then no longer one that both sides agree on.
pub proof fn law_removing(s: ApplierView, task: RemovalView, reply: ReplyView)
    ensures
        ({
            let after = apply::next_removal(s, task, reply);
            match task.stage {
                RemovalStage::Locate => if lies_in(s.root, reply) {
                    &&& after.1 == StepView::Continue(
                        Task::Removal(
                            apply::Removal { stage: RemovalStage::Temp(TempStage::Link), ..task },
                        ),
                    )
                    &&& after.0.root == s.root && after.0.strategy == s.strategy
                    &&& !task.tree ==> after.0.synced == s.synced && after.0.pending
                        == s.pending.remove(task.path) && after.0.blocked == s.blocked.remove(
                        task.path,
                    )
                    &&& task.tree ==> forall|path: Seq<Part>|
                        ({
                            let gone = task.path.len() <= path.len() && path.take(
                                task.path.len() as int,
                            ) == task.path;
                            &&& #[trigger] after.0.blocked.contains(path) == (s.blocked.contains(
                                path,
                            ) && !gone)
                            &&& after.0.pending.contains_key(path) == (s.pending.contains_key(path)
                                && !gone)
                            &&& after.0.synced.contains_key(path) == (s.synced.contains_key(path)
                                && !gone)
                            &&& after.0.pending.contains_key(path) ==> after.0.pending[path]
                                == s.pending[path]
                            &&& after.0.synced.contains_key(path) ==> after.0.synced[path]
                                == s.synced[path]
                        })
                } else {
                    ends_with(after, s, misplaced(reply))
                },
                RemovalStage::Temp(stage) => match temp_answer(s.root, stage, reply) {
                    Ok(Some(next)) => removal_goes_to(after, s, task, RemovalStage::Temp(next)),
                    Ok(None) => removal_goes_to(after, s, task, RemovalStage::TempRemove),
                    Err(error) => ends_with(after, s, error),
                },
                RemovalStage::TempRemove => if task.tree {
                    removal_goes_to(after, s, task, RemovalStage::Exists)
                } else {
                    removal_goes_to(
                        after,
                        (ApplierView { synced: s.synced.remove(task.path), ..s }),
                        task,
                        RemovalStage::Exists,
                    )
                },
                RemovalStage::Exists => match reply {
                    Reply::Flag(true) => removal_goes_to(after, s, task, RemovalStage::Remove),
                    Reply::Flag(false) => after == (s, StepView::Finished(Ok(None))),
                    _ => ends_with(after, s, unanswered(reply)),
                },
                RemovalStage::Remove => if reply is Done {
                    after == (s, StepView::Finished(Ok(None)))
                } else {
                    ends_with(after, s, unanswered(reply))
                },
            }
        }),
{
    lemma_lies_in(s.root, reply);
    match task.stage {
        RemovalStage::Temp(stage) => {
            lemma_temp(s.root, stage, reply);
        },
        RemovalStage::Locate => {
            let after = apply::next_removal(s, task, reply);
            if task.tree && lies_in(s.root, reply) {
                assert forall|path: Seq<Part>| #[trigger] after.0.blocked.contains(path) == (
                s.blocked.contains(path) && !(task.path.len() <= path.len() && path.take(
                    task.path.len() as int,
                ) == task.path)) by {
                    lemma_prefix(task.path, path);
                }
                assert forall|path: Seq<Part>|
                    task.path.is_prefix_of(path) == (task.path.len() <= path.len()
                        && #[trigger] path.take(task.path.len() as int) == task.path) by {
                    lemma_prefix(task.path, path);
                }
            }
        },
        _ => {},
    }
}

proof fn lemma_prefix(dir: Seq<Part>, path: Seq<Part>)
    ensures
        dir.is_prefix_of(path) <==> dir.len() <= path.len() && path.take(dir.len() as int) == dir,
{
    if dir.len() <= path.len() {
        assert(path.take(dir.len() as int) =~= path.subrange(0, dir.len() as int));
    }
}

/// A new directory is created unless something is there already.
pub proof fn law_creating_a_directory(s: ApplierView, task: NewDirView, reply: ReplyView)
    ensures
        ({
            let after = apply::next_step(s, Task::NewDir(task), reply);
            let goes_to = |stage: NewDirStage|
                (s, StepView::Continue(Task::NewDir(apply::NewDir { stage, ..task })));
            match task.stage {
                NewDirStage::Locate => if lies_in(s.root, reply) {
                    after == goes_to(NewDirStage::Exists)
                } else {
                    ends_with(after, s, misplaced(reply))
                },
                NewDirStage::Exists => match reply {
                    Reply::Flag(true) => after == (s, StepView::Finished(Ok(None))),
                    Reply::Flag(false) => after == goes_to(NewDirStage::Create),
                    _ => ends_with(after, s, unanswered(reply)),
                },
                NewDirStage::Create => if reply is Done {
                    after == (s, StepView::Finished(Ok(None)))
                } else {
                    ends_with(after, s, unanswered(reply))
                },
            }
        }),
{
    lemma_lies_in(s.root, reply);
}

/// A piece of content goes on at another stage and leaves the state as it is.
pub open spec fn content_goes_to(
    after: (ApplierView, StepView),
    s: ApplierView,
    task: ContentView,
    stage: ContentStage,
) -> bool {
    after == (s, StepView::Continue(Task::Content(apply::Content { stage, ..task })))
}

/// An event ends well, without a conflict.
pub open spec fn ends_well(after: (ApplierView, StepView), s: ApplierView) -> bool {
    after == (s, StepView::Finished(Ok(None)))
}

/// Content of a file that is not on its way is written into the file itself, and
/// both sides then agree on what it holds, if that can be read.
pub proof fn law_content_without_a_transfer(
    s: ApplierView,
    task: ContentView,
    reply: ReplyView,
)
    ensures
        ({
            let after = apply::next_content(s, task, reply);
            match task.stage {
                ContentStage::DirectLocate => if lies_in(s.root, reply) {
                    content_goes_to(after, s, task, ContentStage::DirectParent)
                } else {
                    ends_with(after, s, misplaced(reply))
                },
                ContentStage::DirectParent => if reply is Done {
                    content_goes_to(after, s, task, ContentStage::DirectWrite)
                } else {
                    ends_with(after, s, unanswered(reply))
                },
                ContentStage::DirectWrite => if reply is Done {
                    content_goes_to(after, s, task, ContentStage::DirectDigest)
                } else {
                    ends_with(after, s, unanswered(reply))
                },
                ContentStage::DirectDigest => match reply {
                    Reply::Digest(state) => ends_well(
                        after,
                        (ApplierView { synced: s.synced.insert(task.path, state), ..s }),
                    ),
                    _ => ends_well(after, s),
                },
                _ => true,
            }
        }),
{
    lemma_lies_in(s.root, reply);
}

/// Content of a file that is on its way is written into the file of the transfer.
/// As long as that is shorter than announced, or if it gets longer or does not have
/// the announced hash and size, nothing more happens. One that has them takes the
/// place of its target, and both sides then agree on what was announced.
pub proof fn law_content_of_a_transfer(s: ApplierView, task: ContentView, reply: ReplyView)
    ensures
        ({
            let after = apply::next_content(s, task, reply);
            match task.stage {
                ContentStage::Write => if !(reply is Done) {
                    ends_with(after, s, unanswered(reply))
                } else if s.pending.contains_key(task.path) {
                    content_goes_to(
                        after,
                        s,
                        task,
                        ContentStage::Size { expected: s.pending[task.path] },
                    )
                } else {
                    ends_well(after, s)
                },
                ContentStage::Size { expected } => match reply {
                    Reply::Size(size) => if size < expected.size {
                        ends_well(after, s)
                    } else {
                        content_goes_to(after, s, task, ContentStage::Flush { expected, size })
                    },
                    _ => ends_with(after, s, unanswered(reply)),
                },
                ContentStage::Flush { expected, size } => if !(reply is Done) {
                    ends_with(after, s, unanswered(reply))
                } else if size > expected.size {
                    ends_well(after, s)
                } else {
                    content_goes_to(after, s, task, ContentStage::Digest { expected })
                },
                ContentStage::Digest { expected } => match reply {
                    Reply::Digest(actual) => if actual.hash == expected.hash && actual.size
                        == expected.size {
                        content_goes_to(after, s, task, ContentStage::CommitLocate { expected })
                    } else {
                        ends_well(after, s)
                    },
                    _ => ends_with(after, s, unanswered(reply)),
                },
                ContentStage::CommitLocate { expected } => if lies_in(s.root, reply) {
                    content_goes_to(after, s, task, ContentStage::CommitParent { expected })
                } else {
                    ends_with(after, s, misplaced(reply))
                },
                ContentStage::CommitParent { expected } => if reply is Done {
                    content_goes_to(
                        after,
                        (ApplierView { pending: s.pending.remove(task.path), ..s }),
                        task,
                        ContentStage::CommitExists { expected },
                    )
                } else {
                    ends_with(after, s, unanswered(reply))
                },
                ContentStage::CommitExists { expected } => match reply {
                    Reply::Flag(true) => content_goes_to(
                        after,
                        s,
                        task,
                        ContentStage::CommitRemove { expected },
                    ),
                    Reply::Flag(false) => content_goes_to(
                        after,
                        s,
                        task,
                        ContentStage::CommitMove { expected },
                    ),
                    _ => ends_with(after, s, unanswered(reply)),
                },
                ContentStage::CommitRemove { expected } => if reply is Done {
                    content_goes_to(after, s, task, ContentStage::CommitMove { expected })
                } else {
                    ends_with(after, s, unanswered(reply))
                },
                ContentStage::CommitMove { expected } => if reply is Done {
                    ends_well(
                        after,
                        (ApplierView { synced: s.synced.insert(task.path, expected), ..s }),
                    )
                } else {
                    ends_with(after, s, unanswered(reply))
                },
                _ => true,
            }
        }),
{
    lemma_lies_in(s.root, reply);
}

/// Each kind of task is answered by its own rules.
pub proof fn law_answers_go_to_their_task(
    s: ApplierView,
    upsert: UpsertView,
    removal: RemovalView,
    content: ContentView,
    reply: ReplyView,
)
    ensures
        apply::next_step(s, Task::Upsert(upsert), reply) == apply::next_upsert(s, upsert, reply),
        apply::next_step(s, Task::Removal(removal), reply) == apply::next_removal(
            s,
            removal,
            reply,
        ),
        apply::next_step(s, Task::Content(content), reply) == apply::next_content(
            s,
            content,
            reply,
        ),
{
}

/// How an event with a path of plain names starts: the announcement of a file with
/// the search for a conflict, a deletion with the place of what is deleted, a new
/// directory likewise, and content by whether its file is on its way. Nothing
/// changes by that.
pub proof fn law_how_events_start(
    s: ApplierView,
    path: Seq<Part>,
    remote: FileState,
    offset: u64,
    data: Seq<u8>,
    timestamp: i64,
)
    requires
        path.len() > 0,
        forall|i: int| 0 <= i < path.len() ==> is_plain_name(#[trigger] path[i]),
    ensures
        ({
            let announced = |modified: bool|
                (
                    s,
                    StepView::Continue(
                        Task::Upsert(
                            Upsert {
                                path,
                                modified,
                                remote,
                                timestamp,
                                conflict: None,
                                stage: UpsertStage::ConflictLocate,
                            },
                        ),
                    ),
                );
            let deleted = |tree: bool|
                (
                    s,
                    StepView::Continue(
                        Task::Removal(
                            apply::Removal { path, tree, stage: RemovalStage::Locate },
                        ),
                    ),
                );
            let written = |stage: ContentStage|
                (
                    s,
                    StepView::Continue(
                        Task::Content(apply::Content { path, offset, data, stage }),
                    ),
                );
            let content_hash = remote.hash;
            let size = remote.size;
            let content = apply::start(
                s,
                EventView::FileContent { path, offset, data },
                timestamp,
            );
            &&& apply::start(s, EventView::FileCreated { path, content_hash, size }, timestamp)
                == announced(false)
            &&& apply::start(s, EventView::FileModified { path, content_hash, size }, timestamp)
                == announced(true)
            &&& apply::start(s, EventView::FileDeleted { path }, timestamp) == deleted(false)
            &&& apply::start(s, EventView::DirDeleted { path }, timestamp) == deleted(true)
            &&& apply::start(s, EventView::DirCreated { path }, timestamp) == (
                s,
                StepView::Continue(
                    Task::NewDir(apply::NewDir { path, stage: NewDirStage::Locate }),
                ),
            )
            &&& s.blocked.contains(path) ==> content == (s, StepView::Finished(Ok(None)))
            &&& !s.blocked.contains(path) && s.pending.contains_key(path) ==> content == written(
                ContentStage::Write,
            )
            &&& !s.blocked.contains(path) && !s.pending.contains_key(path) ==> content == written(
                ContentStage::DirectLocate,
            )
        }),
{
    law_path_faults(path, 0);
}

/// An event whose path is not accepted fails at once with what is wrong with it.
/// That of an announcement gives up what is under way of that path; nothing else
/// changes.
pub proof fn law_refused_events(
    s: ApplierView,
    event: EventView,
    path: Seq<Part>,
    fault: ApplyError,
    timestamp: i64,
)
    requires
        crate::event::event_path(event) == Some(path),
        apply::path_fault(path) == Some(fault),
        event is FileContent ==> !s.blocked.contains(path) && !s.pending.contains_key(path),
    ensures
        ({
            let after = apply::start(s, event, timestamp);
            &&& after.1 == StepView::Finished(Err(fault))
            &&& event is FileCreated || event is FileModified ==> after.0 == (ApplierView {
                pending: s.pending.remove(path),
                blocked: s.blocked.remove(path),
                ..s
            })
            &&& !(event is FileCreated || event is FileModified) ==> after.0 == s
        }),
{
}

/// The value of a state of the applier is unchanged by a step but for the path of
/// the event, and for what lies under it where a directory is deleted.
pub proof fn law_other_files_are_left_alone(
    s: ApplierView,
    task: TaskView,
    reply: ReplyView,
    other: Seq<Part>,
)
    requires
        match task {
            Task::Upsert(t) => t.path != other,
            Task::Removal(t) => t.path != other && !(t.tree && t.path.is_prefix_of(other)),
            Task::NewDir(_) => true,
            Task::Content(t) => t.path != other,
        },
    ensures
        ({
            let after = apply::next_step(s, task, reply).0;
            &&& after.root == s.root
            &&& after.strategy == s.strategy
            &&& after.synced.contains_key(other) == s.synced.contains_key(other)
            &&& s.synced.contains_key(other) ==> after.synced[other] == s.synced[other]
            &&& after.pending.contains_key(other) == s.pending.contains_key(other)
            &&& s.pending.contains_key(other) ==> after.pending[other] == s.pending[other]
            &&& after.blocked.contains(other) == s.blocked.contains(other)
        }),
{
}

/// Several events start one after the other. The first that needs an answer keeps
/// the rest waiting, the first that fails ends all, and every conflict that was
/// found is reported, in order.
pub proof fn law_events_start_in_turn(
    s: ApplierView,
    event: EventView,
    rest: Seq<EventView>,
    timestamp: i64,
    conflicts: Seq<apply::ConflictView>,
)
    ensures
        apply::start_rest(s, Seq::empty(), timestamp, conflicts) == (
            s,
            apply::BatchStepView::Finished(Ok(conflicts)),
        ),
        ({
            let first = apply::start(s, event, timestamp);
            apply::start_rest(s, seq![event] + rest, timestamp, conflicts) == (match first.1 {
                Step::Continue(task) => (
                    first.0,
                    apply::BatchStepView::Continue(
                        apply::BatchView { task, rest, timestamp, conflicts },
                    ),
                ),
                Step::Finished(Ok(None)) => apply::start_rest(
                    first.0,
                    rest,
                    timestamp,
                    conflicts,
                ),
                Step::Finished(Ok(Some(found))) => apply::start_rest(
                    first.0,
                    rest,
                    timestamp,
                    conflicts.push(found),
                ),
                Step::Finished(Err(error)) => (
                    first.0,
                    apply::BatchStepView::Finished(Err(error)),
                ),
            })
        }),
{
    let all = seq![event] + rest;
    assert(all[0] == event);
    assert(all.skip(1) =~= rest);
}

/// An answer goes to the event that waits for it. Once that is done the rest
/// starts, with its conflict noted, unless it failed.
pub proof fn law_answers_in_turn(s: ApplierView, batch: apply::BatchView, reply: ReplyView)
    ensures
        ({
            let one = apply::next_step(s, batch.task, reply);
            apply::next_batch(s, batch, reply) == (match one.1 {
                Step::Continue(task) => (
                    one.0,
                    apply::BatchStepView::Continue(
                        apply::BatchView {
                            task,
                            rest: batch.rest,
                            timestamp: batch.timestamp,
                            conflicts: batch.conflicts,
                        },
                    ),
                ),
                Step::Finished(Ok(None)) => apply::start_rest(
                    one.0,
                    batch.rest,
                    batch.timestamp,
                    batch.conflicts,
                ),
                Step::Finished(Ok(Some(found))) => apply::start_rest(
                    one.0,
                    batch.rest,
                    batch.timestamp,
                    batch.conflicts.push(found),
                ),
                Step::Finished(Err(error)) => (one.0, apply::BatchStepView::Finished(Err(error))),
            })
        }),
{
}

/// A path is read component by component.
pub proof fn law_values_of_paths(whole: crate::path::SyncPath, i: int)
    ensures
        whole@.len() == whole.parts@.len(),
        0 <= i < whole@.len() ==> (match whole.parts@[i] {
            crate::path::Component::Prefix(prefix) => whole@[i] == Part::Prefix(prefix@),
            crate::path::Component::RootDir => whole@[i] == Part::Root,
            crate::path::Component::CurDir => whole@[i] == Part::Cur,
            crate::path::Component::ParentDir => whole@[i] == Part::Parent,
            crate::path::Component::Normal(name) => whole@[i] == Part::Normal(name@),
        }),
{
}

/// A reply is taken as it is.
pub proof fn law_values_of_replies(reply: apply::FsReply)
    ensures
        match reply {
            Reply::Located(Some(path)) => reply@ == ReplyView::Located(Some(path@)),
            Reply::Located(None) => reply@ == ReplyView::Located(None),
            Reply::TempRoot(path) => reply@ == ReplyView::TempRoot(path@),
            Reply::Flag(flag) => reply@ == ReplyView::Flag(flag),
            Reply::Digest(state) => reply@ == ReplyView::Digest(state),
            Reply::Millis(millis) => reply@ == ReplyView::Millis(millis),
            Reply::Size(size) => reply@ == ReplyView::Size(size),
            Reply::Done => reply@ == ReplyView::Done,
            Reply::Failed => reply@ == ReplyView::Failed,
        },
{
}

/// A request is made as it is.
pub proof fn law_values_of_requests(request: apply::FsRequest)
    ensures
        match request {
            Request::Locate { area, path } => request@ == (RequestView::Locate {
                area,
                path: path@,
            }),
            Request::Exists { path } => request@ == (RequestView::Exists { path: path@ }),
            Request::Digest { area, path } => request@ == (RequestView::Digest {
                area,
                path: path@,
            }),
            Request::Mtime { path } => request@ == (RequestView::Mtime { path: path@ }),
            Request::Rename { path, to } => request@ == (RequestView::Rename {
                path: path@,
                to: to@,
            }),
            Request::CreateParent { area, path } => request@ == (RequestView::CreateParent {
                area,
                path: path@,
            }),
            Request::CreateDir { path } => request@ == (RequestView::CreateDir { path: path@ }),
            Request::WriteEmpty { path } => request@ == (RequestView::WriteEmpty { path: path@ }),
            Request::IsTempRootLink => request@ == RequestView::IsTempRootLink,
            Request::MakeTempRoot => request@ == RequestView::MakeTempRoot,
            Request::OpenTemp { path } => request@ == (RequestView::OpenTemp { path: path@ }),
            Request::WriteTemp { path, offset, data } => request@ == (RequestView::WriteTemp {
                path: path@,
                offset,
                data: data@,
            }),
            Request::TempSize { path } => request@ == (RequestView::TempSize { path: path@ }),
            Request::FlushTemp { path } => request@ == (RequestView::FlushTemp { path: path@ }),
            Request::WriteTarget { path, offset, truncate, data } => request@ == (
            RequestView::WriteTarget { path: path@, offset, truncate, data: data@ }),
            Request::RemoveFile { area, path } => request@ == (RequestView::RemoveFile {
                area,
                path: path@,
            }),
            Request::RemoveDir { area, path } => request@ == (RequestView::RemoveDir {
                area,
                path: path@,
            }),
            Request::MoveIntoPlace { path } => request@ == (RequestView::MoveIntoPlace {
                path: path@,
            }),
        },
{
}

/// A conflict is reported as it is.
pub proof fn law_values_of_conflicts(conflict: apply::ConflictInfo)
    ensures
        conflict@.path == conflict.path@,
        conflict@.local_hash == conflict.local_hash,
        conflict@.local_size == conflict.local_size,
        conflict@.remote_hash == conflict.remote_hash,
        conflict@.remote_size == conflict.remote_size,
        apply::conflict_view(None) is None,
        apply::conflict_view(Some(conflict)) == Some(conflict@),
{
}

/// A task is what its fields say.
pub proof fn law_values_of_tasks(task: apply::ApplyTask)
    ensures
        match task {
            Task::Upsert(t) => task@ matches Task::Upsert(v) && v.path == t.path@ && v.modified
                == t.modified && v.remote == t.remote && v.timestamp == t.timestamp && v.conflict
                == apply::conflict_view(t.conflict) && (match t.stage {
                UpsertStage::ConflictLocate => v.stage is ConflictLocate,
                UpsertStage::ConflictExists => v.stage is ConflictExists,
                UpsertStage::ConflictDigest => v.stage is ConflictDigest,
                UpsertStage::ConflictMtime { local } => v.stage == (UpsertStage::<
                    Seq<Part>,
                >::ConflictMtime { local }),
                UpsertStage::AsideLocate => v.stage is AsideLocate,
                UpsertStage::AsideExists => v.stage is AsideExists,
                UpsertStage::AsideProbe { turn } => v.stage == (UpsertStage::<
                    Seq<Part>,
                >::AsideProbe { turn }),
                UpsertStage::AsideRename { turn } => v.stage == (UpsertStage::<
                    Seq<Part>,
                >::AsideRename { turn }),
                UpsertStage::Locate => v.stage is Locate,
                UpsertStage::Parent => v.stage is Parent,
                UpsertStage::EmptyWrite => v.stage is EmptyWrite,
                UpsertStage::EmptyDigest => v.stage is EmptyDigest,
                UpsertStage::Temp(stage) => v.stage == UpsertStage::Temp(temp_value(stage)),
                UpsertStage::TempParent => v.stage is TempParent,
                UpsertStage::TempOpen => v.stage is TempOpen,
            }),
            Task::Removal(t) => task@ matches Task::Removal(v) && v.path == t.path@ && v.tree
                == t.tree && (match t.stage {
                RemovalStage::Locate => v.stage is Locate,
                RemovalStage::Temp(stage) => v.stage == RemovalStage::Temp(temp_value(stage)),
                RemovalStage::TempRemove => v.stage is TempRemove,
                RemovalStage::Exists => v.stage is Exists,
                RemovalStage::Remove => v.stage is Remove,
            }),
            Task::NewDir(t) => task@ matches Task::NewDir(v) && v.path == t.path@ && v.stage
                == t.stage,
            Task::Content(t) => task@ matches Task::Content(v) && v.path == t.path@ && v.offset
                == t.offset && v.data == t.data@ && v.stage == t.stage,
        },
{
}

/// The value of a stage of the search for a place in the internal directory.
pub open spec fn temp_value(stage: TempStage<crate::path::SyncPath>) -> TempStage<Seq<Part>> {
    match stage {
        TempStage::Link => TempStage::Link,
        TempStage::Root => TempStage::Root,
        TempStage::Spot { base } => TempStage::Spot { base: base@ },
    }
}

/// Once the time of the last change of a local file is known, or cannot be known,
/// the local version is kept if that makes a conflict, and else the announced one
/// is accepted.
pub proof fn law_time_decides(
    s: ApplierView,
    task: UpsertView,
    local: FileState,
    reply: ReplyView,
)
    requires
        task.stage == (UpsertStage::<Seq<Part>>::ConflictMtime { local }),
    ensures
        ({
            let after = apply::next_upsert(s, task, reply);
            let modified = match reply {
                Reply::Millis(millis) => millis,
                _ => None,
            };
            match apply::conflict_found(
                s,
                task.path,
                task.remote,
                task.timestamp,
                local,
                modified,
            ) {
                None => is_accepted(after, s, task),
                Some(found) => after == (
                    (ApplierView {
                        pending: if task.modified {
                            s.pending.remove(task.path)
                        } else {
                            s.pending
                        },
                        blocked: s.blocked.insert(task.path),
                        ..s
                    }),
                    StepView::Finished(Ok(Some(found))),
                ),
            }
        }),
{
}

/// Also a time that does not fit counts as it is told, cut to 64 bits.
pub proof fn law_conflict_by_any_time(
    s: ApplierView,
    path: Seq<Part>,
    remote: FileState,
    timestamp: i64,
    local: FileState,
    modified: Option<u128>,
)
    requires
        s.synced.contains_key(path),
        local.hash != remote.hash,
        local.hash != s.synced[path].hash,
    ensures
        s.strategy is LastWriteWins ==> (apply::conflict_found(
            s,
            path,
            remote,
            timestamp,
            local,
            modified,
        ) is Some <==> timestamp < apply::mtime_millis(modified)),
        s.strategy is KeepBoth ==> apply::conflict_found(
            s,
            path,
            remote,
            timestamp,
            local,
            modified,
        ) is Some,
{
}

/// The event of a batch that waits for an answer is the one whose request is made.
pub proof fn law_values_of_batches(batch: apply::Batch)
    ensures
        batch@.task == batch.task@,
{
}

} // verus!
