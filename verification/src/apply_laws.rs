//! Laws of [`crate::apply`]: what holds of every event, whatever the disk replies.

use crate::apply;
use crate::apply::{
    ApplierView, Area, ContentStage, ContentView, NewDirStage, RemovalStage, Reply, ReplyView,
    Request, RequestView, Step, Task, TaskView, TempStage, Upsert, UpsertStage, UpsertView,
};
use crate::cli::ConflictStrategy;
use crate::event::EventView;
use crate::path::Part;
use crate::watcher::{FileState, INTERNAL_TEMP_DIR};
use vstd::prelude::*;

verus! {

/// The path of the event that a task belongs to.
pub open spec fn task_path(task: TaskView) -> Seq<Part> {
    match task {
        Task::Upsert(upsert) => upsert.path,
        Task::Removal(removal) => removal.path,
        Task::NewDir(new_dir) => new_dir.path,
        Task::Content(content) => content.path,
    }
}

/// Every file that is on its way or blocked has a path of plain names.
pub open spec fn transfers_plain(s: ApplierView) -> bool {
    &&& forall|path: Seq<Part>| #[trigger] s.pending.contains_key(path) ==> apply::is_plain(path)
    &&& forall|path: Seq<Part>| #[trigger] s.blocked.contains(path) ==> apply::is_plain(path)
}

/// The paths that a request names.
pub open spec fn names_path(request: RequestView, path: Seq<Part>) -> bool {
    match request {
        Request::Locate { path: p, .. } => p == path,
        Request::Exists { path: p } => p == path,
        Request::Digest { path: p, .. } => p == path,
        Request::Mtime { path: p } => p == path,
        Request::Rename { path: p, to } => p == path || to == path,
        Request::CreateParent { path: p, .. } => p == path,
        Request::CreateDir { path: p } => p == path,
        Request::WriteEmpty { path: p } => p == path,
        Request::IsTempRootLink => false,
        Request::MakeTempRoot => false,
        Request::OpenTemp { path: p } => p == path,
        Request::WriteTemp { path: p, .. } => p == path,
        Request::TempSize { path: p } => p == path,
        Request::FlushTemp { path: p } => p == path,
        Request::WriteTarget { path: p, .. } => p == path,
        Request::RemoveFile { path: p, .. } => p == path,
        Request::RemoveDir { path: p, .. } => p == path,
        Request::MoveIntoPlace { path: p } => p == path,
    }
}

/// An applier that has seen nothing has no file on its way and none blocked.
pub proof fn law_new_transfers_plain(s: ApplierView)
    requires
        s.pending == Map::<Seq<Part>, FileState>::empty(),
        s.blocked == Set::<Seq<Part>>::empty(),
    ensures
        transfers_plain(s),
{
}

/// An event that starts has a path of plain names, and so have all the files
/// that are on their way or blocked.
pub proof fn law_started_paths_plain(s: ApplierView, event: EventView, timestamp: i64)
    requires
        transfers_plain(s),
    ensures
        transfers_plain(apply::start(s, event, timestamp).0),
        apply::start(s, event, timestamp).1 matches Step::Continue(task) ==> apply::is_plain(
            task_path(task),
        ),
{
    match crate::event::event_path(event) {
        Some(path) => {
            apply::law_accepted_paths_are_plain(path);
        },
        None => {},
    }
}

/// A reply does not change the path of a task, and the files that are then on
/// their way or blocked still have paths of plain names.
pub proof fn law_resumed_paths_plain(s: ApplierView, task: TaskView, reply: ReplyView)
    requires
        transfers_plain(s),
        apply::is_plain(task_path(task)),
    ensures
        transfers_plain(apply::next_step(s, task, reply).0),
        apply::next_step(s, task, reply).1 matches Step::Continue(next) ==> task_path(next)
            == task_path(task),
{
}

proof fn lemma_ascii_char(c: char)
    requires
        (c as int) < 0x80,
    ensures
        vstd::utf8::encode_scalar(c as u32) == seq![c as u8],
{
    let code: u32 = c as u32;
    assert(code == c as int);
    assert((code & 0x7F) as u8 == code as u8) by (bit_vector)
        requires
            code < 0x80,
    ;
}

/// The bytes of a text of ASCII characters are their codes.
pub proof fn lemma_ascii(chars: Seq<char>)
    requires
        forall|i: int| 0 <= i < chars.len() ==> (#[trigger] chars[i] as int) < 0x80,
    ensures
        vstd::utf8::encode_utf8(chars).len() == chars.len(),
        forall|i: int|
            0 <= i < chars.len() ==> #[trigger] vstd::utf8::encode_utf8(chars)[i] == chars[i] as u8,
    decreases chars.len(),
{
    if chars.len() > 0 {
        let rest = chars.drop_first();
        assert forall|i: int| 0 <= i < rest.len() implies (#[trigger] rest[i] as int) < 0x80 by {
            assert(rest[i] == chars[i + 1]);
        }
        lemma_ascii(rest);
        lemma_ascii_char(chars[0]);
        let whole = vstd::utf8::encode_utf8(chars);
        assert(whole =~= seq![chars[0] as u8] + vstd::utf8::encode_utf8(rest));
        assert forall|i: int| 0 <= i < chars.len() implies #[trigger] whole[i]
            == chars[i] as u8 by {
            if i > 0 {
                assert(whole[i] == vstd::utf8::encode_utf8(rest)[i - 1]);
                assert(rest[i - 1] == chars[i]);
            }
        }
    }
}

/// The letter `l`, which the name of the internal directory has not.
spec fn has_l(name: Seq<u8>) -> bool {
    exists|i: int| 0 <= i < name.len() && name[i] == 0x6c
}

proof fn lemma_temp_name_has_no_l()
    ensures
        !has_l(crate::watcher::temp_dir_name()),
{
    reveal_strlit(".dirsync_tmp");
    lemma_ascii(INTERNAL_TEMP_DIR@);
}

proof fn lemma_candidate_has_l(name: Seq<u8>, turn: nat)
    ensures
        has_l(
            crate::names::candidate(name, vstd::utf8::encode_utf8(apply::LOCAL_TAG@), turn),
        ),
{
    reveal_strlit("local");
    lemma_ascii(apply::LOCAL_TAG@);
    let tag = vstd::utf8::encode_utf8(apply::LOCAL_TAG@);
    let dot = crate::path::DOT;
    let whole = crate::names::candidate(name, tag, turn);
    let at = if crate::names::last_dot(name) < 0 {
        name.len() as int
    } else {
        crate::names::last_dot(name)
    };
    lemma_last_dot_inside(name);
    assert(whole[at + 1] == tag[0]);
}

proof fn lemma_last_dot_inside(name: Seq<u8>)
    ensures
        crate::names::last_dot(name) < name.len(),
    decreases name.len(),
{
    if name.len() > 0 {
        lemma_last_dot_inside(name.drop_last());
    }
}

/// The kept copy of a file lies beside it, under a plain name.
pub proof fn law_kept_copy_lies_beside(path: Seq<Part>, turn: u32)
    requires
        apply::is_plain(path),
    ensures
        apply::is_plain(apply::kept_copy(path, turn)),
        apply::kept_copy(path, turn).drop_last() == path.drop_last(),
{
    let copy = apply::kept_copy(path, turn);
    let name = crate::names::name_text(path);
    let tag = vstd::utf8::encode_utf8(apply::LOCAL_TAG@);
    let chosen = crate::names::candidate(name, tag, turn as nat);
    lemma_candidate_has_l(name, turn as nat);
    lemma_temp_name_has_no_l();
    assert(path.last() is Normal);
    assert(copy =~= path.drop_last().push(Part::Normal(chosen)));
    assert(copy.drop_last() =~= path.drop_last());
    assert forall|i: int| 0 <= i < copy.len() implies (#[trigger] copy[i]) is Normal && copy[i]
        != Part::Normal(crate::watcher::temp_dir_name()) by {
        if i < path.len() - 1 {
            assert(copy[i] == path[i]);
        }
    }
}

/// No request of an event names anything but plain paths: whatever the other
/// side sends, nothing outside the synchronised directory is touched through a
/// path, nor what lies in its internal directory but through a transfer.
pub proof fn law_requests_are_plain(task: TaskView, path: Seq<Part>)
    requires
        apply::is_plain(task_path(task)),
        names_path(apply::task_request(task), path),
    ensures
        apply::is_plain(path),
{
    match task {
        Task::Upsert(upsert) => match upsert.stage {
            UpsertStage::AsideProbe { turn } => {
                law_kept_copy_lies_beside(upsert.path, turn);
            },
            UpsertStage::AsideRename { turn } => {
                law_kept_copy_lies_beside(upsert.path, turn);
            },
            _ => {},
        },
        _ => {},
    }
}

/// An event whose path is not of plain names is refused with what is wrong with
/// it, in every state that an applier gets to.
pub proof fn law_unsafe_path_refused(s: ApplierView, event: EventView, timestamp: i64)
    requires
        transfers_plain(s),
        crate::event::event_path(event) matches Some(path) && apply::path_fault(path) is Some,
    ensures
        crate::event::event_path(event) matches Some(path) && apply::path_fault(path) matches Some(
            fault,
        ) && apply::start(s, event, timestamp).1 == apply::failed(fault),
{
    apply::law_accepted_paths_are_plain(crate::event::event_path(event)->0);
}

/// A sign of life changes nothing and reports nothing.
pub proof fn law_heartbeat_changes_nothing(s: ApplierView, timestamp: i64, at: i64)
    ensures
        apply::start(s, EventView::Heartbeat { timestamp }, at) == (
            s,
            apply::StepView::Finished(Ok(None)),
        ),
{
}

/// Content of a file whose local version was kept is ignored.
pub proof fn law_blocked_content_ignored(
    s: ApplierView,
    path: Seq<Part>,
    offset: u64,
    data: Seq<u8>,
    timestamp: i64,
)
    requires
        s.blocked.contains(path),
    ensures
        apply::start(s, EventView::FileContent { path, offset, data }, timestamp) == (
            s,
            apply::StepView::Finished(Ok(None)),
        ),
{
}

/// What brings an applier into its next state: an event that it starts with, or
/// a reply to one of its requests.
pub enum Cause {
    Event { event: EventView, timestamp: i64 },
    Reply { task: TaskView, reply: ReplyView },
}

/// The state of an applier after a cause.
pub open spec fn after_cause(s: ApplierView, cause: Cause) -> ApplierView {
    match cause {
        Cause::Event { event, timestamp } => apply::start(s, event, timestamp).0,
        Cause::Reply { task, reply } => apply::next_step(s, task, reply).0,
    }
}

/// The state of an applier after several causes.
pub open spec fn after_causes(s: ApplierView, causes: Seq<Cause>) -> ApplierView
    decreases causes.len(),
{
    if causes.len() == 0 {
        s
    } else {
        after_cause(after_causes(s, causes.drop_last()), causes.last())
    }
}

/// A cause belongs to an announcement of a file or to its deletion, that of a
/// directory above it among them.
pub open spec fn renews(cause: Cause, path: Seq<Part>) -> bool {
    match cause {
        Cause::Event { event, .. } => match event {
            EventView::FileCreated { path: own, .. } => own == path,
            EventView::FileModified { path: own, .. } => own == path,
            _ => false,
        },
        Cause::Reply { task, .. } => match task {
            Task::Upsert(upsert) => upsert.path == path,
            Task::Removal(removal) => removal.path == path || (removal.tree
                && removal.path.is_prefix_of(path)),
            _ => false,
        },
    }
}

/// A file whose local version was kept stays blocked, and its content ignored,
/// over all that happens to other files, until it is announced again or deleted.
pub proof fn law_kept_version_stays(
    s: ApplierView,
    path: Seq<Part>,
    causes: Seq<Cause>,
    offset: u64,
    data: Seq<u8>,
    timestamp: i64,
)
    requires
        s.blocked.contains(path),
        forall|i: int| 0 <= i < causes.len() ==> !renews(#[trigger] causes[i], path),
    ensures
        after_causes(s, causes).blocked.contains(path),
        apply::start(
            after_causes(s, causes),
            EventView::FileContent { path, offset, data },
            timestamp,
        ) == (after_causes(s, causes), apply::StepView::Finished(Ok(None))),
    decreases causes.len(),
{
    if causes.len() > 0 {
        let before = causes.drop_last();
        assert forall|i: int| 0 <= i < before.len() implies !renews(#[trigger] before[i], path) by {
            assert(before[i] == causes[i]);
        }
        law_kept_version_stays(s, path, before, offset, data, timestamp);
        assert(!renews(causes[causes.len() - 1], path));
    }
}

/// A file on which the two sides never agreed is in no conflict: whatever it
/// holds, the remote version is accepted.
pub proof fn law_first_sync_has_no_conflict(s: ApplierView, task: UpsertView, reply: ReplyView)
    requires
        task.stage is ConflictDigest,
        !s.synced.contains_key(task.path),
    ensures
        apply::next_upsert(s, task, reply) == apply::prepare(s, task),
{
}

/// A local file that is as both sides last agreed, or already what the other
/// side announces, is in no conflict.
pub proof fn law_unchanged_file_has_no_conflict(
    s: ApplierView,
    task: UpsertView,
    local: FileState,
)
    requires
        task.stage is ConflictDigest,
        local.hash == task.remote.hash || (s.synced.contains_key(task.path) && local.hash
            == s.synced[task.path].hash),
    ensures
        apply::next_upsert(s, task, ReplyView::Digest(local)) == apply::prepare(s, task),
{
}

/// Where two versions diverged, under last-write-wins the newer side wins, and the
/// remote one in a draw: the remote version is prepared, or the conflict is
/// reported, the local file stays and the remote content is ignored until the
/// next announcement.
pub proof fn law_last_write_wins(
    s: ApplierView,
    task: UpsertView,
    local: FileState,
    modified: Option<u128>,
)
    requires
        task.stage == (UpsertStage::<Seq<Part>>::ConflictMtime { local }),
        s.strategy is LastWriteWins,
        apply::diverged(s, task.path, task.remote, local),
    ensures
        task.timestamp >= apply::mtime_millis(modified) ==> apply::next_upsert(
            s,
            task,
            ReplyView::Millis(modified),
        ) == apply::prepare(s, task),
        task.timestamp < apply::mtime_millis(modified) ==> ({
            let after = apply::next_upsert(s, task, ReplyView::Millis(modified));
            &&& after.1 == apply::StepView::Finished(
                Ok(Some(apply::conflict_of(task.path, task.remote, local))),
            )
            &&& after.0.blocked.contains(task.path)
            &&& after.0.synced == s.synced
        }),
{
}

/// A request that leaves the disk as it is.
pub open spec fn only_looks(request: RequestView) -> bool {
    request is Locate || request is Exists || request is Digest || request is Mtime
}

/// While a conflict is looked for, the disk is only looked at. So a file whose
/// local version is kept is not touched.
pub proof fn law_conflict_search_only_looks(task: UpsertView)
    requires
        task.stage is ConflictLocate || task.stage is ConflictExists || task.stage
            is ConflictDigest || task.stage is ConflictMtime,
    ensures
        only_looks(apply::upsert_request(task)),
{
}

/// The conflict of a file of which both versions are kept.
pub open spec fn kept_conflict(task: TaskView) -> Option<apply::ConflictView> {
    match task {
        Task::Upsert(upsert) => upsert.conflict,
        _ => None,
    }
}

/// Under keep-both a conflict is neither lost nor does it block the remote
/// version: the local file is moved aside, the transfer is prepared, and the
/// conflict is reported when that succeeds.
pub proof fn law_keep_both_reports_conflict(
    s: ApplierView,
    task: UpsertView,
    local: FileState,
    reply: ReplyView,
)
    requires
        s.strategy is KeepBoth,
    ensures
        task.stage is ConflictDigest && apply::diverged(s, task.path, task.remote, local)
            ==> apply::next_upsert(s, task, ReplyView::Digest(local)) == (
            s,
            apply::upsert_at(
                (Upsert {
                    conflict: Some(apply::conflict_of(task.path, task.remote, local)),
                    ..task
                }),
                UpsertStage::AsideLocate,
            ),
        ),
        task.conflict is Some && !(task.stage is ConflictDigest) && !(task.stage
            is ConflictMtime) ==> (match apply::next_upsert(s, task, reply).1 {
            Step::Continue(next) => kept_conflict(next) == task.conflict,
            Step::Finished(Ok(conflict)) => conflict == task.conflict,
            Step::Finished(Err(_)) => true,
        }),
        task.stage !is ConflictMtime ==> forall|path: Seq<Part>| #[trigger]
            apply::next_upsert(s, task, reply).0.blocked.contains(path) ==> s.blocked.contains(
                path,
            ),
{
}

/// A local copy is moved only to a name that was just found free, unless all
/// candidates are taken.
pub proof fn law_kept_copy_replaces_nothing(
    s: ApplierView,
    task: UpsertView,
    reply: ReplyView,
    turn: u32,
)
    requires
        apply::next_upsert(s, task, reply).1 == apply::upsert_at(
            task,
            (UpsertStage::AsideRename { turn }),
        ),
    ensures
        task.stage is AsideProbe,
        reply == ReplyView::Flag(true) ==> task.stage->AsideProbe_turn + 1
            >= crate::names::MAX_COPIES && turn == 0,
        reply != ReplyView::Flag(true) ==> task.stage->AsideProbe_turn == turn,
{
}

/// A search for a free name goes through the candidates one by one from the
/// first on.
pub proof fn law_copy_names_tried_in_order(
    s: ApplierView,
    task: UpsertView,
    reply: ReplyView,
    turn: u32,
)
    requires
        apply::next_upsert(s, task, reply).1 == apply::upsert_at(
            task,
            (UpsertStage::AsideProbe { turn }),
        ),
    ensures
        reply == ReplyView::Flag(true),
        turn == 0 ==> task.stage is AsideExists,
        turn > 0 ==> task.stage is AsideProbe && task.stage->AsideProbe_turn + 1 == turn,
{
}

/// What is announced of the file whose transfer a content task goes on with.
pub open spec fn expectation(task: ContentView) -> Option<FileState> {
    match task.stage {
        ContentStage::Size { expected } => Some(expected),
        ContentStage::Flush { expected, .. } => Some(expected),
        ContentStage::Digest { expected } => Some(expected),
        ContentStage::CommitLocate { expected } => Some(expected),
        ContentStage::CommitParent { expected } => Some(expected),
        ContentStage::CommitExists { expected } => Some(expected),
        ContentStage::CommitRemove { expected } => Some(expected),
        ContentStage::CommitMove { expected } => Some(expected),
        _ => None,
    }
}

/// The transfer was found complete and is being put in place.
pub open spec fn committing(task: ContentView) -> bool {
    task.stage is CommitLocate || task.stage is CommitParent || task.stage is CommitExists
        || task.stage is CommitRemove || task.stage is CommitMove
}

/// A file is put in place only after the file of its transfer was found to have
/// exactly the announced hash and size; the announcement is the one that the
/// transfer was prepared with.
pub proof fn law_only_verified_files_are_placed(
    s: ApplierView,
    task: ContentView,
    reply: ReplyView,
    next: ContentView,
)
    requires
        apply::next_content(s, task, reply).1 == apply::StepView::Continue(Task::Content(next)),
    ensures
        next.path == task.path,
        committing(next) ==> committing(task) || (task.stage is Digest && reply
            == ReplyView::Digest(task.stage->Digest_expected)),
        expectation(next) is Some ==> expectation(next) == expectation(task) || (task.stage
            is Write && s.pending.contains_key(task.path) && expectation(next) == Some(
            s.pending[task.path],
        )),
{
}

/// No event starts by putting a file in place.
pub proof fn law_no_event_starts_committing(s: ApplierView, event: EventView, timestamp: i64)
    ensures
        apply::start(s, event, timestamp).1 matches Step::Continue(Task::Content(content))
            ==> !committing(content) && expectation(content) is None,
{
}

/// A task that asks for a file to be put in place is at the last stage of a
/// complete transfer.
pub proof fn law_placing_is_last(task: TaskView, path: Seq<Part>)
    requires
        apply::task_request(task) == (RequestView::MoveIntoPlace { path }),
    ensures
        task matches Task::Content(content) && content.stage is CommitMove && content.path
            == path,
{
}

/// Once a file is in place, both sides agree on what was announced of it. Until
/// the end of the event nothing else of the state changes but its transfer,
/// which is no longer under way.
pub proof fn law_placed_file_is_synced(s: ApplierView, task: ContentView, expected: FileState)
    requires
        task.stage == (ContentStage::CommitMove { expected }),
    ensures
        apply::next_content(s, task, ReplyView::Done) == (
            apply::with_synced(s, task.path, expected),
            apply::StepView::Finished(Ok(None)),
        ),
{
}

/// A deleted directory takes with it all that is known of the files under it,
/// and nothing else.
pub proof fn law_deleted_directory_is_forgotten(
    s: ApplierView,
    dir: Seq<Part>,
    path: Seq<Part>,
)
    ensures
        dir.is_prefix_of(path) ==> ({
            let after = apply::without_tree(s, dir);
            &&& !after.synced.contains_key(path)
            &&& !after.pending.contains_key(path)
            &&& !after.blocked.contains(path)
        }),
        !dir.is_prefix_of(path) ==> ({
            let after = apply::without_tree(s, dir);
            &&& after.synced.contains_key(path) == s.synced.contains_key(path)
            &&& s.synced.contains_key(path) ==> after.synced[path] == s.synced[path]
            &&& after.pending.contains_key(path) == s.pending.contains_key(path)
            &&& s.pending.contains_key(path) ==> after.pending[path] == s.pending[path]
            &&& after.blocked.contains(path) == s.blocked.contains(path)
        }),
{
}

/// Nothing is written or removed before the place in question was found to lie
/// where it must: every task that gets past a search for it got the answer that
/// the deepest existing ancestor lies in the directory in question.
pub proof fn law_places_are_checked(s: ApplierView, task: TaskView, reply: ReplyView)
    requires
        apply::task_request(task) matches Request::Locate { area, .. } && area == Area::Target,
        task matches Task::Upsert(upsert) ==> upsert.stage is Locate,
        apply::next_step(s, task, reply).1 is Continue,
    ensures
        reply matches Reply::Located(Some(ancestor)) && s.root.is_prefix_of(ancestor),
{
}

/// The internal directory is used only if it is no link and lies in the
/// synchronised directory, and a path in it only if it lies in there.
pub proof fn law_temp_places_are_checked(
    root: Seq<Part>,
    stage: TempStage<Seq<Part>>,
    reply: ReplyView,
)
    requires
        apply::next_temp(root, stage, reply) is Ok,
    ensures
        match stage {
            TempStage::Link => reply == ReplyView::Flag(false),
            TempStage::Root => reply matches Reply::TempRoot(base) && root.is_prefix_of(base),
            TempStage::Spot { base } => reply matches Reply::Located(Some(ancestor))
                && base.is_prefix_of(ancestor),
        },
{
}

/// What becomes of an announced file once the state of the local one is known,
/// and the time at which that was modified, where it is asked for.
pub open spec fn decided(
    s: ApplierView,
    task: UpsertView,
    local: FileState,
    modified: Option<u128>,
) -> (ApplierView, apply::StepView) {
    let after = apply::next_upsert(
        s,
        Upsert { stage: UpsertStage::ConflictDigest, ..task },
        ReplyView::Digest(local),
    );
    match after.1 {
        Step::Continue(Task::Upsert(next)) => if next.stage is ConflictMtime {
            apply::next_upsert(after.0, next, ReplyView::Millis(modified))
        } else {
            after
        },
        _ => after,
    }
}

/// Exactly where there is no conflict the remote version is accepted as it is.
/// Else the local version is kept, or moved aside.
pub proof fn law_conflict_decides(
    s: ApplierView,
    task: UpsertView,
    local: FileState,
    modified: Option<u128>,
)
    ensures
        decided(s, task, local, modified) == (match apply::conflict_found(
            s,
            task.path,
            task.remote,
            task.timestamp,
            local,
            modified,
        ) {
            None => apply::prepare(s, task),
            Some(conflict) => match s.strategy {
                ConflictStrategy::LastWriteWins => apply::keep_local(s, task, conflict),
                ConflictStrategy::KeepBoth => (
                    s,
                    apply::upsert_at(
                        (Upsert { conflict: Some(conflict), ..task }),
                        UpsertStage::AsideLocate,
                    ),
                ),
            },
        }),
{
}

/// Under last-write-wins a remote version that wins would also win with a later
/// time, and it wins a draw. Under keep-both the time plays no part.
pub proof fn law_conflict_and_time(
    s: ApplierView,
    path: Seq<Part>,
    remote: FileState,
    timestamp: i64,
    later: i64,
    local: FileState,
    modified: Option<u128>,
)
    requires
        timestamp <= later,
    ensures
        s.strategy is LastWriteWins && apply::conflict_found(
            s,
            path,
            remote,
            timestamp,
            local,
            modified,
        ) is None ==> apply::conflict_found(s, path, remote, later, local, modified) is None,
        s.strategy is LastWriteWins ==> apply::conflict_found(
            s,
            path,
            remote,
            apply::mtime_millis(modified),
            local,
            modified,
        ) is None,
        s.strategy is KeepBoth ==> apply::conflict_found(
            s,
            path,
            remote,
            timestamp,
            local,
            modified,
        ) == apply::conflict_found(s, path, remote, later, local, modified),
{
}

/// How many more replies a task takes at most.
pub open spec fn replies_left(task: TaskView) -> nat {
    let copies = crate::names::MAX_COPIES as nat;
    match task {
        Task::Upsert(upsert) => match upsert.stage {
            UpsertStage::ConflictLocate => copies + 20,
            UpsertStage::ConflictExists => copies + 19,
            UpsertStage::ConflictDigest => copies + 18,
            UpsertStage::ConflictMtime { .. } => copies + 17,
            UpsertStage::AsideLocate => copies + 16,
            UpsertStage::AsideExists => copies + 15,
            UpsertStage::AsideProbe { turn } => if turn < copies {
                (12 + copies - turn) as nat
            } else {
                12
            },
            UpsertStage::AsideRename { .. } => 11,
            UpsertStage::Locate => 10,
            UpsertStage::Parent => 9,
            UpsertStage::EmptyWrite => 2,
            UpsertStage::EmptyDigest => 1,
            UpsertStage::Temp(TempStage::Link) => 8,
            UpsertStage::Temp(TempStage::Root) => 7,
            UpsertStage::Temp(TempStage::Spot { .. }) => 6,
            UpsertStage::TempParent => 5,
            UpsertStage::TempOpen => 4,
        },
        Task::Removal(removal) => match removal.stage {
            RemovalStage::Locate => 7,
            RemovalStage::Temp(TempStage::Link) => 6,
            RemovalStage::Temp(TempStage::Root) => 5,
            RemovalStage::Temp(TempStage::Spot { .. }) => 4,
            RemovalStage::TempRemove => 3,
            RemovalStage::Exists => 2,
            RemovalStage::Remove => 1,
        },
        Task::NewDir(new_dir) => match new_dir.stage {
            NewDirStage::Locate => 3,
            NewDirStage::Exists => 2,
            NewDirStage::Create => 1,
        },
        Task::Content(content) => match content.stage {
            ContentStage::DirectLocate => 4,
            ContentStage::DirectParent => 3,
            ContentStage::DirectWrite => 2,
            ContentStage::DirectDigest => 1,
            ContentStage::Write => 9,
            ContentStage::Size { .. } => 8,
            ContentStage::Flush { .. } => 7,
            ContentStage::Digest { .. } => 6,
            ContentStage::CommitLocate { .. } => 5,
            ContentStage::CommitParent { .. } => 4,
            ContentStage::CommitExists { .. } => 3,
            ContentStage::CommitRemove { .. } => 2,
            ContentStage::CommitMove { .. } => 1,
        },
    }
}

/// Every event comes to an end, whatever the disk replies: each reply brings it
/// nearer.
pub proof fn law_every_event_ends(s: ApplierView, task: TaskView, reply: ReplyView)
    ensures
        apply::next_step(s, task, reply).1 matches Step::Continue(next) ==> replies_left(next)
            < replies_left(task),
{
}

} // verus!
