//! Applying the events of the other side to the local directory.
//!
//! The applier decides; it does not touch the disk. [`ChangeApplier::apply_event`]
//! starts an event and [`ChangeApplier::resume`] goes on with it: a step either
//! continues with a task, whose [`FsRequest`] has to be carried out and answered
//! by an [`FsReply`], or finishes with the outcome of the event.

use crate::cli::ConflictStrategy;
use crate::event::{EventView, SyncEvent};
use crate::hash::hash_eq;
use crate::names::{keep_both_path, MAX_COPIES};
use crate::path::{bytes_eq, Component, Part, SyncPath};
use crate::path_map::PathMap;
use crate::watcher::{FileState, INTERNAL_TEMP_DIR};
use vstd::prelude::*;
use vstd::slice::slice_to_vec;

verus! {

/// The tag in the name of the local copy that is kept beside the remote version.
pub const LOCAL_TAG: &'static str = "local";

/// Why an event was not applied.
#[derive(Clone, Copy, Debug, PartialEq, Eq, Structural)]
pub enum ApplyError {
    /// The path of the event is empty.
    EmptyPath,
    /// The path of the event leads into the internal directory.
    InternalPath,
    /// The path of the event has a component that is not a plain name.
    UnsafePath,
    /// No ancestor of the target exists.
    NoAncestor,
    /// The target lies outside the directory that it must lie in.
    EscapesRoot,
    /// The internal directory is a symbolic link.
    TempRootIsLink,
    /// The internal directory lies outside the synchronised directory.
    TempRootEscapes,
    /// A request failed.
    RequestFailed,
    /// A reply does not answer the request of its task.
    UnexpectedReply,
}

/// What is wrong with the components of a path from `at` on: the first one that
/// is not a plain name, or that is the name of the internal directory.
pub open spec fn fault_from(path: Seq<Part>, at: int) -> Option<ApplyError>
    decreases path.len() - at,
{
    if at < 0 || at >= path.len() {
        None
    } else {
        match path[at] {
            Part::Normal(name) => if name == crate::watcher::temp_dir_name() {
                Some(ApplyError::InternalPath)
            } else {
                fault_from(path, at + 1)
            },
            _ => Some(ApplyError::UnsafePath),
        }
    }
}

/// What is wrong with the path of an event, if anything.
pub open spec fn path_fault(path: Seq<Part>) -> Option<ApplyError> {
    if path.len() == 0 {
        Some(ApplyError::EmptyPath)
    } else {
        fault_from(path, 0)
    }
}

/// A path of plain names, none of which is that of the internal directory.
pub open spec fn is_plain(path: Seq<Part>) -> bool {
    &&& path.len() > 0
    &&& forall|i: int|
        0 <= i < path.len() ==> (#[trigger] path[i]) is Normal && path[i]
            != Part::Normal(crate::watcher::temp_dir_name())
}

/// Exactly the paths of plain names are accepted: an event can neither leave the
/// synchronised directory through its path nor reach the internal directory.
pub proof fn law_accepted_paths_are_plain(path: Seq<Part>)
    ensures
        path_fault(path) is None <==> is_plain(path),
{
    lemma_fault_from(path, 0);
}

proof fn lemma_fault_from(path: Seq<Part>, at: int)
    requires
        0 <= at <= path.len(),
    ensures
        fault_from(path, at) is None <==> forall|i: int|
            at <= i < path.len() ==> (#[trigger] path[i]) is Normal && path[i]
                != Part::Normal(crate::watcher::temp_dir_name()),
    decreases path.len() - at,
{
    if at < path.len() {
        lemma_fault_from(path, at + 1);
    }
}

/// Checks the path of an event.
pub fn validate_event_path(path: &SyncPath) -> (checked: Result<(), ApplyError>)
    ensures
        checked == (match path_fault(path@) {
            Some(fault) => Err::<(), ApplyError>(fault),
            None => Ok(()),
        }),
{
    if path.parts.len() == 0 {
        return Err(ApplyError::EmptyPath);
    }
    let temp_name = INTERNAL_TEMP_DIR.as_bytes();
    let mut i: usize = 0;
    while i < path.parts.len()
        invariant
            i <= path.parts@.len(),
            path@.len() == path.parts@.len(),
            temp_name@ == crate::watcher::temp_dir_name(),
            path_fault(path@) == fault_from(path@, i as int),
        decreases path.parts@.len() - i,
    {
        assert(path@[i as int] == path.parts@[i as int]@);
        match &path.parts[i] {
            Component::Normal(name) => {
                if bytes_eq(name.as_slice(), temp_name) {
                    return Err(ApplyError::InternalPath);
                }
            },
            _ => {
                return Err(ApplyError::UnsafePath);
            },
        }
        i += 1;
    }
    Ok(())
}

/// A step of the search for the deepest ancestor that exists.
#[derive(Debug, PartialEq, Eq)]
pub enum AncestorStep {
    /// The candidate is it.
    Found,
    /// The next candidate.
    Try(SyncPath),
    /// There is none.
    Missing,
}

/// Goes on with the search for the deepest existing ancestor of a path, which
/// starts at the path itself: `exists` says whether the candidate does.
pub fn deepest_existing_ancestor(candidate: &SyncPath, exists: bool) -> (step: AncestorStep)
    ensures
        match step {
            AncestorStep::Found => exists,
            AncestorStep::Try(next) => !exists && Some(next@) == crate::path::parent_of(
                candidate@,
            ),
            AncestorStep::Missing => !exists && crate::path::parent_of(candidate@) is None,
        },
{
    if exists {
        return AncestorStep::Found;
    }
    match candidate.parent() {
        Some(parent) => AncestorStep::Try(parent),
        None => AncestorStep::Missing,
    }
}

/// A modification time in milliseconds since the epoch; 0 if it is unknown.
pub open spec fn mtime_millis(since_epoch: Option<u128>) -> i64 {
    match since_epoch {
        Some(millis) => millis as i64,
        None => 0,
    }
}

/// A modification time in milliseconds since the epoch; 0 if it is unknown.
pub fn local_mtime_millis(since_epoch: Option<u128>) -> (millis: i64)
    ensures
        millis == mtime_millis(since_epoch),
{
    match since_epoch {
        Some(millis) => #[verifier::truncate] (millis as i64),
        None => 0,
    }
}

/// Where a path of an event is looked up.
#[derive(Clone, Copy, Debug, PartialEq, Eq, Structural)]
pub enum Area {
    /// Under the synchronised directory.
    Target,
    /// Under its internal directory.
    Temp,
}

/// What has to be done on the disk next. Every path is relative to its area.
#[derive(Debug, PartialEq, Eq)]
pub enum Request<P, D> {
    /// Find the deepest existing ancestor of the path and its canonical path.
    Locate { area: Area, path: P },
    /// Does the path exist in the synchronised directory?
    Exists { path: P },
    /// Hash the file.
    Digest { area: Area, path: P },
    /// When was the file last modified?
    Mtime { path: P },
    /// Move a file within the synchronised directory.
    Rename { path: P, to: P },
    /// Create the parent directory of the path and all above it.
    CreateParent { area: Area, path: P },
    /// Create a directory and all above it.
    CreateDir { path: P },
    /// Write an empty file.
    WriteEmpty { path: P },
    /// Is the internal directory a symbolic link?
    IsTempRootLink,
    /// Create the internal directory if need be and find its canonical path.
    MakeTempRoot,
    /// Open a fresh file for an incoming transfer.
    OpenTemp { path: P },
    /// Write into the open file of a transfer.
    WriteTemp { path: P, offset: u64, data: D },
    /// How large is the file of a transfer?
    TempSize { path: P },
    /// Flush the open file of a transfer.
    FlushTemp { path: P },
    /// Write into a file of the synchronised directory, emptied before if
    /// `truncate` is set.
    WriteTarget { path: P, offset: u64, truncate: bool, data: D },
    /// Remove a file.
    RemoveFile { area: Area, path: P },
    /// Remove a directory and all under it.
    RemoveDir { area: Area, path: P },
    /// Close the file of a transfer and move it to its target.
    MoveIntoPlace { path: P },
}

pub type FsRequest = Request<SyncPath, Vec<u8>>;

pub type RequestView = Request<Seq<Part>, Seq<u8>>;

impl View for Request<SyncPath, Vec<u8>> {
    type V = RequestView;

    open spec fn view(&self) -> RequestView {
        match self {
            Request::Locate { area, path } => Request::Locate { area: *area, path: path@ },
            Request::Exists { path } => Request::Exists { path: path@ },
            Request::Digest { area, path } => Request::Digest { area: *area, path: path@ },
            Request::Mtime { path } => Request::Mtime { path: path@ },
            Request::Rename { path, to } => Request::Rename { path: path@, to: to@ },
            Request::CreateParent { area, path } => Request::CreateParent {
                area: *area,
                path: path@,
            },
            Request::CreateDir { path } => Request::CreateDir { path: path@ },
            Request::WriteEmpty { path } => Request::WriteEmpty { path: path@ },
            Request::IsTempRootLink => Request::IsTempRootLink,
            Request::MakeTempRoot => Request::MakeTempRoot,
            Request::OpenTemp { path } => Request::OpenTemp { path: path@ },
            Request::WriteTemp { path, offset, data } => Request::WriteTemp {
                path: path@,
                offset: *offset,
                data: data@,
            },
            Request::TempSize { path } => Request::TempSize { path: path@ },
            Request::FlushTemp { path } => Request::FlushTemp { path: path@ },
            Request::WriteTarget { path, offset, truncate, data } => Request::WriteTarget {
                path: path@,
                offset: *offset,
                truncate: *truncate,
                data: data@,
            },
            Request::RemoveFile { area, path } => Request::RemoveFile { area: *area, path: path@ },
            Request::RemoveDir { area, path } => Request::RemoveDir { area: *area, path: path@ },
            Request::MoveIntoPlace { path } => Request::MoveIntoPlace { path: path@ },
        }
    }
}

/// What came of a request.
#[derive(Debug, PartialEq, Eq)]
pub enum Reply<P> {
    /// Canonical path of the deepest existing ancestor; `None` if there is none.
    Located(Option<P>),
    /// Canonical path of the internal directory.
    TempRoot(P),
    /// Answer to a question.
    Flag(bool),
    /// Hash and size of a file.
    Digest(FileState),
    /// Modification time in milliseconds since the epoch, if it is known.
    Millis(Option<u128>),
    /// Size of a file.
    Size(u64),
    /// It was done.
    Done,
    /// It failed.
    Failed,
}

pub type FsReply = Reply<SyncPath>;

pub type ReplyView = Reply<Seq<Part>>;

impl View for Reply<SyncPath> {
    type V = ReplyView;

    open spec fn view(&self) -> ReplyView {
        match self {
            Reply::Located(Some(path)) => Reply::Located(Some(path@)),
            Reply::Located(None) => Reply::Located(None),
            Reply::TempRoot(path) => Reply::TempRoot(path@),
            Reply::Flag(flag) => Reply::Flag(*flag),
            Reply::Digest(state) => Reply::Digest(*state),
            Reply::Millis(millis) => Reply::Millis(*millis),
            Reply::Size(size) => Reply::Size(*size),
            Reply::Done => Reply::Done,
            Reply::Failed => Reply::Failed,
        }
    }
}

/// The error that stands for a reply which is not the hoped-for answer.
pub open spec fn bad_reply<P>(reply: Reply<P>) -> ApplyError {
    if reply is Failed {
        ApplyError::RequestFailed
    } else {
        ApplyError::UnexpectedReply
    }
}

/// Whether a path was found to lie in `base`.
pub open spec fn located(base: Seq<Part>, reply: ReplyView) -> Result<(), ApplyError> {
    match reply {
        Reply::Located(Some(ancestor)) => if base.is_prefix_of(ancestor) {
            Ok(())
        } else {
            Err(ApplyError::EscapesRoot)
        },
        Reply::Located(None) => Err(ApplyError::NoAncestor),
        _ => Err(bad_reply(reply)),
    }
}

/// Whether a request was carried out.
pub open spec fn done(reply: ReplyView) -> Result<(), ApplyError> {
    if reply is Done {
        Ok(())
    } else {
        Err(bad_reply(reply))
    }
}

/// The answer to a question.
pub open spec fn flag(reply: ReplyView) -> Result<bool, ApplyError> {
    match reply {
        Reply::Flag(flag) => Ok(flag),
        _ => Err(bad_reply(reply)),
    }
}

/// Hash and size that a reply holds.
pub open spec fn digest(reply: ReplyView) -> Result<FileState, ApplyError> {
    match reply {
        Reply::Digest(state) => Ok(state),
        _ => Err(bad_reply(reply)),
    }
}

fn reply_error(reply: &FsReply) -> (error: ApplyError)
    ensures
        error == bad_reply(reply@),
{
    match reply {
        Reply::Failed => ApplyError::RequestFailed,
        _ => ApplyError::UnexpectedReply,
    }
}

fn check_located(base: &SyncPath, reply: &FsReply) -> (checked: Result<(), ApplyError>)
    ensures
        checked == located(base@, reply@),
{
    match reply {
        Reply::Located(Some(ancestor)) => {
            if ancestor.starts_with(base) {
                Ok(())
            } else {
                Err(ApplyError::EscapesRoot)
            }
        },
        Reply::Located(None) => Err(ApplyError::NoAncestor),
        _ => Err(reply_error(reply)),
    }
}

fn check_done(reply: &FsReply) -> (checked: Result<(), ApplyError>)
    ensures
        checked == done(reply@),
{
    match reply {
        Reply::Done => Ok(()),
        _ => Err(reply_error(reply)),
    }
}

fn read_flag(reply: &FsReply) -> (answer: Result<bool, ApplyError>)
    ensures
        answer == flag(reply@),
{
    match reply {
        Reply::Flag(flag) => Ok(*flag),
        _ => Err(reply_error(reply)),
    }
}

fn read_digest(reply: &FsReply) -> (state: Result<FileState, ApplyError>)
    ensures
        state == digest(reply@),
{
    match reply {
        Reply::Digest(state) => Ok(*state),
        _ => Err(reply_error(reply)),
    }
}

/// A file that changed on both sides.
#[derive(Debug, PartialEq, Eq)]
pub struct ConflictInfo {
    pub path: SyncPath,
    pub local_hash: [u8; 32],
    pub local_size: u64,
    pub remote_hash: [u8; 32],
    pub remote_size: u64,
}

/// The mathematical value of a [`ConflictInfo`].
#[verifier::ext_equal]
pub struct ConflictView {
    pub path: Seq<Part>,
    pub local_hash: [u8; 32],
    pub local_size: u64,
    pub remote_hash: [u8; 32],
    pub remote_size: u64,
}

impl View for ConflictInfo {
    type V = ConflictView;

    open spec fn view(&self) -> ConflictView {
        ConflictView {
            path: self.path@,
            local_hash: self.local_hash,
            local_size: self.local_size,
            remote_hash: self.remote_hash,
            remote_size: self.remote_size,
        }
    }
}

/// Which answer the search for a place in the internal directory waits for.
#[derive(Debug, PartialEq, Eq)]
pub enum TempStage<P> {
    /// Whether the internal directory is a link.
    Link,
    /// Its canonical path.
    Root,
    /// Where in it, at `base`, the path lies.
    Spot { base: P },
}

/// Which answer a created or modified file waits for.
#[derive(Debug, PartialEq, Eq)]
pub enum UpsertStage<P> {
    /// Looking for a conflict: where the target lies.
    ConflictLocate,
    /// Looking for a conflict: whether the target exists.
    ConflictExists,
    /// Looking for a conflict: what it holds.
    ConflictDigest,
    /// Looking for a conflict: when it was modified.
    ConflictMtime { local: FileState },
    /// Keeping the local copy: where the target lies.
    AsideLocate,
    /// Keeping the local copy: whether the target exists.
    AsideExists,
    /// Keeping the local copy: whether the candidate of this turn exists.
    AsideProbe { turn: u32 },
    /// Keeping the local copy: the move to the candidate of this turn.
    AsideRename { turn: u32 },
    /// Preparing the transfer: where the target lies.
    Locate,
    /// Preparing the transfer: the parent of the target.
    Parent,
    /// An empty file: its write.
    EmptyWrite,
    /// An empty file: its hash.
    EmptyDigest,
    /// Preparing the transfer: a place in the internal directory.
    Temp(TempStage<P>),
    /// Preparing the transfer: the parent of that place.
    TempParent,
    /// Preparing the transfer: the open file.
    TempOpen,
}

/// A created or modified file on its way.
#[derive(Debug, PartialEq, Eq)]
pub struct Upsert<P, C> {
    pub path: P,
    pub modified: bool,
    /// What the event announces.
    pub remote: FileState,
    /// When the event was sent, in milliseconds since the epoch.
    pub timestamp: i64,
    /// The conflict that was found, if both versions are kept.
    pub conflict: Option<C>,
    pub stage: UpsertStage<P>,
}

/// Which answer a removal waits for.
#[derive(Debug, PartialEq, Eq)]
pub enum RemovalStage<P> {
    /// Where the target lies.
    Locate,
    /// A place in the internal directory.
    Temp(TempStage<P>),
    /// The removal of what lies there.
    TempRemove,
    /// Whether the target exists.
    Exists,
    /// Its removal.
    Remove,
}

/// A deleted file or directory on its way.
#[derive(Debug, PartialEq, Eq)]
pub struct Removal<P> {
    pub path: P,
    /// A directory with all under it.
    pub tree: bool,
    pub stage: RemovalStage<P>,
}

/// Which answer a new directory waits for.
#[derive(Clone, Copy, Debug, PartialEq, Eq)]
pub enum NewDirStage {
    Locate,
    Exists,
    Create,
}

/// A created directory on its way.
#[derive(Debug, PartialEq, Eq)]
pub struct NewDir<P> {
    pub path: P,
    pub stage: NewDirStage,
}

/// Which answer a piece of content waits for.
#[derive(Clone, Copy, Debug, PartialEq, Eq)]
pub enum ContentStage {
    /// Without a transfer: where the target lies.
    DirectLocate,
    /// Without a transfer: the parent of the target.
    DirectParent,
    /// Without a transfer: the write.
    DirectWrite,
    /// Without a transfer: what the file now holds.
    DirectDigest,
    /// The write into the file of the transfer.
    Write,
    /// The size of the file of the transfer, of which `expected` is announced.
    Size { expected: FileState },
    /// The flush of the file of the transfer, which holds `size` bytes.
    Flush { expected: FileState, size: u64 },
    /// What the file of the transfer holds.
    Digest { expected: FileState },
    /// The transfer is complete: where the target lies.
    CommitLocate { expected: FileState },
    /// The transfer is complete: the parent of the target.
    CommitParent { expected: FileState },
    /// The transfer is complete: whether the target exists.
    CommitExists { expected: FileState },
    /// The transfer is complete: the removal of what it replaces.
    CommitRemove { expected: FileState },
    /// The transfer is complete: the move to its target.
    CommitMove { expected: FileState },
}

/// A piece of content on its way.
#[derive(Debug, PartialEq, Eq)]
pub struct Content<P, D> {
    pub path: P,
    pub offset: u64,
    pub data: D,
    pub stage: ContentStage,
}

/// An event on its way, waiting for the reply to its request.
#[derive(Debug, PartialEq, Eq)]
pub enum Task<P, C, D> {
    Upsert(Upsert<P, C>),
    Removal(Removal<P>),
    NewDir(NewDir<P>),
    Content(Content<P, D>),
}

pub type ApplyTask = Task<SyncPath, ConflictInfo, Vec<u8>>;

pub type TaskView = Task<Seq<Part>, ConflictView, Seq<u8>>;

pub type UpsertView = Upsert<Seq<Part>, ConflictView>;

pub type RemovalView = Removal<Seq<Part>>;

pub type NewDirView = NewDir<Seq<Part>>;

pub type ContentView = Content<Seq<Part>, Seq<u8>>;

/// What comes next of an event.
#[derive(Debug, PartialEq, Eq)]
pub enum Step<T, C> {
    /// A request has to be carried out and answered.
    Continue(T),
    /// The event is done; a conflict is reported if one was found.
    Finished(Result<Option<C>, ApplyError>),
}

pub type ApplyStep = Step<ApplyTask, ConflictInfo>;

pub type StepView = Step<TaskView, ConflictView>;

/// The value of a conflict that may be there.
pub open spec fn conflict_view(conflict: Option<ConflictInfo>) -> Option<ConflictView> {
    match conflict {
        Some(conflict) => Some(conflict@),
        None => None,
    }
}

impl View for TempStage<SyncPath> {
    type V = TempStage<Seq<Part>>;

    open spec fn view(&self) -> TempStage<Seq<Part>> {
        match self {
            TempStage::Link => TempStage::Link,
            TempStage::Root => TempStage::Root,
            TempStage::Spot { base } => TempStage::Spot { base: base@ },
        }
    }
}

impl View for UpsertStage<SyncPath> {
    type V = UpsertStage<Seq<Part>>;

    open spec fn view(&self) -> UpsertStage<Seq<Part>> {
        match self {
            UpsertStage::ConflictLocate => UpsertStage::ConflictLocate,
            UpsertStage::ConflictExists => UpsertStage::ConflictExists,
            UpsertStage::ConflictDigest => UpsertStage::ConflictDigest,
            UpsertStage::ConflictMtime { local } => UpsertStage::ConflictMtime { local: *local },
            UpsertStage::AsideLocate => UpsertStage::AsideLocate,
            UpsertStage::AsideExists => UpsertStage::AsideExists,
            UpsertStage::AsideProbe { turn } => UpsertStage::AsideProbe { turn: *turn },
            UpsertStage::AsideRename { turn } => UpsertStage::AsideRename { turn: *turn },
            UpsertStage::Locate => UpsertStage::Locate,
            UpsertStage::Parent => UpsertStage::Parent,
            UpsertStage::EmptyWrite => UpsertStage::EmptyWrite,
            UpsertStage::EmptyDigest => UpsertStage::EmptyDigest,
            UpsertStage::Temp(stage) => UpsertStage::Temp(stage@),
            UpsertStage::TempParent => UpsertStage::TempParent,
            UpsertStage::TempOpen => UpsertStage::TempOpen,
        }
    }
}

impl View for RemovalStage<SyncPath> {
    type V = RemovalStage<Seq<Part>>;

    open spec fn view(&self) -> RemovalStage<Seq<Part>> {
        match self {
            RemovalStage::Locate => RemovalStage::Locate,
            RemovalStage::Temp(stage) => RemovalStage::Temp(stage@),
            RemovalStage::TempRemove => RemovalStage::TempRemove,
            RemovalStage::Exists => RemovalStage::Exists,
            RemovalStage::Remove => RemovalStage::Remove,
        }
    }
}

impl View for Upsert<SyncPath, ConflictInfo> {
    type V = UpsertView;

    open spec fn view(&self) -> UpsertView {
        Upsert {
            path: self.path@,
            modified: self.modified,
            remote: self.remote,
            timestamp: self.timestamp,
            conflict: conflict_view(self.conflict),
            stage: self.stage@,
        }
    }
}

impl View for Removal<SyncPath> {
    type V = RemovalView;

    open spec fn view(&self) -> RemovalView {
        Removal { path: self.path@, tree: self.tree, stage: self.stage@ }
    }
}

impl View for NewDir<SyncPath> {
    type V = NewDirView;

    open spec fn view(&self) -> NewDirView {
        NewDir { path: self.path@, stage: self.stage }
    }
}

impl View for Content<SyncPath, Vec<u8>> {
    type V = ContentView;

    open spec fn view(&self) -> ContentView {
        Content {
            path: self.path@,
            offset: self.offset,
            data: self.data@,
            stage: self.stage,
        }
    }
}

impl View for Task<SyncPath, ConflictInfo, Vec<u8>> {
    type V = TaskView;

    open spec fn view(&self) -> TaskView {
        match self {
            Task::Upsert(upsert) => Task::Upsert(upsert@),
            Task::Removal(removal) => Task::Removal(removal@),
            Task::NewDir(new_dir) => Task::NewDir(new_dir@),
            Task::Content(content) => Task::Content(content@),
        }
    }
}

impl View for Step<ApplyTask, ConflictInfo> {
    type V = StepView;

    open spec fn view(&self) -> StepView {
        match self {
            Step::Continue(task) => Step::Continue(task@),
            Step::Finished(Ok(conflict)) => Step::Finished(Ok(conflict_view(*conflict))),
            Step::Finished(Err(error)) => Step::Finished(Err(*error)),
        }
    }
}

/// The candidate of a turn for the kept copy of a path.
pub open spec fn kept_copy(path: Seq<Part>, turn: u32) -> Seq<Part> {
    crate::names::copy_path(
        path,
        crate::names::name_text(path),
        vstd::utf8::encode_utf8(LOCAL_TAG@),
        turn as nat,
    )
}

/// What the search for a place in the internal directory asks.
pub open spec fn temp_request(stage: TempStage<Seq<Part>>, path: Seq<Part>) -> RequestView {
    match stage {
        TempStage::Link => Request::IsTempRootLink,
        TempStage::Root => Request::MakeTempRoot,
        TempStage::Spot { .. } => Request::Locate { area: Area::Temp, path },
    }
}

/// What a created or modified file asks.
pub open spec fn upsert_request(task: UpsertView) -> RequestView {
    let path = task.path;
    match task.stage {
        UpsertStage::ConflictLocate => Request::Locate { area: Area::Target, path },
        UpsertStage::ConflictExists => Request::Exists { path },
        UpsertStage::ConflictDigest => Request::Digest { area: Area::Target, path },
        UpsertStage::ConflictMtime { .. } => Request::Mtime { path },
        UpsertStage::AsideLocate => Request::Locate { area: Area::Target, path },
        UpsertStage::AsideExists => Request::Exists { path },
        UpsertStage::AsideProbe { turn } => Request::Exists { path: kept_copy(path, turn) },
        UpsertStage::AsideRename { turn } => Request::Rename { path, to: kept_copy(path, turn) },
        UpsertStage::Locate => Request::Locate { area: Area::Target, path },
        UpsertStage::Parent => Request::CreateParent { area: Area::Target, path },
        UpsertStage::EmptyWrite => Request::WriteEmpty { path },
        UpsertStage::EmptyDigest => Request::Digest { area: Area::Target, path },
        UpsertStage::Temp(stage) => temp_request(stage, path),
        UpsertStage::TempParent => Request::CreateParent { area: Area::Temp, path },
        UpsertStage::TempOpen => Request::OpenTemp { path },
    }
}

/// What a removal asks.
pub open spec fn removal_request(task: RemovalView) -> RequestView {
    let path = task.path;
    match task.stage {
        RemovalStage::Locate => Request::Locate { area: Area::Target, path },
        RemovalStage::Temp(stage) => temp_request(stage, path),
        RemovalStage::TempRemove => if task.tree {
            Request::RemoveDir { area: Area::Temp, path }
        } else {
            Request::RemoveFile { area: Area::Temp, path }
        },
        RemovalStage::Exists => Request::Exists { path },
        RemovalStage::Remove => if task.tree {
            Request::RemoveDir { area: Area::Target, path }
        } else {
            Request::RemoveFile { area: Area::Target, path }
        },
    }
}

/// What a new directory asks.
pub open spec fn new_dir_request(task: NewDirView) -> RequestView {
    let path = task.path;
    match task.stage {
        NewDirStage::Locate => Request::Locate { area: Area::Target, path },
        NewDirStage::Exists => Request::Exists { path },
        NewDirStage::Create => Request::CreateDir { path },
    }
}

/// What a piece of content asks.
pub open spec fn content_request(task: ContentView) -> RequestView {
    let path = task.path;
    match task.stage {
        ContentStage::DirectLocate => Request::Locate { area: Area::Target, path },
        ContentStage::DirectParent => Request::CreateParent { area: Area::Target, path },
        ContentStage::DirectWrite => Request::WriteTarget {
            path,
            offset: task.offset,
            truncate: task.offset == 0,
            data: task.data,
        },
        ContentStage::DirectDigest => Request::Digest { area: Area::Target, path },
        ContentStage::Write => Request::WriteTemp { path, offset: task.offset, data: task.data },
        ContentStage::Size { .. } => Request::TempSize { path },
        ContentStage::Flush { .. } => Request::FlushTemp { path },
        ContentStage::Digest { .. } => Request::Digest { area: Area::Temp, path },
        ContentStage::CommitLocate { .. } => Request::Locate { area: Area::Target, path },
        ContentStage::CommitParent { .. } => Request::CreateParent { area: Area::Target, path },
        ContentStage::CommitExists { .. } => Request::Exists { path },
        ContentStage::CommitRemove { .. } => Request::RemoveFile { area: Area::Target, path },
        ContentStage::CommitMove { .. } => Request::MoveIntoPlace { path },
    }
}

/// What a task asks.
pub open spec fn task_request(task: TaskView) -> RequestView {
    match task {
        Task::Upsert(upsert) => upsert_request(upsert),
        Task::Removal(removal) => removal_request(removal),
        Task::NewDir(new_dir) => new_dir_request(new_dir),
        Task::Content(content) => content_request(content),
    }
}

fn ask_temp(stage: &TempStage<SyncPath>, path: &SyncPath) -> (request: FsRequest)
    ensures
        request@ == temp_request(stage@, path@),
{
    match stage {
        TempStage::Link => Request::IsTempRootLink,
        TempStage::Root => Request::MakeTempRoot,
        TempStage::Spot { .. } => Request::Locate { area: Area::Temp, path: path.clone() },
    }
}

fn ask_upsert(task: &Upsert<SyncPath, ConflictInfo>) -> (request: FsRequest)
    ensures
        request@ == upsert_request(task@),
{
    let path = task.path.clone();
    match &task.stage {
        UpsertStage::ConflictLocate => Request::Locate { area: Area::Target, path },
        UpsertStage::ConflictExists => Request::Exists { path },
        UpsertStage::ConflictDigest => Request::Digest { area: Area::Target, path },
        UpsertStage::ConflictMtime { .. } => Request::Mtime { path },
        UpsertStage::AsideLocate => Request::Locate { area: Area::Target, path },
        UpsertStage::AsideExists => Request::Exists { path },
        UpsertStage::AsideProbe { turn } => Request::Exists {
            path: keep_both_path(&path, LOCAL_TAG, *turn),
        },
        UpsertStage::AsideRename { turn } => {
            let to = keep_both_path(&path, LOCAL_TAG, *turn);
            Request::Rename { path, to }
        },
        UpsertStage::Locate => Request::Locate { area: Area::Target, path },
        UpsertStage::Parent => Request::CreateParent { area: Area::Target, path },
        UpsertStage::EmptyWrite => Request::WriteEmpty { path },
        UpsertStage::EmptyDigest => Request::Digest { area: Area::Target, path },
        UpsertStage::Temp(stage) => ask_temp(stage, &path),
        UpsertStage::TempParent => Request::CreateParent { area: Area::Temp, path },
        UpsertStage::TempOpen => Request::OpenTemp { path },
    }
}

fn ask_removal(task: &Removal<SyncPath>) -> (request: FsRequest)
    ensures
        request@ == removal_request(task@),
{
    let path = task.path.clone();
    match &task.stage {
        RemovalStage::Locate => Request::Locate { area: Area::Target, path },
        RemovalStage::Temp(stage) => ask_temp(stage, &path),
        RemovalStage::TempRemove => {
            if task.tree {
                Request::RemoveDir { area: Area::Temp, path }
            } else {
                Request::RemoveFile { area: Area::Temp, path }
            }
        },
        RemovalStage::Exists => Request::Exists { path },
        RemovalStage::Remove => {
            if task.tree {
                Request::RemoveDir { area: Area::Target, path }
            } else {
                Request::RemoveFile { area: Area::Target, path }
            }
        },
    }
}

fn ask_new_dir(task: &NewDir<SyncPath>) -> (request: FsRequest)
    ensures
        request@ == new_dir_request(task@),
{
    let path = task.path.clone();
    match task.stage {
        NewDirStage::Locate => Request::Locate { area: Area::Target, path },
        NewDirStage::Exists => Request::Exists { path },
        NewDirStage::Create => Request::CreateDir { path },
    }
}

fn ask_content(task: &Content<SyncPath, Vec<u8>>) -> (request: FsRequest)
    ensures
        request@ == content_request(task@),
{
    let path = task.path.clone();
    match task.stage {
        ContentStage::DirectLocate => Request::Locate { area: Area::Target, path },
        ContentStage::DirectParent => Request::CreateParent { area: Area::Target, path },
        ContentStage::DirectWrite => Request::WriteTarget {
            path,
            offset: task.offset,
            truncate: task.offset == 0,
            data: slice_to_vec(task.data.as_slice()),
        },
        ContentStage::DirectDigest => Request::Digest { area: Area::Target, path },
        ContentStage::Write => Request::WriteTemp {
            path,
            offset: task.offset,
            data: slice_to_vec(task.data.as_slice()),
        },
        ContentStage::Size { .. } => Request::TempSize { path },
        ContentStage::Flush { .. } => Request::FlushTemp { path },
        ContentStage::Digest { .. } => Request::Digest { area: Area::Temp, path },
        ContentStage::CommitLocate { .. } => Request::Locate { area: Area::Target, path },
        ContentStage::CommitParent { .. } => Request::CreateParent { area: Area::Target, path },
        ContentStage::CommitExists { .. } => Request::Exists { path },
        ContentStage::CommitRemove { .. } => Request::RemoveFile { area: Area::Target, path },
        ContentStage::CommitMove { .. } => Request::MoveIntoPlace { path },
    }
}

/// The request that a task waits for.
pub fn request_of(task: &ApplyTask) -> (request: FsRequest)
    ensures
        request@ == task_request(task@),
{
    match task {
        Task::Upsert(upsert) => ask_upsert(upsert),
        Task::Removal(removal) => ask_removal(removal),
        Task::NewDir(new_dir) => ask_new_dir(new_dir),
        Task::Content(content) => ask_content(content),
    }
}

/// The mathematical value of a [`ChangeApplier`].
#[verifier::ext_equal]
pub struct ApplierView {
    /// Canonical path of the synchronised directory.
    pub root: Seq<Part>,
    pub strategy: ConflictStrategy,
    /// What the files held when both sides last agreed on them.
    pub synced: Map<Seq<Part>, FileState>,
    /// What is announced of the files that are on their way.
    pub pending: Map<Seq<Part>, FileState>,
    /// Files whose content is ignored, since the local version was kept.
    pub blocked: Set<Seq<Part>>,
}

/// The state once no transfer of a path is under way or blocked.
pub open spec fn without_transfer(s: ApplierView, path: Seq<Part>) -> ApplierView {
    ApplierView { pending: s.pending.remove(path), blocked: s.blocked.remove(path), ..s }
}

/// The state once nothing at or under a directory is known any more.
pub open spec fn without_tree(s: ApplierView, path: Seq<Part>) -> ApplierView {
    ApplierView {
        synced: crate::path_map::outside(s.synced, path),
        pending: crate::path_map::outside(s.pending, path),
        blocked: Set::new(|p: Seq<Part>| s.blocked.contains(p) && !path.is_prefix_of(p)),
        ..s
    }
}

/// The state once both sides agree on the content of a file.
pub open spec fn with_synced(s: ApplierView, path: Seq<Part>, state: FileState) -> ApplierView {
    ApplierView { synced: s.synced.insert(path, state), ..s }
}

/// The state once a transfer is under way.
pub open spec fn with_pending(s: ApplierView, path: Seq<Part>, state: FileState) -> ApplierView {
    ApplierView { pending: s.pending.insert(path, state), ..s }
}

/// A step that ends with an error.
pub open spec fn failed(error: ApplyError) -> StepView {
    Step::Finished(Err(error))
}

/// The next stage of the search for a place in the internal directory; `None`
/// once there is one.
pub open spec fn next_temp(
    root: Seq<Part>,
    stage: TempStage<Seq<Part>>,
    reply: ReplyView,
) -> Result<Option<TempStage<Seq<Part>>>, ApplyError> {
    match stage {
        TempStage::Link => match flag(reply) {
            Ok(true) => Err(ApplyError::TempRootIsLink),
            Ok(false) => Ok(Some(TempStage::Root)),
            Err(error) => Err(error),
        },
        TempStage::Root => match reply {
            Reply::TempRoot(base) => if root.is_prefix_of(base) {
                Ok(Some(TempStage::Spot { base }))
            } else {
                Err(ApplyError::TempRootEscapes)
            },
            _ => Err(bad_reply(reply)),
        },
        TempStage::Spot { base } => match located(base, reply) {
            Ok(()) => Ok(None),
            Err(error) => Err(error),
        },
    }
}

/// The local file changed since both sides agreed on it, and not to what the
/// other side announces.
pub open spec fn diverged(
    s: ApplierView,
    path: Seq<Part>,
    remote: FileState,
    local: FileState,
) -> bool {
    &&& local.hash != remote.hash
    &&& s.synced.contains_key(path)
    &&& local.hash != s.synced[path].hash
}

/// The report of a conflict.
pub open spec fn conflict_of(path: Seq<Part>, remote: FileState, local: FileState) -> ConflictView {
    ConflictView {
        path,
        local_hash: local.hash,
        local_size: local.size,
        remote_hash: remote.hash,
        remote_size: remote.size,
    }
}

/// The conflict between a local file, last modified at the given time, and one
/// that the other side announced, if there is any: they diverged, and where the
/// last write wins the local one is the newer.
pub open spec fn conflict_found(
    s: ApplierView,
    path: Seq<Part>,
    remote: FileState,
    timestamp: i64,
    local: FileState,
    modified: Option<u128>,
) -> Option<ConflictView> {
    if diverged(s, path, remote, local) && (s.strategy is KeepBoth || timestamp < mtime_millis(
        modified,
    )) {
        Some(conflict_of(path, remote, local))
    } else {
        None
    }
}

/// The modification time that a reply tells, if it tells any.
pub open spec fn told_mtime(reply: ReplyView) -> Option<u128> {
    match reply {
        Reply::Millis(millis) => millis,
        _ => None,
    }
}

/// An upsert that goes on at another stage.
pub open spec fn upsert_at(task: UpsertView, stage: UpsertStage<Seq<Part>>) -> StepView {
    Step::Continue(Task::Upsert(Upsert { stage, ..task }))
}

/// The remote version is accepted: its transfer is prepared.
pub open spec fn prepare(s: ApplierView, task: UpsertView) -> (ApplierView, StepView) {
    (without_transfer(s, task.path), upsert_at(task, UpsertStage::Locate))
}

/// The local version is kept: the content of the remote one is not wanted.
pub open spec fn keep_local(s: ApplierView, task: UpsertView, conflict: ConflictView) -> (
    ApplierView,
    StepView,
) {
    (
        ApplierView {
            pending: if task.modified {
                s.pending.remove(task.path)
            } else {
                s.pending
            },
            blocked: s.blocked.insert(task.path),
            ..s
        },
        Step::Finished(Ok(Some(conflict))),
    )
}

/// What a created or modified file does with a reply.
pub open spec fn next_upsert(s: ApplierView, task: UpsertView, reply: ReplyView) -> (
    ApplierView,
    StepView,
) {
    match task.stage {
        UpsertStage::ConflictLocate => if located(s.root, reply) is Ok {
            (s, upsert_at(task, UpsertStage::ConflictExists))
        } else {
            prepare(s, task)
        },
        UpsertStage::ConflictExists => if reply == Reply::<Seq<Part>>::Flag(true) {
            (s, upsert_at(task, UpsertStage::ConflictDigest))
        } else {
            prepare(s, task)
        },
        UpsertStage::ConflictDigest => match digest(reply) {
            Ok(local) => if !diverged(s, task.path, task.remote, local) {
                prepare(s, task)
            } else if s.strategy is LastWriteWins {
                (s, upsert_at(task, UpsertStage::ConflictMtime { local }))
            } else {
                (
                    s,
                    upsert_at(
                        Upsert {
                            conflict: Some(conflict_of(task.path, task.remote, local)),
                            ..task
                        },
                        UpsertStage::AsideLocate,
                    ),
                )
            },
            Err(_) => prepare(s, task),
        },
        UpsertStage::ConflictMtime { local } => match conflict_found(
            s,
            task.path,
            task.remote,
            task.timestamp,
            local,
            told_mtime(reply),
        ) {
            Some(conflict) => keep_local(s, task, conflict),
            None => prepare(s, task),
        },
        UpsertStage::AsideLocate => if located(s.root, reply) is Ok {
            (s, upsert_at(task, UpsertStage::AsideExists))
        } else {
            prepare(s, task)
        },
        UpsertStage::AsideExists => if reply == Reply::<Seq<Part>>::Flag(true) {
            (s, upsert_at(task, UpsertStage::AsideProbe { turn: 0 }))
        } else {
            prepare(s, task)
        },
        UpsertStage::AsideProbe { turn } => if reply != Reply::<Seq<Part>>::Flag(true) {
            (s, upsert_at(task, UpsertStage::AsideRename { turn }))
        } else if turn + 1 < crate::names::MAX_COPIES {
            (s, upsert_at(task, UpsertStage::AsideProbe { turn: (turn + 1) as u32 }))
        } else {
            (s, upsert_at(task, UpsertStage::AsideRename { turn: 0 }))
        },
        UpsertStage::AsideRename { .. } => prepare(s, task),
        UpsertStage::Locate => match located(s.root, reply) {
            Ok(()) => (s, upsert_at(task, UpsertStage::Parent)),
            Err(error) => (s, failed(error)),
        },
        UpsertStage::Parent => match done(reply) {
            Ok(()) => if task.remote.size == 0 {
                (s, upsert_at(task, UpsertStage::EmptyWrite))
            } else {
                (s, upsert_at(task, UpsertStage::Temp(TempStage::Link)))
            },
            Err(error) => (s, failed(error)),
        },
        UpsertStage::EmptyWrite => match done(reply) {
            Ok(()) => (s, upsert_at(task, UpsertStage::EmptyDigest)),
            Err(error) => (s, failed(error)),
        },
        UpsertStage::EmptyDigest => match digest(reply) {
            Ok(actual) => (
                with_synced(s, task.path, actual),
                Step::Finished(Ok(task.conflict)),
            ),
            Err(error) => (s, failed(error)),
        },
        UpsertStage::Temp(stage) => match next_temp(s.root, stage, reply) {
            Ok(Some(stage)) => (s, upsert_at(task, UpsertStage::Temp(stage))),
            Ok(None) => (s, upsert_at(task, UpsertStage::TempParent)),
            Err(error) => (s, failed(error)),
        },
        UpsertStage::TempParent => match done(reply) {
            Ok(()) => (s, upsert_at(task, UpsertStage::TempOpen)),
            Err(error) => (s, failed(error)),
        },
        UpsertStage::TempOpen => match done(reply) {
            Ok(()) => (
                with_pending(s, task.path, task.remote),
                Step::Finished(Ok(task.conflict)),
            ),
            Err(error) => (s, failed(error)),
        },
    }
}

/// A removal that goes on at another stage.
pub open spec fn removal_at(task: RemovalView, stage: RemovalStage<Seq<Part>>) -> StepView {
    Step::Continue(Task::Removal(Removal { stage, ..task }))
}

/// What a removal does with a reply.
pub open spec fn next_removal(s: ApplierView, task: RemovalView, reply: ReplyView) -> (
    ApplierView,
    StepView,
) {
    match task.stage {
        RemovalStage::Locate => match located(s.root, reply) {
            Ok(()) => (
                if task.tree {
                    without_tree(s, task.path)
                } else {
                    without_transfer(s, task.path)
                },
                removal_at(task, RemovalStage::Temp(TempStage::Link)),
            ),
            Err(error) => (s, failed(error)),
        },
        RemovalStage::Temp(stage) => match next_temp(s.root, stage, reply) {
            Ok(Some(stage)) => (s, removal_at(task, RemovalStage::Temp(stage))),
            Ok(None) => (s, removal_at(task, RemovalStage::TempRemove)),
            Err(error) => (s, failed(error)),
        },
        RemovalStage::TempRemove => (
            if task.tree {
                s
            } else {
                ApplierView { synced: s.synced.remove(task.path), ..s }
            },
            removal_at(task, RemovalStage::Exists),
        ),
        RemovalStage::Exists => match flag(reply) {
            Ok(true) => (s, removal_at(task, RemovalStage::Remove)),
            Ok(false) => (s, Step::Finished(Ok(None))),
            Err(error) => (s, failed(error)),
        },
        RemovalStage::Remove => match done(reply) {
            Ok(()) => (s, Step::Finished(Ok(None))),
            Err(error) => (s, failed(error)),
        },
    }
}

/// What a new directory does with a reply.
pub open spec fn next_new_dir(s: ApplierView, task: NewDirView, reply: ReplyView) -> StepView {
    match task.stage {
        NewDirStage::Locate => match located(s.root, reply) {
            Ok(()) => Step::Continue(Task::NewDir(NewDir { stage: NewDirStage::Exists, ..task })),
            Err(error) => failed(error),
        },
        NewDirStage::Exists => match flag(reply) {
            Ok(true) => Step::Finished(Ok(None)),
            Ok(false) => Step::Continue(
                Task::NewDir(NewDir { stage: NewDirStage::Create, ..task }),
            ),
            Err(error) => failed(error),
        },
        NewDirStage::Create => match done(reply) {
            Ok(()) => Step::Finished(Ok(None)),
            Err(error) => failed(error),
        },
    }
}

/// A piece of content that goes on at another stage.
pub open spec fn content_at(task: ContentView, stage: ContentStage) -> StepView {
    Step::Continue(Task::Content(Content { stage, ..task }))
}

/// What a piece of content does with a reply.
pub open spec fn next_content(s: ApplierView, task: ContentView, reply: ReplyView) -> (
    ApplierView,
    StepView,
) {
    match task.stage {
        ContentStage::DirectLocate => match located(s.root, reply) {
            Ok(()) => (s, content_at(task, ContentStage::DirectParent)),
            Err(error) => (s, failed(error)),
        },
        ContentStage::DirectParent => match done(reply) {
            Ok(()) => (s, content_at(task, ContentStage::DirectWrite)),
            Err(error) => (s, failed(error)),
        },
        ContentStage::DirectWrite => match done(reply) {
            Ok(()) => (s, content_at(task, ContentStage::DirectDigest)),
            Err(error) => (s, failed(error)),
        },
        ContentStage::DirectDigest => match digest(reply) {
            Ok(state) => (with_synced(s, task.path, state), Step::Finished(Ok(None))),
            Err(_) => (s, Step::Finished(Ok(None))),
        },
        ContentStage::Write => match done(reply) {
            Ok(()) => if s.pending.contains_key(task.path) {
                (s, content_at(task, ContentStage::Size { expected: s.pending[task.path] }))
            } else {
                (s, Step::Finished(Ok(None)))
            },
            Err(error) => (s, failed(error)),
        },
        ContentStage::Size { expected } => match reply {
            Reply::Size(size) => if size < expected.size {
                (s, Step::Finished(Ok(None)))
            } else {
                (s, content_at(task, ContentStage::Flush { expected, size }))
            },
            _ => (s, failed(bad_reply(reply))),
        },
        ContentStage::Flush { expected, size } => match done(reply) {
            Ok(()) => if size > expected.size {
                (s, Step::Finished(Ok(None)))
            } else {
                (s, content_at(task, ContentStage::Digest { expected }))
            },
            Err(error) => (s, failed(error)),
        },
        ContentStage::Digest { expected } => match digest(reply) {
            Ok(actual) => if actual == expected {
                (s, content_at(task, ContentStage::CommitLocate { expected }))
            } else {
                (s, Step::Finished(Ok(None)))
            },
            Err(error) => (s, failed(error)),
        },
        ContentStage::CommitLocate { expected } => match located(s.root, reply) {
            Ok(()) => (s, content_at(task, ContentStage::CommitParent { expected })),
            Err(error) => (s, failed(error)),
        },
        ContentStage::CommitParent { expected } => match done(reply) {
            Ok(()) => (
                ApplierView { pending: s.pending.remove(task.path), ..s },
                content_at(task, ContentStage::CommitExists { expected }),
            ),
            Err(error) => (s, failed(error)),
        },
        ContentStage::CommitExists { expected } => match flag(reply) {
            Ok(true) => (s, content_at(task, ContentStage::CommitRemove { expected })),
            Ok(false) => (s, content_at(task, ContentStage::CommitMove { expected })),
            Err(error) => (s, failed(error)),
        },
        ContentStage::CommitRemove { expected } => match done(reply) {
            Ok(()) => (s, content_at(task, ContentStage::CommitMove { expected })),
            Err(error) => (s, failed(error)),
        },
        ContentStage::CommitMove { expected } => match done(reply) {
            Ok(()) => (with_synced(s, task.path, expected), Step::Finished(Ok(None))),
            Err(error) => (s, failed(error)),
        },
    }
}

/// What a task does with a reply.
pub open spec fn next_step(s: ApplierView, task: TaskView, reply: ReplyView) -> (
    ApplierView,
    StepView,
) {
    match task {
        Task::Upsert(upsert) => next_upsert(s, upsert, reply),
        Task::Removal(removal) => next_removal(s, removal, reply),
        Task::NewDir(new_dir) => (s, next_new_dir(s, new_dir, reply)),
        Task::Content(content) => next_content(s, content, reply),
    }
}

/// How a created or modified file starts.
pub open spec fn start_upsert(
    s: ApplierView,
    path: Seq<Part>,
    modified: bool,
    remote: FileState,
    timestamp: i64,
) -> (ApplierView, StepView) {
    match path_fault(path) {
        Some(fault) => (without_transfer(s, path), failed(fault)),
        None => (
            s,
            Step::Continue(
                Task::Upsert(
                    Upsert {
                        path,
                        modified,
                        remote,
                        timestamp,
                        conflict: None,
                        stage: UpsertStage::ConflictLocate,
                    },
                ),
            ),
        ),
    }
}

/// How a removal starts.
pub open spec fn start_removal(path: Seq<Part>, tree: bool) -> StepView {
    match path_fault(path) {
        Some(fault) => failed(fault),
        None => Step::Continue(
            Task::Removal(Removal { path, tree, stage: RemovalStage::Locate }),
        ),
    }
}

/// How an event starts.
pub open spec fn start(s: ApplierView, event: EventView, timestamp: i64) -> (
    ApplierView,
    StepView,
) {
    match event {
        EventView::FileCreated { path, content_hash, size } => start_upsert(
            s,
            path,
            false,
            FileState { hash: content_hash, size },
            timestamp,
        ),
        EventView::FileModified { path, content_hash, size } => start_upsert(
            s,
            path,
            true,
            FileState { hash: content_hash, size },
            timestamp,
        ),
        EventView::FileDeleted { path } => (s, start_removal(path, false)),
        EventView::DirDeleted { path } => (s, start_removal(path, true)),
        EventView::DirCreated { path } => (
            s,
            match path_fault(path) {
                Some(fault) => failed(fault),
                None => Step::Continue(Task::NewDir(NewDir { path, stage: NewDirStage::Locate })),
            },
        ),
        EventView::FileContent { path, offset, data } => (
            s,
            if s.blocked.contains(path) {
                Step::Finished(Ok(None))
            } else if s.pending.contains_key(path) {
                Step::Continue(
                    Task::Content(Content { path, offset, data, stage: ContentStage::Write }),
                )
            } else {
                match path_fault(path) {
                    Some(fault) => failed(fault),
                    None => Step::Continue(
                        Task::Content(
                            Content { path, offset, data, stage: ContentStage::DirectLocate },
                        ),
                    ),
                }
            },
        ),
        EventView::Heartbeat { .. } => (s, Step::Finished(Ok(None))),
    }
}

/// Applies the events of the other side.
pub struct ChangeApplier {
    root_canonical: SyncPath,
    conflict_strategy: ConflictStrategy,
    last_synced_hash: PathMap<FileState>,
    pending_remote_files: PathMap<FileState>,
    blocked_remote_files: PathMap<()>,
}

impl View for ChangeApplier {
    type V = ApplierView;

    closed spec fn view(&self) -> ApplierView {
        ApplierView {
            root: self.root_canonical@,
            strategy: self.conflict_strategy,
            synced: self.last_synced_hash@,
            pending: self.pending_remote_files@,
            blocked: self.blocked_remote_files@.dom(),
        }
    }
}

/// Looks for a place in the internal directory.
fn step_temp(root: &SyncPath, stage: &TempStage<SyncPath>, reply: &FsReply) -> (next: Result<
    Option<TempStage<SyncPath>>,
    ApplyError,
>)
    ensures
        match next {
            Ok(Some(stage_after)) => next_temp(root@, stage@, reply@) == Ok::<
                Option<TempStage<Seq<Part>>>,
                ApplyError,
            >(Some(stage_after@)),
            Ok(None) => next_temp(root@, stage@, reply@) == Ok::<
                Option<TempStage<Seq<Part>>>,
                ApplyError,
            >(None),
            Err(error) => next_temp(root@, stage@, reply@) == Err::<
                Option<TempStage<Seq<Part>>>,
                ApplyError,
            >(error),
        },
{
    match stage {
        TempStage::Link => match read_flag(reply) {
            Ok(true) => Err(ApplyError::TempRootIsLink),
            Ok(false) => Ok(Some(TempStage::Root)),
            Err(error) => Err(error),
        },
        TempStage::Root => match reply {
            Reply::TempRoot(base) => {
                if base.starts_with(root) {
                    Ok(Some(TempStage::Spot { base: base.clone() }))
                } else {
                    Err(ApplyError::TempRootEscapes)
                }
            },
            _ => Err(reply_error(reply)),
        },
        TempStage::Spot { base } => match check_located(base, reply) {
            Ok(()) => Ok(None),
            Err(error) => Err(error),
        },
    }
}

fn answers_yes(reply: &FsReply) -> (yes: bool)
    ensures
        yes == (reply@ == Reply::<Seq<Part>>::Flag(true)),
{
    match reply {
        Reply::Flag(flag) => *flag,
        _ => false,
    }
}

impl ChangeApplier {
    /// No path occurs twice in what the applier remembers.
    pub closed spec fn wf(&self) -> bool {
        &&& self.last_synced_hash.wf()
        &&& self.pending_remote_files.wf()
        &&& self.blocked_remote_files.wf()
    }

    /// An applier for the directory with the given canonical path.
    pub fn new(root_canonical: SyncPath, conflict_strategy: ConflictStrategy) -> (applier:
        ChangeApplier)
        ensures
            applier.wf(),
            applier@ == (ApplierView {
                root: root_canonical@,
                strategy: conflict_strategy,
                synced: Map::empty(),
                pending: Map::empty(),
                blocked: Set::empty(),
            }),
    {
        let applier = ChangeApplier {
            root_canonical,
            conflict_strategy,
            last_synced_hash: PathMap::new(),
            pending_remote_files: PathMap::new(),
            blocked_remote_files: PathMap::new(),
        };
        assert(applier@.blocked =~= Set::empty());
        applier
    }

    /// Whether a transfer of a file is under way.
    pub fn is_pending(&self, path: &SyncPath) -> (pending: bool)
        ensures
            pending == self@.pending.contains_key(path@),
    {
        self.pending_remote_files.contains(path)
    }

    /// What a file held when both sides last agreed on it.
    pub fn last_synced(&self, path: &SyncPath) -> (state: Option<FileState>)
        requires
            self.wf(),
        ensures
            state == (if self@.synced.contains_key(path@) {
                Some(self@.synced[path@])
            } else {
                None
            }),
    {
        match self.last_synced_hash.get(path) {
            Some(state) => Some(*state),
            None => None,
        }
    }

    fn drop_transfer(&mut self, path: &SyncPath)
        requires
            old(self).wf(),
        ensures
            final(self).wf(),
            final(self)@ == without_transfer(old(self)@, path@),
    {
        self.blocked_remote_files.remove(path);
        self.pending_remote_files.remove(path);
        assert(self@ =~= without_transfer(old(self)@, path@));
    }

    fn drop_tree(&mut self, path: &SyncPath)
        requires
            old(self).wf(),
        ensures
            final(self).wf(),
            final(self)@ == without_tree(old(self)@, path@),
    {
        self.last_synced_hash.remove_under(path);
        self.pending_remote_files.remove_under(path);
        self.blocked_remote_files.remove_under(path);
        assert(self@.blocked =~= without_tree(old(self)@, path@).blocked);
        assert(self@ =~= without_tree(old(self)@, path@));
    }

    /// The transfer of the remote version starts.
    fn prepare_transfer(&mut self, task: Upsert<SyncPath, ConflictInfo>) -> (step: ApplyStep)
        requires
            old(self).wf(),
        ensures
            final(self).wf(),
            (final(self)@, step@) == prepare(old(self)@, task@),
    {
        self.drop_transfer(&task.path);
        Step::Continue(Task::Upsert(Upsert { stage: UpsertStage::Locate, ..task }))
    }

    /// Whether the local file changed since both sides agreed on it, and not to
    /// what the other side announces.
    fn has_diverged(&self, path: &SyncPath, remote: &FileState, local: &FileState) -> (has: bool)
        requires
            self.wf(),
        ensures
            has == diverged(self@, path@, *remote, *local),
    {
        if hash_eq(&local.hash, &remote.hash) {
            return false;
        }
        match self.last_synced_hash.get(path) {
            Some(synced) => !hash_eq(&local.hash, &synced.hash),
            None => false,
        }
    }

    /// The conflict between the file that is at a path and one that the other
    /// side announces for it, if there is any. `modified` is the time of the last
    /// change of the local file, in milliseconds since the epoch; where both
    /// versions are kept it plays no part.
    pub fn detect_conflict(
        &self,
        path: &SyncPath,
        remote: &FileState,
        timestamp: i64,
        local: &FileState,
        modified: Option<u128>,
    ) -> (found: Option<ConflictInfo>)
        requires
            self.wf(),
        ensures
            conflict_view(found) == conflict_found(
                self@,
                path@,
                *remote,
                timestamp,
                *local,
                modified,
            ),
    {
        if !self.has_diverged(path, remote, local) {
            return None;
        }
        match self.conflict_strategy {
            ConflictStrategy::LastWriteWins => {
                if timestamp >= local_mtime_millis(modified) {
                    None
                } else {
                    Some(report_conflict(path, remote, local))
                }
            },
            ConflictStrategy::KeepBoth => Some(report_conflict(path, remote, local)),
        }
    }

    fn resume_upsert(&mut self, task: Upsert<SyncPath, ConflictInfo>, reply: &FsReply) -> (step:
        ApplyStep)
        requires
            old(self).wf(),
        ensures
            final(self).wf(),
            (final(self)@, step@) == next_upsert(old(self)@, task@, reply@),
    {
        match &task.stage {
            UpsertStage::ConflictLocate => match check_located(&self.root_canonical, reply) {
                Ok(()) => continue_upsert(task, UpsertStage::ConflictExists),
                Err(_) => self.prepare_transfer(task),
            },
            UpsertStage::ConflictExists => {
                if answers_yes(reply) {
                    continue_upsert(task, UpsertStage::ConflictDigest)
                } else {
                    self.prepare_transfer(task)
                }
            },
            UpsertStage::ConflictDigest => match read_digest(reply) {
                Ok(local) => self.weigh_local(task, local),
                Err(_) => self.prepare_transfer(task),
            },
            UpsertStage::ConflictMtime { local } => {
                let modified: Option<u128> = match reply {
                    Reply::Millis(millis) => *millis,
                    _ => None,
                };
                match self.detect_conflict(
                    &task.path,
                    &task.remote,
                    task.timestamp,
                    local,
                    modified,
                ) {
                    Some(conflict) => self.keep_local_version(task, conflict),
                    None => self.prepare_transfer(task),
                }
            },
            UpsertStage::AsideLocate => match check_located(&self.root_canonical, reply) {
                Ok(()) => continue_upsert(task, UpsertStage::AsideExists),
                Err(_) => self.prepare_transfer(task),
            },
            UpsertStage::AsideExists => {
                if answers_yes(reply) {
                    continue_upsert(task, UpsertStage::AsideProbe { turn: 0 })
                } else {
                    self.prepare_transfer(task)
                }
            },
            UpsertStage::AsideProbe { turn } => {
                let turn: u32 = *turn;
                if !answers_yes(reply) {
                    continue_upsert(task, UpsertStage::AsideRename { turn })
                } else if turn < MAX_COPIES - 1 {
                    continue_upsert(task, UpsertStage::AsideProbe { turn: turn + 1 })
                } else {
                    continue_upsert(task, UpsertStage::AsideRename { turn: 0 })
                }
            },
            UpsertStage::AsideRename { .. } => self.prepare_transfer(task),
            UpsertStage::Locate => match check_located(&self.root_canonical, reply) {
                Ok(()) => continue_upsert(task, UpsertStage::Parent),
                Err(error) => Step::Finished(Err(error)),
            },
            UpsertStage::Parent => match check_done(reply) {
                Ok(()) => {
                    if task.remote.size == 0 {
                        continue_upsert(task, UpsertStage::EmptyWrite)
                    } else {
                        continue_upsert(task, UpsertStage::Temp(TempStage::Link))
                    }
                },
                Err(error) => Step::Finished(Err(error)),
            },
            UpsertStage::EmptyWrite => match check_done(reply) {
                Ok(()) => continue_upsert(task, UpsertStage::EmptyDigest),
                Err(error) => Step::Finished(Err(error)),
            },
            UpsertStage::EmptyDigest => match read_digest(reply) {
                Ok(actual) => {
                    self.last_synced_hash.insert(task.path, actual);
                    Step::Finished(Ok(task.conflict))
                },
                Err(error) => Step::Finished(Err(error)),
            },
            UpsertStage::Temp(stage) => match step_temp(&self.root_canonical, stage, reply) {
                Ok(Some(after)) => continue_upsert(task, UpsertStage::Temp(after)),
                Ok(None) => continue_upsert(task, UpsertStage::TempParent),
                Err(error) => Step::Finished(Err(error)),
            },
            UpsertStage::TempParent => match check_done(reply) {
                Ok(()) => continue_upsert(task, UpsertStage::TempOpen),
                Err(error) => Step::Finished(Err(error)),
            },
            UpsertStage::TempOpen => match check_done(reply) {
                Ok(()) => {
                    self.pending_remote_files.insert(task.path, task.remote);
                    Step::Finished(Ok(task.conflict))
                },
                Err(error) => Step::Finished(Err(error)),
            },
        }
    }

    /// Decides on the hash of a local file that is already there.
    fn weigh_local(&mut self, task: Upsert<SyncPath, ConflictInfo>, local: FileState) -> (step:
        ApplyStep)
        requires
            old(self).wf(),
            task.stage@ is ConflictDigest,
        ensures
            final(self).wf(),
            (final(self)@, step@) == next_upsert(
                old(self)@,
                task@,
                Reply::<Seq<Part>>::Digest(local),
            ),
    {
        if !self.has_diverged(&task.path, &task.remote, &local) {
            return self.prepare_transfer(task);
        }
        match self.conflict_strategy {
            ConflictStrategy::LastWriteWins => continue_upsert(
                task,
                UpsertStage::ConflictMtime { local },
            ),
            ConflictStrategy::KeepBoth => {
                let conflict = self.detect_conflict(
                    &task.path,
                    &task.remote,
                    task.timestamp,
                    &local,
                    None,
                );
                Step::Continue(
                    Task::Upsert(Upsert { conflict, stage: UpsertStage::AsideLocate, ..task }),
                )
            },
        }
    }

    fn keep_local_version(
        &mut self,
        task: Upsert<SyncPath, ConflictInfo>,
        conflict: ConflictInfo,
    ) -> (step: ApplyStep)
        requires
            old(self).wf(),
        ensures
            final(self).wf(),
            (final(self)@, step@) == keep_local(old(self)@, task@, conflict@),
    {
        if task.modified {
            self.pending_remote_files.remove(&task.path);
        }
        self.blocked_remote_files.insert(task.path, ());
        assert(self@.blocked =~= keep_local(old(self)@, task@, conflict@).0.blocked);
        Step::Finished(Ok(Some(conflict)))
    }

    fn resume_removal(&mut self, task: Removal<SyncPath>, reply: &FsReply) -> (step: ApplyStep)
        requires
            old(self).wf(),
        ensures
            final(self).wf(),
            (final(self)@, step@) == next_removal(old(self)@, task@, reply@),
    {
        match &task.stage {
            RemovalStage::Locate => match check_located(&self.root_canonical, reply) {
                Ok(()) => {
                    if task.tree {
                        self.drop_tree(&task.path);
                    } else {
                        self.drop_transfer(&task.path);
                    }
                    continue_removal(task, RemovalStage::Temp(TempStage::Link))
                },
                Err(error) => Step::Finished(Err(error)),
            },
            RemovalStage::Temp(stage) => match step_temp(&self.root_canonical, stage, reply) {
                Ok(Some(after)) => continue_removal(task, RemovalStage::Temp(after)),
                Ok(None) => continue_removal(task, RemovalStage::TempRemove),
                Err(error) => Step::Finished(Err(error)),
            },
            RemovalStage::TempRemove => {
                if !task.tree {
                    self.last_synced_hash.remove(&task.path);
                }
                continue_removal(task, RemovalStage::Exists)
            },
            RemovalStage::Exists => match read_flag(reply) {
                Ok(true) => continue_removal(task, RemovalStage::Remove),
                Ok(false) => Step::Finished(Ok(None)),
                Err(error) => Step::Finished(Err(error)),
            },
            RemovalStage::Remove => match check_done(reply) {
                Ok(()) => Step::Finished(Ok(None)),
                Err(error) => Step::Finished(Err(error)),
            },
        }
    }

    fn resume_new_dir(&self, task: NewDir<SyncPath>, reply: &FsReply) -> (step: ApplyStep)
        ensures
            step@ == next_new_dir(self@, task@, reply@),
    {
        match task.stage {
            NewDirStage::Locate => match check_located(&self.root_canonical, reply) {
                Ok(()) => Step::Continue(
                    Task::NewDir(NewDir { stage: NewDirStage::Exists, ..task }),
                ),
                Err(error) => Step::Finished(Err(error)),
            },
            NewDirStage::Exists => match read_flag(reply) {
                Ok(true) => Step::Finished(Ok(None)),
                Ok(false) => Step::Continue(
                    Task::NewDir(NewDir { stage: NewDirStage::Create, ..task }),
                ),
                Err(error) => Step::Finished(Err(error)),
            },
            NewDirStage::Create => match check_done(reply) {
                Ok(()) => Step::Finished(Ok(None)),
                Err(error) => Step::Finished(Err(error)),
            },
        }
    }

    fn resume_content(&mut self, task: Content<SyncPath, Vec<u8>>, reply: &FsReply) -> (step:
        ApplyStep)
        requires
            old(self).wf(),
        ensures
            final(self).wf(),
            (final(self)@, step@) == next_content(old(self)@, task@, reply@),
    {
        match task.stage {
            ContentStage::DirectLocate => match check_located(&self.root_canonical, reply) {
                Ok(()) => continue_content(task, ContentStage::DirectParent),
                Err(error) => Step::Finished(Err(error)),
            },
            ContentStage::DirectParent => match check_done(reply) {
                Ok(()) => continue_content(task, ContentStage::DirectWrite),
                Err(error) => Step::Finished(Err(error)),
            },
            ContentStage::DirectWrite => match check_done(reply) {
                Ok(()) => continue_content(task, ContentStage::DirectDigest),
                Err(error) => Step::Finished(Err(error)),
            },
            ContentStage::DirectDigest => match read_digest(reply) {
                Ok(state) => {
                    self.last_synced_hash.insert(task.path, state);
                    Step::Finished(Ok(None))
                },
                Err(_) => Step::Finished(Ok(None)),
            },
            ContentStage::Write => match check_done(reply) {
                Ok(()) => match self.pending_remote_files.get(&task.path) {
                    Some(state) => {
                        let expected: FileState = *state;
                        continue_content(task, ContentStage::Size { expected })
                    },
                    None => Step::Finished(Ok(None)),
                },
                Err(error) => Step::Finished(Err(error)),
            },
            ContentStage::Size { expected } => match reply {
                Reply::Size(size) => {
                    if *size < expected.size {
                        Step::Finished(Ok(None))
                    } else {
                        continue_content(task, ContentStage::Flush { expected, size: *size })
                    }
                },
                _ => Step::Finished(Err(reply_error(reply))),
            },
            ContentStage::Flush { expected, size } => match check_done(reply) {
                Ok(()) => {
                    if size > expected.size {
                        Step::Finished(Ok(None))
                    } else {
                        continue_content(task, ContentStage::Digest { expected })
                    }
                },
                Err(error) => Step::Finished(Err(error)),
            },
            ContentStage::Digest { expected } => match read_digest(reply) {
                Ok(actual) => {
                    if hash_eq(&actual.hash, &expected.hash) && actual.size == expected.size {
                        continue_content(task, ContentStage::CommitLocate { expected })
                    } else {
                        Step::Finished(Ok(None))
                    }
                },
                Err(error) => Step::Finished(Err(error)),
            },
            ContentStage::CommitLocate { expected } => match check_located(
                &self.root_canonical,
                reply,
            ) {
                Ok(()) => continue_content(task, ContentStage::CommitParent { expected }),
                Err(error) => Step::Finished(Err(error)),
            },
            ContentStage::CommitParent { expected } => match check_done(reply) {
                Ok(()) => {
                    self.pending_remote_files.remove(&task.path);
                    continue_content(task, ContentStage::CommitExists { expected })
                },
                Err(error) => Step::Finished(Err(error)),
            },
            ContentStage::CommitExists { expected } => match read_flag(reply) {
                Ok(true) => continue_content(task, ContentStage::CommitRemove { expected }),
                Ok(false) => continue_content(task, ContentStage::CommitMove { expected }),
                Err(error) => Step::Finished(Err(error)),
            },
            ContentStage::CommitRemove { expected } => match check_done(reply) {
                Ok(()) => continue_content(task, ContentStage::CommitMove { expected }),
                Err(error) => Step::Finished(Err(error)),
            },
            ContentStage::CommitMove { expected } => match check_done(reply) {
                Ok(()) => {
                    self.last_synced_hash.insert(task.path, expected);
                    Step::Finished(Ok(None))
                },
                Err(error) => Step::Finished(Err(error)),
            },
        }
    }

    /// Goes on with an event, given the reply to the request of its task.
    pub fn resume(&mut self, task: ApplyTask, reply: &FsReply) -> (step: ApplyStep)
        requires
            old(self).wf(),
        ensures
            final(self).wf(),
            (final(self)@, step@) == next_step(old(self)@, task@, reply@),
    {
        match task {
            Task::Upsert(upsert) => self.resume_upsert(upsert, reply),
            Task::Removal(removal) => self.resume_removal(removal, reply),
            Task::NewDir(new_dir) => self.resume_new_dir(new_dir, reply),
            Task::Content(content) => self.resume_content(content, reply),
        }
    }

    fn begin_upsert(
        &mut self,
        path: &SyncPath,
        modified: bool,
        remote: FileState,
        timestamp: i64,
    ) -> (step: ApplyStep)
        requires
            old(self).wf(),
        ensures
            final(self).wf(),
            (final(self)@, step@) == start_upsert(
                old(self)@,
                path@,
                modified,
                remote,
                timestamp,
            ),
    {
        match validate_event_path(path) {
            Ok(()) => Step::Continue(
                Task::Upsert(
                    Upsert {
                        path: path.clone(),
                        modified,
                        remote,
                        timestamp,
                        conflict: None,
                        stage: UpsertStage::ConflictLocate,
                    },
                ),
            ),
            Err(fault) => {
                self.drop_transfer(path);
                Step::Finished(Err(fault))
            },
        }
    }

    /// Starts an event that the other side sent at the given time, in
    /// milliseconds since the epoch.
    pub fn apply_event(&mut self, event: &SyncEvent, remote_timestamp: i64) -> (step: ApplyStep)
        requires
            old(self).wf(),
        ensures
            final(self).wf(),
            (final(self)@, step@) == start(old(self)@, event@, remote_timestamp),
    {
        match event {
            SyncEvent::FileCreated { path, content_hash, size } => self.begin_upsert(
                path,
                false,
                FileState { hash: *content_hash, size: *size },
                remote_timestamp,
            ),
            SyncEvent::FileModified { path, content_hash, size } => self.begin_upsert(
                path,
                true,
                FileState { hash: *content_hash, size: *size },
                remote_timestamp,
            ),
            SyncEvent::FileDeleted { path } => begin_removal(path, false),
            SyncEvent::DirDeleted { path } => begin_removal(path, true),
            SyncEvent::DirCreated { path } => match validate_event_path(path) {
                Ok(()) => Step::Continue(
                    Task::NewDir(NewDir { path: path.clone(), stage: NewDirStage::Locate }),
                ),
                Err(fault) => Step::Finished(Err(fault)),
            },
            SyncEvent::FileContent { path, offset, data } => {
                if self.blocked_remote_files.contains(path) {
                    return Step::Finished(Ok(None));
                }
                if self.pending_remote_files.contains(path) {
                    return begin_content(path, *offset, data, ContentStage::Write);
                }
                match validate_event_path(path) {
                    Ok(()) => begin_content(path, *offset, data, ContentStage::DirectLocate),
                    Err(fault) => Step::Finished(Err(fault)),
                }
            },
            SyncEvent::Heartbeat { .. } => Step::Finished(Ok(None)),
        }
    }
}

fn continue_upsert(task: Upsert<SyncPath, ConflictInfo>, stage: UpsertStage<SyncPath>) -> (step:
    ApplyStep)
    ensures
        step@ == upsert_at(task@, stage@),
{
    Step::Continue(Task::Upsert(Upsert { stage, ..task }))
}

fn continue_removal(task: Removal<SyncPath>, stage: RemovalStage<SyncPath>) -> (step: ApplyStep)
    ensures
        step@ == removal_at(task@, stage@),
{
    Step::Continue(Task::Removal(Removal { stage, ..task }))
}

fn continue_content(task: Content<SyncPath, Vec<u8>>, stage: ContentStage) -> (step: ApplyStep)
    ensures
        step@ == content_at(task@, stage),
{
    Step::Continue(Task::Content(Content { stage, ..task }))
}

fn report_conflict(path: &SyncPath, remote: &FileState, local: &FileState) -> (conflict:
    ConflictInfo)
    ensures
        conflict@ == conflict_of(path@, *remote, *local),
{
    ConflictInfo {
        path: path.clone(),
        local_hash: local.hash,
        local_size: local.size,
        remote_hash: remote.hash,
        remote_size: remote.size,
    }
}

fn begin_removal(path: &SyncPath, tree: bool) -> (step: ApplyStep)
    ensures
        step@ == start_removal(path@, tree),
{
    match validate_event_path(path) {
        Ok(()) => Step::Continue(
            Task::Removal(Removal { path: path.clone(), tree, stage: RemovalStage::Locate }),
        ),
        Err(fault) => Step::Finished(Err(fault)),
    }
}

fn begin_content(path: &SyncPath, offset: u64, data: &Vec<u8>, stage: ContentStage) -> (step:
    ApplyStep)
    ensures
        step@ == (StepView::Continue(
            Task::Content(Content { path: path@, offset, data: data@, stage }),
        )),
{
    Step::Continue(
        Task::Content(
            Content {
                path: path.clone(),
                offset,
                data: slice_to_vec(data.as_slice()),
                stage,
            },
        ),
    )
}

/// Several events on their way: one of them waits for a reply.
pub struct Batch {
    /// The event that is under way.
    pub task: ApplyTask,
    /// All the events; those from `next` on are still to come.
    pub events: Vec<SyncEvent>,
    pub next: usize,
    /// When they were sent, in milliseconds since the epoch.
    pub timestamp: i64,
    /// The conflicts found so far.
    pub conflicts: Vec<ConflictInfo>,
}

impl Batch {
    /// The next event is one of the events, or all have begun.
    pub open spec fn wf(&self) -> bool {
        self.next <= self.events@.len()
    }
}

/// The mathematical value of a [`Batch`].
#[verifier::ext_equal]
pub struct BatchView {
    pub task: TaskView,
    pub rest: Seq<EventView>,
    pub timestamp: i64,
    pub conflicts: Seq<ConflictView>,
}

/// What comes next of several events.
pub enum BatchStep {
    /// The request of the batch's task has to be carried out and answered.
    Continue(Batch),
    /// All events are done, or one of them failed.
    Finished(Result<Vec<ConflictInfo>, ApplyError>),
}

/// The mathematical value of a [`BatchStep`].
#[verifier::ext_equal]
pub enum BatchStepView {
    Continue(BatchView),
    Finished(Result<Seq<ConflictView>, ApplyError>),
}

/// The values of a list of conflicts.
pub open spec fn conflict_views(conflicts: Seq<ConflictInfo>) -> Seq<ConflictView> {
    conflicts.map_values(|c: ConflictInfo| c@)
}

impl View for Batch {
    type V = BatchView;

    open spec fn view(&self) -> BatchView {
        BatchView {
            task: self.task@,
            rest: crate::event::event_views(self.events@).skip(self.next as int),
            timestamp: self.timestamp,
            conflicts: conflict_views(self.conflicts@),
        }
    }
}

impl View for BatchStep {
    type V = BatchStepView;

    open spec fn view(&self) -> BatchStepView {
        match self {
            BatchStep::Continue(batch) => BatchStepView::Continue(batch@),
            BatchStep::Finished(Ok(conflicts)) => BatchStepView::Finished(
                Ok(conflict_views(conflicts@)),
            ),
            BatchStep::Finished(Err(error)) => BatchStepView::Finished(Err(*error)),
        }
    }
}

/// A list of conflicts with one more, if there is one.
pub open spec fn noted(conflicts: Seq<ConflictView>, conflict: Option<ConflictView>) -> Seq<
    ConflictView,
> {
    match conflict {
        Some(conflict) => conflicts.push(conflict),
        None => conflicts,
    }
}

/// How the events that are still to come start, one after the other, until one
/// of them has to wait or fails.
pub open spec fn start_rest(
    s: ApplierView,
    rest: Seq<EventView>,
    timestamp: i64,
    conflicts: Seq<ConflictView>,
) -> (ApplierView, BatchStepView)
    decreases rest.len(),
{
    if rest.len() == 0 {
        (s, BatchStepView::Finished(Ok(conflicts)))
    } else {
        let after = start(s, rest[0], timestamp);
        match after.1 {
            Step::Continue(task) => (
                after.0,
                BatchStepView::Continue(
                    BatchView { task, rest: rest.skip(1), timestamp, conflicts },
                ),
            ),
            Step::Finished(Ok(conflict)) => start_rest(
                after.0,
                rest.skip(1),
                timestamp,
                noted(conflicts, conflict),
            ),
            Step::Finished(Err(error)) => (after.0, BatchStepView::Finished(Err(error))),
        }
    }
}

/// What several events do with a reply.
pub open spec fn next_batch(s: ApplierView, batch: BatchView, reply: ReplyView) -> (
    ApplierView,
    BatchStepView,
) {
    let after = next_step(s, batch.task, reply);
    match after.1 {
        Step::Continue(task) => (after.0, BatchStepView::Continue(BatchView { task, ..batch })),
        Step::Finished(Ok(conflict)) => start_rest(
            after.0,
            batch.rest,
            batch.timestamp,
            noted(batch.conflicts, conflict),
        ),
        Step::Finished(Err(error)) => (after.0, BatchStepView::Finished(Err(error))),
    }
}

fn note(conflicts: &mut Vec<ConflictInfo>, conflict: Option<ConflictInfo>)
    ensures
        conflict_views(final(conflicts)@) == noted(
            conflict_views(old(conflicts)@),
            conflict_view(conflict),
        ),
{
    match conflict {
        Some(conflict) => {
            conflicts.push(conflict);
            assert(conflict_views(conflicts@) =~= conflict_views(old(conflicts)@).push(
                conflict@,
            ));
        },
        None => {},
    }
}

impl ChangeApplier {
    fn begin_rest(
        &mut self,
        events: Vec<SyncEvent>,
        from: usize,
        timestamp: i64,
        found: Vec<ConflictInfo>,
    ) -> (step: BatchStep)
        requires
            old(self).wf(),
            from <= events@.len(),
        ensures
            final(self).wf(),
            step matches BatchStep::Continue(after) ==> after.wf(),
            (final(self)@, step@) == start_rest(
                old(self)@,
                crate::event::event_views(events@).skip(from as int),
                timestamp,
                conflict_views(found@),
            ),
    {
        let ghost views = crate::event::event_views(events@);
        let ghost outcome = start_rest(
            self@,
            views.skip(from as int),
            timestamp,
            conflict_views(found@),
        );
        let mut next: usize = from;
        let mut conflicts = found;
        while next < events.len()
            invariant
                self.wf(),
                next <= events@.len(),
                views == crate::event::event_views(events@),
                outcome == start_rest(
                    old(self)@,
                    views.skip(from as int),
                    timestamp,
                    conflict_views(found@),
                ),
                outcome == start_rest(
                    self@,
                    views.skip(next as int),
                    timestamp,
                    conflict_views(conflicts@),
                ),
            decreases events@.len() - next,
        {
            assert(views.skip(next as int)[0] == events@[next as int]@);
            assert(views.skip(next as int).skip(1) =~= views.skip(next + 1));
            let step = self.apply_event(&events[next], timestamp);
            next += 1;
            match step {
                Step::Continue(task) => {
                    return BatchStep::Continue(
                        Batch { task, events, next, timestamp, conflicts },
                    );
                },
                Step::Finished(Ok(conflict)) => {
                    note(&mut conflicts, conflict);
                },
                Step::Finished(Err(error)) => {
                    return BatchStep::Finished(Err(error));
                },
            }
        }
        BatchStep::Finished(Ok(conflicts))
    }

    /// Starts several events that the other side sent at the given time. They
    /// are applied in order; the first that fails ends them all.
    pub fn apply_events(&mut self, events: &[SyncEvent], remote_timestamp: i64) -> (step: BatchStep)
        requires
            old(self).wf(),
        ensures
            final(self).wf(),
            step matches BatchStep::Continue(after) ==> after.wf(),
            (final(self)@, step@) == start_rest(
                old(self)@,
                crate::event::event_views(events@),
                remote_timestamp,
                Seq::empty(),
            ),
    {
        let mut copies: Vec<SyncEvent> = Vec::new();
        let mut i: usize = 0;
        while i < events.len()
            invariant
                i <= events@.len(),
                copies@.len() == i,
                forall|k: int| 0 <= k < i ==> (#[trigger] copies@[k])@ == events@[k]@,
            decreases events@.len() - i,
        {
            copies.push(events[i].clone());
            i += 1;
        }
        assert(crate::event::event_views(copies@).skip(0) =~= crate::event::event_views(events@));
        let none: Vec<ConflictInfo> = Vec::new();
        assert(conflict_views(none@) =~= Seq::empty());
        self.begin_rest(copies, 0, remote_timestamp, none)
    }

    /// Goes on with several events, given the reply to the request of the task.
    pub fn resume_events(&mut self, batch: Batch, reply: &FsReply) -> (step: BatchStep)
        requires
            old(self).wf(),
            batch.wf(),
        ensures
            final(self).wf(),
            step matches BatchStep::Continue(after) ==> after.wf(),
            (final(self)@, step@) == next_batch(old(self)@, batch@, reply@),
    {
        let Batch { task, events, next, timestamp, conflicts } = batch;
        match self.resume(task, reply) {
            Step::Continue(task) => BatchStep::Continue(
                Batch { task, events, next, timestamp, conflicts },
            ),
            Step::Finished(Ok(conflict)) => {
                let mut found = conflicts;
                note(&mut found, conflict);
                self.begin_rest(events, next, timestamp, found)
            },
            Step::Finished(Err(error)) => BatchStep::Finished(Err(error)),
        }
    }
}

} // verus!
