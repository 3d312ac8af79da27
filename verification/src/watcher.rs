//! Watching a directory: which events a change on the disk gives rise to.

use crate::event::{EventView, SyncEvent};
use crate::hash::hash_eq;
use crate::names::to_lossy;
use crate::path::{bytes_eq, Component, Part, PathStyle, SyncPath};
use crate::path_map::PathMap;
use vstd::prelude::*;

pub use crate::hash::hash_data;
pub use crate::stability::wait_for_stable;

verus! {

/// Name of the directory in which incoming files are put together. It is never
/// synchronised.
pub const INTERNAL_TEMP_DIR: &'static str = ".dirsync_tmp";

/// The bytes of [`INTERNAL_TEMP_DIR`].
pub open spec fn temp_dir_name() -> Seq<u8> {
    vstd::utf8::encode_utf8(INTERNAL_TEMP_DIR@)
}

/// Hash and size of the content of a file.
#[derive(Clone, Copy, Debug, PartialEq, Eq)]
pub struct FileState {
    pub hash: [u8; 32],
    pub size: u64,
}

/// Tracks the states of the known files, to tell a change from a repetition.
pub struct FileStateTracker {
    states: PathMap<FileState>,
}

impl View for FileStateTracker {
    type V = Map<Seq<Part>, FileState>;

    closed spec fn view(&self) -> Map<Seq<Part>, FileState> {
        self.states@
    }
}

impl FileStateTracker {
    /// No file is tracked twice.
    pub closed spec fn wf(&self) -> bool {
        self.states.wf()
    }

    /// A tracker that knows no file.
    pub fn new() -> (tracker: FileStateTracker)
        ensures
            tracker.wf(),
            tracker@ == Map::<Seq<Part>, FileState>::empty(),
    {
        FileStateTracker { states: PathMap::new() }
    }

    /// Records the state of a file.
    pub fn record(&mut self, path: SyncPath, hash: [u8; 32], size: u64)
        requires
            old(self).wf(),
        ensures
            final(self).wf(),
            final(self)@ == old(self)@.insert(path@, (FileState { hash, size })),
    {
        self.states.insert(path, FileState { hash, size });
    }

    /// Forgets a file.
    pub fn remove(&mut self, path: &SyncPath)
        requires
            old(self).wf(),
        ensures
            final(self).wf(),
            final(self)@ == old(self)@.remove(path@),
    {
        self.states.remove(path);
    }

    /// Forgets all files at or under a directory.
    pub fn remove_tree(&mut self, dir: &SyncPath)
        requires
            old(self).wf(),
        ensures
            final(self).wf(),
            final(self)@ == crate::path_map::outside(old(self)@, dir@),
    {
        self.states.remove_under(dir);
    }

    /// Whether a file is tracked.
    pub fn is_known_file(&self, path: &SyncPath) -> (known: bool)
        ensures
            known == self@.contains_key(path@),
    {
        self.states.contains(path)
    }

    /// Whether a file is tracked, and if so whether its content has changed.
    pub fn check(&self, path: &SyncPath, hash: &[u8; 32], size: &u64) -> (result: (bool, bool))
        requires
            self.wf(),
        ensures
            result.0 == self@.contains_key(path@),
            result.1 == (self@.contains_key(path@) && self@[path@] != (FileState {
                hash: *hash,
                size: *size,
            })),
    {
        match self.states.get(path) {
            Some(state) => (true, !hash_eq(&state.hash, hash) || state.size != *size),
            None => (false, false),
        }
    }

    /// Number of tracked files.
    pub fn len(&self) -> (len: u128)
        requires
            self.wf(),
        ensures
            len == self@.dom().len(),
    {
        self.states.len()
    }
}

/// The file states after an event of the other side was applied.
pub open spec fn after_applied(states: Map<Seq<Part>, FileState>, event: EventView) -> Map<
    Seq<Part>,
    FileState,
> {
    match event {
        EventView::FileCreated { path, content_hash, size } => states.insert(
            path,
            FileState { hash: content_hash, size },
        ),
        EventView::FileModified { path, content_hash, size } => states.insert(
            path,
            FileState { hash: content_hash, size },
        ),
        EventView::FileDeleted { path } => states.remove(path),
        EventView::DirDeleted { path } => crate::path_map::outside(states, path),
        _ => states,
    }
}

/// An event repeats what is known of a file.
pub open spec fn repeats(states: Map<Seq<Part>, FileState>, event: EventView) -> bool {
    match event {
        EventView::FileCreated { path, content_hash, size } => states.contains_key(path)
            && states[path] == (FileState { hash: content_hash, size }),
        EventView::FileModified { path, content_hash, size } => states.contains_key(path)
            && states[path] == (FileState { hash: content_hash, size }),
        _ => false,
    }
}

/// What was found where a notice points.
#[derive(Clone, Copy, Debug, PartialEq, Eq)]
pub enum Probe {
    /// A directory.
    Dir,
    /// A file with this content.
    File(FileState),
    /// A file that could not be read.
    Unreadable,
    /// Neither a file nor a directory.
    Missing,
}

/// An absolute path and what was found there.
pub struct Sighting {
    pub path: SyncPath,
    pub probe: Probe,
}

/// The mathematical value of a [`Sighting`].
#[verifier::ext_equal]
pub struct SightingView {
    pub path: Seq<Part>,
    pub probe: Probe,
}

impl View for Sighting {
    type V = SightingView;

    open spec fn view(&self) -> SightingView {
        SightingView { path: self.path@, probe: self.probe }
    }
}

/// The values of a list of sightings.
pub open spec fn sighting_views(sightings: Seq<Sighting>) -> Seq<SightingView> {
    sightings.map_values(|s: Sighting| s@)
}

/// What a notice of the file system is about.
#[derive(Clone, Copy, Debug, PartialEq, Eq)]
pub enum NoticeKind {
    Create,
    /// A rename, of which only the old name is given.
    RenameFrom,
    /// A rename, of which only the new name is given.
    RenameTo,
    /// A rename with the old and the new name.
    RenameBoth,
    /// A rename of which it is not known what the names are.
    RenameAny,
    Modify,
    RemoveFile,
    RemoveFolder,
    /// A removal of something that may be a file or a directory.
    RemoveOther,
    Other,
}

/// A notice of the file system.
pub struct Notice {
    pub kind: NoticeKind,
    pub paths: Vec<Sighting>,
}

/// What lies behind `root` in a path, if it lies under `root`.
pub open spec fn relative(root: Seq<Part>, path: Seq<Part>) -> Option<Seq<Part>> {
    if root.is_prefix_of(path) {
        Some(path.skip(root.len() as int))
    } else {
        None
    }
}

/// The event of something that came to be.
pub open spec fn created(root: Seq<Part>, at: SightingView) -> Option<EventView> {
    match (relative(root, at.path), at.probe) {
        (Some(path), Probe::Dir) => Some(EventView::DirCreated { path }),
        (Some(path), Probe::File(state)) => Some(
            EventView::FileCreated { path, content_hash: state.hash, size: state.size },
        ),
        _ => None,
    }
}

/// The event of a file that was changed.
pub open spec fn modified(root: Seq<Part>, at: SightingView) -> Option<EventView> {
    match (relative(root, at.path), at.probe) {
        (Some(path), Probe::File(state)) => Some(
            EventView::FileModified { path, content_hash: state.hash, size: state.size },
        ),
        _ => None,
    }
}

/// What was removed is taken for a file: the notice says so, or it says nothing
/// and the path is that of a known file or has an extension.
pub open spec fn removed_file(
    states: Map<Seq<Part>, FileState>,
    kind: NoticeKind,
    path: Seq<Part>,
) -> bool {
    match kind {
        NoticeKind::RemoveFile => true,
        NoticeKind::RemoveFolder => false,
        _ => states.contains_key(path) || crate::path::path_has_extension(path),
    }
}

/// The event of something that ceased to be.
pub open spec fn removed(
    states: Map<Seq<Part>, FileState>,
    root: Seq<Part>,
    kind: NoticeKind,
    at: SightingView,
) -> Option<EventView> {
    match relative(root, at.path) {
        Some(path) => if removed_file(states, kind, path) {
            Some(EventView::FileDeleted { path })
        } else {
            Some(EventView::DirDeleted { path })
        },
        None => None,
    }
}

/// The event of one path of a notice.
pub open spec fn noticed(
    states: Map<Seq<Part>, FileState>,
    root: Seq<Part>,
    kind: NoticeKind,
    at: SightingView,
) -> Option<EventView> {
    match kind {
        NoticeKind::Create | NoticeKind::RenameTo => created(root, at),
        NoticeKind::Modify => modified(root, at),
        NoticeKind::RenameAny => match created(root, at) {
            Some(event) => Some(event),
            None => removed(states, root, kind, at),
        },
        NoticeKind::RenameFrom | NoticeKind::RemoveFile | NoticeKind::RemoveFolder
        | NoticeKind::RemoveOther => removed(states, root, kind, at),
        NoticeKind::RenameBoth | NoticeKind::Other => None,
    }
}

/// A list of events with one more, if there is one.
pub open spec fn with_event(events: Seq<EventView>, event: Option<EventView>) -> Seq<EventView> {
    match event {
        Some(event) => events.push(event),
        None => events,
    }
}

/// The events of all paths of a notice, one by one.
pub open spec fn all_noticed(
    states: Map<Seq<Part>, FileState>,
    root: Seq<Part>,
    kind: NoticeKind,
    paths: Seq<SightingView>,
) -> Seq<EventView>
    decreases paths.len(),
{
    if paths.len() == 0 {
        Seq::empty()
    } else {
        with_event(
            all_noticed(states, root, kind, paths.drop_last()),
            noticed(states, root, kind, paths.last()),
        )
    }
}

/// The events of a notice. A rename with one name speaks of one path only, and
/// one with both of the first as the old name and the second as the new one.
pub open spec fn notice_events(
    states: Map<Seq<Part>, FileState>,
    root: Seq<Part>,
    kind: NoticeKind,
    paths: Seq<SightingView>,
) -> Seq<EventView> {
    match kind {
        NoticeKind::RenameFrom => if paths.len() == 0 {
            Seq::empty()
        } else {
            with_event(Seq::empty(), removed(states, root, kind, paths[0]))
        },
        NoticeKind::RenameTo => if paths.len() == 0 {
            Seq::empty()
        } else {
            with_event(Seq::empty(), created(root, paths.last()))
        },
        NoticeKind::RenameBoth => if paths.len() == 0 {
            Seq::empty()
        } else {
            with_event(
                with_event(Seq::empty(), removed(states, root, kind, paths[0])),
                created(
                    root,
                    if paths.len() > 1 {
                        paths[1]
                    } else {
                        paths[0]
                    },
                ),
            )
        },
        _ => all_noticed(states, root, kind, paths),
    }
}

/// A path that is not synchronised: it lies in an ignored directory, or in the
/// internal one.
pub open spec fn ignored(ignore_dirs: Seq<Seq<Part>>, path: Seq<Part>) -> bool {
    ||| exists|i: int| 0 <= i < ignore_dirs.len() && (#[trigger] ignore_dirs[i]).is_prefix_of(path)
    ||| path.contains(Part::Normal(temp_dir_name()))
}

/// The events that a notice is translated to: none at all if one of its paths
/// is ignored.
pub open spec fn translated(
    states: Map<Seq<Part>, FileState>,
    ignore_dirs: Seq<Seq<Part>>,
    root: Seq<Part>,
    kind: NoticeKind,
    paths: Seq<SightingView>,
) -> Seq<EventView> {
    if exists|i: int| 0 <= i < paths.len() && ignored(ignore_dirs, (#[trigger] paths[i]).path) {
        Seq::empty()
    } else {
        notice_events(states, root, kind, paths)
    }
}

/// The values of a list of paths.
pub open spec fn path_views(paths: Seq<SyncPath>) -> Seq<Seq<Part>> {
    paths.map_values(|p: SyncPath| p@)
}

/// The directory that a name given by the user stands for.
pub open spec fn named_dir(style: PathStyle, root: Seq<Part>, name: Seq<char>) -> Seq<Part> {
    crate::path::joined(root, crate::path::path_parts(style, vstd::utf8::encode_utf8(name)))
}

/// Turns the notices of the file system into events.
pub struct FsWatcher {
    ignore_dirs: Vec<SyncPath>,
    debounce_ms: u64,
    tracker: FileStateTracker,
}

/// The mathematical value of an [`FsWatcher`].
#[verifier::ext_equal]
pub struct WatcherView {
    /// Absolute paths of the directories that are not synchronised.
    pub ignore_dirs: Seq<Seq<Part>>,
    /// How long notices are collected before they are turned into events.
    pub debounce_ms: u64,
    /// The known files.
    pub states: Map<Seq<Part>, FileState>,
}

impl View for FsWatcher {
    type V = WatcherView;

    closed spec fn view(&self) -> WatcherView {
        WatcherView {
            ignore_dirs: path_views(self.ignore_dirs@),
            debounce_ms: self.debounce_ms,
            states: self.tracker@,
        }
    }
}

impl FsWatcher {
    /// No file is tracked twice.
    pub closed spec fn wf(&self) -> bool {
        self.tracker.wf()
    }

    /// A watcher of the directory `root` that knows no file yet. The directories
    /// to ignore are written in the given style.
    pub fn new(
        style: PathStyle,
        root: &SyncPath,
        debounce_ms: u64,
        ignore_dirs: &[String],
    ) -> (watcher: FsWatcher)
        ensures
            watcher.wf(),
            watcher@.states == Map::<Seq<Part>, FileState>::empty(),
            watcher@.debounce_ms == debounce_ms,
            watcher@.ignore_dirs == Seq::new(
                ignore_dirs@.len(),
                |i: int| named_dir(style, root@, ignore_dirs@[i]@),
            ).push(named_dir(style, root@, INTERNAL_TEMP_DIR@)),
    {
        let mut dirs: Vec<SyncPath> = Vec::new();
        let mut i: usize = 0;
        while i < ignore_dirs.len()
            invariant
                i <= ignore_dirs@.len(),
                dirs@.len() == i,
                forall|k: int|
                    0 <= k < i ==> (#[trigger] dirs@[k])@ == named_dir(
                        style,
                        root@,
                        ignore_dirs@[k]@,
                    ),
            decreases ignore_dirs@.len() - i,
        {
            dirs.push(root.join(&SyncPath::parse_as(style, ignore_dirs[i].as_str())));
            i += 1;
        }
        dirs.push(root.join(&SyncPath::parse_as(style, INTERNAL_TEMP_DIR)));
        assert(path_views(dirs@) =~= Seq::new(
            ignore_dirs@.len(),
            |i: int| named_dir(style, root@, ignore_dirs@[i]@),
        ).push(named_dir(style, root@, INTERNAL_TEMP_DIR@)));
        FsWatcher { ignore_dirs: dirs, debounce_ms, tracker: FileStateTracker::new() }
    }

    /// How long notices are collected before they are turned into events.
    pub fn debounce_ms(&self) -> (millis: u64)
        ensures
            millis == self@.debounce_ms,
    {
        self.debounce_ms
    }

    /// Number of known files.
    pub fn tracked_files(&self) -> (len: u128)
        requires
            self.wf(),
        ensures
            len == self@.states.dom().len(),
    {
        self.tracker.len()
    }

    /// Records an event of the other side that was applied. The change that it
    /// makes on the disk is then no news, and a file that it brought is known
    /// for a file when it is removed.
    pub fn record_applied_event(&mut self, event: &SyncEvent)
        requires
            old(self).wf(),
        ensures
            final(self).wf(),
            final(self)@ == (WatcherView {
                states: after_applied(old(self)@.states, event@),
                ..old(self)@
            }),
    {
        match event {
            SyncEvent::FileCreated { path, content_hash, size } => {
                self.tracker.record(path.clone(), *content_hash, *size);
            },
            SyncEvent::FileModified { path, content_hash, size } => {
                self.tracker.record(path.clone(), *content_hash, *size);
            },
            SyncEvent::FileDeleted { path } => {
                self.tracker.remove(path);
            },
            SyncEvent::DirDeleted { path } => {
                self.tracker.remove_tree(path);
            },
            _ => {},
        }
    }

    /// Whether an event is news; if so it is recorded.
    pub fn should_emit(&mut self, event: &SyncEvent) -> (emit: bool)
        requires
            old(self).wf(),
        ensures
            final(self).wf(),
            emit == !repeats(old(self)@.states, event@),
            final(self)@ == (WatcherView {
                states: if emit {
                    after_applied(old(self)@.states, event@)
                } else {
                    old(self)@.states
                },
                ..old(self)@
            }),
    {
        match event {
            SyncEvent::FileCreated { path, content_hash, size }
            | SyncEvent::FileModified { path, content_hash, size } => {
                let (known, changed) = self.tracker.check(path, content_hash, size);
                if known && !changed {
                    return false;
                }
            },
            _ => {},
        }
        self.record_applied_event(event);
        true
    }

    /// Whether a path is not synchronised.
    pub fn is_ignored(&self, path: &SyncPath) -> (is_ignored: bool)
        ensures
            is_ignored == ignored(self@.ignore_dirs, path@),
    {
        let mut i: usize = 0;
        while i < self.ignore_dirs.len()
            invariant
                i <= self.ignore_dirs@.len(),
                self@.ignore_dirs == path_views(self.ignore_dirs@),
                forall|k: int|
                    0 <= k < i ==> !(#[trigger] self@.ignore_dirs[k]).is_prefix_of(path@),
            decreases self.ignore_dirs@.len() - i,
        {
            assert(self@.ignore_dirs[i as int] == self.ignore_dirs@[i as int]@);
            if path.starts_with(&self.ignore_dirs[i]) {
                return true;
            }
            i += 1;
        }
        path.has_name(INTERNAL_TEMP_DIR.as_bytes())
    }

    /// The event of something that came to be.
    pub fn create_event(&self, root: &SyncPath, at: &Sighting) -> (event: Option<SyncEvent>)
        ensures
            event_view(event) == created(root@, at@),
    {
        let path = match at.path.strip_prefix(root) {
            Some(path) => path,
            None => {
                return None;
            },
        };
        match at.probe {
            Probe::Dir => Some(SyncEvent::DirCreated { path }),
            Probe::File(state) => Some(
                SyncEvent::FileCreated { path, content_hash: state.hash, size: state.size },
            ),
            _ => None,
        }
    }

    /// The event of a file that was changed.
    pub fn modify_event(&self, root: &SyncPath, at: &Sighting) -> (event: Option<SyncEvent>)
        ensures
            event_view(event) == modified(root@, at@),
    {
        let path = match at.path.strip_prefix(root) {
            Some(path) => path,
            None => {
                return None;
            },
        };
        match at.probe {
            Probe::File(state) => Some(
                SyncEvent::FileModified { path, content_hash: state.hash, size: state.size },
            ),
            _ => None,
        }
    }

    /// The event of something that ceased to be.
    pub fn remove_event(&self, root: &SyncPath, at: &Sighting, kind: NoticeKind) -> (event: Option<
        SyncEvent,
    >)
        ensures
            event_view(event) == removed(self@.states, root@, kind, at@),
    {
        let path = match at.path.strip_prefix(root) {
            Some(path) => path,
            None => {
                return None;
            },
        };
        let is_file = match kind {
            NoticeKind::RemoveFile => true,
            NoticeKind::RemoveFolder => false,
            _ => self.tracker.is_known_file(&path) || path.has_extension(),
        };
        if is_file {
            Some(SyncEvent::FileDeleted { path })
        } else {
            Some(SyncEvent::DirDeleted { path })
        }
    }

    fn notice_event(&self, root: &SyncPath, at: &Sighting, kind: NoticeKind) -> (event: Option<
        SyncEvent,
    >)
        ensures
            event_view(event) == noticed(self@.states, root@, kind, at@),
    {
        match kind {
            NoticeKind::Create | NoticeKind::RenameTo => self.create_event(root, at),
            NoticeKind::Modify => self.modify_event(root, at),
            NoticeKind::RenameAny => match self.create_event(root, at) {
                Some(event) => Some(event),
                None => self.remove_event(root, at, kind),
            },
            NoticeKind::RenameFrom | NoticeKind::RemoveFile | NoticeKind::RemoveFolder
            | NoticeKind::RemoveOther => self.remove_event(root, at, kind),
            NoticeKind::RenameBoth | NoticeKind::Other => None,
        }
    }

    /// The events of a notice about the directory `root`; `None` if there are
    /// none.
    pub fn translate_event(&self, root: &SyncPath, notice: &Notice) -> (events: Option<
        Vec<SyncEvent>,
    >)
        ensures
            (match events {
                Some(list) => crate::event::event_views(list@),
                None => Seq::empty(),
            }) == translated(
                self@.states,
                self@.ignore_dirs,
                root@,
                notice.kind,
                sighting_views(notice.paths@),
            ),
            events matches Some(list) ==> list@.len() > 0,
    {
        let ghost views = sighting_views(notice.paths@);
        let mut i: usize = 0;
        while i < notice.paths.len()
            invariant
                i <= notice.paths@.len(),
                views == sighting_views(notice.paths@),
                forall|k: int|
                    0 <= k < i ==> !ignored(self@.ignore_dirs, (#[trigger] views[k]).path),
            decreases notice.paths@.len() - i,
        {
            assert(views[i as int] == notice.paths@[i as int]@);
            if self.is_ignored(&notice.paths[i].path) {
                return None;
            }
            i += 1;
        }
        let mut list: Vec<SyncEvent> = Vec::new();
        assert(crate::event::event_views(list@) =~= Seq::empty());
        let count: usize = notice.paths.len();
        if count > 0 {
            assert(views[0] == notice.paths@[0]@);
            assert(views.last() == notice.paths@[count - 1]@);
        }
        match notice.kind {
            NoticeKind::RenameFrom => {
                if count > 0 {
                    push_event(&mut list, self.remove_event(root, &notice.paths[0], notice.kind));
                }
            },
            NoticeKind::RenameTo => {
                if count > 0 {
                    push_event(&mut list, self.create_event(root, &notice.paths[count - 1]));
                }
            },
            NoticeKind::RenameBoth => {
                if count > 0 {
                    push_event(&mut list, self.remove_event(root, &notice.paths[0], notice.kind));
                    let to: usize = if count > 1 {
                        1
                    } else {
                        0
                    };
                    assert(views[to as int] == notice.paths@[to as int]@);
                    push_event(&mut list, self.create_event(root, &notice.paths[to]));
                }
            },
            _ => {
                self.notice_all(root, notice, &mut list);
            },
        }
        if list.len() == 0 {
            assert(crate::event::event_views(list@) =~= Seq::empty());
            None
        } else {
            Some(list)
        }
    }

    fn notice_all(&self, root: &SyncPath, notice: &Notice, list: &mut Vec<SyncEvent>)
        requires
            old(list)@.len() == 0,
        ensures
            crate::event::event_views(final(list)@) == all_noticed(
                self@.states,
                root@,
                notice.kind,
                sighting_views(notice.paths@),
            ),
    {
        let ghost views = sighting_views(notice.paths@);
        let mut i: usize = 0;
        assert(views.take(0) =~= Seq::empty());
        assert(crate::event::event_views(list@) =~= Seq::empty());
        while i < notice.paths.len()
            invariant
                i <= notice.paths@.len(),
                views == sighting_views(notice.paths@),
                crate::event::event_views(list@) == all_noticed(
                    self@.states,
                    root@,
                    notice.kind,
                    views.take(i as int),
                ),
            decreases notice.paths@.len() - i,
        {
            assert(views.take(i + 1).drop_last() =~= views.take(i as int));
            assert(views.take(i + 1).last() == notice.paths@[i as int]@);
            push_event(list, self.notice_event(root, &notice.paths[i], notice.kind));
            i += 1;
        }
        assert(views.take(i as int) =~= views);
    }
}

/// The value of an event that may be there.
pub open spec fn event_view(event: Option<SyncEvent>) -> Option<EventView> {
    match event {
        Some(event) => Some(event@),
        None => None,
    }
}

fn push_event(list: &mut Vec<SyncEvent>, event: Option<SyncEvent>)
    ensures
        crate::event::event_views(final(list)@) == with_event(
            crate::event::event_views(old(list)@),
            event_view(event),
        ),
{
    match event {
        Some(event) => {
            list.push(event);
            assert(crate::event::event_views(list@) =~= crate::event::event_views(
                old(list)@,
            ).push(event@));
        },
        None => {},
    }
}

/// Where an event of the same path stands in a list, if there is one.
pub open spec fn slot_of(events: Seq<EventView>, path: Option<Seq<Part>>) -> Option<int> {
    if exists|i: int|
        0 <= i < events.len() && crate::event::event_path(#[trigger] events[i]) == path {
        Some(
            choose|i: int|
                0 <= i < events.len() && crate::event::event_path(#[trigger] events[i]) == path,
        )
    } else {
        None
    }
}

/// A list of events after one more came in: it takes the place of an earlier
/// event of its path. Events without a path are dropped.
pub open spec fn merged_one(events: Seq<EventView>, event: EventView) -> Seq<EventView> {
    if crate::event::event_path(event) is None {
        events
    } else {
        match slot_of(events, crate::event::event_path(event)) {
            Some(i) => events.update(i, event),
            None => events.push(event),
        }
    }
}

/// A list of events after further ones came in, one by one.
pub open spec fn merged(events: Seq<EventView>, more: Seq<EventView>) -> Seq<EventView>
    decreases more.len(),
{
    if more.len() == 0 {
        events
    } else {
        merged_one(merged(events, more.drop_last()), more.last())
    }
}

/// No two events of a list have the same path, and all have one.
pub open spec fn paths_differ(events: Seq<EventView>) -> bool {
    &&& forall|i: int|
        0 <= i < events.len() ==> crate::event::event_path(#[trigger] events[i]) is Some
    &&& forall|i: int, j: int|
        0 <= i < j < events.len() ==> crate::event::event_path(#[trigger] events[i])
            != crate::event::event_path(#[trigger] events[j])
}

/// Events collected over a while, of which only the latest of each path counts.
pub struct EventBuffer {
    events: Vec<SyncEvent>,
}

impl View for EventBuffer {
    type V = Seq<EventView>;

    closed spec fn view(&self) -> Seq<EventView> {
        crate::event::event_views(self.events@)
    }
}

impl EventBuffer {
    /// No path occurs twice.
    pub open spec fn wf(&self) -> bool {
        paths_differ(self@)
    }

    /// An empty buffer.
    pub fn new() -> (buffer: EventBuffer)
        ensures
            buffer.wf(),
            buffer@ == Seq::<EventView>::empty(),
    {
        let buffer = EventBuffer { events: Vec::new() };
        assert(buffer@ =~= Seq::<EventView>::empty());
        buffer
    }

    /// Takes in an event.
    pub fn merge(&mut self, event: SyncEvent)
        requires
            old(self).wf(),
        ensures
            final(self).wf(),
            final(self)@ == merged_one(old(self)@, event@),
    {
        let ghost before = self@;
        let path = match event.path() {
            Some(path) => path,
            None => {
                return;
            },
        };
        let mut i: usize = 0;
        while i < self.events.len()
            invariant
                i <= self.events@.len(),
                self@ == before,
                self.wf(),
                self@ == crate::event::event_views(self.events@),
                Some(path@) == crate::event::event_path(event@),
                before == old(self)@,
                forall|k: int|
                    0 <= k < i ==> crate::event::event_path(#[trigger] before[k]) != Some(path@),
            decreases self.events@.len() - i,
        {
            assert(before[i as int] == self.events@[i as int]@);
            let same = match self.events[i].path() {
                Some(other) => other.same(path),
                None => false,
            };
            if same {
                assert(slot_of(before, Some(path@)) == Some(i as int));
                self.events.set(i, event);
                assert(self@ =~= before.update(i as int, event@));
                return;
            }
            i += 1;
        }
        assert(slot_of(before, Some(path@)) is None);
        self.events.push(event);
        assert(self@ =~= before.push(event@));
    }

    /// Takes in the events of a notice.
    pub fn merge_all(&mut self, events: Vec<SyncEvent>)
        requires
            old(self).wf(),
        ensures
            final(self).wf(),
            final(self)@ == merged(old(self)@, crate::event::event_views(events@)),
    {
        let ghost before = self@;
        let ghost views = crate::event::event_views(events@);
        let mut i: usize = 0;
        assert(views.take(0) =~= Seq::empty());
        while i < events.len()
            invariant
                i <= events@.len(),
                self.wf(),
                views == crate::event::event_views(events@),
                self@ == merged(before, views.take(i as int)),
            decreases events@.len() - i,
        {
            assert(views.take(i + 1).drop_last() =~= views.take(i as int));
            assert(views.take(i + 1).last() == events@[i as int]@);
            self.merge(events[i].clone());
            i += 1;
        }
        assert(views.take(i as int) =~= views);
    }
}

/// The known files and the news after a list of events was looked through.
pub open spec fn emitted(states: Map<Seq<Part>, FileState>, events: Seq<EventView>) -> (
    Map<Seq<Part>, FileState>,
    Seq<EventView>,
)
    decreases events.len(),
{
    if events.len() == 0 {
        (states, Seq::empty())
    } else {
        let before = emitted(states, events.drop_last());
        if repeats(before.0, events.last()) {
            before
        } else {
            (after_applied(before.0, events.last()), before.1.push(events.last()))
        }
    }
}

impl FsWatcher {
    /// Takes the events of a notice about the directory `root` into a buffer.
    pub fn collect(&self, root: &SyncPath, notice: &Notice, buffer: &mut EventBuffer)
        requires
            old(buffer).wf(),
        ensures
            final(buffer).wf(),
            final(buffer)@ == merged(
                old(buffer)@,
                translated(
                    self@.states,
                    self@.ignore_dirs,
                    root@,
                    notice.kind,
                    sighting_views(notice.paths@),
                ),
            ),
    {
        match self.translate_event(root, notice) {
            Some(events) => {
                buffer.merge_all(events);
            },
            None => {},
        }
    }

    /// The news among the events of a buffer, which are recorded.
    pub fn drain(&mut self, buffer: EventBuffer) -> (news: Vec<SyncEvent>)
        requires
            old(self).wf(),
        ensures
            final(self).wf(),
            crate::event::event_views(news@) == emitted(old(self)@.states, buffer@).1,
            final(self)@ == (WatcherView {
                states: emitted(old(self)@.states, buffer@).0,
                ..old(self)@
            }),
    {
        let ghost before = self@;
        let events = buffer.events;
        let ghost views = crate::event::event_views(events@);
        let mut news: Vec<SyncEvent> = Vec::new();
        let mut i: usize = 0;
        assert(views.take(0) =~= Seq::empty());
        assert(crate::event::event_views(news@) =~= Seq::empty());
        while i < events.len()
            invariant
                i <= events@.len(),
                self.wf(),
                views == crate::event::event_views(events@),
                crate::event::event_views(news@) == emitted(
                    before.states,
                    views.take(i as int),
                ).1,
                self@ == (WatcherView {
                    states: emitted(before.states, views.take(i as int)).0,
                    ..before
                }),
            decreases events@.len() - i,
        {
            assert(views.take(i + 1).drop_last() =~= views.take(i as int));
            assert(views.take(i + 1).last() == events@[i as int]@);
            let ghost news_before = news@;
            if self.should_emit(&events[i]) {
                news.push(events[i].clone());
                assert(crate::event::event_views(news@) =~= crate::event::event_views(
                    news_before,
                ).push(events@[i as int]@));
            }
            i += 1;
        }
        assert(views.take(i as int) =~= views);
        news
    }
}

/// The events of a list of notices, of which only the latest of each path
/// counts.
pub open spec fn collected(
    watcher: WatcherView,
    root: Seq<Part>,
    notices: Seq<Notice>,
) -> Seq<EventView>
    decreases notices.len(),
{
    if notices.len() == 0 {
        Seq::empty()
    } else {
        merged(
            collected(watcher, root, notices.drop_last()),
            translated(
                watcher.states,
                watcher.ignore_dirs,
                root,
                notices.last().kind,
                sighting_views(notices.last().paths@),
            ),
        )
    }
}

impl FsWatcher {
    /// The news of the notices that were collected over the debounce period
    /// after a first one came in.
    pub fn collect_events_blocking(&mut self, root: &SyncPath, notices: &[Notice]) -> (news: Vec<
        SyncEvent,
    >)
        requires
            old(self).wf(),
        ensures
            final(self).wf(),
            ({
                let after = emitted(
                    old(self)@.states,
                    collected(old(self)@, root@, notices@),
                );
                &&& crate::event::event_views(news@) == after.1
                &&& final(self)@ == (WatcherView { states: after.0, ..old(self)@ })
            }),
    {
        let mut buffer = EventBuffer::new();
        let mut i: usize = 0;
        assert(notices@.take(0) =~= Seq::empty());
        while i < notices.len()
            invariant
                i <= notices@.len(),
                buffer.wf(),
                *self == *old(self),
                buffer@ == collected(self@, root@, notices@.take(i as int)),
            decreases notices@.len() - i,
        {
            assert(notices@.take(i + 1).drop_last() =~= notices@.take(i as int));
            self.collect(root, &notices[i], &mut buffer);
            i += 1;
        }
        assert(notices@.take(i as int) =~= notices@);
        self.drain(buffer)
    }

    /// The same, if a first notice came in before the time ran out; else there
    /// is no news.
    pub fn collect_events_timeout(&mut self, root: &SyncPath, notices: Option<&[Notice]>) -> (news:
        Vec<SyncEvent>)
        requires
            old(self).wf(),
        ensures
            final(self).wf(),
            notices is None ==> news@.len() == 0 && final(self)@ == old(self)@,
            notices matches Some(list) ==> ({
                let after = emitted(old(self)@.states, collected(old(self)@, root@, list@));
                &&& crate::event::event_views(news@) == after.1
                &&& final(self)@ == (WatcherView { states: after.0, ..old(self)@ })
            }),
    {
        match notices {
            Some(list) => self.collect_events_blocking(root, list),
            None => Vec::new(),
        }
    }
}

/// The texts of a list of names given by the user.
pub open spec fn name_texts(names: Seq<String>) -> Seq<Seq<u8>> {
    names.map_values(|n: String| vstd::utf8::encode_utf8(n@))
}

/// A scan enters what has this text as its name: it is neither that of the
/// internal directory nor an ignored one.
pub open spec fn entered(text: Seq<u8>, ignore: Seq<Seq<u8>>) -> bool {
    text != temp_dir_name() && !ignore.contains(text)
}

/// A scan gets to a path under the scanned directory: it enters every directory
/// on the way.
pub open spec fn reached(path: Seq<Part>, ignore: Seq<Seq<u8>>) -> bool {
    forall|i: int|
        0 <= i < path.len() ==> ((#[trigger] path[i]) matches Part::Normal(name) ==> entered(
            crate::names::text_of(name),
            ignore,
        ))
}

/// The event of something that a scan found. There is none for the scanned
/// directory itself.
pub open spec fn scanned_event(root: Seq<Part>, ignore: Seq<Seq<u8>>, at: SightingView) -> Option<
    EventView,
> {
    match relative(root, at.path) {
        Some(path) => if path.len() > 0 && reached(path, ignore) {
            created(root, at)
        } else {
            None
        },
        None => None,
    }
}

/// The events of what a scan found, in that order.
pub open spec fn scanned(
    root: Seq<Part>,
    ignore: Seq<Seq<u8>>,
    found: Seq<SightingView>,
) -> Seq<EventView>
    decreases found.len(),
{
    if found.len() == 0 {
        Seq::empty()
    } else {
        with_event(
            scanned(root, ignore, found.drop_last()),
            scanned_event(root, ignore, found.last()),
        )
    }
}

/// The known files after those were recorded that a scan found.
pub open spec fn seeded(
    states: Map<Seq<Part>, FileState>,
    root: Seq<Part>,
    ignore: Seq<Seq<u8>>,
    found: Seq<SightingView>,
) -> Map<Seq<Part>, FileState>
    decreases found.len(),
{
    if found.len() == 0 {
        states
    } else {
        let before = seeded(states, root, ignore, found.drop_last());
        match (relative(root, found.last().path), found.last().probe) {
            (Some(path), Probe::File(state)) => if reached(path, ignore) {
                before.insert(path, state)
            } else {
                before
            },
            _ => before,
        }
    }
}

/// Whether a scan enters what has this name, whose text is at hand.
pub fn enters_text(text: &[u8], ignore_dirs: &[String]) -> (enters: bool)
    ensures
        enters == entered(text@, name_texts(ignore_dirs@)),
{
    let ghost ignore = name_texts(ignore_dirs@);
    if bytes_eq(text, INTERNAL_TEMP_DIR.as_bytes()) {
        return false;
    }
    let mut i: usize = 0;
    while i < ignore_dirs.len()
        invariant
            i <= ignore_dirs@.len(),
            ignore == name_texts(ignore_dirs@),
            forall|k: int| 0 <= k < i ==> #[trigger] ignore[k] != text@,
        decreases ignore_dirs@.len() - i,
    {
        assert(ignore[i as int] == vstd::utf8::encode_utf8(ignore_dirs@[i as int]@));
        if bytes_eq(text, ignore_dirs[i].as_str().as_bytes()) {
            assert(ignore.contains(text@));
            return false;
        }
        i += 1;
    }
    true
}

/// Whether a scan enters what has this name.
pub fn enters(name: &[u8], ignore_dirs: &[String]) -> (enters: bool)
    ensures
        enters == entered(crate::names::text_of(name@), name_texts(ignore_dirs@)),
{
    let text = to_lossy(name);
    enters_text(text.as_slice(), ignore_dirs)
}

fn reaches(path: &SyncPath, ignore_dirs: &[String]) -> (reaches: bool)
    ensures
        reaches == reached(path@, name_texts(ignore_dirs@)),
{
    let mut i: usize = 0;
    while i < path.parts.len()
        invariant
            i <= path.parts@.len(),
            path@.len() == path.parts@.len(),
            forall|k: int|
                0 <= k < i ==> ((#[trigger] path@[k]) matches Part::Normal(name) ==> entered(
                    crate::names::text_of(name),
                    name_texts(ignore_dirs@),
                )),
        decreases path.parts@.len() - i,
    {
        assert(path@[i as int] == path.parts@[i as int]@);
        if let Component::Normal(name) = &path.parts[i] {
            if !enters(name.as_slice(), ignore_dirs) {
                return false;
            }
        }
        i += 1;
    }
    true
}

fn scan_event(root: &SyncPath, ignore_dirs: &[String], at: &Sighting) -> (event: Option<SyncEvent>)
    ensures
        event_view(event) == scanned_event(root@, name_texts(ignore_dirs@), at@),
{
    let path = match at.path.strip_prefix(root) {
        Some(path) => path,
        None => {
            return None;
        },
    };
    if path.parts.len() == 0 || !reaches(&path, ignore_dirs) {
        return None;
    }
    match at.probe {
        Probe::Dir => Some(SyncEvent::DirCreated { path }),
        Probe::File(state) => Some(
            SyncEvent::FileCreated { path, content_hash: state.hash, size: state.size },
        ),
        _ => None,
    }
}

/// The events of all that a scan of the directory `root` found, which is none
/// if the scan does not enter the directory itself by its name.
pub fn initial_scan(
    root: &SyncPath,
    root_name: &[u8],
    found: &[Sighting],
    ignore_dirs: &[String],
) -> (events: Vec<SyncEvent>)
    ensures
        crate::event::event_views(events@) == (if entered(
            crate::names::text_of(root_name@),
            name_texts(ignore_dirs@),
        ) {
            scanned(root@, name_texts(ignore_dirs@), sighting_views(found@))
        } else {
            Seq::empty()
        }),
{
    let mut events: Vec<SyncEvent> = Vec::new();
    assert(crate::event::event_views(events@) =~= Seq::empty());
    if !enters(root_name, ignore_dirs) {
        return events;
    }
    let ghost views = sighting_views(found@);
    let mut i: usize = 0;
    assert(views.take(0) =~= Seq::empty());
    while i < found.len()
        invariant
            i <= found@.len(),
            views == sighting_views(found@),
            crate::event::event_views(events@) == scanned(
                root@,
                name_texts(ignore_dirs@),
                views.take(i as int),
            ),
        decreases found@.len() - i,
    {
        assert(views.take(i + 1).drop_last() =~= views.take(i as int));
        assert(views.take(i + 1).last() == found@[i as int]@);
        push_event(&mut events, scan_event(root, ignore_dirs, &found[i]));
        i += 1;
    }
    assert(views.take(i as int) =~= views);
    events
}

impl FsWatcher {
    /// Records the files that a scan of the directory `root` found, so that
    /// later changes of them are known for what they are.
    pub fn seed_tracker(
        &mut self,
        root: &SyncPath,
        root_name: &[u8],
        found: &[Sighting],
        ignore_dirs: &[String],
    )
        requires
            old(self).wf(),
        ensures
            final(self).wf(),
            final(self)@ == (WatcherView {
                states: if entered(
                    crate::names::text_of(root_name@),
                    name_texts(ignore_dirs@),
                ) {
                    seeded(
                        old(self)@.states,
                        root@,
                        name_texts(ignore_dirs@),
                        sighting_views(found@),
                    )
                } else {
                    old(self)@.states
                },
                ..old(self)@
            }),
    {
        if !enters(root_name, ignore_dirs) {
            return;
        }
        let ghost before = self@;
        let ghost views = sighting_views(found@);
        let mut i: usize = 0;
        assert(views.take(0) =~= Seq::empty());
        while i < found.len()
            invariant
                i <= found@.len(),
                self.wf(),
                views == sighting_views(found@),
                self@ == (WatcherView {
                    states: seeded(
                        before.states,
                        root@,
                        name_texts(ignore_dirs@),
                        views.take(i as int),
                    ),
                    ..before
                }),
            decreases found@.len() - i,
        {
            assert(views.take(i + 1).drop_last() =~= views.take(i as int));
            assert(views.take(i + 1).last() == found@[i as int]@);
            match found[i].path.strip_prefix(root) {
                Some(path) => {
                    if let Probe::File(state) = found[i].probe {
                        if reaches(&path, ignore_dirs) {
                            self.tracker.record(path, state.hash, state.size);
                        }
                    }
                },
                None => {},
            }
            i += 1;
        }
        assert(views.take(i as int) =~= views);
    }
}

/// Times that a file which cannot be read is tried again.
pub const HASH_RETRIES: u32 = 3;

/// Pause before a file is tried again, in milliseconds.
pub const HASH_RETRY_PAUSE_MS: u64 = 100;

/// What comes of an attempt to hash a file.
#[derive(Clone, Copy, Debug, PartialEq, Eq)]
pub enum HashStep {
    /// Hash and size of the file.
    Done(FileState),
    /// Try again after a pause in milliseconds.
    Retry(u64),
    /// The file cannot be read.
    Failed,
}

/// Goes on after an attempt to hash a file, which gave hash and size or failed,
/// as `failures` attempts before it did.
pub fn file_hash_and_size(failures: u32, outcome: Option<([u8; 32], u64)>) -> (step: HashStep)
    ensures
        step == (match outcome {
            Some((hash, size)) => HashStep::Done(FileState { hash, size }),
            None => if failures < HASH_RETRIES {
                HashStep::Retry(HASH_RETRY_PAUSE_MS)
            } else {
                HashStep::Failed
            },
        }),
{
    match outcome {
        Some((hash, size)) => HashStep::Done(FileState { hash, size }),
        None => {
            if failures < HASH_RETRIES {
                HashStep::Retry(HASH_RETRY_PAUSE_MS)
            } else {
                HashStep::Failed
            }
        },
    }
}

} // verus!
