//! Laws of [`crate::watcher`].

use crate::event;
use crate::event::EventView;
use crate::path::Part;
use crate::watcher;
use crate::watcher::{FileState, Notice, NoticeKind, Probe, SightingView, WatcherView};
use vstd::prelude::*;

verus! {

/// The announcement of a file, as a new one or as a changed one.
pub open spec fn announces(event: EventView, path: Seq<Part>, state: FileState) -> bool {
    event == (EventView::FileCreated { path, content_hash: state.hash, size: state.size })
        || event == (EventView::FileModified { path, content_hash: state.hash, size: state.size })
}

/// A file that the other side brought, or that was announced once, is no news
/// again until it changes: changes do not echo.
pub proof fn law_known_file_is_no_news(
    states: Map<Seq<Part>, FileState>,
    first: EventView,
    second: EventView,
    path: Seq<Part>,
    state: FileState,
)
    requires
        announces(first, path, state),
        announces(second, path, state),
    ensures
        watcher::repeats(watcher::after_applied(states, first), second),
{
}

/// A file whose content differs from what is known of it is news.
pub proof fn law_changed_file_is_news(
    states: Map<Seq<Part>, FileState>,
    event: EventView,
    path: Seq<Part>,
    state: FileState,
)
    requires
        announces(event, path, state),
        states.contains_key(path) ==> states[path] != state,
    ensures
        !watcher::repeats(states, event),
{
}

/// A file that the other side brought is known for a file when it is removed,
/// also if its name has no extension.
pub proof fn law_applied_file_is_removed_as_file(
    states: Map<Seq<Part>, FileState>,
    event: EventView,
    path: Seq<Part>,
    state: FileState,
    root: Seq<Part>,
    probe: Probe,
)
    requires
        announces(event, path, state),
    ensures
        watcher::removed(
            watcher::after_applied(states, event),
            root,
            NoticeKind::RemoveOther,
            (SightingView { path: root + path, probe }),
        ) == Some(EventView::FileDeleted { path }),
{
    assert(root.is_prefix_of(root + path)) by {
        assert((root + path).subrange(0, root.len() as int) =~= root);
    }
    assert((root + path).skip(root.len() as int) =~= path);
}

/// Nothing is known of the files under a directory that was deleted.
pub proof fn law_deleted_directory_is_forgotten(
    states: Map<Seq<Part>, FileState>,
    dir: Seq<Part>,
    path: Seq<Part>,
)
    requires
        dir.is_prefix_of(path),
    ensures
        !watcher::after_applied(states, EventView::DirDeleted { path: dir }).contains_key(path),
{
}

/// An event that a notice is translated to speaks of one of its paths, which
/// lies under the watched directory and is not ignored.
pub proof fn law_translated_paths_are_synchronised(
    states: Map<Seq<Part>, FileState>,
    ignore_dirs: Seq<Seq<Part>>,
    root: Seq<Part>,
    kind: NoticeKind,
    paths: Seq<SightingView>,
    index: int,
)
    requires
        0 <= index < watcher::translated(states, ignore_dirs, root, kind, paths).len(),
    ensures
        event::event_path(
            watcher::translated(states, ignore_dirs, root, kind, paths)[index],
        ) matches Some(path) && !watcher::ignored(ignore_dirs, root + path) && exists|i: int|
            0 <= i < paths.len() && (#[trigger] paths[i]).path == root + path,
{
    let events = watcher::notice_events(states, root, kind, paths);
    match kind {
        NoticeKind::RenameFrom | NoticeKind::RenameTo | NoticeKind::RenameBoth => {
            lemma_under_root(root, paths[0].path);
            lemma_under_root(root, paths.last().path);
            if paths.len() > 1 {
                lemma_under_root(root, paths[1].path);
            }
        },
        _ => {
            lemma_all_noticed(states, root, kind, paths, index);
        },
    }
    let path = event::event_path(events[index])->0;
    let i = choose|i: int| 0 <= i < paths.len() && (#[trigger] paths[i]).path == root + path;
    assert(!watcher::ignored(ignore_dirs, paths[i].path));
}

proof fn lemma_under_root(root: Seq<Part>, path: Seq<Part>)
    ensures
        watcher::relative(root, path) matches Some(rest) ==> root + rest == path,
{
    if root.is_prefix_of(path) {
        assert(root + path.skip(root.len() as int) =~= path);
    }
}

proof fn lemma_all_noticed(
    states: Map<Seq<Part>, FileState>,
    root: Seq<Part>,
    kind: NoticeKind,
    paths: Seq<SightingView>,
    index: int,
)
    requires
        0 <= index < watcher::all_noticed(states, root, kind, paths).len(),
    ensures
        event::event_path(
            watcher::all_noticed(states, root, kind, paths)[index],
        ) matches Some(path) && exists|i: int|
            0 <= i < paths.len() && (#[trigger] paths[i]).path == root + path,
    decreases paths.len(),
{
    if paths.len() > 0 {
        let before = watcher::all_noticed(states, root, kind, paths.drop_last());
        lemma_under_root(root, paths.last().path);
        if index < before.len() {
            lemma_all_noticed(states, root, kind, paths.drop_last(), index);
            let path = event::event_path(before[index])->0;
            let i = choose|i: int|
                0 <= i < paths.drop_last().len() && (#[trigger] paths.drop_last()[i]).path == root
                    + path;
            assert(paths[i].path == root + path);
        } else {
            assert(paths[paths.len() - 1] == paths.last());
        }
    }
}

/// `events[at]` is the last event of its path in a list.
pub open spec fn latest(events: Seq<EventView>, at: int) -> bool {
    &&& 0 <= at < events.len()
    &&& event::event_path(events[at]) is Some
    &&& forall|j: int|
        at < j < events.len() ==> event::event_path(#[trigger] events[j]) != event::event_path(
            events[at],
        )
}

/// Of the events that came in over a while exactly the latest of each path are
/// kept, one for each path.
pub proof fn law_latest_event_of_each_path_is_kept(events: Seq<EventView>)
    ensures
        watcher::paths_differ(watcher::merged(Seq::empty(), events)),
        forall|event: EventView| #[trigger]
            watcher::merged(Seq::empty(), events).contains(event) <==> exists|at: int| #[trigger]
                latest(events, at) && events[at] == event,
    decreases events.len(),
{
    let kept = watcher::merged(Seq::empty(), events);
    if events.len() > 0 {
        let before = events.drop_last();
        let last = events.last();
        let end = events.len() - 1;
        let kept_before = watcher::merged(Seq::empty(), before);
        law_latest_event_of_each_path_is_kept(before);
        assert(forall|at: int| 0 <= at < end ==> before[at] == events[at]);
        assert forall|event: EventView| #[trigger] kept.contains(event) implies exists|at: int|
            #[trigger] latest(events, at) && events[at] == event by {
            let k = choose|k: int| 0 <= k < kept.len() && kept[k] == event;
            if event::event_path(last) is Some && event::event_path(event) == event::event_path(
                last,
            ) {
                lemma_one_slot(kept_before, last, event, k);
                assert(latest(events, end));
            } else {
                assert(kept_before[k] == event);
                assert(kept_before.contains(event));
                let at = choose|at: int| #[trigger] latest(before, at) && before[at] == event;
                assert forall|j: int| at < j < events.len() implies event::event_path(
                    #[trigger] events[j],
                ) != event::event_path(events[at]) by {
                    if j < end {
                        assert(before[j] == events[j]);
                    }
                }
                assert(latest(events, at));
            }
        }
        assert forall|event: EventView|
            (exists|at: int| #[trigger] latest(events, at) && events[at] == event) implies
            #[trigger] kept.contains(event) by {
            let at = choose|at: int| #[trigger] latest(events, at) && events[at] == event;
            if at == end {
                match watcher::slot_of(kept_before, event::event_path(last)) {
                    Some(i) => {
                        assert(kept[i] == event);
                    },
                    None => {
                        assert(kept[kept_before.len() as int] == event);
                    },
                }
            } else {
                assert forall|j: int| at < j < before.len() implies event::event_path(
                    #[trigger] before[j],
                ) != event::event_path(before[at]) by {
                    assert(before[j] == events[j]);
                }
                assert(latest(before, at));
                assert(kept_before.contains(event));
                let k = choose|k: int| 0 <= k < kept_before.len() && kept_before[k] == event;
                assert(event::event_path(events[end]) != event::event_path(event));
                assert(kept[k] == event);
            }
        }
    }
}

proof fn lemma_one_slot(kept: Seq<EventView>, last: EventView, event: EventView, k: int)
    requires
        watcher::paths_differ(kept),
        event::event_path(last) is Some,
        event::event_path(event) == event::event_path(last),
        0 <= k < watcher::merged_one(kept, last).len(),
        watcher::merged_one(kept, last)[k] == event,
    ensures
        event == last,
{
    match watcher::slot_of(kept, event::event_path(last)) {
        Some(i) => {
            if k != i {
                assert(kept[k] == event);
                assert(event::event_path(kept[i]) == event::event_path(kept[k]));
            }
        },
        None => {
            if k < kept.len() {
                assert(kept[k] == event);
            }
        },
    }
}

/// Events that come in one after the other are merged like all of them at once.
pub proof fn law_merging_in_parts(
    events: Seq<EventView>,
    first: Seq<EventView>,
    second: Seq<EventView>,
)
    ensures
        watcher::merged(watcher::merged(events, first), second) == watcher::merged(
            events,
            first + second,
        ),
    decreases second.len(),
{
    if second.len() == 0 {
        assert(first + second =~= first);
    } else {
        law_merging_in_parts(events, first, second.drop_last());
        assert((first + second).drop_last() =~= first + second.drop_last());
    }
}

/// The events of all notices, one after the other.
pub open spec fn all_translated(
    watched: WatcherView,
    root: Seq<Part>,
    notices: Seq<Notice>,
) -> Seq<EventView>
    decreases notices.len(),
{
    if notices.len() == 0 {
        Seq::empty()
    } else {
        all_translated(watched, root, notices.drop_last()) + watcher::translated(
            watched.states,
            watched.ignore_dirs,
            root,
            notices.last().kind,
            watcher::sighting_views(notices.last().paths@),
        )
    }
}

proof fn lemma_collected(watched: WatcherView, root: Seq<Part>, notices: Seq<Notice>)
    ensures
        watcher::collected(watched, root, notices) == watcher::merged(
            Seq::empty(),
            all_translated(watched, root, notices),
        ),
    decreases notices.len(),
{
    if notices.len() > 0 {
        lemma_collected(watched, root, notices.drop_last());
        law_merging_in_parts(
            Seq::empty(),
            all_translated(watched, root, notices.drop_last()),
            watcher::translated(
                watched.states,
                watched.ignore_dirs,
                root,
                notices.last().kind,
                watcher::sighting_views(notices.last().paths@),
            ),
        );
    }
}

/// Some event of a list deletes a directory at or above a path.
pub open spec fn deleted_above(events: Seq<EventView>, path: Seq<Part>) -> bool {
    exists|i: int|
        0 <= i < events.len() && ((#[trigger] events[i]) matches EventView::DirDeleted { path: dir }
            && dir.is_prefix_of(path))
}

/// The path of a file announcement.
pub open spec fn announced_path(event: EventView) -> Seq<Part> {
    match event::event_path(event) {
        Some(path) => path,
        None => Seq::empty(),
    }
}

/// Looking through events that do not speak of a file leaves what is known of it,
/// unless a directory above it is deleted.
proof fn lemma_states_of_others(
    states: Map<Seq<Part>, FileState>,
    events: Seq<EventView>,
    path: Seq<Part>,
)
    requires
        forall|i: int|
            0 <= i < events.len() ==> event::event_path(#[trigger] events[i]) != Some(path),
    ensures
        ({
            let after = watcher::emitted(states, events).0;
            &&& after.contains_key(path) ==> states.contains_key(path) && after[path]
                == states[path]
            &&& states.contains_key(path) && !deleted_above(events, path) ==> after.contains_key(
                path,
            )
        }),
    decreases events.len(),
{
    if events.len() > 0 {
        let before = events.drop_last();
        assert forall|i: int| 0 <= i < before.len() implies event::event_path(
            #[trigger] before[i],
        ) != Some(path) by {
            assert(before[i] == events[i]);
        }
        lemma_states_of_others(states, before, path);
        if deleted_above(before, path) {
            let i = choose|i: int|
                0 <= i < before.len() && ((#[trigger] before[i]) matches EventView::DirDeleted {
                    path: dir,
                } && dir.is_prefix_of(path));
            assert(events[i] == before[i]);
        }
        let last = events.last();
        assert(events[events.len() - 1] == last);
        assert(event::event_path(last) != Some(path));
    }
}

/// The news among events of different paths are among these events. What is left
/// out of them only repeats what was known before, and all that does is left out
/// unless a directory above it is deleted among the same events.
pub proof fn law_only_repetitions_are_left_out(
    states: Map<Seq<Part>, FileState>,
    events: Seq<EventView>,
    event: EventView,
)
    requires
        watcher::paths_differ(events),
    ensures
        ({
            let news = watcher::emitted(states, events).1;
            &&& news.contains(event) ==> events.contains(event)
            &&& events.contains(event) && !news.contains(event) ==> watcher::repeats(
                states,
                event,
            )
            &&& events.contains(event) && watcher::repeats(states, event) && !deleted_above(
                events,
                announced_path(event),
            ) ==> !news.contains(event)
        }),
    decreases events.len(),
{
    if events.len() > 0 {
        let before = events.drop_last();
        let last = events.last();
        let end = events.len() - 1;
        let earlier = watcher::emitted(states, before);
        let news = watcher::emitted(states, events).1;
        assert(forall|i: int| 0 <= i < before.len() ==> before[i] == events[i]);
        assert(watcher::paths_differ(before));
        law_only_repetitions_are_left_out(states, before, event);
        let path = announced_path(last);
        assert(events[end] == last);
        assert forall|i: int| 0 <= i < before.len() implies event::event_path(
            #[trigger] before[i],
        ) != Some(path) by {
            assert(before[i] == events[i]);
        }
        lemma_states_of_others(states, before, path);
        if deleted_above(before, announced_path(event)) {
            let i = choose|i: int|
                0 <= i < before.len() && ((#[trigger] before[i]) matches EventView::DirDeleted {
                    path: dir,
                } && dir.is_prefix_of(announced_path(event)));
            assert(events[i] == before[i]);
        }
        if before.contains(event) {
            let i = choose|i: int| 0 <= i < before.len() && before[i] == event;
            assert(events[i] == event);
            assert(event::event_path(events[i]) != event::event_path(events[end]));
        }
        if events.contains(event) && !before.contains(event) {
            let i = choose|i: int| 0 <= i < events.len() && events[i] == event;
            assert(i == end) by {
                if i < end {
                    assert(before[i] == event);
                }
            }
        }
        if earlier.1.contains(event) {
            let k = choose|k: int| 0 <= k < earlier.1.len() && earlier.1[k] == event;
            assert(news[k] == event);
        }
        if !watcher::repeats(earlier.0, last) {
            assert(news[earlier.1.len() as int] == last);
        }
        if news.contains(event) && !earlier.1.contains(event) {
            let k = choose|k: int| 0 <= k < news.len() && news[k] == event;
            assert(k == earlier.1.len()) by {
                if k < earlier.1.len() {
                    assert(earlier.1[k] == event);
                }
            }
        }
    }
}

/// Of the notices of a debounce period only the latest event of each path
/// counts, and of these all are emitted but for those that repeat what was known:
/// what is emitted is the latest event of its path, and the latest event of a
/// path is emitted or only repeats what was known.
pub proof fn law_debounce_period(
    watched: WatcherView,
    root: Seq<Part>,
    notices: Seq<Notice>,
    event: EventView,
)
    ensures
        ({
            let all = all_translated(watched, root, notices);
            let kept = watcher::collected(watched, root, notices);
            let news = watcher::emitted(watched.states, kept).1;
            let is_latest = exists|at: int| #[trigger] latest(all, at) && all[at] == event;
            &&& watcher::paths_differ(kept)
            &&& kept.contains(event) <==> is_latest
            &&& news.contains(event) ==> is_latest
            &&& is_latest && !news.contains(event) ==> watcher::repeats(watched.states, event)
            &&& is_latest && watcher::repeats(watched.states, event) && !deleted_above(
                kept,
                announced_path(event),
            ) ==> !news.contains(event)
        }),
{
    let all = all_translated(watched, root, notices);
    let kept = watcher::collected(watched, root, notices);
    lemma_collected(watched, root, notices);
    law_latest_event_of_each_path_is_kept(all);
    law_only_repetitions_are_left_out(watched.states, kept, event);
    assert(kept.contains(event) <==> exists|at: int| #[trigger]
        latest(all, at) && all[at] == event);
}

/// A scan gives an event only for what it gets to: never for the scanned
/// directory itself, nor for anything under a directory that it does not enter.
pub proof fn law_scan_enters_no_ignored_directory(
    root: Seq<Part>,
    ignore: Seq<Seq<u8>>,
    found: Seq<SightingView>,
    index: int,
)
    requires
        0 <= index < watcher::scanned(root, ignore, found).len(),
    ensures
        event::event_path(
            watcher::scanned(root, ignore, found)[index],
        ) matches Some(path) && path.len() > 0 && watcher::reached(path, ignore),
    decreases found.len(),
{
    if found.len() > 0 {
        let before = watcher::scanned(root, ignore, found.drop_last());
        if index < before.len() {
            law_scan_enters_no_ignored_directory(root, ignore, found.drop_last(), index);
        }
    }
}

/// After the files that a scan found were recorded, their announcement is no
/// news.
pub proof fn law_seeded_files_are_no_news(
    states: Map<Seq<Part>, FileState>,
    root: Seq<Part>,
    ignore: Seq<Seq<u8>>,
    found: Seq<SightingView>,
    index: int,
)
    requires
        forall|i: int, j: int|
            0 <= i < j < found.len() ==> (#[trigger] found[i]).path != (#[trigger] found[j]).path,
        0 <= index < watcher::scanned(root, ignore, found).len(),
        watcher::scanned(root, ignore, found)[index] is FileCreated,
    ensures
        watcher::repeats(
            watcher::seeded(states, root, ignore, found),
            watcher::scanned(root, ignore, found)[index],
        ),
{
    lemma_seeded(states, root, ignore, found, index);
}

proof fn lemma_seeded(
    states: Map<Seq<Part>, FileState>,
    root: Seq<Part>,
    ignore: Seq<Seq<u8>>,
    found: Seq<SightingView>,
    index: int,
)
    requires
        forall|i: int, j: int|
            0 <= i < j < found.len() ==> (#[trigger] found[i]).path != (#[trigger] found[j]).path,
        0 <= index < watcher::scanned(root, ignore, found).len(),
    ensures
        event::event_path(
            watcher::scanned(root, ignore, found)[index],
        ) matches Some(path) && exists|i: int|
            0 <= i < found.len() && (#[trigger] found[i]).path == root + path,
        watcher::scanned(root, ignore, found)[index] is FileCreated ==> watcher::repeats(
            watcher::seeded(states, root, ignore, found),
            watcher::scanned(root, ignore, found)[index],
        ),
    decreases found.len(),
{
    if found.len() > 0 {
        let before = found.drop_last();
        let events = watcher::scanned(root, ignore, before);
        let at = found.last();
        let end = found.len() - 1;
        assert forall|i: int, j: int| 0 <= i < j < before.len() implies (
        #[trigger] before[i]).path != (#[trigger] before[j]).path by {
            assert(before[i] == found[i] && before[j] == found[j]);
        }
        lemma_under_root(root, at.path);
        if index < events.len() {
            lemma_seeded(states, root, ignore, before, index);
            let path = event::event_path(events[index])->0;
            let i = choose|i: int|
                0 <= i < before.len() && (#[trigger] before[i]).path == root + path;
            assert(found[i].path == root + path);
            assert(found[i].path != found[end].path);
        } else {
            assert(found[end] == at);
        }
    }
}

/// The bytes of the name of the internal directory are those of `.dirsync_tmp`.
pub proof fn law_internal_name()
    ensures
        watcher::temp_dir_name() == seq![
            46u8, 100u8, 105u8, 114u8, 115u8, 121u8, 110u8, 99u8, 95u8, 116u8, 109u8, 112u8,
        ],
{
    reveal_strlit(".dirsync_tmp");
    crate::apply_laws::lemma_ascii(watcher::INTERNAL_TEMP_DIR@);
    assert(watcher::temp_dir_name() =~= seq![
        46u8, 100u8, 105u8, 114u8, 115u8, 121u8, 110u8, 99u8, 95u8, 116u8, 109u8, 112u8,
    ]);
}

/// Every event but a sign of life speaks of the path that it carries.
pub proof fn law_event_paths(
    path: Seq<Part>,
    content_hash: [u8; 32],
    size: u64,
    offset: u64,
    data: Seq<u8>,
    timestamp: i64,
)
    ensures
        event::event_path(EventView::FileCreated { path, content_hash, size }) == Some(path),
        event::event_path(EventView::FileModified { path, content_hash, size }) == Some(path),
        event::event_path(EventView::FileDeleted { path }) == Some(path),
        event::event_path(EventView::DirCreated { path }) == Some(path),
        event::event_path(EventView::DirDeleted { path }) == Some(path),
        event::event_path(EventView::FileContent { path, offset, data }) == Some(path),
        event::event_path(EventView::Heartbeat { timestamp }) is None,
{
}

/// What is said of a list of values is said of each of its elements, in order.
pub proof fn law_lists_are_read_in_order(
    events: Seq<event::SyncEvent>,
    sightings: Seq<watcher::Sighting>,
    names: Seq<String>,
    paths: Seq<crate::path::SyncPath>,
    i: int,
)
    ensures
        event::event_views(events).len() == events.len(),
        0 <= i < events.len() ==> event::event_views(events)[i] == events[i]@,
        watcher::sighting_views(sightings).len() == sightings.len(),
        0 <= i < sightings.len() ==> watcher::sighting_views(sightings)[i].path
            == sightings[i].path@ && watcher::sighting_views(sightings)[i].probe
            == sightings[i].probe,
        watcher::name_texts(names).len() == names.len(),
        0 <= i < names.len() ==> watcher::name_texts(names)[i] == vstd::utf8::encode_utf8(
            names[i]@,
        ),
        watcher::path_views(paths).len() == paths.len(),
        0 <= i < paths.len() ==> watcher::path_views(paths)[i] == paths[i]@,
{
}

/// Two events with the same value are of the same kind and hold the same.
pub proof fn law_event_values_tell_all(event: event::SyncEvent)
    ensures
        match event {
            event::SyncEvent::FileCreated { path, content_hash, size } => event@ == (
            EventView::FileCreated { path: path@, content_hash, size }),
            event::SyncEvent::FileModified { path, content_hash, size } => event@ == (
            EventView::FileModified { path: path@, content_hash, size }),
            event::SyncEvent::FileDeleted { path } => event@ == (EventView::FileDeleted {
                path: path@,
            }),
            event::SyncEvent::DirCreated { path } => event@ == (EventView::DirCreated {
                path: path@,
            }),
            event::SyncEvent::DirDeleted { path } => event@ == (EventView::DirDeleted {
                path: path@,
            }),
            event::SyncEvent::FileContent { path, offset, data } => event@ == (
            EventView::FileContent { path: path@, offset, data: data@ }),
            event::SyncEvent::Heartbeat { timestamp } => event@ == (EventView::Heartbeat {
                timestamp,
            }),
        },
{
}

/// A path is ignored exactly if it lies at or under one of the ignored
/// directories, or if one of its components is the internal directory.
pub proof fn law_ignored_paths(ignore_dirs: Seq<Seq<Part>>, path: Seq<Part>, i: int)
    ensures
        0 <= i < ignore_dirs.len() && ignore_dirs[i].is_prefix_of(path) ==> watcher::ignored(
            ignore_dirs,
            path,
        ),
        0 <= i < path.len() && path[i] == Part::Normal(watcher::temp_dir_name())
            ==> watcher::ignored(ignore_dirs, path),
        watcher::ignored(ignore_dirs, path) ==> (exists|k: int|
            0 <= k < ignore_dirs.len() && (#[trigger] ignore_dirs[k]).is_prefix_of(path)) || (
        exists|k: int|
            0 <= k < path.len() && #[trigger] path[k] == Part::Normal(watcher::temp_dir_name())),
{
    if watcher::ignored(ignore_dirs, path) && path.contains(
        Part::Normal(watcher::temp_dir_name()),
    ) {
        let k = choose|k: int|
            0 <= k < path.len() && path[k] == Part::Normal(watcher::temp_dir_name());
        assert(path[k] == Part::Normal(watcher::temp_dir_name()));
    }
}

/// Where nothing says otherwise, something that was removed counts as a file if
/// it is a known one or if a dot stands in its name behind the first byte.
pub open spec fn counts_as_file(states: Map<Seq<Part>, FileState>, path: Seq<Part>) -> bool {
    states.contains_key(path) || (path.len() > 0 && (path.last() matches Part::Normal(name)
        && exists|i: int| 0 < i < name.len() && #[trigger] name[i] == 46u8))
}

/// The event that says that a path came to be what was found there.
pub open spec fn arrival(path: Seq<Part>, probe: Probe) -> Seq<EventView> {
    match probe {
        Probe::Dir => seq![EventView::DirCreated { path }],
        Probe::File(state) => seq![
            EventView::FileCreated { path, content_hash: state.hash, size: state.size },
        ],
        Probe::Unreadable | Probe::Missing => Seq::empty(),
    }
}

proof fn lemma_rest_of(root: Seq<Part>, path: Seq<Part>)
    ensures
        watcher::relative(root, root + path) == Some(path),
{
    assert((root + path).subrange(0, root.len() as int) =~= root);
    assert((root + path).skip(root.len() as int) =~= path);
}

proof fn lemma_extension(path: Seq<Part>)
    ensures
        crate::path::path_has_extension(path) <==> (path.len() > 0 && (path.last()
            matches Part::Normal(name) && exists|i: int|
            0 < i < name.len() && #[trigger] name[i] == 46u8)),
{
}

proof fn lemma_one_path(
    states: Map<Seq<Part>, FileState>,
    ignore_dirs: Seq<Seq<Part>>,
    root: Seq<Part>,
    kind: NoticeKind,
    at: SightingView,
)
    requires
        !watcher::ignored(ignore_dirs, at.path),
        kind != NoticeKind::RenameBoth,
    ensures
        watcher::translated(states, ignore_dirs, root, kind, seq![at]) == watcher::with_event(
            Seq::empty(),
            watcher::noticed(states, root, kind, at),
        ),
{
    let paths = seq![at];
    assert(paths.drop_last() =~= Seq::empty());
    assert(paths.last() == at && paths[0] == at);
    assert(watcher::all_noticed(states, root, kind, paths.drop_last()) =~= Seq::empty());
}

/// A notice that something was created, or renamed to a path, gives the event of
/// what is there: a directory or a file with its hash and size, at any depth, and
/// nothing else.
pub proof fn law_create_notice(
    states: Map<Seq<Part>, FileState>,
    ignore_dirs: Seq<Seq<Part>>,
    root: Seq<Part>,
    path: Seq<Part>,
    probe: Probe,
)
    requires
        !watcher::ignored(ignore_dirs, root + path),
    ensures
        watcher::translated(
            states,
            ignore_dirs,
            root,
            NoticeKind::Create,
            seq![SightingView { path: root + path, probe }],
        ) == arrival(path, probe),
        watcher::translated(
            states,
            ignore_dirs,
            root,
            NoticeKind::RenameTo,
            seq![SightingView { path: root + path, probe }],
        ) == arrival(path, probe),
{
    let at = SightingView { path: root + path, probe };
    lemma_rest_of(root, path);
    lemma_one_path(states, ignore_dirs, root, NoticeKind::Create, at);
    lemma_one_path(states, ignore_dirs, root, NoticeKind::RenameTo, at);
    assert(Seq::<EventView>::empty().push(EventView::DirCreated { path }) =~= seq![
        EventView::DirCreated { path },
    ]);
    if let Probe::File(state) = probe {
        let event = EventView::FileCreated { path, content_hash: state.hash, size: state.size };
        assert(Seq::<EventView>::empty().push(event) =~= seq![event]);
    }
}

/// A notice that something was modified gives, at any depth, the event of the
/// changed file with its hash and size if there is a file, and nothing else.
pub proof fn law_modify_notice(
    states: Map<Seq<Part>, FileState>,
    ignore_dirs: Seq<Seq<Part>>,
    root: Seq<Part>,
    path: Seq<Part>,
    probe: Probe,
)
    requires
        !watcher::ignored(ignore_dirs, root + path),
    ensures
        watcher::translated(
            states,
            ignore_dirs,
            root,
            NoticeKind::Modify,
            seq![SightingView { path: root + path, probe }],
        ) == (match probe {
            Probe::File(state) => seq![
                EventView::FileModified { path, content_hash: state.hash, size: state.size },
            ],
            _ => Seq::empty(),
        }),
{
    let at = SightingView { path: root + path, probe };
    lemma_rest_of(root, path);
    lemma_one_path(states, ignore_dirs, root, NoticeKind::Modify, at);
    if let Probe::File(state) = probe {
        let event = EventView::FileModified { path, content_hash: state.hash, size: state.size };
        assert(Seq::<EventView>::empty().push(event) =~= seq![event]);
    }
}

/// The event that says that a path is no more.
pub open spec fn departure(path: Seq<Part>, file: bool) -> Seq<EventView> {
    if file {
        seq![EventView::FileDeleted { path }]
    } else {
        seq![EventView::DirDeleted { path }]
    }
}

/// A notice that something was removed, or renamed from a path, gives its
/// deletion: that of a file or of a directory if the notice says so, and else by
/// what is known of the path and by its name. What is found there plays no part.
pub proof fn law_remove_notice(
    states: Map<Seq<Part>, FileState>,
    ignore_dirs: Seq<Seq<Part>>,
    root: Seq<Part>,
    path: Seq<Part>,
    probe: Probe,
)
    requires
        !watcher::ignored(ignore_dirs, root + path),
    ensures
        ({
            let at = seq![SightingView { path: root + path, probe }];
            let of = |kind: NoticeKind|
                watcher::translated(states, ignore_dirs, root, kind, at);
            &&& of(NoticeKind::RemoveFile) == departure(path, true)
            &&& of(NoticeKind::RemoveFolder) == departure(path, false)
            &&& of(NoticeKind::RemoveOther) == departure(path, counts_as_file(states, path))
            &&& of(NoticeKind::RenameFrom) == departure(path, counts_as_file(states, path))
        }),
{
    let at = SightingView { path: root + path, probe };
    lemma_rest_of(root, path);
    lemma_extension(path);
    lemma_one_path(states, ignore_dirs, root, NoticeKind::RemoveFile, at);
    lemma_one_path(states, ignore_dirs, root, NoticeKind::RemoveFolder, at);
    lemma_one_path(states, ignore_dirs, root, NoticeKind::RemoveOther, at);
    lemma_one_path(states, ignore_dirs, root, NoticeKind::RenameFrom, at);
    let file = EventView::FileDeleted { path };
    let dir = EventView::DirDeleted { path };
    assert(Seq::<EventView>::empty().push(file) =~= seq![file]);
    assert(Seq::<EventView>::empty().push(dir) =~= seq![dir]);
}

/// A notice of a rename that does not tell old and new name apart gives the event
/// of what is there, or else the deletion. A notice of another kind gives none.
pub proof fn law_other_notices(
    states: Map<Seq<Part>, FileState>,
    ignore_dirs: Seq<Seq<Part>>,
    root: Seq<Part>,
    path: Seq<Part>,
    probe: Probe,
)
    requires
        !watcher::ignored(ignore_dirs, root + path),
    ensures
        watcher::translated(
            states,
            ignore_dirs,
            root,
            NoticeKind::RenameAny,
            seq![SightingView { path: root + path, probe }],
        ) == (if probe is Dir || probe is File {
            arrival(path, probe)
        } else {
            departure(path, counts_as_file(states, path))
        }),
        watcher::translated(
            states,
            ignore_dirs,
            root,
            NoticeKind::Other,
            seq![SightingView { path: root + path, probe }],
        ) == Seq::<EventView>::empty(),
{
    let at = SightingView { path: root + path, probe };
    lemma_rest_of(root, path);
    lemma_extension(path);
    lemma_one_path(states, ignore_dirs, root, NoticeKind::RenameAny, at);
    lemma_one_path(states, ignore_dirs, root, NoticeKind::Other, at);
    let file = EventView::FileDeleted { path };
    let dir = EventView::DirDeleted { path };
    assert(Seq::<EventView>::empty().push(file) =~= seq![file]);
    assert(Seq::<EventView>::empty().push(dir) =~= seq![dir]);
    assert(Seq::<EventView>::empty().push(EventView::DirCreated { path }) =~= seq![
        EventView::DirCreated { path },
    ]);
    if let Probe::File(state) = probe {
        let event = EventView::FileCreated { path, content_hash: state.hash, size: state.size };
        assert(Seq::<EventView>::empty().push(event) =~= seq![event]);
    }
}

/// A rename with both names is the removal of the old one and then the arrival
/// of what is at the new one.
pub proof fn law_rename_notice(
    states: Map<Seq<Part>, FileState>,
    ignore_dirs: Seq<Seq<Part>>,
    root: Seq<Part>,
    from: Seq<Part>,
    to: Seq<Part>,
    old_probe: Probe,
    probe: Probe,
)
    requires
        !watcher::ignored(ignore_dirs, root + from),
        !watcher::ignored(ignore_dirs, root + to),
    ensures
        watcher::translated(
            states,
            ignore_dirs,
            root,
            NoticeKind::RenameBoth,
            seq![
                SightingView { path: root + from, probe: old_probe },
                SightingView { path: root + to, probe },
            ],
        ) == departure(from, counts_as_file(states, from)) + arrival(to, probe),
{
    let paths = seq![
        SightingView { path: root + from, probe: old_probe },
        SightingView { path: root + to, probe },
    ];
    lemma_rest_of(root, from);
    lemma_rest_of(root, to);
    lemma_extension(from);
    assert(paths[0].path == root + from && paths[1].path == root + to);
    assert forall|i: int| 0 <= i < paths.len() implies !watcher::ignored(
        ignore_dirs,
        (#[trigger] paths[i]).path,
    ) by {
        assert(i == 0 || i == 1);
    }
    let events = watcher::translated(states, ignore_dirs, root, NoticeKind::RenameBoth, paths);
    assert(events =~= departure(from, counts_as_file(states, from)) + arrival(to, probe));
}

/// Of a rename with one name only one path counts: the first as the old name, the
/// last as the new one. One with both names speaks of the first two paths, or of
/// the one path that it has.
pub proof fn law_rename_picks_its_paths(
    states: Map<Seq<Part>, FileState>,
    ignore_dirs: Seq<Seq<Part>>,
    root: Seq<Part>,
    paths: Seq<SightingView>,
)
    requires
        paths.len() > 0,
        forall|i: int|
            0 <= i < paths.len() ==> !watcher::ignored(ignore_dirs, (#[trigger] paths[i]).path),
    ensures
        ({
            let of = |kind: NoticeKind, list: Seq<SightingView>|
                watcher::translated(states, ignore_dirs, root, kind, list);
            let first = paths[0];
            let second = if paths.len() > 1 {
                paths[1]
            } else {
                paths[0]
            };
            &&& of(NoticeKind::RenameFrom, paths) == of(NoticeKind::RenameFrom, seq![first])
            &&& of(NoticeKind::RenameTo, paths) == of(NoticeKind::RenameTo, seq![paths.last()])
            &&& of(NoticeKind::RenameBoth, paths) == of(NoticeKind::RenameFrom, seq![first]) + of(
                NoticeKind::RenameTo,
                seq![second],
            )
        }),
{
    let first = paths[0];
    let last = paths.last();
    let second = if paths.len() > 1 {
        paths[1]
    } else {
        paths[0]
    };
    assert(last == paths[paths.len() - 1]);
    lemma_one_path(states, ignore_dirs, root, NoticeKind::RenameFrom, first);
    lemma_one_path(states, ignore_dirs, root, NoticeKind::RenameTo, last);
    lemma_one_path(states, ignore_dirs, root, NoticeKind::RenameTo, second);
    let both = watcher::translated(states, ignore_dirs, root, NoticeKind::RenameBoth, paths);
    let old_name = watcher::with_event(
        Seq::empty(),
        watcher::noticed(states, root, NoticeKind::RenameFrom, first),
    );
    let new_name = watcher::with_event(
        Seq::empty(),
        watcher::noticed(states, root, NoticeKind::RenameTo, second),
    );
    assert(both =~= old_name + new_name);
}

proof fn lemma_noticed_in_parts(
    states: Map<Seq<Part>, FileState>,
    root: Seq<Part>,
    kind: NoticeKind,
    first: Seq<SightingView>,
    second: Seq<SightingView>,
)
    ensures
        watcher::all_noticed(states, root, kind, first + second) == watcher::all_noticed(
            states,
            root,
            kind,
            first,
        ) + watcher::all_noticed(states, root, kind, second),
    decreases second.len(),
{
    let one = watcher::all_noticed(states, root, kind, first);
    if second.len() == 0 {
        assert(first + second =~= first);
        assert(one + watcher::all_noticed(states, root, kind, second) =~= one);
    } else {
        lemma_noticed_in_parts(states, root, kind, first, second.drop_last());
        assert((first + second).drop_last() =~= first + second.drop_last());
        assert((first + second).last() == second.last());
        let two = watcher::all_noticed(states, root, kind, second.drop_last());
        if let Some(event) = watcher::noticed(states, root, kind, second.last()) {
            assert((one + two).push(event) =~= one + two.push(event));
        }
    }
}

/// A notice of several paths that is no rename by name is like one notice for
/// each of them, in order; one of which a path is ignored gives nothing at all,
/// and a path that does not lie under the watched directory gives nothing.
pub proof fn law_notice_of_several_paths(
    states: Map<Seq<Part>, FileState>,
    ignore_dirs: Seq<Seq<Part>>,
    root: Seq<Part>,
    kind: NoticeKind,
    first: Seq<SightingView>,
    second: Seq<SightingView>,
    at: SightingView,
)
    ensures
        kind != NoticeKind::RenameFrom && kind != NoticeKind::RenameTo && kind
            != NoticeKind::RenameBoth && (forall|i: int|
            0 <= i < first.len() ==> !watcher::ignored(ignore_dirs, (#[trigger] first[i]).path))
            && (forall|i: int|
            0 <= i < second.len() ==> !watcher::ignored(ignore_dirs, (#[trigger] second[i]).path))
            ==> watcher::translated(states, ignore_dirs, root, kind, first + second)
            == watcher::translated(states, ignore_dirs, root, kind, first) + watcher::translated(
            states,
            ignore_dirs,
            root,
            kind,
            second,
        ),
        watcher::ignored(ignore_dirs, at.path) ==> watcher::translated(
            states,
            ignore_dirs,
            root,
            kind,
            first.push(at) + second,
        ) == Seq::<EventView>::empty(),
        !root.is_prefix_of(at.path) ==> watcher::translated(
            states,
            ignore_dirs,
            root,
            kind,
            seq![at],
        ) == Seq::<EventView>::empty(),
        watcher::translated(states, ignore_dirs, root, kind, Seq::empty()) == Seq::<
            EventView,
        >::empty(),
{
    let whole = first + second;
    if (forall|i: int|
        0 <= i < first.len() ==> !watcher::ignored(ignore_dirs, (#[trigger] first[i]).path)) && (
    forall|i: int|
        0 <= i < second.len() ==> !watcher::ignored(ignore_dirs, (#[trigger] second[i]).path)) {
        assert forall|i: int| 0 <= i < whole.len() implies !watcher::ignored(
            ignore_dirs,
            (#[trigger] whole[i]).path,
        ) by {
            if i < first.len() {
                assert(whole[i] == first[i]);
            } else {
                assert(whole[i] == second[i - first.len()]);
            }
        }
        lemma_noticed_in_parts(states, root, kind, first, second);
    }
    let with_at = first.push(at) + second;
    assert(with_at[first.len() as int] == at);
    if !root.is_prefix_of(at.path) {
        let one = seq![at];
        assert(one[0] == at && one.last() == at);
        assert(one.drop_last() =~= Seq::empty());
        assert(watcher::relative(root, at.path) is None);
        assert(watcher::noticed(states, root, kind, at) is None);
        assert(watcher::all_noticed(states, root, kind, one.drop_last()) =~= Seq::empty());
        assert(watcher::all_noticed(states, root, kind, one) =~= Seq::empty());
        assert(watcher::notice_events(states, root, kind, one) =~= Seq::empty());
    }
}

/// What is known of a file after an event is what the event says of it: its
/// announcement is recorded, its deletion and that of a directory above it
/// forget it, and no other event changes what is known of it.
pub proof fn law_what_is_known_of_a_file(
    states: Map<Seq<Part>, FileState>,
    event: EventView,
    path: Seq<Part>,
)
    ensures
        ({
            let after = watcher::after_applied(states, event);
            let kept = after.contains_key(path) == states.contains_key(path) && (
            states.contains_key(path) ==> after[path] == states[path]);
            match event {
                EventView::FileCreated { path: own, content_hash, size } => if own == path {
                    after.contains_key(path) && after[path].hash == content_hash
                        && after[path].size == size
                } else {
                    kept
                },
                EventView::FileModified { path: own, content_hash, size } => if own == path {
                    after.contains_key(path) && after[path].hash == content_hash
                        && after[path].size == size
                } else {
                    kept
                },
                EventView::FileDeleted { path: own } => if own == path {
                    !after.contains_key(path)
                } else {
                    kept
                },
                EventView::DirDeleted { path: dir } => if dir.is_prefix_of(path) {
                    !after.contains_key(path)
                } else {
                    kept
                },
                _ => kept,
            }
        }),
{
}

/// Only the announcement of a file can be a repetition: deletions, new
/// directories and all other events are always news.
pub proof fn law_other_events_are_always_news(
    states: Map<Seq<Part>, FileState>,
    event: EventView,
)
    requires
        !(event is FileCreated) && !(event is FileModified),
    ensures
        !watcher::repeats(states, event),
{
}

/// Looking through events one part after the other is like looking through all of
/// them, and what is found news comes out in the order in which it came in.
pub proof fn law_news_in_parts(
    states: Map<Seq<Part>, FileState>,
    first: Seq<EventView>,
    second: Seq<EventView>,
)
    ensures
        ({
            let one = watcher::emitted(states, first);
            let two = watcher::emitted(one.0, second);
            watcher::emitted(states, first + second) == (two.0, one.1 + two.1)
        }),
    decreases second.len(),
{
    let one = watcher::emitted(states, first);
    if second.len() == 0 {
        assert(first + second =~= first);
        assert(one.1 + Seq::<EventView>::empty() =~= one.1);
    } else {
        law_news_in_parts(states, first, second.drop_last());
        assert((first + second).drop_last() =~= first + second.drop_last());
        assert((first + second).last() == second.last());
        let two = watcher::emitted(one.0, second.drop_last());
        assert((one.1 + two.1).push(second.last()) =~= one.1 + two.1.push(second.last()));
    }
}

/// A single event is left out if it announces a file that is known with just that
/// content, and then nothing changes; else it is news and is recorded.
pub proof fn law_news_of_one_event(states: Map<Seq<Part>, FileState>, event: EventView)
    ensures
        ({
            let known = match event {
                EventView::FileCreated { path, content_hash, size } => states.contains_key(path)
                    && states[path].hash == content_hash && states[path].size == size,
                EventView::FileModified { path, content_hash, size } => states.contains_key(path)
                    && states[path].hash == content_hash && states[path].size == size,
                _ => false,
            };
            watcher::emitted(states, seq![event]) == (if known {
                (states, Seq::<EventView>::empty())
            } else {
                (watcher::after_applied(states, event), seq![event])
            })
        }),
{
    assert(seq![event].drop_last() =~= Seq::empty());
    assert(watcher::emitted(states, seq![event].drop_last()).1 =~= Seq::empty());
    assert(Seq::<EventView>::empty().push(event) =~= seq![event]);
}

/// An event that comes into a buffer takes the place of the event of its path, or
/// else comes last; all other events stay where they are. One without a path
/// leaves no trace.
pub proof fn law_event_comes_into_buffer(events: Seq<EventView>, event: EventView, at: int)
    requires
        watcher::paths_differ(events),
    ensures
        ({
            let after = watcher::merged(events, seq![event]);
            let path = event::event_path(event);
            &&& event is Heartbeat ==> after == events
            &&& !(event is Heartbeat) && 0 <= at < events.len() && event::event_path(events[at])
                == path ==> after == events.update(at, event)
            &&& !(event is Heartbeat) && (forall|i: int|
                0 <= i < events.len() ==> event::event_path(#[trigger] events[i]) != path)
                ==> after == events.push(event)
        }),
{
    let path = event::event_path(event);
    let one = seq![event];
    assert(one.drop_last() =~= Seq::empty());
    assert(watcher::merged(events, one.drop_last()) == events);
    assert(watcher::merged(events, one) == watcher::merged_one(events, event));
    if let Some(i) = watcher::slot_of(events, path) {
        if 0 <= at < events.len() && event::event_path(events[at]) == path {
            assert(event::event_path(events[i]) == path);
            assert(i == at);
        }
    }
}

/// The list of notices of a debounce period may be taken in in parts.
pub proof fn law_collecting_in_parts(
    watched: WatcherView,
    root: Seq<Part>,
    notices: Seq<Notice>,
    notice: Notice,
)
    ensures
        watcher::collected(watched, root, Seq::empty()) == Seq::<EventView>::empty(),
        watcher::collected(watched, root, notices.push(notice)) == watcher::merged(
            watcher::collected(watched, root, notices),
            watcher::translated(
                watched.states,
                watched.ignore_dirs,
                root,
                notice.kind,
                watcher::sighting_views(notice.paths@),
            ),
        ),
{
    assert(notices.push(notice).drop_last() =~= notices);
}

/// A scan enters what has a name that is neither that of the internal directory
/// nor one of the ignored ones.
pub proof fn law_scan_enters_all_other_names(text: Seq<u8>, ignore: Seq<Seq<u8>>)
    ensures
        watcher::entered(text, ignore) <==> text != watcher::temp_dir_name() && (forall|i: int|
            0 <= i < ignore.len() ==> #[trigger] ignore[i] != text),
{
}

/// A scan gets to a path unless the name of one of its components is not entered,
/// however deep it lies.
pub proof fn law_scan_gets_everywhere(path: Seq<Part>, ignore: Seq<Seq<u8>>)
    ensures
        watcher::reached(path, ignore) <==> !(exists|i: int|
            0 <= i < path.len() && ((#[trigger] path[i]) matches Part::Normal(name) && (
            crate::names::text_of(name) == watcher::temp_dir_name() || ignore.contains(
                crate::names::text_of(name),
            )))),
{
    if !watcher::reached(path, ignore) {
        let i = choose|i: int|
            0 <= i < path.len() && ((#[trigger] path[i]) matches Part::Normal(name)
                && !watcher::entered(crate::names::text_of(name), ignore));
        assert(path[i] is Normal);
    }
}

proof fn lemma_scan_of_one(
    root: Seq<Part>,
    ignore: Seq<Seq<u8>>,
    path: Seq<Part>,
    probe: Probe,
)
    ensures
        watcher::scanned(root, ignore, seq![SightingView { path: root + path, probe }]) == (
        if path.len() > 0 && watcher::reached(path, ignore) {
            arrival(path, probe)
        } else {
            Seq::empty()
        }),
{
    let at = SightingView { path: root + path, probe };
    lemma_rest_of(root, path);
    assert(seq![at].drop_last() =~= Seq::empty());
    assert(watcher::scanned(root, ignore, seq![at].drop_last()) =~= Seq::empty());
    assert(watcher::scanned(root, ignore, seq![at]) =~= (if path.len() > 0 && watcher::reached(
        path,
        ignore,
    ) {
        arrival(path, probe)
    } else {
        Seq::empty()
    }));
}

/// What a scan finds at a path gives the event of what is there if the scan gets
/// to it, however deep it lies; the scanned directory itself gives none, and
/// neither does what does not lie under it.
pub proof fn law_scan_of_one_path(
    root: Seq<Part>,
    ignore: Seq<Seq<u8>>,
    path: Seq<Part>,
    at: SightingView,
)
    ensures
        path.len() > 0 && watcher::reached(path, ignore) ==> watcher::scanned(
            root,
            ignore,
            seq![SightingView { path: root + path, probe: at.probe }],
        ) == arrival(path, at.probe),
        path.len() == 0 || !watcher::reached(path, ignore) ==> watcher::scanned(
            root,
            ignore,
            seq![SightingView { path: root + path, probe: at.probe }],
        ) == Seq::<EventView>::empty(),
        !root.is_prefix_of(at.path) ==> watcher::scanned(root, ignore, seq![at]) == Seq::<
            EventView,
        >::empty(),
{
    lemma_scan_of_one(root, ignore, path, at.probe);
    assert(seq![at].drop_last() =~= Seq::empty());
    assert(watcher::scanned(root, ignore, seq![at].drop_last()) =~= Seq::empty());
}

/// A scan of two lists of findings is the scan of the first and then that of the
/// second: nothing is left out, and the order is kept.
pub proof fn law_scan_in_parts(
    root: Seq<Part>,
    ignore: Seq<Seq<u8>>,
    first: Seq<SightingView>,
    second: Seq<SightingView>,
)
    ensures
        watcher::scanned(root, ignore, first + second) == watcher::scanned(root, ignore, first)
            + watcher::scanned(root, ignore, second),
    decreases second.len(),
{
    let one = watcher::scanned(root, ignore, first);
    if second.len() == 0 {
        assert(first + second =~= first);
        assert(one + watcher::scanned(root, ignore, second) =~= one);
    } else {
        law_scan_in_parts(root, ignore, first, second.drop_last());
        assert((first + second).drop_last() =~= first + second.drop_last());
        assert((first + second).last() == second.last());
        let two = watcher::scanned(root, ignore, second.drop_last());
        if let Some(event) = watcher::scanned_event(root, ignore, second.last()) {
            assert((one + two).push(event) =~= one + two.push(event));
        }
    }
}

/// A scan is complete: every file and every directory that it finds under the
/// scanned directory, and that no name on the way keeps it from, is announced,
/// the file with its hash and size, whatever its depth.
pub proof fn law_scan_is_complete(
    root: Seq<Part>,
    ignore: Seq<Seq<u8>>,
    found: Seq<SightingView>,
    index: int,
    path: Seq<Part>,
)
    requires
        0 <= index < found.len(),
        found[index].path == root + path,
        path.len() > 0,
        forall|i: int|
            0 <= i < path.len() ==> ((#[trigger] path[i]) matches Part::Normal(name) ==> {
                &&& crate::names::text_of(name) != watcher::temp_dir_name()
                &&& !ignore.contains(crate::names::text_of(name))
            }),
    ensures
        found[index].probe is Dir ==> watcher::scanned(root, ignore, found).contains(
            EventView::DirCreated { path },
        ),
        found[index].probe matches Probe::File(state) ==> watcher::scanned(
            root,
            ignore,
            found,
        ).contains(
            EventView::FileCreated { path, content_hash: state.hash, size: state.size },
        ),
{
    let before = found.take(index);
    let at = found[index];
    let behind = found.skip(index + 1);
    assert(found =~= before + seq![at] + behind);
    law_scan_gets_everywhere(path, ignore);
    law_scan_in_parts(root, ignore, before + seq![at], behind);
    law_scan_in_parts(root, ignore, before, seq![at]);
    assert(at == (SightingView { path: root + path, probe: at.probe }));
    lemma_scan_of_one(root, ignore, path, at.probe);
    let place = watcher::scanned(root, ignore, before).len() as int;
    let events = watcher::scanned(root, ignore, found);
    if at.probe is Dir || at.probe is File {
        assert(events[place] == arrival(path, at.probe)[0]);
    }
}

/// Recording what a scan found is recording each finding in turn: a file that
/// the scan gets to with its hash and size, and nothing else.
pub proof fn law_seeding(
    states: Map<Seq<Part>, FileState>,
    root: Seq<Part>,
    ignore: Seq<Seq<u8>>,
    found: Seq<SightingView>,
    path: Seq<Part>,
    at: SightingView,
)
    ensures
        watcher::seeded(states, root, ignore, Seq::empty()) == states,
        ({
            let before = watcher::seeded(states, root, ignore, found);
            let here = SightingView { path: root + path, probe: at.probe };
            watcher::seeded(states, root, ignore, found.push(here)) == (match at.probe {
                Probe::File(state) => if watcher::reached(path, ignore) {
                    before.insert(path, state)
                } else {
                    before
                },
                _ => before,
            })
        }),
        !root.is_prefix_of(at.path) ==> watcher::seeded(states, root, ignore, found.push(at))
            == watcher::seeded(states, root, ignore, found),
{
    let here = SightingView { path: root + path, probe: at.probe };
    lemma_rest_of(root, path);
    assert(found.push(here).drop_last() =~= found);
    assert(found.push(at).drop_last() =~= found);
}

/// A name given by the user that is a plain one stands for the directory of that
/// name right under the watched one.
pub proof fn law_ignored_name_lies_under_root(root: Seq<Part>, name: Seq<char>)
    requires
        root.len() > 0,
        !crate::path::has_verbatim_prefix(root),
        ({
            let text = vstd::utf8::encode_utf8(name);
            &&& text.len() > 0
            &&& text != seq![46u8]
            &&& text != seq![46u8, 46u8]
            &&& forall|i: int| 0 <= i < text.len() ==> #[trigger] text[i] != 47u8
        }),
    ensures
        watcher::named_dir(crate::path::PathStyle::Posix, root, name) == root.push(
            Part::Normal(vstd::utf8::encode_utf8(name)),
        ),
{
    let text = vstd::utf8::encode_utf8(name);
    crate::path_laws::law_one_piece(text);
    assert(root + seq![Part::Normal(text)] =~= root.push(Part::Normal(text)));
}

/// The event of something that came to be, was changed or was removed speaks of
/// what lies behind the watched directory, and of nothing that lies elsewhere.
pub proof fn law_events_of_one_path(
    states: Map<Seq<Part>, FileState>,
    root: Seq<Part>,
    path: Seq<Part>,
    at: SightingView,
    kind: NoticeKind,
)
    ensures
        ({
            let here = SightingView { path: root + path, probe: at.probe };
            let file = match kind {
                NoticeKind::RemoveFile => true,
                NoticeKind::RemoveFolder => false,
                _ => counts_as_file(states, path),
            };
            &&& watcher::created(root, here) == (match at.probe {
                Probe::Dir => Some(EventView::DirCreated { path }),
                Probe::File(state) => Some(
                    EventView::FileCreated { path, content_hash: state.hash, size: state.size },
                ),
                _ => None,
            })
            &&& watcher::modified(root, here) == (match at.probe {
                Probe::File(state) => Some(
                    EventView::FileModified { path, content_hash: state.hash, size: state.size },
                ),
                _ => None,
            })
            &&& watcher::removed(states, root, kind, here) == Some(
                if file {
                    EventView::FileDeleted { path }
                } else {
                    EventView::DirDeleted { path }
                },
            )
        }),
        !root.is_prefix_of(at.path) ==> watcher::created(root, at) is None && watcher::modified(
            root,
            at,
        ) is None && watcher::removed(states, root, kind, at) is None,
{
    lemma_rest_of(root, path);
    lemma_extension(path);
}

/// A name given by the user is read as a path and joined to the watched directory.
pub proof fn law_ignored_names_are_joined(
    style: crate::path::PathStyle,
    root: Seq<Part>,
    name: Seq<char>,
)
    ensures
        watcher::named_dir(style, root, name) == crate::path::joined(
            root,
            crate::path::path_parts(style, vstd::utf8::encode_utf8(name)),
        ),
{
}

/// A change of a file on one side ends up on the disk of the other: the notice of
/// it gives an event, which is sent with the content of the file and then applied,
/// so that the file holds there what it holds here.
pub proof fn law_change_reaches_the_other_side(
    watched: WatcherView,
    root: Seq<Part>,
    path: Seq<Part>,
    file: FileState,
    content: Seq<u8>,
    chunk_size: nat,
    state: crate::apply::ApplierView,
    disk: crate::delivery::Disk,
    timestamp: i64,
)
    requires
        !watcher::ignored(watched.ignore_dirs, root + path),
        watched.states.contains_key(path) ==> watched.states[path] != file,
        path.len() > 0,
        forall|i: int|
            0 <= i < path.len() ==> (#[trigger] path[i]) is Normal && path[i] != Part::Normal(
                watcher::temp_dir_name(),
            ),
        file.hash@ == crate::hash::blake3_digest(content),
        file.size == content.len(),
        chunk_size > 0,
        disk.root == state.root,
        !disk.dirs.contains(path),
        !state.synced.contains_key(path),
        forall|n: int| 0 < n < path.len() ==> !disk.files.contains_key(#[trigger] path.take(n)),
    ensures
        ({
            let events = watcher::translated(
                watched.states,
                watched.ignore_dirs,
                root,
                NoticeKind::Modify,
                seq![SightingView { path: root + path, probe: Probe::File(file) }],
            );
            let news = watcher::emitted(
                watched.states,
                watcher::merged(Seq::empty(), events),
            ).1;
            let sent = crate::sync::outgoing(news[0], Some(content), chunk_size);
            let after = crate::delivery::carry_out_all(
                state,
                disk,
                sent,
                timestamp,
                Seq::empty(),
            );
            &&& news.len() == 1
            &&& after.disk.files == disk.files.insert(path, content)
            &&& after.step == crate::apply::BatchStepView::Finished(Ok(Seq::empty()))
        }),
{
    law_modify_notice(
        watched.states,
        watched.ignore_dirs,
        root,
        path,
        Probe::File(file),
    );
    let event = EventView::FileModified { path, content_hash: file.hash, size: file.size };
    let none = Seq::<EventView>::empty();
    law_event_comes_into_buffer(none, event, 0);
    assert(none.push(event) =~= seq![event]);
    law_news_of_one_event(watched.states, event);
    assert(seq![event][0] == event);
    crate::apply::law_accepted_paths_are_plain(path);
    assert(!crate::delivery::file_above(disk.files, path)) by {
        if crate::delivery::file_above(disk.files, path) {
            let dir = choose|dir: Seq<Part>| #[trigger]
                disk.files.contains_key(dir) && crate::delivery::is_above(dir, path);
            assert(path.take(dir.len() as int) == dir);
            assert(!disk.files.contains_key(path.take(dir.len() as int)));
        }
    }
    crate::delivery::law_sent_file_arrives(
        state,
        disk,
        path,
        true,
        file,
        content,
        chunk_size,
        timestamp,
    );
}

} // verus!
