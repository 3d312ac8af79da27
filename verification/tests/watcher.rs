use dirsync::event::SyncEvent;
use dirsync::path::{PathStyle, SyncPath};
use dirsync::watcher::{
    enters, enters_text, hash_data, file_hash_and_size, initial_scan, EventBuffer, FileState,
    FileStateTracker, FsWatcher, HashStep, Notice, NoticeKind, Probe, Sighting, INTERNAL_TEMP_DIR,
};

const ROOT: &str = "/watched";

fn p(text: &str) -> SyncPath {
    SyncPath::parse(text)
}

fn at(relative: &str, probe: Probe) -> Sighting {
    Sighting { path: p(ROOT).join(&p(relative)), probe }
}

fn file(content: &[u8]) -> Probe {
    let (hash, size) = hash_data(content);
    Probe::File(FileState { hash, size })
}

fn scan(found: Vec<Sighting>, ignore: &[&str]) -> Vec<SyncEvent> {
    let ignore: Vec<String> = ignore.iter().map(|name| name.to_string()).collect();
    initial_scan(&p(ROOT), b"watched", &found, &ignore)
}

fn watcher() -> FsWatcher {
    FsWatcher::new(PathStyle::Posix, &p(ROOT), 10, &["build".to_string()])
}

fn notice(kind: NoticeKind, paths: Vec<Sighting>) -> Notice {
    Notice { kind, paths }
}

fn translate(watcher: &FsWatcher, kind: NoticeKind, paths: Vec<Sighting>) -> Vec<SyncEvent> {
    watcher.translate_event(&p(ROOT), &notice(kind, paths)).unwrap_or_default()
}

fn created(path: &str, content: &[u8]) -> SyncEvent {
    let (content_hash, size) = hash_data(content);
    SyncEvent::FileCreated { path: p(path), content_hash, size }
}

fn modified(path: &str, content: &[u8]) -> SyncEvent {
    let (content_hash, size) = hash_data(content);
    SyncEvent::FileModified { path: p(path), content_hash, size }
}

#[test]
fn test_tracker_new_file() {
    let mut tracker = FileStateTracker::new();
    let path = p("a.txt");
    let hash = [1u8; 32];
    let (known, _) = tracker.check(&path, &hash, &100);
    assert!(!known);

    tracker.record(path.clone(), hash, 100);
    let (known, changed) = tracker.check(&path, &hash, &100);
    assert!(known);
    assert!(!changed);
}

#[test]
fn test_tracker_detects_change() {
    let mut tracker = FileStateTracker::new();
    let path = p("a.txt");
    let hash1 = [1u8; 32];
    let hash2 = [2u8; 32];

    tracker.record(path.clone(), hash1, 100);
    let (known, changed) = tracker.check(&path, &hash2, &200);
    assert!(known);
    assert!(changed);
}

#[test]
fn test_tracker_remove() {
    let mut tracker = FileStateTracker::new();
    let path = p("a.txt");
    tracker.record(path.clone(), [0u8; 32], 50);
    tracker.remove(&path);
    let (known, _) = tracker.check(&path, &[0u8; 32], &50);
    assert!(!known);
}

#[test]
fn tracker_sees_a_change_of_size_alone() {
    let mut tracker = FileStateTracker::new();
    tracker.record(p("a"), [7u8; 32], 1);
    assert_eq!(tracker.check(&p("a"), &[7u8; 32], &2), (true, true));
    assert_eq!(tracker.len(), 1);
    tracker.record(p("a"), [7u8; 32], 2);
    assert_eq!(tracker.len(), 1);
}

#[test]
fn tracker_forgets_a_tree() {
    let mut tracker = FileStateTracker::new();
    tracker.record(p("d/a"), [0u8; 32], 1);
    tracker.record(p("d/e/b"), [0u8; 32], 1);
    tracker.record(p("dd/a"), [0u8; 32], 1);
    tracker.remove_tree(&p("d"));
    assert!(!tracker.is_known_file(&p("d/a")));
    assert!(!tracker.is_known_file(&p("d/e/b")));
    assert!(tracker.is_known_file(&p("dd/a")));
}

#[test]
fn test_remove_extensionless_tracked_file() {
    let mut watcher = FsWatcher::new(PathStyle::Posix, &p(ROOT), 10, &[]);
    watcher.seed_tracker(&p(ROOT), b"watched", &[at("LICENSE", file(b"license"))], &[]);
    let events = watcher
        .translate_event(
            &p(ROOT),
            &notice(NoticeKind::RemoveOther, vec![at("LICENSE", Probe::Missing)]),
        )
        .unwrap();
    assert!(matches!(
        &events[0],
        SyncEvent::FileDeleted { path } if path == &p("LICENSE")
    ));
}

#[test]
fn test_initial_scan_empty_dir() {
    let events = scan(vec![Sighting { path: p(ROOT), probe: Probe::Dir }], &[]);
    assert!(events.is_empty());
}

#[test]
fn test_initial_scan_with_files() {
    let events = scan(
        vec![
            Sighting { path: p(ROOT), probe: Probe::Dir },
            at("a.txt", file(b"hello")),
            at("b.txt", file(b"world")),
        ],
        &[],
    );
    assert_eq!(events.len(), 2);
    let paths: Vec<&SyncPath> = events.iter().filter_map(|e| e.path()).collect();
    assert!(paths.contains(&&p("a.txt")));
    assert!(paths.contains(&&p("b.txt")));
}

#[test]
fn test_initial_scan_with_subdirs() {
    let events = scan(
        vec![
            Sighting { path: p(ROOT), probe: Probe::Dir },
            at("sub", Probe::Dir),
            at("sub/file.txt", file(b"data")),
        ],
        &[],
    );
    assert!(events.len() >= 2);
    let has_dir = events
        .iter()
        .any(|e| matches!(e, SyncEvent::DirCreated { path } if path == &p("sub")));
    let has_file = events
        .iter()
        .any(|e| matches!(e, SyncEvent::FileCreated { path, .. } if path == &p("sub/file.txt")));
    assert!(has_dir, "Expected DirCreated for 'sub'");
    assert!(has_file, "Expected FileCreated for 'sub/file.txt'");
}

#[test]
fn test_initial_scan_ignores_dirs() {
    let events = scan(
        vec![
            Sighting { path: p(ROOT), probe: Probe::Dir },
            at(".git", Probe::Dir),
            at(".git/config", file(b"data")),
            at("real.txt", file(b"data")),
        ],
        &[".git"],
    );
    assert_eq!(events.len(), 1);
    assert!(matches!(
        &events[0],
        SyncEvent::FileCreated { path, .. } if path == &p("real.txt")
    ));
}

#[test]
fn test_initial_scan_with_ignore() {
    let events = scan(
        vec![
            Sighting { path: p(ROOT), probe: Probe::Dir },
            at(".git", Probe::Dir),
            at(".git/HEAD", file(b"ref: refs/heads/main")),
            at("real.txt", file(b"data")),
        ],
        &[".git"],
    );

    assert_eq!(events.len(), 1);
    assert!(matches!(
        &events[0],
        SyncEvent::FileCreated { path, .. } if path == &p("real.txt")
    ));
}

#[test]
fn scan_skips_the_internal_directory_and_what_cannot_be_read() {
    let events = scan(
        vec![
            at(INTERNAL_TEMP_DIR, Probe::Dir),
            at(".dirsync_tmp/part", file(b"half")),
            at("locked", Probe::Unreadable),
            at("gone", Probe::Missing),
            at("kept", file(b"x")),
        ],
        &[],
    );
    assert_eq!(events, vec![created("kept", b"x")]);
}

#[test]
fn scan_of_an_ignored_directory_finds_nothing() {
    let found = vec![at("a", file(b"a"))];
    assert!(initial_scan(&p(ROOT), b"build", &found, &["build".to_string()]).is_empty());
    assert_eq!(initial_scan(&p(ROOT), b"src", &found, &["build".to_string()]).len(), 1);
}

#[test]
fn names_are_compared_as_text() {
    let ignore = vec!["caf\u{fffd}".to_string(), "plain".to_string()];
    assert!(!enters(b"plain", &ignore));
    assert!(enters(b"plains", &ignore));
    assert!(!enters(b"caf\xff", &ignore));
    assert!(enters(b"caf\xc3\xa9", &ignore));
    assert!(!enters_text("caf\u{fffd}".as_bytes(), &ignore));
    assert!(!enters(INTERNAL_TEMP_DIR.as_bytes(), &[]));
}

#[test]
fn notices_are_translated_by_their_kind() {
    let w = watcher();
    assert_eq!(
        translate(&w, NoticeKind::Create, vec![at("a", file(b"1")), at("d", Probe::Dir)]),
        vec![created("a", b"1"), SyncEvent::DirCreated { path: p("d") }]
    );
    assert_eq!(
        translate(&w, NoticeKind::Modify, vec![at("a", file(b"2")), at("d", Probe::Dir)]),
        vec![modified("a", b"2")]
    );
    assert_eq!(
        translate(&w, NoticeKind::RemoveFile, vec![at("x", Probe::Missing)]),
        vec![SyncEvent::FileDeleted { path: p("x") }]
    );
    assert_eq!(
        translate(&w, NoticeKind::RemoveFolder, vec![at("x.y", Probe::Missing)]),
        vec![SyncEvent::DirDeleted { path: p("x.y") }]
    );
    assert_eq!(
        translate(
            &w,
            NoticeKind::RemoveOther,
            vec![at("x", Probe::Missing), at("x.y", Probe::Missing)]
        ),
        vec![
            SyncEvent::DirDeleted { path: p("x") },
            SyncEvent::FileDeleted { path: p("x.y") }
        ]
    );
    assert!(translate(&w, NoticeKind::Other, vec![at("a", file(b"1"))]).is_empty());
    assert!(translate(&w, NoticeKind::Create, vec![at("a", Probe::Unreadable)]).is_empty());
}

#[test]
fn renames_are_translated_by_what_is_known_of_them() {
    let w = watcher();
    let names = || vec![at("old.txt", Probe::Missing), at("new.txt", file(b"n"))];
    assert_eq!(
        translate(&w, NoticeKind::RenameFrom, names()),
        vec![SyncEvent::FileDeleted { path: p("old.txt") }]
    );
    assert_eq!(translate(&w, NoticeKind::RenameTo, names()), vec![created("new.txt", b"n")]);
    assert_eq!(
        translate(&w, NoticeKind::RenameBoth, names()),
        vec![SyncEvent::FileDeleted { path: p("old.txt") }, created("new.txt", b"n")]
    );
    assert_eq!(
        translate(&w, NoticeKind::RenameBoth, vec![at("one.txt", file(b"1"))]),
        vec![SyncEvent::FileDeleted { path: p("one.txt") }, created("one.txt", b"1")]
    );
    assert_eq!(
        translate(&w, NoticeKind::RenameAny, names()),
        vec![SyncEvent::FileDeleted { path: p("old.txt") }, created("new.txt", b"n")]
    );
    assert!(translate(&w, NoticeKind::RenameFrom, vec![]).is_empty());
}

#[test]
fn a_notice_with_an_ignored_path_is_dropped() {
    let w = watcher();
    assert!(w.is_ignored(&p("/watched/build/out.o")));
    assert!(!w.is_ignored(&p("/watched/builds/out.o")));
    assert!(w.is_ignored(&p("/watched/a/.dirsync_tmp/b")));
    assert!(translate(
        &w,
        NoticeKind::Create,
        vec![at("a", file(b"1")), at("build/out.o", file(b"2"))]
    )
    .is_empty());
    assert!(translate(
        &w,
        NoticeKind::Create,
        vec![Sighting { path: p("/elsewhere/a"), probe: file(b"1") }]
    )
    .is_empty());
}

#[test]
fn only_the_latest_event_of_a_path_is_emitted() {
    let mut w = watcher();
    let mut buffer = EventBuffer::new();
    w.collect(&p(ROOT), &notice(NoticeKind::Create, vec![at("a", file(b"1"))]), &mut buffer);
    w.collect(&p(ROOT), &notice(NoticeKind::Create, vec![at("b", file(b"2"))]), &mut buffer);
    w.collect(&p(ROOT), &notice(NoticeKind::Modify, vec![at("a", file(b"3"))]), &mut buffer);
    assert_eq!(w.drain(buffer), vec![modified("a", b"3"), created("b", b"2")]);
    assert_eq!(w.tracked_files(), 2);
    assert_eq!(w.debounce_ms(), 10);
}

#[test]
fn events_without_a_path_are_not_buffered() {
    let mut w = watcher();
    let mut buffer = EventBuffer::new();
    buffer.merge(SyncEvent::Heartbeat { timestamp: 1 });
    buffer.merge_all(vec![SyncEvent::DirCreated { path: p("d") }]);
    assert_eq!(w.drain(buffer), vec![SyncEvent::DirCreated { path: p("d") }]);
}

#[test]
fn an_applied_change_does_not_echo() {
    let mut w = watcher();
    w.record_applied_event(&created("a", b"remote"));
    assert!(!w.should_emit(&created("a", b"remote")));
    assert!(!w.should_emit(&modified("a", b"remote")));
    assert!(w.should_emit(&modified("a", b"local")));
    assert!(!w.should_emit(&modified("a", b"local")));
    w.record_applied_event(&SyncEvent::FileDeleted { path: p("a") });
    assert!(w.should_emit(&created("a", b"local")));
}

#[test]
fn a_deleted_directory_takes_its_files_along() {
    let mut w = watcher();
    assert!(w.should_emit(&created("d/a", b"1")));
    assert!(w.should_emit(&SyncEvent::DirDeleted { path: p("d") }));
    assert_eq!(w.tracked_files(), 0);
    assert!(w.should_emit(&created("d/a", b"1")));
}

#[test]
fn an_applied_file_is_removed_as_a_file() {
    let mut w = watcher();
    w.record_applied_event(&created("Makefile", b"all:"));
    assert_eq!(
        translate(&w, NoticeKind::RemoveOther, vec![at("Makefile", Probe::Missing)]),
        vec![SyncEvent::FileDeleted { path: p("Makefile") }]
    );
}

#[test]
fn seeded_files_are_no_news() {
    let mut w = watcher();
    let found = vec![at("a", file(b"1")), at("sub/b", file(b"2")), at("build/c", file(b"3"))];
    let ignore = vec!["build".to_string()];
    w.seed_tracker(&p(ROOT), b"watched", &found, &ignore);
    assert_eq!(w.tracked_files(), 2);
    for event in initial_scan(&p(ROOT), b"watched", &found, &ignore) {
        assert!(!w.should_emit(&event));
    }
}

#[test]
fn a_file_that_cannot_be_read_is_tried_four_times() {
    assert_eq!(file_hash_and_size(0, None), HashStep::Retry(100));
    assert_eq!(file_hash_and_size(2, None), HashStep::Retry(100));
    assert_eq!(file_hash_and_size(3, None), HashStep::Failed);
    assert_eq!(
        file_hash_and_size(3, Some(([4u8; 32], 5))),
        HashStep::Done(FileState { hash: [4u8; 32], size: 5 })
    );
}

#[test]
fn notices_of_a_debounce_period_are_merged() {
    let mut w = watcher();
    let notices = vec![
        notice(NoticeKind::Create, vec![at("a", file(b"1"))]),
        notice(NoticeKind::RemoveFile, vec![at("a", Probe::Missing)]),
        notice(NoticeKind::Create, vec![at("b", file(b"2"))]),
    ];
    assert_eq!(
        w.collect_events_blocking(&p(ROOT), &notices),
        vec![SyncEvent::FileDeleted { path: p("a") }, created("b", b"2")]
    );
    assert!(w.collect_events_timeout(&p(ROOT), None).is_empty());
    assert_eq!(
        w.collect_events_timeout(&p(ROOT), Some(&notices)),
        vec![SyncEvent::FileDeleted { path: p("a") }]
    );
}

#[test]
fn ignored_directories_are_written_as_the_system_has_them() {
    let root = SyncPath::parse_as(PathStyle::Windows, "C:\\work");
    let ignore = vec!["out\\obj".to_string(), "\\tmp".to_string()];
    let w = FsWatcher::new(PathStyle::Windows, &root, 10, &ignore);
    let at = |text: &str| SyncPath::parse_as(PathStyle::Windows, text);
    assert!(w.is_ignored(&at("C:\\work\\out\\obj\\a.o")));
    assert!(w.is_ignored(&at("C:/work/out/obj")));
    assert!(!w.is_ignored(&at("C:\\work\\out\\src")));
    assert!(w.is_ignored(&at("C:\\tmp\\x")));
    assert!(!w.is_ignored(&at("D:\\tmp\\x")));
}

#[test]
fn a_repetition_below_a_deleted_directory_is_news() {
    let mut w = watcher();
    w.record_applied_event(&created("d/a", b"1"));
    w.record_applied_event(&created("b", b"2"));
    let notices = vec![
        notice(NoticeKind::RemoveFolder, vec![at("d", Probe::Missing)]),
        notice(NoticeKind::Create, vec![at("d/a", file(b"1")), at("b", file(b"2"))]),
    ];
    assert_eq!(
        w.collect_events_blocking(&p(ROOT), &notices),
        vec![SyncEvent::DirDeleted { path: p("d") }, created("d/a", b"1")]
    );
}
