use dirsync::names::{copy_path_for, keep_both_path, with_suffix};
use dirsync::path::{bytes_eq, Component, PathStyle, Prefix, SyncPath};
use dirsync::path_map::PathMap;

fn p(text: &str) -> SyncPath {
    SyncPath::parse(text)
}

fn name(text: &str) -> Component {
    Component::Normal(text.as_bytes().to_vec())
}

#[test]
fn paths_are_lists_of_components() {
    assert_eq!(p("a/b.txt").parts, vec![name("a"), name("b.txt")]);
    assert_eq!(p("/a//b/").parts, vec![Component::RootDir, name("a"), name("b")]);
    assert_eq!(p("./a/./b").parts, vec![Component::CurDir, name("a"), name("b")]);
    assert_eq!(p("../a").parts, vec![Component::ParentDir, name("a")]);
    assert_eq!(p("").parts, vec![]);
}

#[test]
fn paths_are_joined_and_taken_apart() {
    assert_eq!(p("/r").join(&p("a/b")), p("/r/a/b"));
    assert_eq!(p("/r").join(&p("/a")), p("/a"));
    assert_eq!(p("r").join(&p("./a")), p("r/a"));
    assert_eq!(p("").join(&p("a")), p("a"));
    assert_eq!(p("/r/a/b").strip_prefix(&p("/r")), Some(p("a/b")));
    assert_eq!(p("/rr/a").strip_prefix(&p("/r")), None);
    assert!(p("a/b").starts_with(&p("a")));
    assert!(!p("ab").starts_with(&p("a")));
    assert_eq!(p("a/b").parent(), Some(p("a")));
    assert_eq!(p("a").parent(), Some(p("")));
    assert_eq!(p("/").parent(), None);
    assert_eq!(p("").parent(), None);
}

#[test]
fn names_and_extensions() {
    assert_eq!(p("a/b.txt").file_name(), Some(b"b.txt".to_vec()));
    assert_eq!(p("a/..").file_name(), None);
    assert!(p("b.txt").has_extension());
    assert!(p("b.").has_extension());
    assert!(!p(".git").has_extension());
    assert!(!p("LICENSE").has_extension());
    assert!(p("x/.tmp/y").has_name(b".tmp"));
    assert!(!p("x/.tmpy").has_name(b".tmp"));
    assert!(bytes_eq(b"ab", b"ab"));
    assert!(!bytes_eq(b"ab", b"abc"));
}

#[test]
fn the_suffix_stands_before_the_extension() {
    assert_eq!(with_suffix(b"doc.txt", b"local"), b"doc.local.txt".to_vec());
    assert_eq!(with_suffix(b"a.tar.gz", b"local"), b"a.tar.local.gz".to_vec());
    assert_eq!(with_suffix(b"Makefile", b"local"), b"Makefile.local".to_vec());
    assert_eq!(with_suffix(b".git", b"local"), b".local.git".to_vec());
}

#[test]
fn kept_copies_are_numbered() {
    assert_eq!(keep_both_path(&p("d/doc.txt"), "local", 0), p("d/doc.local.txt"));
    assert_eq!(keep_both_path(&p("d/doc.txt"), "local", 1), p("d/doc.local.1.txt"));
    assert_eq!(keep_both_path(&p("doc"), "local", 999), p("doc.local.999"));
    assert_eq!(copy_path_for(&p("d/x"), b"y.z", "local", 10), p("d/y.local.10.z"));
}

#[test]
fn the_name_of_a_kept_copy_is_text() {
    let odd = SyncPath { parts: vec![Component::Normal(b"b\xffd.txt".to_vec())] };
    assert_eq!(keep_both_path(&odd, "local", 0), p("b\u{fffd}d.local.txt"));
}

#[test]
fn a_map_holds_one_value_for_each_path() {
    let mut map: PathMap<u32> = PathMap::new();
    map.insert(p("a/b"), 1);
    map.insert(p("a//b"), 2);
    map.insert(p("c"), 3);
    assert_eq!(map.len(), 2);
    assert_eq!(map.get(&p("a/b")), Some(&2));
    map.remove_under(&p("a"));
    assert_eq!(map.get(&p("a/b")), None);
    assert!(map.contains(&p("c")));
    map.remove(&p("c"));
    map.remove(&p("c"));
    assert_eq!(map.len(), 0);
}

fn w(text: &str) -> SyncPath {
    SyncPath::parse_as(PathStyle::Windows, text)
}

fn bytes(text: &str) -> Vec<u8> {
    text.as_bytes().to_vec()
}

fn disk(drive: u8) -> Component {
    Component::Prefix(Prefix::Disk(drive))
}

fn unc(server: &str, share: &str) -> Component {
    Component::Prefix(Prefix::Unc(bytes(server), bytes(share)))
}

#[test]
fn windows_paths_have_prefixes_and_two_separators() {
    let root = || Component::RootDir;
    assert_eq!(w("a\\b/c").parts, vec![name("a"), name("b"), name("c")]);
    assert_eq!(w("C:\\a\\b").parts, vec![disk(b'C'), root(), name("a"), name("b")]);
    assert_eq!(w("C:a").parts, vec![disk(b'C'), name("a")]);
    assert_eq!(w("C:").parts, vec![disk(b'C')]);
    assert_eq!(w("C:.\\a").parts, vec![disk(b'C'), name("a")]);
    assert_eq!(w("\\a").parts, vec![root(), name("a")]);
    assert_eq!(w(".\\..\\a").parts, vec![Component::CurDir, Component::ParentDir, name("a")]);
    assert_eq!(
        w("\\\\server\\share\\x").parts,
        vec![unc("server", "share"), root(), name("x")]
    );
    assert_eq!(w("\\\\server\\share").parts, vec![unc("server", "share"), root()]);
    assert_eq!(w("\\\\server").parts, vec![root(), name("server")]);
    assert_eq!(p("a\\b").parts, vec![name("a\\b")]);
}

#[test]
fn prefixes_are_told_apart_by_what_they_name() {
    assert_eq!(w("c:\\x"), w("C:\\x"));
    assert!(w("c:\\x\\y").starts_with(&w("C:/x")));
    assert_eq!(w("c:\\x\\y").strip_prefix(&w("C:\\x")), Some(w("y")));
    assert_eq!(w("\\\\?\\c:\\x"), w("\\\\?\\C:\\x"));
    assert_eq!(w("\\\\s\\h\\x"), w("//s/h/x"));
    assert_eq!(w("\\\\.\\dev\\x"), w("//./dev/x"));
    assert_ne!(w("\\\\s\\h\\x"), w("\\\\S\\h\\x"));
    assert_ne!(w("C:\\x"), w("\\\\?\\C:\\x"));
    assert_ne!(w("//?/C:/x"), w("\\\\?\\C:\\x"));
    assert!(w("c:\\x").same(&w("C:\\x")));
    let mut map: PathMap<u32> = PathMap::new();
    map.insert(w("c:\\x"), 1);
    map.insert(w("C:\\x"), 2);
    assert_eq!(map.len(), 1);
    assert_eq!(map.get(&w("c:/x")), Some(&2));
}

#[test]
fn verbatim_prefixes_are_read_as_they_stand() {
    let root = || Component::RootDir;
    let verbatim = |text: &str| Component::Prefix(Prefix::Verbatim(bytes(text)));
    let share = |server: &str, share: &str| {
        Component::Prefix(Prefix::VerbatimUnc(bytes(server), bytes(share)))
    };
    let drive = || Component::Prefix(Prefix::VerbatimDisk(b'C'));
    assert_eq!(
        w("\\\\?\\C:\\a/b\\c").parts,
        vec![drive(), root(), name("a/b"), name("c")]
    );
    assert_eq!(w("\\\\?\\C:").parts, vec![drive()]);
    assert_eq!(w("\\\\?\\C:/x").parts, vec![drive(), root(), name("x")]);
    assert_eq!(w("\\\\?\\C:x\\y").parts, vec![verbatim("C:x"), root(), name("y")]);
    assert_eq!(w("\\\\?\\bar").parts, vec![verbatim("bar")]);
    assert_eq!(w("\\\\?\\").parts, vec![verbatim("")]);
    assert_eq!(
        w("\\\\?\\UNC\\server\\share\\x").parts,
        vec![share("server", "share"), root(), name("x")]
    );
    assert_eq!(w("\\\\?\\UNC\\server").parts, vec![share("server", "")]);
    assert_eq!(w("\\\\?\\UNC\\server\\").parts, vec![share("server", ""), root()]);
    assert_eq!(
        w("\\\\.\\COM1").parts,
        vec![Component::Prefix(Prefix::Device(bytes("COM1"))), root()]
    );
}

#[test]
fn the_text_of_a_prefix_reads_back() {
    for text in [
        "C:",
        "\\\\server\\share",
        "\\\\.\\dev",
        "\\\\?\\C:",
        "\\\\?\\name",
        "\\\\?\\UNC\\server\\share",
        "\\\\?\\UNC\\server",
        "\\\\?/share",
    ] {
        match &w(text).parts[0] {
            Component::Prefix(prefix) => assert_eq!(prefix.text(), bytes(text)),
            other => panic!("{:?}", other),
        }
    }
}

#[test]
fn a_rooted_path_keeps_the_prefix_of_its_base() {
    assert_eq!(w("C:\\a").join(&w("\\b")), w("C:\\b"));
    assert_eq!(w("C:\\a").join(&w("D:\\b")), w("D:\\b"));
    assert_eq!(w("C:\\a").join(&w("..\\b")), w("C:\\a\\..\\b"));
    assert_eq!(w("C:\\a").join(&w("")), w("C:\\a"));
}

#[test]
fn a_verbatim_base_resolves_what_is_joined() {
    let base = w("\\\\?\\C:\\a");
    assert_eq!(base.join(&w(".\\b\\..\\c")), w("\\\\?\\C:\\a\\c"));
    assert_eq!(base.join(&w("..\\..\\b")), w("\\\\?\\C:\\b"));
    assert_eq!(base.join(&w("\\b")), w("\\\\?\\C:\\b"));
    assert_eq!(base.join(&w("")), base);
    assert_eq!(w("\\\\?\\C:").join(&w("a\\b")), w("\\\\?\\C:\\a\\b"));
    assert_eq!(w("\\\\?\\C:").join(&w("a\\..")), w("\\\\?\\C:"));
    assert_eq!(w("\\\\?\\C:").join(&w("")), w("\\\\?\\C:\\"));
    assert_eq!(w("\\\\?\\UNC\\s").join(&w("h\\x")), w("\\\\?\\UNC\\s\\h\\x"));
    assert_eq!(w("C:").join(&w(".\\a")), w("C:a"));
}

#[test]
fn a_map_holds_many_paths() {
    let mut map: PathMap<u32> = PathMap::new();
    for i in 0..20_000u32 {
        map.insert(p(&format!("dir{}/file{}", i % 100, i)), i);
    }
    assert_eq!(map.len(), 20_000);
    assert_eq!(map.get(&p("dir7/file12307")), Some(&12307));
    map.remove_under(&p("dir7"));
    assert_eq!(map.len(), 19_800);
    assert_eq!(map.get(&p("dir7/file12307")), None);
    assert_eq!(map.get(&p("dir8/file12308")), Some(&12308));
}
