use clash_verge::path::{
    compare_paths, components, extension, file_name, join, parent, paths_same, Component, Order,
    PathStyle, Prefix,
};
use clash_verge::path_list::sort_dedup_paths;
use clash_verge::text::{decimal_string, escape_double_quotes, trim};

#[test]
fn windows_file_names() {
    let w = PathStyle::Windows;
    assert_eq!(file_name(r"C:\Program Files\Clash Verge", w), Some("Clash Verge".to_string()));
    assert_eq!(file_name(r"C:\a\b\\", w), Some("b".to_string()));
    assert_eq!(file_name(r"C:\a\.", w), Some("a".to_string()));
    assert_eq!(file_name(r"C:\a\..", w), None);
    assert_eq!(file_name(r"C:\", w), None);
    assert_eq!(file_name("C:", w), None);
    assert_eq!(file_name("", w), None);
    assert_eq!(file_name(r"C:foo", w), Some("foo".to_string()));
}

#[test]
fn unix_reads_backslash_as_a_character() {
    assert_eq!(
        file_name(r"C:\Program Files\Clash Verge", PathStyle::Unix),
        Some(r"C:\Program Files\Clash Verge".to_string())
    );
}

#[test]
fn parents() {
    let w = PathStyle::Windows;
    let u = PathStyle::Unix;
    assert_eq!(parent(r"C:\a\b", w), Some(r"C:\a".to_string()));
    assert_eq!(parent(r"C:\a", w), Some(r"C:\".to_string()));
    assert_eq!(parent(r"C:\", w), None);
    assert_eq!(parent("C:a", w), Some("C:".to_string()));
    assert_eq!(parent("/foo/bar", u), Some("/foo".to_string()));
    assert_eq!(parent("/foo/./bar/", u), Some("/foo".to_string()));
    assert_eq!(parent("foo", u), Some(String::new()));
    assert_eq!(parent("./foo", u), Some(".".to_string()));
    assert_eq!(parent(".", u), Some(String::new()));
    assert_eq!(parent("/", u), None);
    assert_eq!(parent("", u), None);
}

#[test]
fn extensions() {
    let u = PathStyle::Unix;
    assert_eq!(extension("/a/Clash Verge.app", u), Some("app".to_string()));
    assert_eq!(extension("/a/.app", u), None);
    assert_eq!(extension("/a/x.tar.gz", u), Some("gz".to_string()));
    assert_eq!(extension("/a/x.", u), Some(String::new()));
    assert_eq!(extension("/a/x", u), None);
    assert_eq!(extension("/", u), None);
}

#[test]
fn joins() {
    let w = PathStyle::Windows;
    let u = PathStyle::Unix;
    assert_eq!(join(r"C:\a", "b", w), r"C:\a\b");
    assert_eq!(join(r"C:\a\", "b", w), r"C:\a\b");
    assert_eq!(join("C:/a/", "b", w), "C:/a/b");
    assert_eq!(join("C:", "b", w), "C:b");
    assert_eq!(join("", "b", w), "b");
    assert_eq!(join("/a", "b/c", u), "/a/b/c");
    assert_eq!(join("/", "b", u), "/b");
}

#[test]
fn components_and_comparison() {
    let w = PathStyle::Windows;
    let c = components(r"c:\x\..\.\y", w);
    assert_eq!(c.len(), 5);
    assert!(matches!(c[0], Component::Prefix(Prefix::Disk(67))));
    assert!(matches!(c[1], Component::RootDir));
    assert!(matches!(&c[2], Component::Normal(t) if t.iter().collect::<String>() == "x"));
    assert!(matches!(c[3], Component::ParentDir));
    assert!(matches!(&c[4], Component::Normal(t) if t.iter().collect::<String>() == "y"));
    assert!(matches!(components("./a", PathStyle::Unix)[0], Component::CurDir));
    assert!(paths_same(r"C:\a\\b\", "c:/a/b", w));
    assert!(!paths_same("/a/b", "/a/b/..", PathStyle::Unix));
    assert_eq!(compare_paths(r"C:\a", r"C:\a\b", w), Order::Less);
    assert_eq!(compare_paths(r"C:\a\b", r"C:\a b", w), Order::Less);
    assert_eq!(compare_paths(r"D:\a", r"C:\z", w), Order::Greater);
    assert_eq!(compare_paths("/a", "a", PathStyle::Unix), Order::Less);
}

#[test]
fn sorting_keeps_first_spelling() {
    let input = vec!["/b".to_string(), "/a/".to_string(), "/a".to_string(), "/b/".to_string()];
    assert_eq!(sort_dedup_paths(&input, PathStyle::Unix), vec!["/a/".to_string(), "/b".to_string()]);
    assert_eq!(sort_dedup_paths(&Vec::new(), PathStyle::Unix), Vec::<String>::new());
}

#[test]
fn text_helpers() {
    assert_eq!(decimal_string(0), "0");
    assert_eq!(decimal_string(7890), "7890");
    assert_eq!(decimal_string(65535), "65535");
    assert_eq!(trim("  io.github.x \n"), "io.github.x");
    assert_eq!(trim("\u{3000}a b\u{85}"), "a b");
    assert_eq!(trim(" \t "), "");
    assert_eq!(trim(" a\u{200B}"), "a\u{200B}");
    assert_eq!(escape_double_quotes("a\"b\"\""), "a\\\"b\\\"\\\"");
    assert_eq!(escape_double_quotes(""), "");
}

fn text(t: &[char]) -> String {
    t.iter().collect()
}

#[test]
fn share_and_device_prefixes() {
    let w = PathStyle::Windows;
    assert_eq!(file_name(r"\\server\share\a", w), Some("a".to_string()));
    assert_eq!(parent(r"\\server\share\a", w), Some(r"\\server\share\".to_string()));
    assert_eq!(file_name(r"\\server\share", w), None);
    assert_eq!(parent(r"\\server\share", w), None);
    assert_eq!(file_name("//server/share/x", w), Some("x".to_string()));
    let c = components(r"\\server\share\a", w);
    assert_eq!(c.len(), 3);
    assert!(matches!(&c[0], Component::Prefix(Prefix::UNC(a, b)) if text(a) == "server" && text(b) == "share"));
    assert!(matches!(c[1], Component::RootDir));
    let d = components(r"\\.\COM1", w);
    assert_eq!(d.len(), 2);
    assert!(matches!(&d[0], Component::Prefix(Prefix::DeviceNS(x)) if text(x) == "COM1"));
    assert!(matches!(d[1], Component::RootDir));
    // two leading separators without a share are no prefix
    assert_eq!(file_name(r"\\server", w), Some("server".to_string()));
    assert!(paths_same(r"\\srv\share\a", "//srv/share/a", w));
}

#[test]
fn verbatim_prefixes() {
    let w = PathStyle::Windows;
    let c = components(r"\\?\C:\a\.\b\..", w);
    assert_eq!(c.len(), 6);
    assert!(matches!(c[0], Component::Prefix(Prefix::VerbatimDisk(67))));
    assert!(matches!(c[1], Component::RootDir));
    assert!(matches!(c[3], Component::CurDir));
    assert!(matches!(c[5], Component::ParentDir));
    assert_eq!(file_name(r"\\?\C:\a\.", w), None);
    assert_eq!(parent(r"\\?\C:\a\.", w), Some(r"\\?\C:\a".to_string()));
    assert_eq!(file_name(r"\\?\C:\a/b", w), Some("a/b".to_string()));
    let u = components(r"\\?\UNC\srv\share", w);
    assert_eq!(u.len(), 1);
    assert!(matches!(&u[0], Component::Prefix(Prefix::VerbatimUNC(a, b)) if text(a) == "srv" && text(b) == "share"));
    let v = components(r"\\?\pipe\x", w);
    assert!(matches!(&v[0], Component::Prefix(Prefix::Verbatim(a)) if text(a) == "pipe"));
    assert!(!paths_same(r"\\?\C:\a", r"C:\a", w));
    assert_eq!(compare_paths(r"\\?\C:\a", r"C:\a", w), Order::Less);
}

#[test]
fn joins_onto_prefixes() {
    let w = PathStyle::Windows;
    assert_eq!(join(r"\\?\C:\a\\b", "c", w), r"\\?\C:\a\b\c");
    assert_eq!(join(r"\\?\C:", "c", w), r"\\?\C:\c");
    assert_eq!(join(r"\\?\C:\", "c", w), r"\\?\C:\c");
    assert_eq!(join(r"\\?\x", "c", w), r"\\?\x\c");
    assert_eq!(join(r"\\?\C:\a\.", "c", w), r"\\?\C:\a\.\c");
    assert_eq!(join(r"\\srv\share", "c", w), r"\\srv\share\c");
    let s = join(r"\\srv", "share", w);
    assert_eq!(s, r"\\srv\share");
    assert_eq!(file_name(&s, w), None);
}
