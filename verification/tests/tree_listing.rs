use fs_core::tree::{build_entries, is_hidden_name, DirectoryEntry, RawEntry};

fn file(name: &str, path: &str) -> RawEntry {
    RawEntry { name: name.to_string(), path: path.to_string(), is_dir: false, children: None }
}

fn dir(name: &str, path: &str, children: Vec<RawEntry>) -> RawEntry {
    RawEntry {
        name: name.to_string(),
        path: path.to_string(),
        is_dir: true,
        children: Some(children),
    }
}

fn names(entries: &[DirectoryEntry]) -> Vec<String> {
    entries.iter().map(|e| e.name.clone()).collect()
}

#[test]
fn directories_come_before_files_in_ascending_name_order() {
    let raw = vec![
        file("b.txt", "/r/b.txt"),
        dir("zeta", "/r/zeta", vec![]),
        file("a.txt", "/r/a.txt"),
        dir("alpha", "/r/alpha", vec![]),
    ];
    let out = build_entries(&raw);
    assert_eq!(names(&out), vec!["alpha", "zeta", "a.txt", "b.txt"]);
    assert!(out[0].is_directory && out[1].is_directory);
    assert!(!out[2].is_directory && !out[3].is_directory);
    assert_eq!(out[2].path, "/r/a.txt");
}

#[test]
fn each_level_is_sorted_independently() {
    let raw = vec![
        dir(
            "sub",
            "/r/sub",
            vec![
                file("z", "/r/sub/z"),
                file("m", "/r/sub/m"),
                dir("k", "/r/sub/k", vec![]),
            ],
        ),
        file("top", "/r/top"),
    ];
    let out = build_entries(&raw);
    assert_eq!(names(&out), vec!["sub", "top"]);
    let sub = out[0].children.as_ref().expect("directory keeps its children");
    assert_eq!(names(sub), vec!["k", "m", "z"]);
    assert!(sub[0].is_directory);
}

#[test]
fn hidden_entries_never_appear_at_any_depth() {
    let raw = vec![
        dir(
            ".git",
            "/r/.git",
            vec![file("config", "/r/.git/config"), dir("objects", "/r/.git/objects", vec![])],
        ),
        file(".hidden", "/r/.hidden"),
        dir(
            "src",
            "/r/src",
            vec![
                file(".hidden", "/r/src/.hidden"),
                dir(".git", "/r/src/.git", vec![file("x", "/r/src/.git/x")]),
                file("main.rs", "/r/src/main.rs"),
            ],
        ),
    ];
    let out = build_entries(&raw);
    assert_eq!(names(&out), vec!["src"]);
    let src = out[0].children.as_ref().unwrap();
    assert_eq!(names(src), vec!["main.rs"]);
}

#[test]
fn empty_directory_keeps_present_but_empty_children() {
    let raw = vec![dir("empty", "/r/empty", vec![]), file("f", "/r/f")];
    let out = build_entries(&raw);
    assert_eq!(out[0].children.as_ref().unwrap().len(), 0);
    assert!(out[1].children.is_none());
}

#[test]
fn three_levels_of_nesting_are_each_ordered() {
    let raw = vec![dir(
        "a",
        "/a",
        vec![dir(
            "b",
            "/a/b",
            vec![file("d", "/a/b/d"), file("c", "/a/b/c"), dir("e", "/a/b/e", vec![])],
        )],
    )];
    let out = build_entries(&raw);
    let b = out[0].children.as_ref().unwrap()[0].children.as_ref().unwrap();
    assert_eq!(names(b), vec!["e", "c", "d"]);
}

#[test]
fn names_order_by_unicode_scalar_value() {
    let raw = vec![file("\u{e9}", "/r/e2"), file("b", "/r/b"), file("B", "/r/B")];
    let out = build_entries(&raw);
    assert_eq!(names(&out), vec!["B", "b", "\u{e9}"]);
}

#[test]
fn hidden_name_detection_is_exactly_a_leading_dot() {
    assert!(is_hidden_name(&String::from(".git")));
    assert!(is_hidden_name(&String::from(".")));
    assert!(!is_hidden_name(&String::from("")));
    assert!(!is_hidden_name(&String::from("git")));
    assert!(!is_hidden_name(&String::from("a.b")));
}
