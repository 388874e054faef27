use explorer_core::paths::{EntryPath, PathSet};

fn p(text: &str) -> EntryPath {
    let (anchor, rest) = if let Some(stripped) = text.strip_prefix('/') {
        ("/".to_string(), stripped)
    } else {
        (String::new(), text)
    };
    let parts = rest
        .split('/')
        .filter(|s| !s.is_empty())
        .map(|s| s.to_string())
        .collect();
    EntryPath { anchor, parts }
}

fn sorted_paths(set: &PathSet) -> Vec<EntryPath> {
    let mut v: Vec<EntryPath> = set.paths().clone();
    v.sort_by(|a, b| a.parts.cmp(&b.parts).then(a.anchor.cmp(&b.anchor)));
    v
}

#[test]
fn same_path_compares_anchor_and_components() {
    assert!(p("/a/b").same_path(&p("/a/b")));
    assert!(!p("/a/b").same_path(&p("a/b")));
    assert!(!p("/a/b").same_path(&p("/a/c")));
    assert!(!p("/a").same_path(&p("/a/b")));
}

#[test]
fn starts_with_is_component_wise() {
    assert!(p("/a/b/c").starts_with(&p("/a/b")));
    assert!(p("/a/b").starts_with(&p("/a/b")));
    assert!(p("/a").starts_with(&p("/")));
    assert!(!p("/a/bc").starts_with(&p("/a/b")));
    assert!(!p("/a").starts_with(&p("/a/b")));
    assert!(!p("a/b").starts_with(&p("/a")));
}

#[test]
fn parent_drops_last_component() {
    assert_eq!(p("/a/b").parent(), Some(p("/a")));
    assert_eq!(p("/a").parent(), Some(p("/")));
    assert_eq!(p("/").parent(), None);
    assert_eq!(p("a").parent(), Some(p("")));
    assert_eq!(p("").parent(), None);
}

#[test]
fn child_and_join_append_components() {
    assert_eq!(p("/a").child("b c"), p("/a/b c"));
    assert_eq!(p("/").child("x"), p("/x"));
    assert_eq!(p("/a").join(&p("b/c")), p("/a/b/c"));
    assert_eq!(p("/a").join(&p("")), p("/a"));
}

#[test]
fn rebase_moves_paths_under_the_old_prefix() {
    assert_eq!(p("/w/src/lib").rebase(&p("/w/src"), &p("/w/old/src")), p("/w/old/src/lib"));
    assert_eq!(p("/w/src").rebase(&p("/w/src"), &p("/w/dst")), p("/w/dst"));
    assert_eq!(p("/w/other").rebase(&p("/w/src"), &p("/w/dst")), p("/w/other"));
    assert_eq!(p("/w/srcx").rebase(&p("/w/src"), &p("/w/dst")), p("/w/srcx"));
}

#[test]
fn display_name_falls_back_to_anchor() {
    assert_eq!(p("/a/b").display_name(), "b");
    assert_eq!(p("/").display_name(), "/");
    let windows_root = EntryPath { anchor: "C:\\".to_string(), parts: vec![] };
    assert_eq!(windows_root.display_name(), "C:\\");
}

#[test]
fn clone_keeps_the_value() {
    let a = p("/x/y");
    let b = a.clone();
    assert_eq!(a, b);
}

#[test]
fn path_set_holds_each_path_once() {
    let mut set = PathSet::new();
    assert_eq!(set.len(), 0);
    set.insert(p("/a"));
    set.insert(p("/a"));
    set.insert(p("/b"));
    assert_eq!(set.len(), 2);
    assert!(set.contains(&p("/a")));
    assert!(!set.contains(&p("/c")));
    set.remove(&p("/a"));
    assert!(!set.contains(&p("/a")));
    assert_eq!(set.len(), 1);
    set.remove(&p("/zzz"));
    assert_eq!(set.len(), 1);
}

#[test]
fn path_set_from_paths_drops_duplicates() {
    let set = PathSet::from_paths(vec![p("/a"), p("/b"), p("/a")]);
    assert_eq!(set.len(), 2);
    assert_eq!(sorted_paths(&set), vec![p("/a"), p("/b")]);
}

#[test]
fn retain_not_under_prunes_a_subtree() {
    let mut set = PathSet::from_paths(vec![p("/w"), p("/w/a"), p("/w/a/b"), p("/w/ab"), p("/w/c")]);
    set.retain_not_under(&p("/w/a"));
    assert_eq!(sorted_paths(&set), vec![p("/w"), p("/w/ab"), p("/w/c")]);
}

#[test]
fn rebased_maps_every_path() {
    let set = PathSet::from_paths(vec![p("/w"), p("/w/a"), p("/w/a/b"), p("/w/c")]);
    let moved = set.rebased(&p("/w/a"), &p("/w/c/a"));
    assert_eq!(sorted_paths(&moved), vec![p("/w"), p("/w/c"), p("/w/c/a"), p("/w/c/a/b")]);
}

#[test]
fn path_set_clone_is_equal() {
    let set = PathSet::from_paths(vec![p("/a"), p("/b")]);
    let copy = set.clone();
    assert_eq!(sorted_paths(&set), sorted_paths(&copy));
}
