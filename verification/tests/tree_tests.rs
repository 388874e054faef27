use explorer_core::app_core::{AppCore, RootProbe, TreeNode};
use explorer_core::error::CoreError;
use explorer_core::fs_adapter::EntryInfo;
use explorer_core::paths::{EntryPath, PathSet};
use explorer_core::tree::{tree_row_label, DirListing};

fn p(text: &str) -> EntryPath {
    let (anchor, rest) = if let Some(stripped) = text.strip_prefix('/') {
        ("/".to_string(), stripped)
    } else {
        (String::new(), text)
    };
    let parts = rest
        .split('/')
        .filter(|s| !s.is_empty())
        .map(|s| s.to_string())
        .collect();
    EntryPath { anchor, parts }
}

fn entry(path: &str, is_dir: bool) -> EntryInfo {
    let path = p(path);
    let name = path.display_name();
    EntryInfo { path, name, is_dir, byte_len: 0 }
}

fn listing(dir: &str, entries: Vec<EntryInfo>) -> DirListing {
    DirListing { dir: p(dir), entries: Ok(entries) }
}

fn rows(nodes: &[TreeNode]) -> Vec<(String, usize, bool)> {
    nodes.iter().map(|n| (n.name.clone(), n.depth, n.is_dir)).collect()
}

fn opened(root: &str) -> AppCore {
    let mut core = AppCore::default();
    core.set_workspace_root(p(root), RootProbe::Canonical(p(root))).unwrap();
    core
}

#[test]
fn tree_without_root_is_empty() {
    let core = AppCore::default();
    assert!(core.tree_is_finite(&vec![]));
    assert_eq!(core.visible_tree(&vec![]).unwrap(), vec![]);
}

#[test]
fn tree_lists_expanded_directories_depth_first() {
    let mut core = opened("/w");
    core.replace_expanded_paths(PathSet::from_paths(vec![p("/w/docs")]));
    let listings = vec![
        listing("/w", vec![entry("/w/docs", true), entry("/w/src", true), entry("/w/readme.md", false)]),
        listing("/w/docs", vec![entry("/w/docs/guide.md", false)]),
        listing("/w/src", vec![entry("/w/src/main.rs", false)]),
    ];
    assert!(core.tree_is_finite(&listings));
    let tree = core.visible_tree(&listings).unwrap();
    assert_eq!(
        rows(&tree),
        vec![
            ("w".to_string(), 0, true),
            ("docs".to_string(), 1, true),
            ("guide.md".to_string(), 2, false),
            ("src".to_string(), 1, true),
            ("readme.md".to_string(), 1, false),
        ]
    );
    assert_eq!(tree[2].path, p("/w/docs/guide.md"));
}

#[test]
fn collapsed_root_shows_only_the_root() {
    let mut core = opened("/w");
    core.command_toggle_expanded(&p("/w"));
    let tree = core.visible_tree(&vec![]).unwrap();
    assert_eq!(rows(&tree), vec![("w".to_string(), 0, true)]);
}

#[test]
fn root_without_components_is_named_by_its_anchor() {
    let core = opened("/");
    let tree = core.visible_tree(&vec![listing("/", vec![])]).unwrap();
    assert_eq!(rows(&tree), vec![("/".to_string(), 0, true)]);
}

#[test]
fn listing_failure_is_reported() {
    let mut core = opened("/w");
    core.replace_expanded_paths(PathSet::from_paths(vec![p("/w/locked")]));
    let listings = vec![
        listing("/w", vec![entry("/w/locked", true)]),
        DirListing { dir: p("/w/locked"), entries: Err("permission denied".to_string()) },
    ];
    assert_eq!(core.visible_tree(&listings), Err(CoreError::Fs("permission denied".to_string())));
}

#[test]
fn missing_listing_is_reported() {
    let core = opened("/w");
    assert_eq!(core.visible_tree(&vec![]), Err(CoreError::Unlisted(p("/w"))));
}

#[test]
fn first_listing_for_a_directory_counts() {
    let core = opened("/w");
    let listings = vec![listing("/w", vec![entry("/w/a", false)]), listing("/w", vec![])];
    let tree = core.visible_tree(&listings).unwrap();
    assert_eq!(tree.len(), 2);
}

#[test]
fn a_directory_inside_itself_makes_the_tree_infinite() {
    let core = opened("/w");
    let listings = vec![listing("/w", vec![entry("/w", true)])];
    assert!(!core.tree_is_finite(&listings));
}

#[test]
fn tree_depth_grows_one_level_at_a_time_below_expanded_directories() {
    let mut core = opened("/w");
    core.replace_expanded_paths(PathSet::from_paths(vec![p("/w/a"), p("/w/a/b")]));
    let listings = vec![
        listing("/w", vec![entry("/w/a", true), entry("/w/z", false)]),
        listing("/w/a", vec![entry("/w/a/b", true)]),
        listing("/w/a/b", vec![entry("/w/a/b/c", false)]),
    ];
    let tree = core.visible_tree(&listings).unwrap();
    let depths: Vec<usize> = tree.iter().map(|n| n.depth).collect();
    assert_eq!(depths, vec![0, 1, 2, 3, 1]);
    for k in 1..tree.len() {
        assert!(tree[k].depth <= tree[k - 1].depth + 1);
        if tree[k].depth == tree[k - 1].depth + 1 {
            assert!(tree[k - 1].is_dir && core.expanded_paths().contains(&tree[k - 1].path));
        }
    }
}

#[test]
fn row_labels_show_depth_selection_and_kind() {
    let mut core = opened("/w");
    core.replace_expanded_paths(PathSet::from_paths(vec![p("/w/a")]));
    let listings = vec![
        listing("/w", vec![entry("/w/a", true), entry("/w/d", true), entry("/w/f.txt", false)]),
        listing("/w/a", vec![entry("/w/a/g", false)]),
    ];
    let tree = core.visible_tree(&listings).unwrap();
    let selected = p("/w/a/g");
    let labels: Vec<String> =
        tree.iter().map(|n| tree_row_label(n, Some(&selected), core.expanded_paths())).collect();
    assert_eq!(labels, vec!["  [-] w", "    [-] a", "    * [f] g", "    [+] d", "    [f] f.txt"]);
    assert_eq!(tree_row_label(&tree[0], None, &PathSet::new()), "  [+] w");
}
