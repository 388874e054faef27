use explorer_core::error::CoreError;
use explorer_core::fs_adapter::{
    candidate_path, check_trash_target, ensure_within_root, entry_name, order_entries, split_new_path, EntryInfo,
    FileSystemAdapter,
};
use explorer_core::paths::EntryPath;

fn p(text: &str) -> EntryPath {
    let (anchor, rest) = if let Some(stripped) = text.strip_prefix('/') {
        ("/".to_string(), stripped)
    } else {
        (String::new(), text)
    };
    let parts = rest
        .split('/')
        .filter(|s| !s.is_empty())
        .map(|s| s.to_string())
        .collect();
    EntryPath { anchor, parts }
}

fn entry(path: &str, is_dir: bool) -> EntryInfo {
    let path = p(path);
    let name = path.display_name();
    EntryInfo { path, name, is_dir, byte_len: 0 }
}

#[test]
fn adapter_is_a_unit_value() {
    assert_eq!(FileSystemAdapter::new(), FileSystemAdapter);
}

#[test]
fn paths_inside_the_root_are_accepted() {
    assert_eq!(ensure_within_root(&p("/w"), &p("/w/a/b")), Ok(()));
    assert_eq!(ensure_within_root(&p("/w"), &p("/w")), Ok(()));
    assert_eq!(ensure_within_root(&p("/w"), &p("/wx")), Err(CoreError::OutsideRoot(p("/wx"), p("/w"))));
    assert_eq!(ensure_within_root(&p("/w"), &p("/etc")), Err(CoreError::OutsideRoot(p("/etc"), p("/w"))));
}

#[test]
fn the_root_never_goes_to_the_trash() {
    assert_eq!(check_trash_target(&p("/w"), &p("/w/a")), Ok(()));
    assert_eq!(check_trash_target(&p("/w"), &p("/w")), Err(CoreError::RootTrashRefused));
    assert_eq!(check_trash_target(&p("/w"), &p("/x")), Err(CoreError::OutsideRoot(p("/x"), p("/w"))));
}

#[test]
fn relative_requests_resolve_from_the_root() {
    assert_eq!(candidate_path(&p("/w"), &p("a/b")), p("/w/a/b"));
    assert_eq!(candidate_path(&p("/w"), &p("/elsewhere")), p("/elsewhere"));
}

fn win(anchor: &str, parts: &[&str]) -> EntryPath {
    EntryPath { anchor: anchor.to_string(), parts: parts.iter().map(|s| s.to_string()).collect() }
}

#[test]
fn rooted_requests_take_the_drive_of_the_root() {
    assert_eq!(candidate_path(&win("C:\\", &["w"]), &win("\\", &["dir"])), win("C:\\", &["dir"]));
    assert_eq!(candidate_path(&win("C:\\", &["w"]), &win("D:\\", &["x"])), win("D:\\", &["x"]));
    assert_eq!(candidate_path(&win("C:\\", &["w"]), &win("", &["a"])), win("C:\\", &["w", "a"]));
}

#[test]
fn new_paths_split_into_parent_and_name() {
    assert_eq!(split_new_path(&p("/w/a/new.txt")), Ok((p("/w/a"), "new.txt".to_string())));
    assert_eq!(split_new_path(&p("/")), Err(CoreError::NoParentForNewPath(p("/"))));
}

#[test]
fn entry_names() {
    assert_eq!(entry_name(&p("/w/report.pdf")), "report.pdf");
    assert_eq!(entry_name(&p("/")), "/");
}

#[test]
fn listing_puts_directories_first_then_names_case_insensitively() {
    let entries = vec![
        entry("/w/beta.txt", false),
        entry("/w/Zeta", true),
        entry("/w/Alpha.txt", false),
        entry("/w/alpha", true),
        entry("/w/ALPHA.txt", false),
    ];
    let ordered: Vec<String> = order_entries(&entries).into_iter().map(|e| e.name).collect();
    assert_eq!(ordered, vec!["alpha", "Zeta", "Alpha.txt", "ALPHA.txt", "beta.txt"]);
}

#[test]
fn listing_of_nothing_is_empty() {
    assert!(order_entries(&vec![]).is_empty());
}
