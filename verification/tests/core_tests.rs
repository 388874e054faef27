use explorer_core::app_core::{choose_import_source, AppCore, RefreshSource, RootProbe, SourceChoice, WorkspaceState};
use explorer_core::error::{CoreError, NameError, Operation};
use explorer_core::fs_adapter::EntryInfo;
use explorer_core::paths::{EntryPath, PathSet};
use explorer_core::persistence::PersistedState;

fn p(text: &str) -> EntryPath {
    let (anchor, rest) = if let Some(stripped) = text.strip_prefix('/') {
        ("/".to_string(), stripped)
    } else {
        (String::new(), text)
    };
    let parts = rest
        .split('/')
        .filter(|s| !s.is_empty())
        .map(|s| s.to_string())
        .collect();
    EntryPath { anchor, parts }
}

fn entry(path: &str, is_dir: bool, byte_len: u64) -> EntryInfo {
    let path = p(path);
    let name = path.display_name();
    EntryInfo { path, name, is_dir, byte_len }
}

fn expanded(core: &AppCore) -> Vec<EntryPath> {
    let mut v: Vec<EntryPath> = core.expanded_paths().paths().clone();
    v.sort_by(|a, b| a.parts.cmp(&b.parts));
    v
}

fn opened(root: &str) -> AppCore {
    let mut core = AppCore::default();
    core.set_workspace_root(p(root), RootProbe::Canonical(p(root))).unwrap();
    core
}

#[test]
fn default_core_is_empty() {
    let core = AppCore::default();
    assert_eq!(core.workspace_root(), None);
    assert_eq!(core.selected_path(), None);
    assert_eq!(core.expanded_paths().len(), 0);
    assert_eq!(core.workspace_state().workspace_root, None);
}

#[test]
fn refresh_source_labels() {
    assert_eq!(RefreshSource::Manual.label(), "manual");
    assert_eq!(RefreshSource::Watcher.label(), "watcher");
}

#[test]
fn set_workspace_root_selects_and_expands_the_canonical_root() {
    let mut core = AppCore::default();
    core.set_workspace_root(p("w"), RootProbe::Canonical(p("/home/u/w"))).unwrap();
    assert_eq!(core.workspace_root(), Some(&p("/home/u/w")));
    assert_eq!(core.selected_path(), Some(&p("/home/u/w")));
    assert_eq!(expanded(&core), vec![p("/home/u/w")]);
}

#[test]
fn set_workspace_root_errors_leave_state_unchanged() {
    let mut core = opened("/w");
    assert_eq!(core.set_workspace_root(p("/nope"), RootProbe::Missing), Err(CoreError::PathMissing(p("/nope"))));
    assert_eq!(
        core.set_workspace_root(p("/f.txt"), RootProbe::NotADirectory),
        Err(CoreError::NotADirectory(p("/f.txt")))
    );
    assert_eq!(
        core.set_workspace_root(p("/x"), RootProbe::CanonicalizeFailed("denied".to_string())),
        Err(CoreError::CanonicalizeFailed(p("/x"), "denied".to_string()))
    );
    assert_eq!(core.workspace_root(), Some(&p("/w")));
}

#[test]
fn status_line_before_any_refresh() {
    let core = AppCore::default();
    assert_eq!(
        core.watcher_status_line(),
        "Watcher: not watching, Last Refresh: never, Source: none, Watcher Events: 0"
    );
}

#[test]
fn status_line_after_refresh() {
    let mut core = opened("/w");
    core.command_set_watcher_active(true);
    core.command_apply_refresh(true, Some(Ok(entry("/w", true, 0))), RefreshSource::Watcher, 12, Some(1700000000))
        .unwrap();
    assert_eq!(
        core.watcher_status_line(),
        "Watcher: watching, Last Refresh: 1700000000s, Source: watcher, Watcher Events: 12"
    );
}

#[test]
fn status_line_counts_up_to_u32_max() {
    let mut core = opened("/w");
    core.command_apply_refresh(true, None, RefreshSource::Manual, u32::MAX, Some(0)).unwrap();
    assert_eq!(
        core.watcher_status_line(),
        "Watcher: not watching, Last Refresh: 0s, Source: manual, Watcher Events: 4294967295"
    );
}

#[test]
fn refresh_without_root_is_refused() {
    let mut core = AppCore::default();
    assert_eq!(
        core.command_apply_refresh(true, None, RefreshSource::Manual, 0, Some(5)),
        Err(CoreError::RootNotSet)
    );
    assert_eq!(core.refresh_state().last_refresh_at, None);
}

#[test]
fn refresh_with_unreachable_root_clears_workspace() {
    let mut core = opened("/w");
    core.command_select_path(p("/w/a"));
    let r = core.command_apply_refresh(false, None, RefreshSource::Watcher, 3, Some(9));
    assert_eq!(r, Err(CoreError::RootInaccessible));
    assert_eq!(core.workspace_root(), None);
    assert_eq!(core.selected_path(), None);
    assert_eq!(core.expanded_paths().len(), 0);
    assert_eq!(core.refresh_state().last_refresh_at, Some(9));
    assert_eq!(core.refresh_state().last_refresh_source, Some(RefreshSource::Watcher));
    assert_eq!(core.refresh_state().last_watcher_event_count, 3);
}

#[test]
fn refresh_restores_selection() {
    let mut core = opened("/w");
    core.command_select_path(p("/w/gone"));
    core.command_apply_refresh(true, Some(Err("missing".to_string())), RefreshSource::Manual, 0, Some(1))
        .unwrap();
    assert_eq!(core.selected_path(), Some(&p("/w")));
    core.command_select_path(p("/w/./a"));
    core.command_apply_refresh(true, Some(Ok(entry("/w/a", false, 4))), RefreshSource::Manual, 0, Some(2))
        .unwrap();
    assert_eq!(core.selected_path(), Some(&p("/w/a")));
}

#[test]
fn restore_selected_path_without_root_does_nothing() {
    let mut core = AppCore::default();
    core.command_select_path(p("/x"));
    core.restore_selected_path(Some(Ok(entry("/y", false, 0))));
    assert_eq!(core.selected_path(), Some(&p("/x")));
}

#[test]
fn replace_expanded_paths_keeps_root_expanded() {
    let mut core = opened("/w");
    core.replace_expanded_paths(PathSet::from_paths(vec![p("/w/a"), p("/w/b")]));
    assert_eq!(expanded(&core), vec![p("/w"), p("/w/a"), p("/w/b")]);
    let mut bare = AppCore::default();
    bare.replace_expanded_paths(PathSet::from_paths(vec![p("/w/a")]));
    assert_eq!(expanded(&bare), vec![p("/w/a")]);
}

#[test]
fn restore_session_without_root_clears_state() {
    let mut core = opened("/w");
    let saved = WorkspaceState::default();
    core.command_restore_session(saved, RootProbe::Missing, None).unwrap();
    assert_eq!(core.workspace_root(), None);
    assert_eq!(core.expanded_paths().len(), 0);
}

#[test]
fn restore_session_reopens_root_and_expansion() {
    let mut core = AppCore::default();
    let saved = WorkspaceState {
        workspace_root: Some(p("/w")),
        expanded_paths: PathSet::from_paths(vec![p("/w/a")]),
        selected_path: Some(p("/w/a/f")),
    };
    core.command_restore_session(saved, RootProbe::Canonical(p("/real/w")), Some(Ok(entry("/real/w/a/f", false, 1))))
        .unwrap();
    assert_eq!(core.workspace_root(), Some(&p("/real/w")));
    assert_eq!(expanded(&core), vec![p("/real/w"), p("/w/a")]);
    assert_eq!(core.selected_path(), Some(&p("/real/w/a/f")));
}

#[test]
fn restore_session_with_missing_root_fails() {
    let mut core = AppCore::default();
    let saved = WorkspaceState {
        workspace_root: Some(p("/gone")),
        expanded_paths: PathSet::new(),
        selected_path: None,
    };
    assert_eq!(
        core.command_restore_session(saved, RootProbe::Missing, None),
        Err(CoreError::PathMissing(p("/gone")))
    );
    assert_eq!(core.workspace_root(), None);
}

#[test]
fn toggling_twice_restores_expansion() {
    let mut core = opened("/w");
    core.command_toggle_expanded(&p("/w/a"));
    assert_eq!(expanded(&core), vec![p("/w"), p("/w/a")]);
    core.command_toggle_expanded(&p("/w/a"));
    assert_eq!(expanded(&core), vec![p("/w")]);
    core.command_toggle_expanded(&p("/w"));
    assert_eq!(expanded(&core), Vec::<EntryPath>::new());
}

#[test]
fn creation_goes_into_selected_directory() {
    let mut core = opened("/w");
    core.command_select_path(p("/w/docs"));
    let req = core.creation_request(Some(Ok(entry("/w/docs", true, 0))), "new").unwrap();
    assert_eq!(req.parent, p("/w/docs"));
    assert_eq!(req.target, p("/w/docs/new"));
    assert_eq!(req.root, p("/w"));
    let made = core.create_directory(&req, Ok(())).unwrap();
    assert_eq!(made, p("/w/docs/new"));
    assert_eq!(core.selected_path(), Some(&p("/w/docs/new")));
    assert_eq!(expanded(&core), vec![p("/w"), p("/w/docs")]);
}

#[test]
fn creation_next_to_selected_file() {
    let mut core = opened("/w");
    core.command_select_path(p("/w/docs/a.txt"));
    let req = core.creation_request(Some(Ok(entry("/w/docs/a.txt", false, 3))), "b.txt").unwrap();
    assert_eq!(req.target, p("/w/docs/b.txt"));
    core.create_file(&req, Ok(())).unwrap();
    assert_eq!(core.selected_path(), Some(&p("/w/docs/b.txt")));
}

#[test]
fn creation_with_root_selected_goes_into_root() {
    let core = opened("/w");
    let req = core.creation_request(Some(Ok(entry("/w", true, 0))), "x").unwrap();
    assert_eq!(req.target, p("/w/x"));
}

#[test]
fn creation_keeps_the_name_as_typed() {
    let core = opened("/w");
    let req = core.creation_request(Some(Ok(entry("/w", true, 0))), " spaced").unwrap();
    assert_eq!(req.target, p("/w/ spaced"));
    let req = core.creation_request(Some(Ok(entry("/w", true, 0))), " a").unwrap();
    assert_eq!(req.target.parts.last().unwrap(), " a");
}

#[test]
fn creation_errors() {
    let core = AppCore::default();
    assert_eq!(core.creation_request(None, "x").unwrap_err(), CoreError::RootNotSet);
    let core = opened("/w");
    assert_eq!(
        core.creation_request(Some(Err("stat failed".to_string())), "x").unwrap_err(),
        CoreError::Fs("stat failed".to_string())
    );
    assert_eq!(
        core.creation_request(Some(Ok(entry("/w", true, 0))), "a|b").unwrap_err(),
        CoreError::InvalidName(NameError::InvalidCharacters)
    );
}

#[test]
fn failed_creation_changes_nothing() {
    let mut core = opened("/w");
    let req = core.creation_request(Some(Ok(entry("/w", true, 0))), "x").unwrap();
    assert_eq!(core.create_directory(&req, Err("exists".to_string())), Err(CoreError::Fs("exists".to_string())));
    assert_eq!(core.selected_path(), Some(&p("/w")));
}

#[test]
fn rename_moves_selection_and_expansion() {
    let mut core = opened("/w");
    core.command_toggle_expanded(&p("/w/old"));
    core.command_select_path(p("/w/old"));
    let req = core.rename_request("new").unwrap();
    assert_eq!(req.from, p("/w/old"));
    assert_eq!(req.to, p("/w/new"));
    let renamed = core.rename_selected(&req, Ok(())).unwrap();
    assert_eq!(renamed, p("/w/new"));
    assert_eq!(core.selected_path(), Some(&p("/w/new")));
    assert_eq!(expanded(&core), vec![p("/w"), p("/w/new")]);
}

#[test]
fn rename_errors() {
    let core = AppCore::default();
    assert_eq!(core.rename_request("x").unwrap_err(), CoreError::RootNotSet);
    assert_eq!(core.rename_request("").unwrap_err(), CoreError::InvalidName(NameError::Empty));
    let mut core = opened("/w");
    assert_eq!(core.rename_request("x").unwrap_err(), CoreError::RootProtected(Operation::Rename));
    core.command_apply_refresh(false, None, RefreshSource::Manual, 0, None).unwrap_err();
    core.set_workspace_root(p("/w"), RootProbe::Canonical(p("/w"))).unwrap();
    core.command_select_path(p("/"));
    assert_eq!(core.rename_request("x").unwrap_err(), CoreError::NoParent(p("/")));
    let mut failing = opened("/w");
    failing.command_select_path(p("/w/a"));
    let req = failing.rename_request("b").unwrap();
    assert_eq!(failing.rename_selected(&req, Err("denied".to_string())), Err(CoreError::Fs("denied".to_string())));
    assert_eq!(failing.selected_path(), Some(&p("/w/a")));
}

#[test]
fn restored_session_selects_root_without_saved_selection() {
    let saved = WorkspaceState {
        workspace_root: Some(p("/w")),
        expanded_paths: PathSet::new(),
        selected_path: None,
    };
    let mut fresh = AppCore::default();
    fresh.command_restore_session(saved, RootProbe::Canonical(p("/w")), None).unwrap();
    assert_eq!(fresh.selected_path(), Some(&p("/w")));
    assert_eq!(fresh.delete_request().unwrap_err(), CoreError::RootProtected(Operation::Delete));
}

#[test]
fn delete_prunes_expansion_and_selects_parent() {
    let mut core = opened("/w");
    core.replace_expanded_paths(PathSet::from_paths(vec![p("/w/a"), p("/w/a/b"), p("/w/ab")]));
    core.command_select_path(p("/w/a"));
    let req = core.delete_request().unwrap();
    assert_eq!(req.target, p("/w/a"));
    let focus = core.delete_selected(&req, Ok(())).unwrap();
    assert_eq!(focus, p("/w"));
    assert_eq!(core.selected_path(), Some(&p("/w")));
    assert_eq!(expanded(&core), vec![p("/w"), p("/w/ab")]);
}

#[test]
fn delete_errors() {
    let core = AppCore::default();
    assert_eq!(core.delete_request().unwrap_err(), CoreError::RootNotSet);
    let core = opened("/w");
    assert_eq!(core.delete_request().unwrap_err(), CoreError::RootProtected(Operation::Delete));
}

#[test]
fn copy_expands_target_and_selects_copy() {
    let mut core = opened("/w");
    core.command_select_path(p("/w/a.txt"));
    let req = core.copy_request(Some(Ok(entry("/w/dst", true, 0)))).unwrap();
    assert_eq!(req.source, p("/w/a.txt"));
    assert_eq!(req.target_dir, p("/w/dst"));
    let copied = core.copy_selected_to(&req, Ok(p("/w/dst/a (copy).txt"))).unwrap();
    assert_eq!(copied, p("/w/dst/a (copy).txt"));
    assert_eq!(core.selected_path(), Some(&p("/w/dst/a (copy).txt")));
    assert_eq!(expanded(&core), vec![p("/w"), p("/w/dst")]);
}

#[test]
fn copy_and_move_target_must_be_a_directory() {
    let mut core = opened("/w");
    core.command_select_path(p("/w/a.txt"));
    assert_eq!(
        core.copy_request(Some(Ok(entry("/w/b.txt", false, 1)))).unwrap_err(),
        CoreError::TargetNotDirectory(Operation::Copy, p("/w/b.txt"))
    );
    assert_eq!(
        core.move_request(Some(Ok(entry("/w/b.txt", false, 1)))).unwrap_err(),
        CoreError::TargetNotDirectory(Operation::Move, p("/w/b.txt"))
    );
    assert_eq!(
        core.move_request(Some(Err("no such".to_string()))).unwrap_err(),
        CoreError::Fs("no such".to_string())
    );
    let root_selected = opened("/w");
    assert_eq!(
        root_selected.copy_request(Some(Ok(entry("/w/d", true, 0)))).unwrap_err(),
        CoreError::RootProtected(Operation::Copy)
    );
}

#[test]
fn move_carries_expanded_subtree() {
    let mut core = opened("/w");
    core.replace_expanded_paths(PathSet::from_paths(vec![p("/w/src"), p("/w/src/inner"), p("/w/other")]));
    core.command_select_path(p("/w/src"));
    let req = core.move_request(Some(Ok(entry("/w/dst", true, 0)))).unwrap();
    let moved = core.move_selected_to(&req, Ok(p("/w/dst/src"))).unwrap();
    assert_eq!(moved, p("/w/dst/src"));
    assert_eq!(core.selected_path(), Some(&p("/w/dst/src")));
    assert_eq!(
        expanded(&core),
        vec![p("/w"), p("/w/dst"), p("/w/dst/src"), p("/w/dst/src/inner"), p("/w/other")]
    );
}

#[test]
fn failed_move_changes_nothing() {
    let mut core = opened("/w");
    core.command_select_path(p("/w/src"));
    let req = core.move_request(Some(Ok(entry("/w/dst", true, 0)))).unwrap();
    assert_eq!(core.move_selected_to(&req, Err("busy".to_string())), Err(CoreError::Fs("busy".to_string())));
    assert_eq!(core.selected_path(), Some(&p("/w/src")));
    assert_eq!(expanded(&core), vec![p("/w")]);
}

#[test]
fn import_lands_in_target() {
    let mut core = opened("/w");
    let req = core.import_request(p("/elsewhere/pic.png"), Some(Ok(entry("/w/in", true, 0)))).unwrap();
    assert_eq!(req.source, p("/elsewhere/pic.png"));
    let placed = core.import_entry_into_workspace(&req, Ok(p("/w/in/pic.png"))).unwrap();
    assert_eq!(placed, p("/w/in/pic.png"));
    assert_eq!(core.selected_path(), Some(&p("/w/in/pic.png")));
    assert_eq!(expanded(&core), vec![p("/w"), p("/w/in")]);
    assert_eq!(
        core.import_request(p("/x"), Some(Ok(entry("/w/f", false, 0)))).unwrap_err(),
        CoreError::TargetNotDirectory(Operation::Import, p("/w/f"))
    );
    let bare = AppCore::default();
    assert_eq!(bare.import_request(p("/x"), None).unwrap_err(), CoreError::RootNotSet);
}

#[test]
fn selected_entry_reports_the_stat() {
    let core = AppCore::default();
    assert_eq!(core.selected_entry(None), Err(CoreError::RootNotSet));
    let core = opened("/w");
    assert_eq!(core.selected_entry(Some(Ok(entry("/w", true, 0)))), Ok(Some(entry("/w", true, 0))));
    assert_eq!(core.selected_entry(Some(Err("gone".to_string()))), Err(CoreError::Fs("gone".to_string())));
    let mut no_selection = AppCore::default();
    let saved = WorkspaceState { workspace_root: None, expanded_paths: PathSet::new(), selected_path: None };
    no_selection.command_restore_session(saved, RootProbe::Missing, None).unwrap();
    assert_eq!(no_selection.selected_entry(None), Err(CoreError::RootNotSet));
}

#[test]
fn rename_onto_an_existing_entry_is_refused() {
    let mut core = opened("/w");
    core.command_select_path(p("/w/a"));
    let req = core.rename_request("b").unwrap();
    assert_eq!(
        core.check_rename_target(&req, Ok(entry("/w/b", false, 3))),
        Err(CoreError::NameTaken(p("/w/b")))
    );
    assert_eq!(core.selected_path(), Some(&p("/w/a")));
}

#[test]
fn rename_to_a_free_name_or_to_itself_passes() {
    let mut core = opened("/w");
    core.command_select_path(p("/w/a"));
    let req = core.rename_request("b").unwrap();
    assert_eq!(core.check_rename_target(&req, Err("not found".to_string())), Ok(()));
    let req = core.rename_request("A").unwrap();
    assert_eq!(core.check_rename_target(&req, Ok(entry("/w/a", false, 3))), Ok(()));
}

#[test]
fn rename_keeps_the_new_name_as_typed() {
    let mut core = opened("/w");
    core.command_select_path(p("/w/a"));
    assert_eq!(core.rename_request(" b").unwrap().to.parts.last().unwrap(), " b");
    assert_eq!(
        core.rename_request("b ").unwrap_err(),
        CoreError::InvalidName(NameError::TrailingSpaceOrPeriod)
    );
}

#[test]
fn saved_session_restores_the_selection() {
    let mut core = opened("/w");
    core.command_toggle_expanded(&p("/w/d"));
    core.command_select_path(p("/w/d/f"));
    let saved: PersistedState = core.persisted_state();
    assert_eq!(saved.workspace_root, Some(p("/w")));
    assert_eq!(saved.selected_path, Some(p("/w/d/f")));
    let mut fresh = AppCore::default();
    fresh
        .command_restore_session(
            saved.into_workspace_state(),
            RootProbe::Canonical(p("/w")),
            Some(Ok(entry("/w/d/f", false, 1))),
        )
        .unwrap();
    assert_eq!(fresh.selected_path(), Some(&p("/w/d/f")));
    assert_eq!(expanded(&fresh), vec![p("/w"), p("/w/d")]);
}

#[test]
fn saved_selection_that_is_gone_falls_back_to_root() {
    let mut core = opened("/w");
    core.command_select_path(p("/w/gone"));
    let saved = core.persisted_state();
    let mut fresh = AppCore::default();
    fresh
        .command_restore_session(
            saved.into_workspace_state(),
            RootProbe::Canonical(p("/w")),
            Some(Err("not found".to_string())),
        )
        .unwrap();
    assert_eq!(fresh.selected_path(), Some(&p("/w")));
}

#[test]
fn picked_import_source_wins_over_typed_text() {
    assert_eq!(choose_import_source(Some(p("/src/a")), "  /typed "), Some(SourceChoice::Picked(p("/src/a"))));
    assert_eq!(choose_import_source(None, "  /typed \t"), Some(SourceChoice::Typed("/typed".to_string())));
    assert_eq!(choose_import_source(None, " \n "), None);
    assert_eq!(choose_import_source(None, ""), None);
}

fn win(anchor: &str, parts: &[&str]) -> EntryPath {
    EntryPath { anchor: anchor.to_string(), parts: parts.iter().map(|s| s.to_string()).collect() }
}

#[test]
fn error_messages_name_their_paths() {
    assert_eq!(CoreError::RootNotSet.message("/"), "workspace root not set");
    assert_eq!(CoreError::PathMissing(p("/home/u/w")).message("/"), "workspace path does not exist: /home/u/w");
    assert_eq!(
        CoreError::NotADirectory(win("C:\\", &["Users", "w"])).message("\\"),
        "workspace path is not a directory: C:\\Users\\w"
    );
    assert_eq!(
        CoreError::CanonicalizeFailed(p("w"), "denied".to_string()).message("/"),
        "failed to canonicalize workspace root w: denied"
    );
    assert_eq!(CoreError::NoParent(win("C:", &["x"])).message("\\"), "selected path has no parent: C:x");
    assert_eq!(CoreError::NoParent(p("/")).message("/"), "selected path has no parent: /");
    assert_eq!(CoreError::NothingSelected(Operation::Copy).message("/"), "nothing selected for copy");
    assert_eq!(CoreError::RootProtected(Operation::Delete).message("/"), "cannot delete workspace root");
    assert_eq!(
        CoreError::TargetNotDirectory(Operation::Move, p("/w/f")).message("/"),
        "move target is not a directory: /w/f"
    );
    assert_eq!(
        CoreError::InvalidName(NameError::TrailingSpaceOrPeriod).message("/"),
        "name cannot end with a space or period on Windows"
    );
    assert_eq!(
        CoreError::OutsideRoot(p("/x"), p("/w")).message("/"),
        "path /x is outside workspace root /w"
    );
    assert_eq!(CoreError::NameTaken(p("/w/b")).message("/"), "an entry already exists at /w/b");
    assert_eq!(CoreError::RootTrashRefused.message("/"), "refusing to delete workspace root");
    assert_eq!(CoreError::Fs("disk full".to_string()).message("/"), "disk full");
}
