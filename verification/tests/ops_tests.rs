use explorer_core::file_ops::{
    copy_action, remove_action, CopyAction, EntryKind, RemoveAction,
    conflict_search_step, format_conflict_name, split_name_for_conflict, ConflictStep, MAX_CONFLICT_ATTEMPT,
};
use explorer_core::persistence::PersistedState;
use explorer_core::watcher::{
    should_refresh_for_event_kind, NormalizedWatcherEvent, RawWatchEvent, WatchEventKind, WatcherDebounce,
};

fn split(name: &str, is_dir: bool) -> (String, String) {
    split_name_for_conflict(name, is_dir)
}

#[test]
fn names_split_before_the_last_period() {
    assert_eq!(split("report.pdf", false), ("report".to_string(), ".pdf".to_string()));
    assert_eq!(split("archive.tar.gz", false), ("archive.tar".to_string(), ".gz".to_string()));
    assert_eq!(split(".bashrc", false), (".bashrc".to_string(), String::new()));
    assert_eq!(split("noext", false), ("noext".to_string(), String::new()));
    assert_eq!(split("trailing.", false), ("trailing".to_string(), ".".to_string()));
    assert_eq!(split("..", false), ("..".to_string(), String::new()));
    assert_eq!(split("folder.d", true), ("folder.d".to_string(), String::new()));
}

#[test]
fn conflict_names_follow_the_pattern() {
    assert_eq!(format_conflict_name("report", ".pdf", 0), "report.pdf");
    assert_eq!(format_conflict_name("report", ".pdf", 1), "report (copy).pdf");
    assert_eq!(format_conflict_name("report", ".pdf", 2), "report (copy 2).pdf");
    assert_eq!(format_conflict_name("dir", "", 10000), "dir (copy 10000)");
}

#[test]
fn first_candidate_is_the_original_name() {
    for (name, is_dir) in [("a.b.c", false), (".x", false), ("plain", true), ("x.", false)] {
        let (base, ext) = split(name, is_dir);
        assert_eq!(format_conflict_name(&base, &ext, 0), name);
    }
}

#[test]
fn conflict_candidates_are_distinct() {
    let names: Vec<String> = (0..200).map(|i| format_conflict_name("a", ".txt", i)).collect();
    let mut sorted = names.clone();
    sorted.sort();
    sorted.dedup();
    assert_eq!(sorted.len(), names.len());
}

#[test]
fn conflict_search_steps() {
    assert_eq!(conflict_search_step(0, false), ConflictStep::Use(0));
    assert_eq!(conflict_search_step(0, true), ConflictStep::Next(1));
    assert_eq!(conflict_search_step(9999, true), ConflictStep::Next(10000));
    assert_eq!(conflict_search_step(MAX_CONFLICT_ATTEMPT, true), ConflictStep::GiveUp);
    assert_eq!(conflict_search_step(MAX_CONFLICT_ATTEMPT, false), ConflictStep::Use(10000));
}

#[test]
fn refresh_worthy_event_kinds() {
    assert!(should_refresh_for_event_kind(WatchEventKind::Create));
    assert!(should_refresh_for_event_kind(WatchEventKind::Modify));
    assert!(should_refresh_for_event_kind(WatchEventKind::Remove));
    assert!(should_refresh_for_event_kind(WatchEventKind::Any));
    assert!(!should_refresh_for_event_kind(WatchEventKind::Access));
    assert!(!should_refresh_for_event_kind(WatchEventKind::Other));
}

#[test]
fn debounce_coalesces_events() {
    let mut d = WatcherDebounce::new(350);
    assert_eq!(d.poll_refresh_event(0), None);
    d.record_raw_event(RawWatchEvent::Notification(WatchEventKind::Access), 1);
    assert_eq!(d.pending_event_count, 0);
    assert_eq!(d.poll_refresh_event(2), None);
    d.record_raw_event(RawWatchEvent::Notification(WatchEventKind::Create), 10);
    d.record_raw_event(RawWatchEvent::Notification(WatchEventKind::Modify), 20);
    d.record_raw_event(RawWatchEvent::Error, 30);
    assert_eq!(d.pending_since, Some(10));
    assert_eq!(d.poll_refresh_event(40), Some(NormalizedWatcherEvent { event_count: 3 }));
    assert_eq!(d.pending_event_count, 0);
    assert_eq!(d.pending_since, None);
    d.record_raw_event(RawWatchEvent::Notification(WatchEventKind::Remove), 100);
    assert_eq!(d.poll_refresh_event(389), None);
    assert_eq!(d.poll_refresh_event(390), Some(NormalizedWatcherEvent { event_count: 1 }));
    assert_eq!(d.last_emitted, Some(390));
}

#[test]
fn debounce_tolerates_an_earlier_clock_reading() {
    let mut d = WatcherDebounce::new(0);
    d.record_raw_event(RawWatchEvent::Error, 5);
    assert_eq!(d.poll_refresh_event(50), Some(NormalizedWatcherEvent { event_count: 1 }));
    d.record_raw_event(RawWatchEvent::Error, 5);
    assert_eq!(d.poll_refresh_event(40), Some(NormalizedWatcherEvent { event_count: 1 }));
}

#[test]
fn copy_and_remove_actions_by_entry_kind() {
    assert_eq!(copy_action(EntryKind::File), CopyAction::CopyFile);
    assert_eq!(copy_action(EntryKind::Directory), CopyAction::CreateDirectory);
    assert_eq!(copy_action(EntryKind::Symlink), CopyAction::RefuseSymlink);
    assert_eq!(copy_action(EntryKind::Other), CopyAction::RefuseUnsupported);
    assert_eq!(remove_action(EntryKind::File), RemoveAction::RemoveFile);
    assert_eq!(remove_action(EntryKind::Directory), RemoveAction::RemoveDirectoryTree);
    assert_eq!(remove_action(EntryKind::Symlink), RemoveAction::RefuseUnsupported);
    assert_eq!(remove_action(EntryKind::Other), RemoveAction::RefuseUnsupported);
}

#[test]
fn persisted_state_starts_empty() {
    let state = PersistedState::default();
    assert!(state.workspace_root.is_none());
    assert_eq!(state.expanded_paths.len(), 0);
    assert!(state.selected_path.is_none());
}

#[test]
fn handed_on_event_counts_items_since_the_last_one() {
    let mut d = WatcherDebounce::new(100);
    d.record_raw_event(RawWatchEvent::Notification(WatchEventKind::Create), 0);
    assert_eq!(d.poll_refresh_event(1), Some(NormalizedWatcherEvent { event_count: 1 }));
    d.record_raw_event(RawWatchEvent::Notification(WatchEventKind::Modify), 10);
    assert_eq!(d.poll_refresh_event(20), None);
    d.record_raw_event(RawWatchEvent::Notification(WatchEventKind::Other), 30);
    d.record_raw_event(RawWatchEvent::Notification(WatchEventKind::Any), 40);
    assert_eq!(d.poll_refresh_event(50), None);
    d.record_raw_event(RawWatchEvent::Error, 60);
    d.record_raw_event(RawWatchEvent::Notification(WatchEventKind::Access), 70);
    assert_eq!(d.poll_refresh_event(101), Some(NormalizedWatcherEvent { event_count: 3 }));
    assert_eq!(d.poll_refresh_event(300), None);
}
