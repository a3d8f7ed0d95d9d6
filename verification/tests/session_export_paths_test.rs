use yellowbox::pipeline::index::ZipIndex;
use yellowbox::services::session::{add_export_path, apply_export_paths, SessionService, SessionState};

fn one_entry_index() -> ZipIndex {
    let mut m = ZipIndex::new();
    m.insert("k".to_string(), (0usize, 0usize, "p".to_string()));
    m
}

#[test]
fn apply_export_paths_replaces_and_clears_indexes() {
    let mut s = SessionState::new();
    s.export_paths = vec!["a.zip".to_string(), "b.zip".to_string()];
    s.main_index = Some(one_entry_index());
    s.overlay_index = Some(one_entry_index());

    let changed = apply_export_paths(&mut s, vec!["b.zip".to_string()]);
    assert!(changed);
    assert_eq!(s.export_paths, vec!["b.zip".to_string()]);
    assert!(s.main_index.is_none());
    assert!(s.overlay_index.is_none());
}

#[test]
fn apply_export_paths_noop_when_unchanged() {
    let mut s = SessionState::new();
    s.export_paths = vec!["a.zip".to_string()];
    s.main_index = None;
    s.overlay_index = None;

    let changed = apply_export_paths(&mut s, vec!["a.zip".to_string()]);
    assert!(!changed);
    assert_eq!(s.export_paths, vec!["a.zip".to_string()]);
}

#[test]
fn unchanged_paths_keep_cached_indexes() {
    let mut s = SessionState::new();
    s.export_paths = vec!["a.zip".to_string()];
    s.main_index = Some(one_entry_index());
    assert!(!apply_export_paths(&mut s, vec!["a.zip".to_string()]));
    assert!(s.main_index.is_some());
}

#[test]
fn adding_a_known_archive_changes_nothing() {
    let mut s = SessionState::new();
    assert!(add_export_path(&mut s, "a.zip".to_string()));
    s.main_index = Some(one_entry_index());
    assert!(!add_export_path(&mut s, "a.zip".to_string()));
    assert!(s.main_index.is_some());
    assert!(add_export_path(&mut s, "b.zip".to_string()));
    assert_eq!(s.export_paths, vec!["a.zip".to_string(), "b.zip".to_string()]);
    assert!(s.main_index.is_none());
}

#[test]
fn overlay_is_found_with_or_without_date() {
    let dir = vec!["2021-01-01_00-00-00_m1-overlay.jpg".to_string(), "other.png".to_string()];
    assert!(SessionService::check_overlay_exists(&dir, "m1", "2021-01-01_00-00-00"));
    assert!(!SessionService::check_overlay_exists(&dir, "m1", "2022-01-01_00-00-00"));
    let dir2 = vec!["m2-overlay.png".to_string()];
    assert!(SessionService::check_overlay_exists(&dir2, "m2", "anything"));
    assert!(!SessionService::check_overlay_exists(&dir2, "m", "anything"));
}
