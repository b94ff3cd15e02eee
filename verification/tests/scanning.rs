use mynk::scan::{
    canonical_name, has_prefix, is_reserved, observe, root_marker, state_file, sync_endpoint,
};
use mynk::snapshot::Snapshot;
use mynk::text::same_text;

#[test]
fn reserved_file_names() {
    assert_eq!(root_marker(), ".mynk");
    assert_eq!(state_file(), ".mynk-state.json");
}

#[test]
fn same_text_compares_whole_texts() {
    assert!(same_text("", ""));
    assert!(same_text("a/b", "a/b"));
    assert!(!same_text("a/b", "a/c"));
    assert!(!same_text("a/b", "a/b/"));
    assert!(same_text("ä", "ä"));
    assert!(!same_text("ä", "a"));
}

#[test]
fn prefix_is_counted_in_characters() {
    assert!(has_prefix("abc", ""));
    assert!(has_prefix("abc", "ab"));
    assert!(has_prefix("abc", "abc"));
    assert!(!has_prefix("abc", "abcd"));
    assert!(!has_prefix("abc", "b"));
    assert!(has_prefix("äbc", "äb"));
    assert!(!has_prefix("äbc", "a"));
}

#[test]
fn canonical_name_uses_forward_slashes() {
    assert_eq!(canonical_name("a.txt"), "a.txt");
    assert_eq!(canonical_name("dir\\sub\\a.txt"), "dir/sub/a.txt");
    assert_eq!(canonical_name("dir/sub\\a.txt"), "dir/sub/a.txt");
    assert_eq!(canonical_name(""), "");
    assert_eq!(canonical_name("ü\\ö"), "ü/ö");
}

#[test]
fn marker_and_baseline_are_reserved() {
    assert!(is_reserved(".mynk"));
    assert!(is_reserved(".mynk-state.json"));
    assert!(is_reserved(".mynk/config"));
    assert!(is_reserved(".mynk/"));
}

#[test]
fn other_names_are_not_reserved() {
    assert!(!is_reserved("a.txt"));
    assert!(!is_reserved(".mynkx"));
    assert!(!is_reserved(".mynk-state.json.bak"));
    assert!(!is_reserved("sub/.mynk"));
    assert!(!is_reserved("sub/.mynk-state.json"));
    assert!(!is_reserved(""));
}

#[test]
fn observe_records_a_file_under_its_canonical_name() {
    let mut snapshot = Snapshot::new();
    assert!(observe(&mut snapshot, "dir\\a.txt", "h1".to_string()));
    assert_eq!(snapshot.len(), 1);
    assert_eq!(snapshot.hash_of("dir/a.txt"), Some(&"h1".to_string()));
    assert!(snapshot.hash_of("dir\\a.txt").is_none());
}

#[test]
fn observe_leaves_out_reserved_files() {
    let mut snapshot = Snapshot::new();
    assert!(!observe(&mut snapshot, ".mynk", "h".to_string()));
    assert!(!observe(&mut snapshot, ".mynk-state.json", "h".to_string()));
    assert!(!observe(&mut snapshot, ".mynk\\lock", "h".to_string()));
    assert!(observe(&mut snapshot, "sub/.mynk", "h".to_string()));
    assert_eq!(snapshot.len(), 1);
    assert!(snapshot.contains("sub/.mynk"));
    assert!(!snapshot.contains(".mynk"));
}

#[test]
fn snapshot_is_a_mapping_whatever_the_order() {
    let mut first = Snapshot::new();
    first.record("a".to_string(), "1".to_string());
    first.record("b".to_string(), "2".to_string());
    let mut second = Snapshot::new();
    second.record("b".to_string(), "2".to_string());
    second.record("a".to_string(), "0".to_string());
    second.record("a".to_string(), "1".to_string());
    assert_eq!(first.len(), second.len());
    for name in ["a", "b", "c"] {
        assert_eq!(first.hash_of(name), second.hash_of(name));
    }
}

#[test]
fn snapshot_entries_are_creations_at_version_one() {
    let mut snapshot = Snapshot::new();
    snapshot.record("a".to_string(), "1".to_string());
    let tentative = snapshot.tentative();
    let entry = tentative.get("a").unwrap();
    assert_eq!(entry.version, 1);
    assert_eq!(entry.action, mynk::entry::Action::Create);
    assert_eq!(entry.hash, "1");
}

#[test]
fn sync_endpoint_is_under_the_base_address() {
    assert_eq!(sync_endpoint("http://host:8080"), "http://host:8080/sync");
    assert_eq!(sync_endpoint(""), "/sync");
}
