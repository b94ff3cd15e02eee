use mynk::entry::{Action, FileEntry};
use mynk::mapping::StateMapping;

fn entry(name: &str, hash: &str, version: u64, action: Action) -> FileEntry {
    FileEntry::new(name.to_string(), hash.to_string(), version, action)
}

#[test]
fn action_names_are_the_four_lower_case_words() {
    assert_eq!(Action::Create.name(), "create");
    assert_eq!(Action::Edit.name(), "edit");
    assert_eq!(Action::Delete.name(), "delete");
    assert_eq!(Action::Pass.name(), "pass");
}

#[test]
fn action_is_read_back_from_its_name() {
    for action in [Action::Create, Action::Edit, Action::Delete, Action::Pass] {
        assert_eq!(Action::from_name(action.name()), Some(action));
    }
}

#[test]
fn unknown_action_names_are_refused() {
    assert_eq!(Action::from_name(""), None);
    assert_eq!(Action::from_name("Create"), None);
    assert_eq!(Action::from_name("pass "), None);
    assert_eq!(Action::from_name("remove"), None);
}

#[test]
fn new_mapping_is_empty() {
    let mapping = StateMapping::new();
    assert!(mapping.is_empty());
    assert_eq!(mapping.len(), 0);
    assert!(mapping.get("a.txt").is_none());
    assert!(!mapping.contains("a.txt"));
    assert!(mapping.as_slice().is_empty());
}

#[test]
fn upsert_adds_a_new_filename_at_the_end() {
    let mut mapping = StateMapping::new();
    mapping.upsert(entry("a.txt", "h1", 1, Action::Create));
    mapping.upsert(entry("b.txt", "h2", 4, Action::Pass));
    assert_eq!(mapping.len(), 2);
    assert_eq!(mapping.position("a.txt"), Some(0));
    assert_eq!(mapping.position("b.txt"), Some(1));
    assert_eq!(mapping.get("b.txt"), Some(&entry("b.txt", "h2", 4, Action::Pass)));
    assert_eq!(mapping.position("c.txt"), None);
}

#[test]
fn upsert_replaces_the_entry_of_a_known_filename_in_place() {
    let mut mapping = StateMapping::new();
    mapping.upsert(entry("a.txt", "h1", 1, Action::Create));
    mapping.upsert(entry("b.txt", "h2", 1, Action::Create));
    mapping.upsert(entry("a.txt", "h3", 2, Action::Edit));
    assert_eq!(mapping.len(), 2);
    assert_eq!(
        mapping.as_slice(),
        &[entry("a.txt", "h3", 2, Action::Edit), entry("b.txt", "h2", 1, Action::Create)]
    );
}

#[test]
fn a_filename_occurs_at_most_once() {
    let mut mapping = StateMapping::new();
    for round in 0..5u64 {
        mapping.upsert(entry("same", "h", round, Action::Pass));
    }
    assert_eq!(mapping.len(), 1);
    assert_eq!(mapping.get("same").unwrap().version, 4);
}

#[test]
fn remove_hands_back_the_entry_and_keeps_the_order_of_the_rest() {
    let mut mapping = StateMapping::new();
    mapping.upsert(entry("a", "1", 1, Action::Pass));
    mapping.upsert(entry("b", "2", 1, Action::Pass));
    mapping.upsert(entry("c", "3", 1, Action::Pass));
    assert_eq!(mapping.remove("b"), Some(entry("b", "2", 1, Action::Pass)));
    assert_eq!(mapping.remove("b"), None);
    assert_eq!(
        mapping.as_slice(),
        &[entry("a", "1", 1, Action::Pass), entry("c", "3", 1, Action::Pass)]
    );
}

#[test]
fn filenames_are_compared_by_their_text() {
    let mut mapping = StateMapping::new();
    mapping.upsert(entry("dir/é.txt", "h", 1, Action::Pass));
    assert!(mapping.contains("dir/é.txt"));
    assert!(!mapping.contains("dir/e.txt"));
    assert!(!mapping.contains("dir/é.tx"));
    assert!(!mapping.contains("Dir/é.txt"));
}

#[test]
fn entry_clone_is_equal() {
    let first = entry("a.txt", "h", 3, Action::Edit);
    let second = first.clone();
    assert_eq!(first, second);
    assert_ne!(first, entry("a.txt", "h", 3, Action::Pass));
    assert_ne!(first, entry("a.txt", "h", 4, Action::Edit));
    assert_ne!(first, entry("a.txt", "g", 3, Action::Edit));
    assert_ne!(first, entry("b.txt", "h", 3, Action::Edit));
}
