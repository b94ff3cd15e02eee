use mynk::entry::{Action, FileEntry};
use mynk::hasher::hash_bytes;
use mynk::mapping::StateMapping;
use mynk::reconcile::{can_reconcile, reconcile, reconcile_entry};
use mynk::snapshot::Snapshot;

fn entry(name: &str, hash: &str, version: u64, action: Action) -> FileEntry {
    FileEntry::new(name.to_string(), hash.to_string(), version, action)
}

fn baseline(entries: Vec<FileEntry>) -> StateMapping {
    let mut mapping = StateMapping::new();
    for e in entries {
        mapping.upsert(e);
    }
    mapping
}

fn scan(files: &[(&str, &str)]) -> Snapshot {
    let mut snapshot = Snapshot::new();
    for (name, hash) in files {
        snapshot.record(name.to_string(), hash.to_string());
    }
    snapshot
}

#[test]
fn empty_baseline_and_empty_scan_give_an_empty_mapping() {
    let next = reconcile(&StateMapping::new(), &Snapshot::new());
    assert!(next.is_empty());
}

#[test]
fn file_only_in_scan_is_created_at_version_one() {
    let next = reconcile(&StateMapping::new(), &scan(&[("a.txt", "h1")]));
    assert_eq!(next.as_slice(), &[entry("a.txt", "h1", 1, Action::Create)]);
}

#[test]
fn file_only_in_baseline_is_flagged_for_deletion() {
    let old = baseline(vec![entry("a.txt", "h1", 3, Action::Pass)]);
    let next = reconcile(&old, &Snapshot::new());
    assert_eq!(next.as_slice(), &[entry("a.txt", "h1", 3, Action::Delete)]);
}

#[test]
fn created_or_edited_file_that_vanished_is_flagged_for_deletion() {
    let old = baseline(vec![
        entry("c.txt", "h1", 1, Action::Create),
        entry("e.txt", "h2", 5, Action::Edit),
    ]);
    let next = reconcile(&old, &Snapshot::new());
    assert_eq!(
        next.as_slice(),
        &[entry("c.txt", "h1", 1, Action::Delete), entry("e.txt", "h2", 5, Action::Delete)]
    );
}

#[test]
fn pending_delete_that_is_still_gone_is_dropped() {
    let old = baseline(vec![entry("a.txt", "h1", 3, Action::Delete)]);
    let next = reconcile(&old, &Snapshot::new());
    assert!(next.is_empty());
    assert!(!next.contains("a.txt"));
}

#[test]
fn pending_delete_is_not_recreated_when_the_file_is_back() {
    let old = baseline(vec![entry("a.txt", "h1", 3, Action::Delete)]);
    let next = reconcile(&old, &scan(&[("a.txt", "h9")]));
    let kept = next.get("a.txt").unwrap();
    assert_ne!(kept.action, Action::Create);
    assert_eq!(kept, &entry("a.txt", "h1", 3, Action::Delete));
}

#[test]
fn pending_delete_is_kept_when_the_file_is_back_unchanged() {
    let old = baseline(vec![entry("a.txt", "h1", 3, Action::Delete)]);
    let next = reconcile(&old, &scan(&[("a.txt", "h1")]));
    assert_eq!(next.as_slice(), &[entry("a.txt", "h1", 3, Action::Delete)]);
}

#[test]
fn changed_digest_is_an_edit_at_the_next_version() {
    let old = baseline(vec![entry("a.txt", "h1", 3, Action::Pass)]);
    let next = reconcile(&old, &scan(&[("a.txt", "h2")]));
    assert_eq!(next.as_slice(), &[entry("a.txt", "h2", 4, Action::Edit)]);
}

#[test]
fn unchanged_digest_is_at_rest_at_the_same_version() {
    for action in [Action::Create, Action::Edit, Action::Pass] {
        let old = baseline(vec![entry("a.txt", "h1", 3, action)]);
        let next = reconcile(&old, &scan(&[("a.txt", "h1")]));
        assert_eq!(next.as_slice(), &[entry("a.txt", "h1", 3, Action::Pass)]);
    }
}

#[test]
fn every_case_in_one_pass() {
    let old = baseline(vec![
        entry("same", "s", 2, Action::Pass),
        entry("changed", "c1", 7, Action::Pass),
        entry("gone", "g", 1, Action::Pass),
        entry("dropped", "d", 4, Action::Delete),
        entry("back", "b", 9, Action::Delete),
    ]);
    let found = scan(&[("fresh", "f"), ("changed", "c2"), ("back", "b2"), ("same", "s")]);
    let next = reconcile(&old, &found);
    assert_eq!(next.len(), 5);
    assert_eq!(next.get("same"), Some(&entry("same", "s", 2, Action::Pass)));
    assert_eq!(next.get("changed"), Some(&entry("changed", "c2", 8, Action::Edit)));
    assert_eq!(next.get("gone"), Some(&entry("gone", "g", 1, Action::Delete)));
    assert_eq!(next.get("dropped"), None);
    assert_eq!(next.get("back"), Some(&entry("back", "b", 9, Action::Delete)));
    assert_eq!(next.get("fresh"), Some(&entry("fresh", "f", 1, Action::Create)));
}

#[test]
fn settled_baseline_is_reproduced_when_nothing_changed() {
    let old = baseline(vec![
        entry("a", "1", 1, Action::Pass),
        entry("b", "2", 6, Action::Pass),
        entry("c/d", "3", 2, Action::Pass),
    ]);
    let found = scan(&[("c/d", "3"), ("a", "1"), ("b", "2")]);
    let next = reconcile(&old, &found);
    assert_eq!(next.as_slice(), old.as_slice());
    let again = reconcile(&next, &found);
    assert_eq!(again.as_slice(), old.as_slice());
}

#[test]
fn second_pass_over_the_same_scan_settles_created_and_edited_files() {
    let old = baseline(vec![entry("changed", "c1", 7, Action::Pass)]);
    let found = scan(&[("fresh", "f"), ("changed", "c2")]);
    let first = reconcile(&old, &found);
    let second = reconcile(&first, &found);
    assert_eq!(second.get("fresh"), Some(&entry("fresh", "f", 1, Action::Pass)));
    assert_eq!(second.get("changed"), Some(&entry("changed", "c2", 8, Action::Pass)));
    let third = reconcile(&second, &found);
    assert_eq!(third.as_slice(), second.as_slice());
}

#[test]
fn versions_never_decrease_and_rise_by_one_exactly_on_a_changed_digest() {
    let old = baseline(vec![
        entry("same", "s", 2, Action::Pass),
        entry("changed", "c1", 7, Action::Edit),
        entry("gone", "g", 1, Action::Create),
        entry("back", "b", 9, Action::Delete),
    ]);
    let found = scan(&[("changed", "c2"), ("back", "b2"), ("same", "s")]);
    let next = reconcile(&old, &found);
    for before in old.as_slice() {
        if let Some(after) = next.get(&before.filename) {
            assert!(after.version >= before.version);
            assert_eq!(after.version == before.version + 1, after.hash != before.hash);
            assert_eq!(after.version == before.version, after.hash == before.hash);
        }
    }
}

#[test]
fn reconcile_entry_classifies_a_single_file() {
    let known = entry("a", "h1", 2, Action::Pass);
    assert_eq!(reconcile_entry(&known, None), Some(entry("a", "h1", 2, Action::Delete)));
    assert_eq!(
        reconcile_entry(&known, Some(&"h1".to_string())),
        Some(entry("a", "h1", 2, Action::Pass))
    );
    assert_eq!(
        reconcile_entry(&known, Some(&"h2".to_string())),
        Some(entry("a", "h2", 3, Action::Edit))
    );
    let pending = entry("a", "h1", 2, Action::Delete);
    assert_eq!(reconcile_entry(&pending, None), None);
    assert_eq!(
        reconcile_entry(&pending, Some(&"h2".to_string())),
        Some(entry("a", "h1", 2, Action::Delete))
    );
}

#[test]
fn largest_version_cannot_be_edited() {
    let old = baseline(vec![entry("a", "h1", u64::MAX, Action::Pass)]);
    assert!(!can_reconcile(&old, &scan(&[("a", "h2")])));
    assert!(can_reconcile(&old, &scan(&[("a", "h1")])));
    assert!(can_reconcile(&old, &Snapshot::new()));
    let pending = baseline(vec![entry("a", "h1", u64::MAX, Action::Delete)]);
    assert!(can_reconcile(&pending, &scan(&[("a", "h2")])));
    let below = baseline(vec![entry("a", "h1", u64::MAX - 1, Action::Pass)]);
    assert!(can_reconcile(&below, &scan(&[("a", "h2")])));
    let next = reconcile(&below, &scan(&[("a", "h2")]));
    assert_eq!(next.get("a").unwrap().version, u64::MAX);
}

#[test]
fn scenario_first_sync() {
    let mut found = Snapshot::new();
    found.record("a.txt".to_string(), hash_bytes(b"hello"));
    assert_eq!(
        found.hash_of("a.txt").unwrap(),
        "2cf24dba5fb0a30e26e83b2ac5b9e29e1b161e5c1fa7425e73043362938b9824"
    );
    let next = reconcile(&StateMapping::new(), &found);
    assert_eq!(
        next.as_slice(),
        &[entry(
            "a.txt",
            "2cf24dba5fb0a30e26e83b2ac5b9e29e1b161e5c1fa7425e73043362938b9824",
            1,
            Action::Create
        )]
    );
}

#[test]
fn scenario_edit() {
    let old = baseline(vec![entry("a.txt", &hash_bytes(b"hello"), 1, Action::Pass)]);
    let mut found = Snapshot::new();
    found.record("a.txt".to_string(), hash_bytes(b"world"));
    let next = reconcile(&old, &found);
    assert_eq!(
        next.as_slice(),
        &[entry(
            "a.txt",
            "486ea46224d1bb4fb680f34f7c9ad96a8f24ec88be73ea8e5a6c65260e9cb8a7",
            2,
            Action::Edit
        )]
    );
}
