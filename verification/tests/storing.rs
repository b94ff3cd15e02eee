use mynk::entry::{Action, FileEntry};
use mynk::error::SyncError;
use mynk::mapping::StateMapping;
use mynk::store::{from_records, load_state, to_records, Record};

fn entry(name: &str, hash: &str, version: u64, action: Action) -> FileEntry {
    FileEntry::new(name.to_string(), hash.to_string(), version, action)
}

fn record(name: &str, hash: &str, version: u64, action: &str) -> Record {
    Record {
        filename: name.to_string(),
        hash: hash.to_string(),
        version,
        action: action.to_string(),
    }
}

fn fields(record: &Record) -> (&str, &str, u64, &str) {
    (record.filename.as_str(), record.hash.as_str(), record.version, record.action.as_str())
}

#[test]
fn records_carry_the_action_by_name() {
    let mut mapping = StateMapping::new();
    mapping.upsert(entry("a", "ha", 1, Action::Create));
    mapping.upsert(entry("b", "hb", 2, Action::Edit));
    mapping.upsert(entry("c", "", 3, Action::Delete));
    mapping.upsert(entry("d", "hd", 4, Action::Pass));
    let records = to_records(&mapping);
    let read: Vec<_> = records.iter().map(fields).collect();
    assert_eq!(
        read,
        vec![
            ("a", "ha", 1, "create"),
            ("b", "hb", 2, "edit"),
            ("c", "", 3, "delete"),
            ("d", "hd", 4, "pass"),
        ]
    );
}

#[test]
fn records_are_read_back_as_entries() {
    let records = [record("x", "hx", 9, "pass"), record("y", "hy", 1, "delete")];
    let mapping = from_records(&records).unwrap();
    assert_eq!(
        mapping.as_slice(),
        &[entry("x", "hx", 9, Action::Pass), entry("y", "hy", 1, Action::Delete)]
    );
}

#[test]
fn round_trip_keeps_filename_hash_version_and_action() {
    let mut mapping = StateMapping::new();
    mapping.upsert(entry("a", "ha", 1, Action::Create));
    mapping.upsert(entry("dir/b", "hb", u64::MAX, Action::Edit));
    mapping.upsert(entry("c", "", 0, Action::Delete));
    mapping.upsert(entry("d", "hd", 4, Action::Pass));
    let back = from_records(&to_records(&mapping)).unwrap();
    assert_eq!(back.as_slice(), mapping.as_slice());
    let again = load_state(b"[...]", Some(to_records(&back))).unwrap();
    assert_eq!(again.as_slice(), mapping.as_slice());
}

#[test]
fn unknown_action_is_corrupt() {
    let records = [record("x", "hx", 9, "pass"), record("y", "hy", 1, "rename")];
    assert_eq!(from_records(&records).err(), Some(SyncError::StateCorrupt));
    assert_eq!(from_records(&[record("x", "hx", 9, "PASS")]).err(), Some(SyncError::StateCorrupt));
    assert_eq!(from_records(&[record("x", "hx", 9, "")]).err(), Some(SyncError::StateCorrupt));
}

#[test]
fn repeated_filename_is_corrupt() {
    let records = [record("x", "h1", 1, "pass"), record("y", "h2", 1, "pass"), record("x", "h3", 2, "edit")];
    assert_eq!(from_records(&records).err(), Some(SyncError::StateCorrupt));
}

#[test]
fn no_records_are_the_empty_mapping() {
    assert!(from_records(&[]).unwrap().is_empty());
    assert!(load_state(b"{\"files\":[]}", Some(Vec::new())).unwrap().is_empty());
}

#[test]
fn empty_persisted_form_is_the_empty_mapping() {
    assert!(load_state(b"", None).unwrap().is_empty());
    assert!(load_state(b"", Some(Vec::new())).unwrap().is_empty());
    assert!(load_state(b"", Some(vec![record("x", "h", 1, "bogus")])).unwrap().is_empty());
}

#[test]
fn unparsed_persisted_form_is_corrupt() {
    assert_eq!(load_state(b"not json", None).err(), Some(SyncError::StateCorrupt));
    assert_eq!(load_state(b" ", None).err(), Some(SyncError::StateCorrupt));
}

#[test]
fn parsed_but_invalid_records_are_corrupt() {
    let records = vec![record("x", "h", 1, "bogus")];
    assert_eq!(load_state(b"[{}]", Some(records)).err(), Some(SyncError::StateCorrupt));
}

#[test]
fn errors_say_whether_the_round_can_simply_be_run_again() {
    assert!(SyncError::RootNotFound.left_untouched());
    assert!(SyncError::StateCorrupt.left_untouched());
    assert!(SyncError::FilesystemError.left_untouched());
    assert!(SyncError::NetworkError.left_untouched());
    assert!(!SyncError::PartiallyApplied.left_untouched());
}

#[test]
fn every_error_has_its_own_message() {
    let all = [
        SyncError::RootNotFound,
        SyncError::StateCorrupt,
        SyncError::FilesystemError,
        SyncError::NetworkError,
        SyncError::PartiallyApplied,
    ];
    for (i, a) in all.iter().enumerate() {
        assert!(!a.message().is_empty());
        for b in &all[i + 1..] {
            assert_ne!(a.message(), b.message());
        }
    }
    assert_eq!(SyncError::StateCorrupt.message(), "the baseline file is corrupt");
}

#[test]
fn failure_before_any_change_stands_as_it_is() {
    assert_eq!(SyncError::FilesystemError.after_changes(0), SyncError::FilesystemError);
    assert_eq!(SyncError::NetworkError.after_changes(0), SyncError::NetworkError);
    assert_eq!(SyncError::StateCorrupt.after_changes(0), SyncError::StateCorrupt);
}

#[test]
fn failure_after_a_change_is_a_partial_round() {
    assert_eq!(SyncError::FilesystemError.after_changes(1), SyncError::PartiallyApplied);
    assert_eq!(SyncError::FilesystemError.after_changes(usize::MAX), SyncError::PartiallyApplied);
    assert_eq!(SyncError::PartiallyApplied.after_changes(0), SyncError::PartiallyApplied);
}

fn to_json(records: &[Record]) -> String {
    let mut files = Vec::new();
    for record in records {
        let mut object = serde_json::Map::new();
        object.insert("filename".to_string(), serde_json::Value::from(record.filename.clone()));
        object.insert("hash".to_string(), serde_json::Value::from(record.hash.clone()));
        object.insert("version".to_string(), serde_json::Value::from(record.version));
        object.insert("action".to_string(), serde_json::Value::from(record.action.clone()));
        files.push(serde_json::Value::Object(object));
    }
    let mut document = serde_json::Map::new();
    document.insert("files".to_string(), serde_json::Value::Array(files));
    serde_json::to_string_pretty(&serde_json::Value::Object(document)).unwrap()
}

fn from_json(text: &[u8]) -> Option<Vec<Record>> {
    let document: serde_json::Value = serde_json::from_slice(text).ok()?;
    let mut records = Vec::new();
    for file in document.get("files")?.as_array()? {
        records.push(Record {
            filename: file.get("filename")?.as_str()?.to_string(),
            hash: file.get("hash")?.as_str()?.to_string(),
            version: file.get("version")?.as_u64()?,
            action: file.get("action")?.as_str()?.to_string(),
        });
    }
    Some(records)
}

#[test]
fn baseline_survives_its_json_text() {
    let mut mapping = StateMapping::new();
    mapping.upsert(entry("a.txt", "2cf24dba", 1, Action::Create));
    mapping.upsert(entry("dir/\"quoted\" né.txt", "486ea462", u64::MAX, Action::Edit));
    mapping.upsert(entry("gone", "", 7, Action::Delete));
    mapping.upsert(entry("rest", "e3b0c442", 2, Action::Pass));
    let text = to_json(&to_records(&mapping));
    let back = load_state(text.as_bytes(), from_json(text.as_bytes())).unwrap();
    assert_eq!(back.as_slice(), mapping.as_slice());
}

#[test]
fn json_text_of_another_shape_is_corrupt() {
    for text in ["[]", "{}", "{\"files\": 3}", "{\"files\": [{\"filename\": \"a\"}]}", "{\"files\": ["] {
        let bytes = text.as_bytes();
        assert_eq!(load_state(bytes, from_json(bytes)).err(), Some(SyncError::StateCorrupt));
    }
}

#[test]
fn persisted_bytes_that_are_no_text_are_corrupt() {
    let bytes = [0xff, 0xfe, 0x00];
    assert_eq!(load_state(&bytes, from_json(&bytes)).err(), Some(SyncError::StateCorrupt));
}
