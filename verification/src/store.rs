//! The persisted form of the baseline.
//!
//! On disk the baseline is a list of records, one per tracked file, with the
//! action written by name.  This module turns a mapping into its records and
//! records back into a mapping.  Records that name an unknown action, or the
//! same file twice, are corrupt: they are refused, never repaired.

use vstd::prelude::*;
use crate::entry::{action_name, action_named, lemma_action_name_round_trip, Action, EntrySpec, FileEntry};
use crate::error::SyncError;
use crate::mapping::{as_map, distinct_names, listed, views, StateMapping};

verus! {

/// Mathematical value of a [`Record`].
pub struct RecordSpec {
    pub filename: Seq<char>,
    pub hash: Seq<char>,
    pub version: nat,
    pub action: Seq<char>,
}

/// One entry as it is persisted: the action is text.
#[derive(Debug)]
pub struct Record {
    pub filename: String,
    pub hash: String,
    pub version: u64,
    pub action: String,
}

impl View for Record {
    type V = RecordSpec;

    open spec fn view(&self) -> RecordSpec {
        RecordSpec {
            filename: self.filename@,
            hash: self.hash@,
            version: self.version as nat,
            action: self.action@,
        }
    }
}

/// The mathematical values of a run of records, in the same order.
pub open spec fn record_views(records: Seq<Record>) -> Seq<RecordSpec> {
    records.map_values(|record: Record| record@)
}

/// The record that an entry is persisted as.
pub open spec fn record_of(entry: EntrySpec) -> RecordSpec {
    RecordSpec {
        filename: entry.filename,
        hash: entry.hash,
        version: entry.version,
        action: action_name(entry.action),
    }
}

/// The entry that a record stands for, whatever its action says.
pub open spec fn entry_of(record: RecordSpec) -> EntrySpec {
    EntrySpec {
        filename: record.filename,
        hash: record.hash,
        version: record.version,
        action: match action_named(record.action) {
            Some(action) => action,
            None => Action::Pass,
        },
    }
}

/// The records of a run of entries, in the same order.
pub open spec fn encoded(entries: Seq<EntrySpec>) -> Seq<RecordSpec> {
    entries.map_values(|entry: EntrySpec| record_of(entry))
}

/// The entries of a run of records, in the same order.
pub open spec fn decoded(records: Seq<RecordSpec>) -> Seq<EntrySpec> {
    records.map_values(|record: RecordSpec| entry_of(record))
}

/// Whether records can be read as a baseline: every action is one of the four
/// names and no filename occurs twice.
pub open spec fn records_valid(records: Seq<RecordSpec>) -> bool {
    &&& forall|i: int| 0 <= i < records.len() ==> action_named((#[trigger] records[i]).action) is Some
    &&& forall|i: int, j: int|
        0 <= i < j < records.len() ==> (#[trigger] records[i]).filename != (
        #[trigger] records[j]).filename
}

/// What loading gives: the empty mapping for an empty persisted form, the
/// entries of the records where the form could be parsed into valid records,
/// and `None`, for a corrupt baseline, otherwise.
pub open spec fn loaded(empty: bool, parsed: Option<Seq<RecordSpec>>) -> Option<Seq<EntrySpec>> {
    if empty {
        Some(Seq::<EntrySpec>::empty())
    } else {
        match parsed {
            Some(records) => if records_valid(records) {
                Some(decoded(records))
            } else {
                None
            },
            None => None,
        }
    }
}

/// The records under which a mapping is persisted, in the mapping's order.
pub fn to_records(mapping: &StateMapping) -> (records: Vec<Record>)
    ensures
        record_views(records@) == encoded(mapping.entries()),
{
    let rows = mapping.as_slice();
    let ghost entries = mapping.entries();
    let mut records: Vec<Record> = Vec::new();
    let mut i: usize = 0;
    assert(record_views(records@) =~= encoded(entries.take(0)));
    while i < rows.len()
        invariant
            i <= rows.len(),
            views(rows@) == entries,
            record_views(records@) == encoded(entries.take(i as int)),
        decreases rows.len() - i,
    {
        let row = &rows[i];
        let ghost before = record_views(records@);
        assert(row@ == entries[i as int]);
        let record = Record {
            filename: row.filename.clone(),
            hash: row.hash.clone(),
            version: row.version,
            action: row.action.name().to_owned(),
        };
        records.push(record);
        proof {
            assert(record_views(records@) =~= before.push(record_of(row@)));
            assert(encoded(entries.take(i as int + 1)) =~= before.push(record_of(row@)));
        }
        i += 1;
    }
    assert(entries.take(rows.len() as int) =~= entries);
    records
}

/// Reads records as a baseline.
///
/// Fails with [`SyncError::StateCorrupt`] exactly if a record names an
/// unknown action or two records name the same file.
pub fn from_records(records: &[Record]) -> (read: Result<StateMapping, SyncError>)
    ensures
        records_valid(record_views(records@)) ==> read is Ok && read->Ok_0.entries() == decoded(
            record_views(records@),
        ),
        !records_valid(record_views(records@)) ==> read == Err::<StateMapping, SyncError>(
            SyncError::StateCorrupt,
        ),
{
    let ghost all = record_views(records@);
    let mut mapping = StateMapping::new();
    let mut i: usize = 0;
    assert(decoded(all.take(0)) =~= Seq::<EntrySpec>::empty());
    while i < records.len()
        invariant
            i <= records.len(),
            all == record_views(records@),
            records_valid(all.take(i as int)),
            mapping.entries() == decoded(all.take(i as int)),
        decreases records.len() - i,
    {
        let record = &records[i];
        let ghost before = mapping.entries();
        assert(record@ == all[i as int]);
        let action = match Action::from_name(record.action.as_str()) {
            Some(action) => action,
            None => {
                return Err(SyncError::StateCorrupt);
            },
        };
        if mapping.contains(record.filename.as_str()) {
            proof {
                assert(listed(before, record.filename@));
                let j = choose|j: int|
                    0 <= j < before.len() && (#[trigger] before[j]).filename == record.filename@;
                assert(before[j] == entry_of(all.take(i as int)[j]));
                assert(all[j].filename == all[i as int].filename);
            }
            return Err(SyncError::StateCorrupt);
        }
        let entry = FileEntry {
            filename: record.filename.clone(),
            hash: record.hash.clone(),
            version: record.version,
            action,
        };
        assert(entry@ == entry_of(record@));
        mapping.upsert(entry);
        proof {
            let longer = all.take(i as int + 1);
            assert(decoded(longer) =~= before.push(entry_of(record@)));
            assert forall|a: int, b: int| 0 <= a < b < longer.len() implies (#[trigger] longer[a]).filename
                != (#[trigger] longer[b]).filename by {
                if b < i {
                    assert(all.take(i as int)[a] == longer[a]);
                    assert(all.take(i as int)[b] == longer[b]);
                } else {
                    assert(before[a] == entry_of(all.take(i as int)[a]));
                    assert(before[a].filename != record.filename@);
                }
            }
            assert forall|a: int| 0 <= a < longer.len() implies action_named(
                (#[trigger] longer[a]).action,
            ) is Some by {
                if a < i {
                    assert(all.take(i as int)[a] == longer[a]);
                }
            }
        }
        i += 1;
    }
    assert(all.take(records.len() as int) =~= all);
    Ok(mapping)
}

/// The view of records that may be missing.
pub open spec fn parsed_view(parsed: Option<Vec<Record>>) -> Option<Seq<RecordSpec>> {
    match parsed {
        Some(records) => Some(record_views(records@)),
        None => None,
    }
}

/// Loads the baseline from its persisted form.
///
/// `persisted` holds the bytes as they were read; `parsed` holds the records
/// that the bytes were parsed into, or `None` if they could not be parsed,
/// be it that they are no text at all.  A persisted form of no bytes is the
/// baseline of a directory that was never synced: the empty mapping.  Any
/// other form that does not give valid records fails with
/// [`SyncError::StateCorrupt`].
pub fn load_state(persisted: &[u8], parsed: Option<Vec<Record>>) -> (read: Result<
    StateMapping,
    SyncError,
>)
    ensures
        loaded(persisted@.len() == 0, parsed_view(parsed)) is Some ==> read is Ok
            && read->Ok_0.entries() == loaded(persisted@.len() == 0, parsed_view(parsed))->0,
        loaded(persisted@.len() == 0, parsed_view(parsed)) is None ==> read == Err::<
            StateMapping,
            SyncError,
        >(SyncError::StateCorrupt),
{
    if persisted.len() == 0 {
        return Ok(StateMapping::new());
    }
    match parsed {
        Some(records) => from_records(records.as_slice()),
        None => Err(SyncError::StateCorrupt),
    }
}

/// Round-trip persistence, on the entries: the records of a list of entries
/// without repeated filenames are valid, and reading them back gives the
/// same entries, in the same order and with the same filename, digest,
/// version and action.
pub proof fn lemma_records_round_trip(entries: Seq<EntrySpec>)
    requires
        distinct_names(entries),
    ensures
        records_valid(encoded(entries)),
        decoded(encoded(entries)) == entries,
{
    let records = encoded(entries);
    assert forall|i: int| 0 <= i < records.len() implies action_named(
        (#[trigger] records[i]).action,
    ) is Some by {
        lemma_action_name_round_trip(entries[i].action);
    }
    assert forall|i: int, j: int| 0 <= i < j < records.len() implies (#[trigger] records[i]).filename
        != (#[trigger] records[j]).filename by {
        assert(entries[i].filename != entries[j].filename);
    }
    assert forall|i: int| 0 <= i < entries.len() implies decoded(records)[i] == entries[i] by {
        lemma_action_name_round_trip(entries[i].action);
    }
    assert(decoded(records) =~= entries);
}

/// Round-trip persistence, on the mapping: what is read back from the
/// records of a mapping is the same mapping.
pub proof fn lemma_mapping_round_trip(entries: Seq<EntrySpec>)
    requires
        distinct_names(entries),
    ensures
        loaded(false, Some(encoded(entries))) == Some(entries),
        as_map(decoded(encoded(entries))) == as_map(entries),
{
    lemma_records_round_trip(entries);
}

} // verus!
