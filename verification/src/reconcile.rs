//! Reconciliation: a fresh scan held against the baseline.
//!
//! Every filename of the baseline or of the scan is classified on its own,
//! from the entry that the baseline holds for it (if any) and the digest that
//! the scan found for it (if any).

use vstd::prelude::*;
use crate::entry::{Action, EntrySpec, FileEntry};
use crate::error::SyncError;
use crate::mapping::{
    as_map,
    distinct_names,
    lemma_as_map_at,
    lemma_as_map_key,
    lemma_as_map_push,
    listed,
    views,
    StateMapping,
};
use crate::snapshot::{tentative_entry, tentative_map, Snapshot};

verus! {

/// The value that a mapping holds under a key, if it holds one.
pub open spec fn lookup<V>(map: Map<Seq<char>, V>, name: Seq<char>) -> Option<V> {
    if map.contains_key(name) {
        Some(map[name])
    } else {
        None
    }
}

/// The entry that one pass gives a filename, from what the baseline holds for
/// it and what the scan found for it.  `None` means that the filename is not
/// part of the new mapping.
///
/// A file that only the scan knows is created at version 1.  A file that only
/// the baseline knows is flagged for deletion, unless it was flagged before:
/// then it is dropped.  A file that both know keeps a pending deletion as it
/// is; otherwise it is an edit at the next version if the digests differ and
/// settled at its version if they agree.
pub open spec fn reconciled(
    baseline: Option<EntrySpec>,
    scanned: Option<Seq<char>>,
    name: Seq<char>,
) -> Option<EntrySpec> {
    match (baseline, scanned) {
        (None, None) => None,
        (None, Some(hash)) => Some(tentative_entry(name, hash)),
        (Some(known), None) => if known.action == Action::Delete {
            None
        } else {
            Some(
                EntrySpec {
                    filename: name,
                    hash: known.hash,
                    version: known.version,
                    action: Action::Delete,
                },
            )
        },
        (Some(known), Some(hash)) => if known.action == Action::Delete {
            Some(
                EntrySpec {
                    filename: name,
                    hash: known.hash,
                    version: known.version,
                    action: Action::Delete,
                },
            )
        } else if known.hash != hash {
            Some(
                EntrySpec {
                    filename: name,
                    hash,
                    version: known.version + 1,
                    action: Action::Edit,
                },
            )
        } else {
            Some(
                EntrySpec {
                    filename: name,
                    hash: known.hash,
                    version: known.version,
                    action: Action::Pass,
                },
            )
        },
    }
}

/// The mapping that one pass produces from a baseline and a scan.
pub open spec fn reconcile_spec(
    baseline: Map<Seq<char>, EntrySpec>,
    scan: Map<Seq<char>, Seq<char>>,
) -> Map<Seq<char>, EntrySpec> {
    Map::new(
        |name: Seq<char>| reconciled(lookup(baseline, name), lookup(scan, name), name) is Some,
        |name: Seq<char>| reconciled(lookup(baseline, name), lookup(scan, name), name)->0,
    )
}

/// Whether an entry can take the result of a scan: an edit needs a version
/// below the largest one.
pub open spec fn version_fits(known: EntrySpec, scanned: Option<Seq<char>>) -> bool {
    (scanned is Some && known.action != Action::Delete && known.hash != scanned->0)
        ==> known.version < u64::MAX
}

/// Whether every edit that the scan asks for finds room for the next version.
pub open spec fn versions_fit(
    baseline: Map<Seq<char>, EntrySpec>,
    scan: Map<Seq<char>, Seq<char>>,
) -> bool {
    forall|name: Seq<char>| #[trigger]
        baseline.contains_key(name) ==> version_fits(baseline[name], lookup(scan, name))
}

/// Every entry of the mapping carries the filename that it is stored under.
pub open spec fn keyed_by_name(mapping: Map<Seq<char>, EntrySpec>) -> bool {
    forall|name: Seq<char>| #[trigger]
        mapping.contains_key(name) ==> mapping[name].filename == name
}

/// The view of a digest that may be missing.
pub open spec fn digest_view(scanned: Option<&String>) -> Option<Seq<char>> {
    match scanned {
        Some(hash) => Some(hash@),
        None => None,
    }
}

/// The view of an entry that may be missing.
pub open spec fn entry_view(entry: Option<FileEntry>) -> Option<EntrySpec> {
    match entry {
        Some(entry) => Some(entry@),
        None => None,
    }
}

/// Classifies a file of the baseline against what the scan found for it.
pub fn reconcile_entry(known: &FileEntry, scanned: Option<&String>) -> (next: Option<FileEntry>)
    requires
        version_fits(known@, digest_view(scanned)),
    ensures
        entry_view(next) == reconciled(Some(known@), digest_view(scanned), known.filename@),
{
    match scanned {
        None => {
            if known.action == Action::Delete {
                None
            } else {
                Some(
                    FileEntry {
                        filename: known.filename.clone(),
                        hash: known.hash.clone(),
                        version: known.version,
                        action: Action::Delete,
                    },
                )
            }
        },
        Some(hash) => {
            if known.action == Action::Delete {
                Some(
                    FileEntry {
                        filename: known.filename.clone(),
                        hash: known.hash.clone(),
                        version: known.version,
                        action: Action::Delete,
                    },
                )
            } else if known.hash != *hash {
                Some(
                    FileEntry {
                        filename: known.filename.clone(),
                        hash: hash.clone(),
                        version: known.version + 1,
                        action: Action::Edit,
                    },
                )
            } else {
                Some(
                    FileEntry {
                        filename: known.filename.clone(),
                        hash: known.hash.clone(),
                        version: known.version,
                        action: Action::Pass,
                    },
                )
            }
        },
    }
}

/// Whether [`reconcile`] can be called on this baseline and scan: no edit
/// would push a version past the largest one.
pub fn can_reconcile(baseline: &StateMapping, scan: &Snapshot) -> (fits: bool)
    ensures
        fits == versions_fit(baseline@, scan@),
{
    let rows = baseline.as_slice();
    let ghost known = baseline.entries();
    let mut i: usize = 0;
    while i < rows.len()
        invariant
            i <= rows.len(),
            views(rows@) == known,
            known == baseline.entries(),
            distinct_names(known),
            forall|j: int| 0 <= j < i ==> version_fits(#[trigger] known[j], lookup(scan@, known[j].filename)),
        decreases rows.len() - i,
    {
        let row = &rows[i];
        assert(row@ == known[i as int]);
        let scanned = scan.hash_of(row.filename.as_str());
        let edit = match scanned {
            Some(hash) => row.action != Action::Delete && row.hash != *hash,
            None => false,
        };
        if edit && row.version == u64::MAX {
            proof {
                lemma_as_map_at(known, i as int);
                assert(baseline@.contains_key(known[i as int].filename));
            }
            return false;
        }
        i += 1;
    }
    proof {
        assert forall|name: Seq<char>| #[trigger]
            baseline@.contains_key(name) implies version_fits(
            baseline@[name],
            lookup(scan@, name),
        ) by {
            lemma_as_map_key(known, name);
        }
    }
    true
}

/// No version went down from one mapping to the next, and a version went up
/// exactly where the digest changed, and then by exactly 1.
pub open spec fn versions_follow(
    baseline: Map<Seq<char>, EntrySpec>,
    next: Map<Seq<char>, EntrySpec>,
) -> bool {
    forall|name: Seq<char>|
        baseline.contains_key(name) && #[trigger] next.contains_key(name) ==> {
            &&& next[name].version >= baseline[name].version
            &&& next[name].hash != baseline[name].hash <==> next[name].version
                == baseline[name].version + 1
            &&& next[name].hash == baseline[name].hash <==> next[name].version
                == baseline[name].version
        }
}

/// Every deletion that was pending in the baseline is, in the next mapping,
/// either still pending with the digest and version it had, or gone: never a
/// creation, an edit or an entry at rest.
pub open spec fn pending_deletes_kept(
    baseline: Map<Seq<char>, EntrySpec>,
    next: Map<Seq<char>, EntrySpec>,
) -> bool {
    forall|name: Seq<char>|
        baseline.contains_key(name) && baseline[name].action == Action::Delete
            && #[trigger] next.contains_key(name) ==> {
            &&& next[name].action == Action::Delete
            &&& next[name].hash == baseline[name].hash
            &&& next[name].version == baseline[name].version
        }
}

/// One reconciliation pass on any baseline and any scan.
///
/// An edit of an entry whose version is already the largest a version can be
/// has no next version: such a baseline cannot be carried on, and the pass
/// fails with [`SyncError::StateCorrupt`], on these inputs and on no others.
/// Every mapping that a pass gives obeys the two rules of versions and of
/// pending deletions.
pub fn try_reconcile(baseline: &StateMapping, scan: &Snapshot) -> (passed: Result<
    StateMapping,
    SyncError,
>)
    ensures
        versions_fit(baseline@, scan@) ==> passed is Ok && passed->Ok_0@ == reconcile_spec(
            baseline@,
            scan@,
        ),
        !versions_fit(baseline@, scan@) ==> passed == Err::<StateMapping, SyncError>(
            SyncError::StateCorrupt,
        ),
        passed is Ok ==> versions_follow(baseline@, passed->Ok_0@),
        passed is Ok ==> pending_deletes_kept(baseline@, passed->Ok_0@),
{
    if can_reconcile(baseline, scan) {
        Ok(reconcile(baseline, scan))
    } else {
        Err(SyncError::StateCorrupt)
    }
}

/// One reconciliation pass: holds a fresh scan against the baseline and
/// gives the new mapping, with an action for every entry.  The new mapping
/// obeys the two rules of versions and of pending deletions.
pub fn reconcile(baseline: &StateMapping, scan: &Snapshot) -> (next: StateMapping)
    requires
        versions_fit(baseline@, scan@),
    ensures
        next@ == reconcile_spec(baseline@, scan@),
        versions_follow(baseline@, next@),
        pending_deletes_kept(baseline@, next@),
{
    let known_rows = baseline.as_slice();
    let ghost known = baseline.entries();
    let mut rows: Vec<FileEntry> = Vec::new();
    let mut i: usize = 0;
    while i < known_rows.len()
        invariant
            i <= known_rows.len(),
            views(known_rows@) == known,
            known == baseline.entries(),
            distinct_names(known),
            versions_fit(baseline@, scan@),
            distinct_names(views(rows@)),
            forall|name: Seq<char>| #[trigger]
                listed(views(rows@), name) ==> listed(known.take(i as int), name),
            forall|j: int|
                0 <= j < i ==> lookup(as_map(views(rows@)), (#[trigger] known[j]).filename)
                    == reconciled(Some(known[j]), lookup(scan@, known[j].filename), known[j].filename),
        decreases known_rows.len() - i,
    {
        let row = &known_rows[i];
        let ghost name = known[i as int].filename;
        let ghost before = views(rows@);
        assert(row@ == known[i as int]);
        proof {
            lemma_as_map_at(known, i as int);
            if listed(before, name) {
                let j = index_of_prefix(known, i as int, name);
                assert(known[j].filename != known[i as int].filename);
            }
        }
        let scanned = scan.hash_of(row.filename.as_str());
        match reconcile_entry(row, scanned) {
            Some(entry) => {
                proof {
                    lemma_as_map_push(before, entry@);
                }
                rows.push(entry);
                assert(views(rows@) =~= before.push(entry@));
                proof {
                    assert forall|other: Seq<char>| #[trigger]
                        listed(views(rows@), other) implies listed(
                        known.take(i as int + 1),
                        other,
                    ) by {
                        if other == name {
                            assert(known.take(i as int + 1)[i as int].filename == name);
                        } else {
                            assert(listed(before, other));
                            let j = index_of_prefix(known, i as int, other);
                            assert(known.take(i as int + 1)[j].filename == other);
                        }
                    }
                }
            },
            None => {
                proof {
                    assert forall|other: Seq<char>| #[trigger]
                        listed(views(rows@), other) implies listed(
                        known.take(i as int + 1),
                        other,
                    ) by {
                        let j = index_of_prefix(known, i as int, other);
                        assert(known.take(i as int + 1)[j].filename == other);
                    }
                }
            },
        }
        i += 1;
    }
    let found_rows = scan.tentative().as_slice();
    let ghost found = scan.tentative_entries();
    let ghost carried = as_map(views(rows@));
    proof {
        assert(known.take(known.len() as int) =~= known);
        assert forall|name: Seq<char>| baseline@.contains_key(name) implies lookup(carried, name)
            == reconciled(Some(baseline@[name]), lookup(scan@, name), name) by {
            lemma_as_map_key(known, name);
        }
    }
    let mut k: usize = 0;
    while k < found_rows.len()
        invariant
            k <= found_rows.len(),
            views(found_rows@) == found,
            distinct_names(found),
            as_map(found) == tentative_map(scan@),
            distinct_names(views(rows@)),
            forall|name: Seq<char>|
                baseline@.contains_key(name) ==> #[trigger] lookup(as_map(views(rows@)), name)
                    == lookup(carried, name),
            forall|name: Seq<char>|
                !baseline@.contains_key(name) ==> (#[trigger] listed(views(rows@), name) <==> listed(
                    found.take(k as int),
                    name,
                )),
            forall|name: Seq<char>|
                !baseline@.contains_key(name) && #[trigger] listed(views(rows@), name) ==> as_map(
                    views(rows@),
                )[name] == tentative_entry(name, scan@[name]),
        decreases found_rows.len() - k,
    {
        let row = &found_rows[k];
        let ghost name = found[k as int].filename;
        let ghost before = views(rows@);
        assert(row@ == found[k as int]);
        proof {
            lemma_as_map_at(found, k as int);
            assert(found.take(k as int + 1)[k as int].filename == name);
        }
        if !baseline.contains(row.filename.as_str()) {
            proof {
                if listed(before, name) {
                    let j = index_of_prefix(found, k as int, name);
                    assert(found[j].filename != found[k as int].filename);
                }
                lemma_as_map_push(before, row@);
            }
            rows.push(row.clone());
            assert(views(rows@) =~= before.push(row@));
            proof {
                let after = views(rows@);
                assert forall|other: Seq<char>| !baseline@.contains_key(other) implies (
                #[trigger] listed(after, other) <==> listed(found.take(k as int + 1), other)) by {
                    lemma_take_one_more(found, k as int, other);
                    assert(as_map(after).contains_key(other) <==> listed(after, other));
                    assert(as_map(before).contains_key(other) <==> listed(before, other));
                }
                assert forall|other: Seq<char>|
                    !baseline@.contains_key(other) && #[trigger] listed(
                        after,
                        other,
                    ) implies as_map(after)[other] == tentative_entry(other, scan@[other]) by {
                    assert(as_map(after).contains_key(other) <==> listed(after, other));
                    if other != name {
                        assert(as_map(before).contains_key(other));
                        assert(listed(before, other));
                    }
                }
                assert forall|other: Seq<char>| baseline@.contains_key(other) implies #[trigger] lookup(
                    as_map(after),
                    other,
                ) == lookup(carried, other) by {
                    assert(lookup(as_map(before), other) == lookup(carried, other));
                }
            }
        } else {
            proof {
                assert forall|other: Seq<char>| !baseline@.contains_key(other) implies (
                #[trigger] listed(before, other) <==> listed(found.take(k as int + 1), other)) by {
                    lemma_take_one_more(found, k as int, other);
                }
            }
        }
        k += 1;
    }
    let next = StateMapping::from_distinct(rows);
    proof {
        assert(found.take(found.len() as int) =~= found);
        let wanted = reconcile_spec(baseline@, scan@);
        assert forall|name: Seq<char>| next@.contains_key(name) <==> wanted.contains_key(name) by {
            assert(next@.contains_key(name) <==> listed(views(rows@), name));
            if baseline@.contains_key(name) {
                assert(lookup(next@, name) == lookup(carried, name));
            } else {
                assert(as_map(found).contains_key(name) <==> listed(found, name));
            }
        }
        assert forall|name: Seq<char>| next@.contains_key(name) implies next@[name]
            == wanted[name] by {
            assert(next@.contains_key(name) <==> listed(views(rows@), name));
            if baseline@.contains_key(name) {
                assert(lookup(next@, name) == lookup(carried, name));
            } else {
                assert(listed(found, name));
                assert(as_map(found).contains_key(name));
                assert(scan@.contains_key(name));
            }
        }
        assert(next@ =~= wanted);
        lemma_pass_obeys_the_rules(baseline@, scan@);
    }
    next
}

/// A position below `end` at which the list carries the filename.
pub open spec fn index_of_prefix(entries: Seq<EntrySpec>, end: int, name: Seq<char>) -> int {
    choose|j: int| 0 <= j < entries.take(end).len() && (#[trigger] entries.take(end)[j]).filename == name
}

/// A filename stands among the first `end + 1` entries exactly if it stands
/// among the first `end` or is the filename at `end`.
pub proof fn lemma_take_one_more(entries: Seq<EntrySpec>, end: int, name: Seq<char>)
    requires
        0 <= end < entries.len(),
    ensures
        listed(entries.take(end + 1), name) <==> (listed(entries.take(end), name)
            || entries[end].filename == name),
{
    let short = entries.take(end);
    let long = entries.take(end + 1);
    if listed(short, name) {
        let j = choose|j: int| 0 <= j < short.len() && (#[trigger] short[j]).filename == name;
        assert(long[j].filename == name);
    }
    if entries[end].filename == name {
        assert(long[end].filename == name);
    }
    if listed(long, name) {
        let j = choose|j: int| 0 <= j < long.len() && (#[trigger] long[j]).filename == name;
        if j < end {
            assert(short[j].filename == name);
        }
    }
}

/// A baseline is settled against a scan when both know the same filenames
/// and every entry is at rest with the digest that the scan found.
pub open spec fn settled(
    baseline: Map<Seq<char>, EntrySpec>,
    scan: Map<Seq<char>, Seq<char>>,
) -> bool {
    &&& keyed_by_name(baseline)
    &&& forall|name: Seq<char>| baseline.contains_key(name) <==> scan.contains_key(name)
    &&& forall|name: Seq<char>| #[trigger]
        baseline.contains_key(name) ==> baseline[name].action == Action::Pass
            && baseline[name].hash == scan[name]
}

/// The view of a state mapping stores every entry under its own filename.
pub proof fn lemma_view_is_keyed_by_name(mapping: &StateMapping)
    ensures
        keyed_by_name(mapping@),
{
    assert forall|name: Seq<char>| #[trigger] mapping@.contains_key(name) implies mapping@[name].filename
        == name by {
        lemma_as_map_key(mapping.entries(), name);
    }
}

/// A pass stores every entry under its own filename.
pub proof fn lemma_reconcile_is_keyed_by_name(
    baseline: Map<Seq<char>, EntrySpec>,
    scan: Map<Seq<char>, Seq<char>>,
)
    ensures
        keyed_by_name(reconcile_spec(baseline, scan)),
{
}

/// Idempotence: a pass over a settled baseline, with nothing changed on
/// disk, gives the baseline back: every entry is at rest and keeps its
/// version.
pub proof fn lemma_reconcile_settled_is_identity(
    baseline: Map<Seq<char>, EntrySpec>,
    scan: Map<Seq<char>, Seq<char>>,
)
    requires
        settled(baseline, scan),
    ensures
        reconcile_spec(baseline, scan) == baseline,
        forall|name: Seq<char>| #[trigger]
            reconcile_spec(baseline, scan).contains_key(name) ==> {
                &&& reconcile_spec(baseline, scan)[name].action == Action::Pass
                &&& reconcile_spec(baseline, scan)[name].version == baseline[name].version
            },
{
    let next = reconcile_spec(baseline, scan);
    assert forall|name: Seq<char>| next.contains_key(name) <==> baseline.contains_key(name) by {
        if baseline.contains_key(name) {
            assert(scan.contains_key(name));
        }
    }
    assert forall|name: Seq<char>| next.contains_key(name) implies next[name] == baseline[name] by {
        assert(baseline.contains_key(name));
        assert(scan.contains_key(name));
    }
    assert(next =~= baseline);
}

/// Convergence: a second pass over the same scan leaves nothing to do for
/// any file that the first pass created, edited or found unchanged: such a
/// file is at rest after the second pass, with the digest and the version
/// that the first pass gave it.
pub proof fn lemma_second_pass_settles(
    baseline: Map<Seq<char>, EntrySpec>,
    scan: Map<Seq<char>, Seq<char>>,
    name: Seq<char>,
)
    requires
        reconcile_spec(baseline, scan).contains_key(name),
        reconcile_spec(baseline, scan)[name].action != Action::Delete,
    ensures
        reconcile_spec(reconcile_spec(baseline, scan), scan).contains_key(name),
        reconcile_spec(reconcile_spec(baseline, scan), scan)[name] == (EntrySpec {
            action: Action::Pass,
            ..reconcile_spec(baseline, scan)[name]
        }),
{
}

/// Version monotonicity: for a filename that the baseline and the new
/// mapping both hold, the version never goes down; it goes up exactly when
/// the digest changed, and then by exactly 1.
pub proof fn lemma_version_is_monotonic(
    baseline: Map<Seq<char>, EntrySpec>,
    scan: Map<Seq<char>, Seq<char>>,
    name: Seq<char>,
)
    requires
        baseline.contains_key(name),
        reconcile_spec(baseline, scan).contains_key(name),
    ensures
        reconcile_spec(baseline, scan)[name].version >= baseline[name].version,
        reconcile_spec(baseline, scan)[name].hash != baseline[name].hash <==> reconcile_spec(
            baseline,
            scan,
        )[name].version == baseline[name].version + 1,
        reconcile_spec(baseline, scan)[name].hash == baseline[name].hash <==> reconcile_spec(
            baseline,
            scan,
        )[name].version == baseline[name].version,
{
}

/// Delete precedence: a filename whose deletion is pending in the baseline is
/// never a creation in the new mapping.  While the scan still finds the file
/// the deletion stays pending, with digest and version untouched; once the
/// file is gone the filename is dropped.
pub proof fn lemma_pending_delete_takes_precedence(
    baseline: Map<Seq<char>, EntrySpec>,
    scan: Map<Seq<char>, Seq<char>>,
    name: Seq<char>,
)
    requires
        baseline.contains_key(name),
        baseline[name].action == Action::Delete,
    ensures
        !(reconcile_spec(baseline, scan).contains_key(name) && reconcile_spec(
            baseline,
            scan,
        )[name].action == Action::Create),
        scan.contains_key(name) ==> reconcile_spec(baseline, scan).contains_key(name)
            && reconcile_spec(baseline, scan)[name] == (EntrySpec {
            filename: name,
            ..baseline[name]
        }),
        !scan.contains_key(name) ==> !reconcile_spec(baseline, scan).contains_key(name),
{
}

/// Every pass obeys the two rules of versions and of pending deletions,
/// whatever the baseline and the scan.
pub proof fn lemma_pass_obeys_the_rules(
    baseline: Map<Seq<char>, EntrySpec>,
    scan: Map<Seq<char>, Seq<char>>,
)
    ensures
        versions_follow(baseline, reconcile_spec(baseline, scan)),
        pending_deletes_kept(baseline, reconcile_spec(baseline, scan)),
{
    let next = reconcile_spec(baseline, scan);
    assert forall|name: Seq<char>|
        baseline.contains_key(name) && #[trigger] next.contains_key(name) implies {
        &&& next[name].version >= baseline[name].version
        &&& next[name].hash != baseline[name].hash <==> next[name].version
            == baseline[name].version + 1
        &&& next[name].hash == baseline[name].hash <==> next[name].version
            == baseline[name].version
    } by {
        lemma_version_is_monotonic(baseline, scan, name);
    }
    assert forall|name: Seq<char>|
        baseline.contains_key(name) && baseline[name].action == Action::Delete
            && #[trigger] next.contains_key(name) implies {
        &&& next[name].action == Action::Delete
        &&& next[name].hash == baseline[name].hash
        &&& next[name].version == baseline[name].version
    } by {
        lemma_pending_delete_takes_precedence(baseline, scan, name);
    }
}

/// The new mapping knows exactly the filenames of the scan and those of the
/// baseline whose deletion was not pending already.
pub proof fn lemma_reconcile_domain(
    baseline: Map<Seq<char>, EntrySpec>,
    scan: Map<Seq<char>, Seq<char>>,
    name: Seq<char>,
)
    ensures
        reconcile_spec(baseline, scan).contains_key(name) <==> (scan.contains_key(name) || (
        baseline.contains_key(name) && baseline[name].action != Action::Delete)),
{
}

} // verus!
