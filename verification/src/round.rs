//! The round as a whole: what a scan, a pass, an answer and the changes on
//! disk add up to.
//!
//! The directory is modelled as the mapping from the name of every file that
//! a scan counts to the file's bytes.  Nothing here is executed: the module
//! states what the caller's work on disk amounts to and proves that a round
//! ends at rest with the directory.

use vstd::prelude::*;
use crate::entry::{Action, EntrySpec};
use crate::hasher::sha256_hex;
use crate::reconcile::{lemma_reconcile_settled_is_identity, reconcile_spec, settled};
use crate::response::{
    applied_all,
    change_for,
    concluded,
    directed,
    lemma_applied_all_at,
    lemma_directed_unfold,
    DirectiveSpec,
    FileChangeSpec,
};

verus! {

/// The directory after one change was made.
pub open spec fn performed(
    directory: Map<Seq<char>, Seq<u8>>,
    change: FileChangeSpec,
) -> Map<Seq<char>, Seq<u8>> {
    match change {
        FileChangeSpec::Remove { filename } => directory.remove(filename),
        FileChangeSpec::Write { filename, contents } => directory.insert(filename, contents),
    }
}

/// The directory after a run of changes, made in order.
pub open spec fn performed_all(
    directory: Map<Seq<char>, Seq<u8>>,
    changes: Seq<FileChangeSpec>,
) -> Map<Seq<char>, Seq<u8>>
    decreases changes.len(),
{
    if changes.len() == 0 {
        directory
    } else {
        performed(performed_all(directory, changes.drop_last()), changes.last())
    }
}

/// The changes that a run of directives asks for.
pub open spec fn changes_for(directives: Seq<DirectiveSpec>) -> Seq<FileChangeSpec> {
    directives.map_values(|directive: DirectiveSpec| change_for(directive))
}

/// What a scan finds in a directory: every file with the digest of its bytes.
pub open spec fn scan_of(directory: Map<Seq<char>, Seq<u8>>) -> Map<Seq<char>, Seq<char>> {
    Map::new(
        |name: Seq<char>| directory.contains_key(name),
        |name: Seq<char>| sha256_hex(directory[name]),
    )
}

/// What a run of directives does to one filename on disk, and how that goes
/// with what it does to the mapping.  A file that no directive names is left
/// alone.  A file that a directive names is on disk afterwards exactly if the
/// mapping holds it, and the mapping then holds the digest of its bytes.
pub proof fn lemma_round_at(
    mapping: Map<Seq<char>, EntrySpec>,
    directory: Map<Seq<char>, Seq<u8>>,
    directives: Seq<DirectiveSpec>,
    name: Seq<char>,
)
    ensures
        !directed(directives, name) ==> {
            &&& performed_all(directory, changes_for(directives)).contains_key(name)
                <==> directory.contains_key(name)
            &&& directory.contains_key(name) ==> performed_all(
                directory,
                changes_for(directives),
            )[name] == directory[name]
        },
        directed(directives, name) ==> {
            &&& applied_all(mapping, directives).contains_key(name) <==> performed_all(
                directory,
                changes_for(directives),
            ).contains_key(name)
            &&& applied_all(mapping, directives).contains_key(name) ==> applied_all(
                mapping,
                directives,
            )[name].hash == sha256_hex(performed_all(directory, changes_for(directives))[name])
        },
    decreases directives.len(),
{
    if directives.len() > 0 {
        let before = directives.drop_last();
        lemma_round_at(mapping, directory, before, name);
        lemma_applied_all_at(mapping, before, name);
        lemma_directed_unfold(directives, name);
        assert(changes_for(directives).drop_last() =~= changes_for(before));
        assert(changes_for(directives).last() == change_for(directives.last()));
    } else {
        assert(changes_for(directives) =~= Seq::<FileChangeSpec>::empty());
    }
}

/// A round ends at rest with the directory.
///
/// Take any baseline and any directory.  Let a pass hold the scan of the
/// directory against the baseline, let the remote answer, let the round be
/// concluded on the mapping and the changes be made on disk.  If the answer
/// names every file that the pass flagged for deletion, the new baseline is
/// settled against the directory as the round left it: both know the same
/// files, and every entry is at rest with the digest of the file's bytes.
/// Creations and edits need no word from the remote for this.
pub proof fn lemma_concluded_round_is_settled(
    baseline: Map<Seq<char>, EntrySpec>,
    directory: Map<Seq<char>, Seq<u8>>,
    directives: Seq<DirectiveSpec>,
)
    requires
        forall|name: Seq<char>| #[trigger]
            reconcile_spec(baseline, scan_of(directory)).contains_key(name) && reconcile_spec(
                baseline,
                scan_of(directory),
            )[name].action == Action::Delete ==> directed(directives, name),
    ensures
        settled(
            concluded(reconcile_spec(baseline, scan_of(directory)), directives),
            scan_of(performed_all(directory, changes_for(directives))),
        ),
{
    let scan = scan_of(directory);
    let passed = reconcile_spec(baseline, scan);
    let merged = applied_all(passed, directives);
    let next = concluded(passed, directives);
    let after = performed_all(directory, changes_for(directives));
    assert forall|name: Seq<char>| next.contains_key(name) <==> scan_of(after).contains_key(
        name,
    ) by {
        lemma_round_at(passed, directory, directives, name);
        lemma_applied_all_at(passed, directives, name);
        if !directed(directives, name) {
            if passed.contains_key(name) {
                assert(passed[name].action != Action::Delete);
                assert(scan.contains_key(name));
            }
            if directory.contains_key(name) {
                assert(scan.contains_key(name));
                assert(passed.contains_key(name));
            }
        }
    }
    assert forall|name: Seq<char>| #[trigger] next.contains_key(name) implies next[name].filename
        == name && next[name].action == Action::Pass && next[name].hash == scan_of(after)[name] by {
        lemma_round_at(passed, directory, directives, name);
        lemma_applied_all_at(passed, directives, name);
        assert(merged.contains_key(name));
        if !directed(directives, name) {
            assert(passed[name].action != Action::Delete);
            assert(scan.contains_key(name));
        }
    }
}

/// Idempotence of the round: after a round whose answer names every file
/// flagged for deletion, a pass over the directory as the round left it
/// changes nothing.  Every entry is at rest and keeps its version.
pub proof fn lemma_pass_after_concluded_round_changes_nothing(
    baseline: Map<Seq<char>, EntrySpec>,
    directory: Map<Seq<char>, Seq<u8>>,
    directives: Seq<DirectiveSpec>,
)
    requires
        forall|name: Seq<char>| #[trigger]
            reconcile_spec(baseline, scan_of(directory)).contains_key(name) && reconcile_spec(
                baseline,
                scan_of(directory),
            )[name].action == Action::Delete ==> directed(directives, name),
    ensures
        ({
            let next = concluded(reconcile_spec(baseline, scan_of(directory)), directives);
            let after = performed_all(directory, changes_for(directives));
            reconcile_spec(next, scan_of(after)) == next
        }),
{
    let next = concluded(reconcile_spec(baseline, scan_of(directory)), directives);
    let after = performed_all(directory, changes_for(directives));
    lemma_concluded_round_is_settled(baseline, directory, directives);
    lemma_reconcile_settled_is_identity(next, scan_of(after));
}

} // verus!
