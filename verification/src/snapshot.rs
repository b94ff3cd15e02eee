//! The result of a directory scan: filename to content digest.

use vstd::prelude::*;
use crate::entry::{Action, EntrySpec, FileEntry};
use crate::mapping::{index_of, lemma_as_map_key, StateMapping};

verus! {

/// The entry that a scanned file stands for before it is held against the
/// baseline: a creation at version 1.
pub open spec fn tentative_entry(name: Seq<char>, hash: Seq<char>) -> EntrySpec {
    EntrySpec { filename: name, hash, version: 1, action: Action::Create }
}

/// A scan as a mapping of tentative entries.
pub open spec fn tentative_map(scan: Map<Seq<char>, Seq<char>>) -> Map<Seq<char>, EntrySpec> {
    Map::new(
        |name: Seq<char>| scan.contains_key(name),
        |name: Seq<char>| tentative_entry(name, scan[name]),
    )
}

/// Every entry of the list is a creation at version 1.
pub open spec fn all_tentative(entries: Seq<EntrySpec>) -> bool {
    forall|i: int|
        0 <= i < entries.len() ==> (#[trigger] entries[i]).version == 1 && entries[i].action
            == Action::Create
}

/// The files found by one scan of the directory, each with the digest of its
/// content.  The order in which the scan met them plays no part.
#[derive(Debug)]
pub struct Snapshot {
    seen: StateMapping,
}

impl View for Snapshot {
    type V = Map<Seq<char>, Seq<char>>;

    /// The mapping from filename to content digest.
    closed spec fn view(&self) -> Map<Seq<char>, Seq<char>> {
        Map::new(
            |name: Seq<char>| self.seen@.contains_key(name),
            |name: Seq<char>| self.seen@[name].hash,
        )
    }
}

impl Snapshot {
    #[verifier::type_invariant]
    spec fn entries_are_tentative(&self) -> bool {
        all_tentative(self.seen.entries())
    }

    /// The scan that found nothing.
    pub fn new() -> (snapshot: Snapshot)
        ensures
            snapshot@ == Map::<Seq<char>, Seq<char>>::empty(),
    {
        let snapshot = Snapshot { seen: StateMapping::new() };
        assert(snapshot@ =~= Map::<Seq<char>, Seq<char>>::empty());
        snapshot
    }

    /// The number of files found.
    pub fn len(&self) -> (count: usize)
        ensures
            count == self.tentative_entries().len(),
            self@.dom().finite(),
            count == self@.dom().len(),
    {
        assert(self@.dom() =~= self.seen@.dom());
        self.seen.len()
    }

    /// The scanned files as tentative entries, in the order in which they
    /// were first recorded.
    pub closed spec fn tentative_entries(&self) -> Seq<EntrySpec> {
        self.seen.entries()
    }

    /// The scanned files as a mapping of tentative entries.
    pub fn tentative(&self) -> (mapping: &StateMapping)
        ensures
            mapping@ == tentative_map(self@),
            mapping.entries() == self.tentative_entries(),
    {
        proof {
            use_type_invariant(self);
            let entries = self.seen.entries();
            assert forall|name: Seq<char>| self.seen@.contains_key(name) implies self.seen@[name]
                == tentative_entry(name, self@[name]) by {
                lemma_as_map_key(entries, name);
                assert(entries[index_of(entries, name)].version == 1);
            }
            assert(self.seen@ =~= tentative_map(self@));
        }
        &self.seen
    }

    /// Whether the scan found a file of this name.
    pub fn contains(&self, name: &str) -> (present: bool)
        ensures
            present == self@.contains_key(name@),
    {
        self.seen.contains(name)
    }

    /// The digest recorded for a filename.
    pub fn hash_of(&self, name: &str) -> (found: Option<&String>)
        ensures
            found is Some <==> self@.contains_key(name@),
            found is Some ==> found.unwrap()@ == self@[name@],
    {
        match self.seen.get(name) {
            Some(entry) => Some(&entry.hash),
            None => None,
        }
    }

    /// Records the digest of a file, in place of an earlier digest for the
    /// same filename if there was one.
    pub fn record(&mut self, filename: String, hash: String)
        ensures
            final(self)@ == old(self)@.insert(filename@, hash@),
    {
        proof {
            use_type_invariant(&*self);
        }
        let ghost name = filename@;
        let ghost digest = hash@;
        let mut seen = StateMapping::new();
        std::mem::swap(&mut seen, &mut self.seen);
        let ghost before = seen;
        let entry = FileEntry { filename, hash, version: 1, action: Action::Create };
        seen.upsert(entry);
        proof {
            if before@.contains_key(name) {
                lemma_as_map_key(before.entries(), name);
            }
            assert(all_tentative(seen.entries()));
        }
        self.seen = seen;
        assert(self@ =~= old(self)@.insert(name, digest));
    }
}

} // verus!
