//! The state mapping: filename to tracked entry, each filename at most once.

use vstd::prelude::*;
use crate::entry::{Action, EntrySpec, FileEntry};
use crate::text::same_text;

verus! {

/// The mathematical values of a run of entries, in the same order.
pub open spec fn views(entries: Seq<FileEntry>) -> Seq<EntrySpec> {
    entries.map_values(|entry: FileEntry| entry@)
}

/// No filename occurs twice in the list.
pub open spec fn distinct_names(entries: Seq<EntrySpec>) -> bool {
    forall|i: int, j: int|
        0 <= i < j < entries.len() ==> (#[trigger] entries[i]).filename != (
        #[trigger] entries[j]).filename
}

/// Some entry of the list carries this filename.
pub open spec fn listed(entries: Seq<EntrySpec>, name: Seq<char>) -> bool {
    exists|i: int| 0 <= i < entries.len() && (#[trigger] entries[i]).filename == name
}

/// A position at which the list carries this filename, if there is one.
pub open spec fn index_of(entries: Seq<EntrySpec>, name: Seq<char>) -> int {
    choose|i: int| 0 <= i < entries.len() && (#[trigger] entries[i]).filename == name
}

/// The mapping that a list of entries stands for.
pub open spec fn as_map(entries: Seq<EntrySpec>) -> Map<Seq<char>, EntrySpec> {
    Map::new(|name: Seq<char>| listed(entries, name), |name: Seq<char>| entries[index_of(entries, name)])
}

/// In a list without repeated filenames every entry is what the mapping holds
/// under its filename.
pub proof fn lemma_as_map_at(entries: Seq<EntrySpec>, i: int)
    requires
        distinct_names(entries),
        0 <= i < entries.len(),
    ensures
        as_map(entries).contains_key(entries[i].filename),
        as_map(entries)[entries[i].filename] == entries[i],
        index_of(entries, entries[i].filename) == i,
{
    let name = entries[i].filename;
    assert(listed(entries, name));
    let j = index_of(entries, name);
    assert(0 <= j < entries.len() && entries[j].filename == name);
    if j != i {
        if j < i {
            assert(entries[j].filename != entries[i].filename);
        } else {
            assert(entries[i].filename != entries[j].filename);
        }
    }
}

/// Every key of the mapping is the filename of the entry stored under it, and
/// that entry stands in the list.
pub proof fn lemma_as_map_key(entries: Seq<EntrySpec>, name: Seq<char>)
    requires
        as_map(entries).contains_key(name),
    ensures
        0 <= index_of(entries, name) < entries.len(),
        entries[index_of(entries, name)].filename == name,
        as_map(entries)[name] == entries[index_of(entries, name)],
        as_map(entries)[name].filename == name,
{
    assert(listed(entries, name));
}

/// Appending an entry under a new filename inserts it into the mapping.
pub proof fn lemma_as_map_push(entries: Seq<EntrySpec>, entry: EntrySpec)
    requires
        distinct_names(entries),
        !listed(entries, entry.filename),
    ensures
        distinct_names(entries.push(entry)),
        as_map(entries.push(entry)) == as_map(entries).insert(entry.filename, entry),
{
    let longer = entries.push(entry);
    assert forall|i: int, j: int| 0 <= i < j < longer.len() implies (#[trigger] longer[i]).filename
        != (#[trigger] longer[j]).filename by {
        if j == entries.len() {
            assert(longer[i] == entries[i]);
        } else {
            assert(longer[i] == entries[i] && longer[j] == entries[j]);
        }
    }
    assert forall|name: Seq<char>| listed(longer, name) <==> (listed(entries, name) || name
        == entry.filename) by {
        if listed(longer, name) {
            let i = index_of(longer, name);
            if i < entries.len() {
                assert(entries[i].filename == name);
            }
        }
        if listed(entries, name) {
            let i = index_of(entries, name);
            assert(longer[i].filename == name);
        }
        if name == entry.filename {
            assert(longer[entries.len() as int].filename == name);
        }
    }
    assert forall|name: Seq<char>| listed(longer, name) implies #[trigger] as_map(longer)[name]
        == as_map(entries).insert(entry.filename, entry)[name] by {
        let i = index_of(longer, name);
        lemma_as_map_at(longer, i);
        if i < entries.len() {
            assert(longer[i] == entries[i]);
            lemma_as_map_at(entries, i);
        }
    }
    assert(as_map(longer) =~= as_map(entries).insert(entry.filename, entry));
}

/// Replacing an entry by one of the same filename overwrites it in the
/// mapping.
pub proof fn lemma_as_map_update(entries: Seq<EntrySpec>, i: int, entry: EntrySpec)
    requires
        distinct_names(entries),
        0 <= i < entries.len(),
        entries[i].filename == entry.filename,
    ensures
        distinct_names(entries.update(i, entry)),
        as_map(entries.update(i, entry)) == as_map(entries).insert(entry.filename, entry),
{
    let changed = entries.update(i, entry);
    assert forall|a: int, b: int| 0 <= a < b < changed.len() implies (#[trigger] changed[a]).filename
        != (#[trigger] changed[b]).filename by {
        assert(changed[a].filename == entries[a].filename);
        assert(changed[b].filename == entries[b].filename);
    }
    assert forall|name: Seq<char>| listed(changed, name) <==> listed(entries, name) by {
        if listed(changed, name) {
            let k = index_of(changed, name);
            assert(entries[k].filename == name);
        }
        if listed(entries, name) {
            let k = index_of(entries, name);
            assert(changed[k].filename == name);
        }
    }
    assert(listed(entries, entry.filename));
    assert forall|name: Seq<char>| listed(changed, name) implies #[trigger] as_map(changed)[name]
        == as_map(entries).insert(entry.filename, entry)[name] by {
        let k = index_of(changed, name);
        lemma_as_map_at(changed, k);
        if k != i {
            assert(changed[k] == entries[k]);
            lemma_as_map_at(entries, k);
            lemma_as_map_at(entries, i);
        }
    }
    assert(as_map(changed) =~= as_map(entries).insert(entry.filename, entry));
}

/// Taking an entry out of the list removes its filename from the mapping.
pub proof fn lemma_as_map_remove(entries: Seq<EntrySpec>, i: int)
    requires
        distinct_names(entries),
        0 <= i < entries.len(),
    ensures
        distinct_names(entries.remove(i)),
        as_map(entries.remove(i)) == as_map(entries).remove(entries[i].filename),
{
    let shorter = entries.remove(i);
    let gone = entries[i].filename;
    assert forall|a: int| 0 <= a < shorter.len() implies #[trigger] shorter[a] == entries[if a
        < i {
        a
    } else {
        a + 1
    }] by {}
    assert forall|a: int, b: int| 0 <= a < b < shorter.len() implies (#[trigger] shorter[a]).filename
        != (#[trigger] shorter[b]).filename by {
        let a2 = if a < i { a } else { a + 1 };
        let b2 = if b < i { b } else { b + 1 };
        assert(shorter[a] == entries[a2] && shorter[b] == entries[b2]);
    }
    assert forall|name: Seq<char>| listed(shorter, name) <==> (listed(entries, name) && name
        != gone) by {
        if listed(shorter, name) {
            let k = index_of(shorter, name);
            let k2 = if k < i { k } else { k + 1 };
            assert(shorter[k] == entries[k2]);
            assert(entries[k2].filename == name);
            if k2 < i {
                assert(entries[k2].filename != entries[i].filename);
            } else {
                assert(entries[i].filename != entries[k2].filename);
            }
        }
        if listed(entries, name) && name != gone {
            let k = index_of(entries, name);
            let k2 = if k < i { k } else { k - 1 };
            assert(shorter[k2] == entries[k]);
        }
    }
    assert forall|name: Seq<char>| listed(shorter, name) implies #[trigger] as_map(shorter)[name]
        == as_map(entries).remove(gone)[name] by {
        let k = index_of(shorter, name);
        let k2 = if k < i { k } else { k + 1 };
        lemma_as_map_at(shorter, k);
        assert(shorter[k] == entries[k2]);
        lemma_as_map_at(entries, k2);
    }
    assert(as_map(shorter) =~= as_map(entries).remove(gone));
}

/// An entry put at rest: the same file, digest and version, nothing left to
/// send.
pub open spec fn at_rest(entry: EntrySpec) -> EntrySpec {
    EntrySpec { action: Action::Pass, ..entry }
}

/// A mapping with every entry put at rest.
pub open spec fn settled_all(mapping: Map<Seq<char>, EntrySpec>) -> Map<Seq<char>, EntrySpec> {
    Map::new(
        |name: Seq<char>| mapping.contains_key(name),
        |name: Seq<char>| at_rest(mapping[name]),
    )
}

/// Putting every entry of a list at rest puts every entry of the mapping at
/// rest and keeps the filenames apart.
pub proof fn lemma_as_map_at_rest(entries: Seq<EntrySpec>)
    requires
        distinct_names(entries),
    ensures
        distinct_names(entries.map_values(|entry: EntrySpec| at_rest(entry))),
        as_map(entries.map_values(|entry: EntrySpec| at_rest(entry))) == settled_all(
            as_map(entries),
        ),
{
    let rested = entries.map_values(|entry: EntrySpec| at_rest(entry));
    assert forall|i: int, j: int| 0 <= i < j < rested.len() implies (#[trigger] rested[i]).filename
        != (#[trigger] rested[j]).filename by {
        assert(entries[i].filename != entries[j].filename);
    }
    assert forall|name: Seq<char>| listed(rested, name) <==> listed(entries, name) by {
        if listed(rested, name) {
            let i = index_of(rested, name);
            assert(entries[i].filename == name);
        }
        if listed(entries, name) {
            let i = index_of(entries, name);
            assert(rested[i].filename == name);
        }
    }
    assert forall|name: Seq<char>| listed(entries, name) implies #[trigger] as_map(rested)[name]
        == at_rest(as_map(entries)[name]) by {
        let i = index_of(entries, name);
        lemma_as_map_at(entries, i);
        assert(rested[i].filename == name);
        lemma_as_map_at(rested, i);
    }
    assert(as_map(rested) =~= settled_all(as_map(entries)));
}

/// A list without repeated filenames stands for a finite mapping with one
/// key for each of its entries.
pub proof fn lemma_as_map_len(entries: Seq<EntrySpec>)
    requires
        distinct_names(entries),
    ensures
        as_map(entries).dom().finite(),
        as_map(entries).dom().len() == entries.len(),
    decreases entries.len(),
{
    if entries.len() == 0 {
        assert(as_map(entries).dom() =~= Set::<Seq<char>>::empty());
    } else {
        let shorter = entries.drop_last();
        let last = entries.last();
        assert forall|i: int, j: int| 0 <= i < j < shorter.len() implies (#[trigger] shorter[i]).filename
            != (#[trigger] shorter[j]).filename by {
            assert(shorter[i] == entries[i] && shorter[j] == entries[j]);
        }
        if listed(shorter, last.filename) {
            let i = index_of(shorter, last.filename);
            assert(entries[i].filename != entries[entries.len() - 1].filename);
        }
        lemma_as_map_len(shorter);
        lemma_as_map_push(shorter, last);
        assert(shorter.push(last) =~= entries);
        assert(as_map(shorter).insert(last.filename, last).dom() =~= as_map(shorter).dom().insert(
            last.filename,
        ));
    }
}

/// The baseline of a synchronised directory: for each tracked filename its
/// entry.  A filename occurs at most once.
#[derive(Debug)]
pub struct StateMapping {
    rows: Vec<FileEntry>,
}

impl View for StateMapping {
    type V = Map<Seq<char>, EntrySpec>;

    /// The mapping from filename to entry.
    open spec fn view(&self) -> Map<Seq<char>, EntrySpec> {
        as_map(self.entries())
    }
}

impl StateMapping {
    /// The entries in the order in which the mapping keeps them.
    pub closed spec fn entries(&self) -> Seq<EntrySpec> {
        views(self.rows@)
    }

    #[verifier::type_invariant]
    spec fn names_are_distinct(&self) -> bool {
        distinct_names(views(self.rows@))
    }

    /// The empty mapping.
    pub fn new() -> (mapping: StateMapping)
        ensures
            mapping.entries() == Seq::<EntrySpec>::empty(),
            mapping@ == Map::<Seq<char>, EntrySpec>::empty(),
    {
        let mapping = StateMapping { rows: Vec::new() };
        assert(mapping.entries() =~= Seq::<EntrySpec>::empty());
        assert(mapping@ =~= Map::<Seq<char>, EntrySpec>::empty());
        mapping
    }

    /// A mapping over rows whose filenames are known to differ.
    pub(crate) fn from_distinct(rows: Vec<FileEntry>) -> (mapping: StateMapping)
        requires
            distinct_names(views(rows@)),
        ensures
            mapping.entries() == views(rows@),
    {
        StateMapping { rows }
    }

    /// The entries as a slice, in the mapping's order.  No filename occurs
    /// twice in it.
    pub fn as_slice(&self) -> (rows: &[FileEntry])
        ensures
            views(rows@) == self.entries(),
            distinct_names(self.entries()),
    {
        proof {
            use_type_invariant(self);
        }
        self.rows.as_slice()
    }

    /// The number of tracked filenames.
    pub fn len(&self) -> (count: usize)
        ensures
            count == self.entries().len(),
            self@.dom().finite(),
            count == self@.dom().len(),
    {
        proof {
            use_type_invariant(self);
            lemma_as_map_len(self.entries());
        }
        self.rows.len()
    }

    /// Whether no filename is tracked.
    pub fn is_empty(&self) -> (empty: bool)
        ensures
            empty == (self.entries().len() == 0),
            empty == (self@ == Map::<Seq<char>, EntrySpec>::empty()),
    {
        proof {
            use_type_invariant(self);
            lemma_as_map_len(self.entries());
            if self.rows.len() == 0 {
                assert(self@ =~= Map::<Seq<char>, EntrySpec>::empty());
            }
        }
        self.rows.len() == 0
    }

    /// Where in the mapping's order a filename stands.
    pub fn position(&self, name: &str) -> (found: Option<usize>)
        ensures
            found is Some <==> self@.contains_key(name@),
            found is Some ==> found.unwrap() as int == index_of(self.entries(), name@),
    {
        proof {
            use_type_invariant(self);
        }
        let mut i: usize = 0;
        while i < self.rows.len()
            invariant
                i <= self.rows.len(),
                distinct_names(views(self.rows@)),
                forall|j: int| 0 <= j < i ==> (#[trigger] views(self.rows@)[j]).filename != name@,
            decreases self.rows.len() - i,
        {
            if same_text(self.rows[i].filename.as_str(), name) {
                proof {
                    assert(views(self.rows@)[i as int].filename == name@);
                    lemma_as_map_at(views(self.rows@), i as int);
                }
                return Some(i);
            }
            i += 1;
        }
        proof {
            if listed(self.entries(), name@) {
                let j = index_of(self.entries(), name@);
                assert(views(self.rows@)[j].filename == name@);
            }
        }
        None
    }

    /// Whether a filename is tracked.
    pub fn contains(&self, name: &str) -> (present: bool)
        ensures
            present == self@.contains_key(name@),
    {
        self.position(name).is_some()
    }

    /// The entry tracked under a filename.
    pub fn get(&self, name: &str) -> (found: Option<&FileEntry>)
        ensures
            found is Some <==> self@.contains_key(name@),
            found is Some ==> found.unwrap()@ == self@[name@],
    {
        match self.position(name) {
            Some(i) => {
                proof {
                    lemma_as_map_key(self.entries(), name@);
                }
                Some(&self.rows[i])
            },
            None => None,
        }
    }

    /// Stores an entry under its filename, in place of the one tracked there
    /// before if there was one, else at the end of the mapping's order.
    pub fn upsert(&mut self, entry: FileEntry)
        ensures
            final(self)@ == old(self)@.insert(entry.filename@, entry@),
            old(self)@.contains_key(entry.filename@) ==> final(self).entries() == old(
                self,
            ).entries().update(index_of(old(self).entries(), entry.filename@), entry@),
            !old(self)@.contains_key(entry.filename@) ==> final(self).entries() == old(
                self,
            ).entries().push(entry@),
    {
        proof {
            use_type_invariant(&*self);
        }
        let at = self.position(entry.filename.as_str());
        let ghost before = views(self.rows@);
        let mut rows = Vec::new();
        std::mem::swap(&mut rows, &mut self.rows);
        match at {
            Some(i) => {
                proof {
                    lemma_as_map_key(before, entry.filename@);
                    lemma_as_map_update(before, i as int, entry@);
                }
                rows.set(i, entry);
                assert(views(rows@) =~= before.update(i as int, entry@));
            },
            None => {
                proof {
                    lemma_as_map_push(before, entry@);
                }
                rows.push(entry);
                assert(views(rows@) =~= before.push(entry@));
            },
        }
        self.rows = rows;
    }

    /// Puts every entry at rest, as the end of a successful round does: each
    /// keeps its filename, digest and version, and its action becomes
    /// [`Action::Pass`].  The order of the entries stays.
    ///
    /// A deletion that the remote did not confirm is put at rest as well: the
    /// entry stays, and as long as the file is missing the next pass flags it
    /// again.
    pub fn settle_all(&mut self)
        ensures
            final(self)@ == settled_all(old(self)@),
            final(self).entries() == old(self).entries().map_values(
                |entry: EntrySpec| at_rest(entry),
            ),
    {
        proof {
            use_type_invariant(&*self);
        }
        let ghost before = views(self.rows@);
        let mut rows = Vec::new();
        std::mem::swap(&mut rows, &mut self.rows);
        let mut rested: Vec<FileEntry> = Vec::new();
        let mut i: usize = 0;
        assert(views(rested@) =~= before.take(0).map_values(|entry: EntrySpec| at_rest(entry)));
        while i < rows.len()
            invariant
                i <= rows.len(),
                views(rows@) == before,
                views(rested@) == before.take(i as int).map_values(
                    |entry: EntrySpec| at_rest(entry),
                ),
            decreases rows.len() - i,
        {
            let row = &rows[i];
            let ghost done = views(rested@);
            assert(row@ == before[i as int]);
            rested.push(
                FileEntry {
                    filename: row.filename.clone(),
                    hash: row.hash.clone(),
                    version: row.version,
                    action: Action::Pass,
                },
            );
            proof {
                assert(views(rested@) =~= done.push(at_rest(row@)));
                assert(before.take(i as int + 1).map_values(|entry: EntrySpec| at_rest(entry))
                    =~= done.push(at_rest(row@)));
            }
            i += 1;
        }
        proof {
            assert(before.take(rows.len() as int) =~= before);
            lemma_as_map_at_rest(before);
        }
        self.rows = rested;
    }

    /// Stops tracking a filename and hands back the entry that was tracked
    /// under it, if there was one.
    pub fn remove(&mut self, name: &str) -> (removed: Option<FileEntry>)
        ensures
            final(self)@ == old(self)@.remove(name@),
            removed is Some <==> old(self)@.contains_key(name@),
            removed is Some ==> removed.unwrap()@ == old(self)@[name@],
            old(self)@.contains_key(name@) ==> final(self).entries() == old(self).entries().remove(
                index_of(old(self).entries(), name@),
            ),
            !old(self)@.contains_key(name@) ==> final(self).entries() == old(self).entries(),
    {
        proof {
            use_type_invariant(&*self);
        }
        let ghost before = views(self.rows@);
        match self.position(name) {
            Some(i) => {
                proof {
                    lemma_as_map_key(before, name@);
                    lemma_as_map_remove(before, i as int);
                }
                let mut rows = Vec::new();
                std::mem::swap(&mut rows, &mut self.rows);
                let entry = rows.remove(i);
                assert(views(rows@) =~= before.remove(i as int));
                self.rows = rows;
                Some(entry)
            },
            None => {
                assert(self@ =~= old(self)@.remove(name@));
                None
            },
        }
    }
}

} // verus!
