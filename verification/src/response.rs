//! The inbound half of the exchange: the remote's directives merged into the
//! mapping.
//!
//! The remote answers with one directive per file that it has decided on.  A
//! deletion takes the file out of the mapping.  Anything else puts the
//! directive's bytes in place: the entry then holds the digest of those
//! bytes, computed here and not taken from anyone's word, the version that
//! the remote gave, and is at rest.  What has to happen on disk is handed to
//! the caller as a list of changes.

use vstd::prelude::*;
use vstd::slice::slice_to_vec;
use crate::entry::{action_named, Action, EntrySpec, FileEntry};
use crate::error::SyncError;
use crate::hasher::{hash_bytes, is_hex_digest, sha256_hex};
use crate::mapping::{at_rest, settled_all, StateMapping};

verus! {

/// Mathematical value of a [`Directive`].
pub struct DirectiveSpec {
    pub filename: Seq<char>,
    pub action: Action,
    pub version: nat,
    pub contents: Seq<u8>,
}

/// The remote's decision on one file.
#[derive(Debug)]
pub struct Directive {
    pub filename: String,
    pub action: Action,
    pub version: u64,
    pub contents: Vec<u8>,
}

impl View for Directive {
    type V = DirectiveSpec;

    open spec fn view(&self) -> DirectiveSpec {
        DirectiveSpec {
            filename: self.filename@,
            action: self.action,
            version: self.version as nat,
            contents: self.contents@,
        }
    }
}

/// The action that a directive's word stands for: one of the four names, and
/// for any other word the settling of the file, which is what every
/// directive but a deletion asks for.
pub open spec fn directive_action(word: Seq<char>) -> Action {
    match action_named(word) {
        Some(action) => action,
        None => Action::Pass,
    }
}

/// Whether the parts of an answer make a directive: every directive but a
/// deletion has to give the version of the content it carries.
pub open spec fn directive_complete(word: Seq<char>, version: Option<u64>) -> bool {
    directive_action(word) == Action::Delete || version is Some
}

/// The version that a directive carries; a deletion that names none carries
/// version 0, which nothing reads.
pub open spec fn directive_version(version: Option<u64>) -> u64 {
    match version {
        Some(version) => version,
        None => 0,
    }
}

impl Directive {
    /// A directive from the parts of the remote's answer, with the action
    /// given by its word.
    ///
    /// Fails with [`SyncError::NetworkError`], for an answer that cannot be
    /// followed, exactly if the directive is no deletion and names no
    /// version.
    pub fn from_parts(
        filename: String,
        action: &str,
        version: Option<u64>,
        contents: Vec<u8>,
    ) -> (made: Result<Directive, SyncError>)
        ensures
            directive_complete(action@, version) ==> made is Ok && made->Ok_0.filename == filename
                && made->Ok_0.action == directive_action(action@) && made->Ok_0.version
                == directive_version(version) && made->Ok_0.contents == contents,
            !directive_complete(action@, version) ==> made == Err::<Directive, SyncError>(
                SyncError::NetworkError,
            ),
    {
        let action = match Action::from_name(action) {
            Some(action) => action,
            None => Action::Pass,
        };
        match (action, version) {
            (_, Some(version)) => Ok(Directive { filename, action, version, contents }),
            (Action::Delete, None) => Ok(Directive { filename, action, version: 0, contents }),
            (_, None) => Err(SyncError::NetworkError),
        }
    }
}

/// The mathematical values of a run of directives, in the same order.
pub open spec fn directive_views(directives: Seq<Directive>) -> Seq<DirectiveSpec> {
    directives.map_values(|directive: Directive| directive@)
}

/// Mathematical value of a [`FileChange`].
pub enum FileChangeSpec {
    Remove { filename: Seq<char> },
    Write { filename: Seq<char>, contents: Seq<u8> },
}

/// What the caller has to do on disk for one directive.
#[derive(Debug)]
pub enum FileChange {
    /// Delete the file if it exists.
    Remove { filename: String },
    /// Create the parent directories as needed and write the bytes.
    Write { filename: String, contents: Vec<u8> },
}

impl View for FileChange {
    type V = FileChangeSpec;

    open spec fn view(&self) -> FileChangeSpec {
        match self {
            FileChange::Remove { filename } => FileChangeSpec::Remove { filename: filename@ },
            FileChange::Write { filename, contents } => FileChangeSpec::Write {
                filename: filename@,
                contents: contents@,
            },
        }
    }
}

/// The mathematical values of a run of changes, in the same order.
pub open spec fn change_views(changes: Seq<FileChange>) -> Seq<FileChangeSpec> {
    changes.map_values(|change: FileChange| change@)
}

/// The entry of a file at rest.
pub open spec fn settled_entry(name: Seq<char>, hash: Seq<char>, version: nat) -> EntrySpec {
    EntrySpec { filename: name, hash, version, action: Action::Pass }
}

/// The mapping after one directive.
pub open spec fn applied(
    mapping: Map<Seq<char>, EntrySpec>,
    directive: DirectiveSpec,
) -> Map<Seq<char>, EntrySpec> {
    if directive.action == Action::Delete {
        mapping.remove(directive.filename)
    } else {
        mapping.insert(
            directive.filename,
            settled_entry(directive.filename, sha256_hex(directive.contents), directive.version),
        )
    }
}

/// The mapping after a run of directives, taken in order.
pub open spec fn applied_all(
    mapping: Map<Seq<char>, EntrySpec>,
    directives: Seq<DirectiveSpec>,
) -> Map<Seq<char>, EntrySpec>
    decreases directives.len(),
{
    if directives.len() == 0 {
        mapping
    } else {
        applied(applied_all(mapping, directives.drop_last()), directives.last())
    }
}

/// The change on disk that a directive asks for.
pub open spec fn change_for(directive: DirectiveSpec) -> FileChangeSpec {
    if directive.action == Action::Delete {
        FileChangeSpec::Remove { filename: directive.filename }
    } else {
        FileChangeSpec::Write { filename: directive.filename, contents: directive.contents }
    }
}

/// Some directive of the run names this file.
pub open spec fn directed(directives: Seq<DirectiveSpec>, name: Seq<char>) -> bool {
    exists|i: int| 0 <= i < directives.len() && (#[trigger] directives[i]).filename == name
}

/// Puts a file at rest in the mapping, with the digest of its content and
/// the version that the remote gave it.
pub fn settle(mapping: &mut StateMapping, filename: String, hash: String, version: u64)
    ensures
        final(mapping)@ == old(mapping)@.insert(
            filename@,
            settled_entry(filename@, hash@, version as nat),
        ),
{
    mapping.upsert(FileEntry { filename, hash, version, action: Action::Pass });
}

/// Merges one directive into the mapping and says what has to happen on
/// disk.  The digest that a settled entry gets has the shape of a digest.
pub fn apply_directive(mapping: &mut StateMapping, directive: &Directive) -> (change: FileChange)
    ensures
        final(mapping)@ == applied(old(mapping)@, directive@),
        change@ == change_for(directive@),
        directive.action != Action::Delete ==> is_hex_digest(sha256_hex(directive.contents@)),
{
    match directive.action {
        Action::Delete => {
            let _ = mapping.remove(directive.filename.as_str());
            FileChange::Remove { filename: directive.filename.clone() }
        },
        _ => {
            let hash = hash_bytes(directive.contents.as_slice());
            settle(mapping, directive.filename.clone(), hash, directive.version);
            FileChange::Write {
                filename: directive.filename.clone(),
                contents: slice_to_vec(directive.contents.as_slice()),
            }
        },
    }
}

/// Merges the remote's answer into the mapping, directive by directive, and
/// lists what has to happen on disk, in the same order.
pub fn apply_response(mapping: &mut StateMapping, directives: &[Directive]) -> (changes: Vec<
    FileChange,
>)
    ensures
        final(mapping)@ == applied_all(old(mapping)@, directive_views(directives@)),
        change_views(changes@) == directive_views(directives@).map_values(
            |directive: DirectiveSpec| change_for(directive),
        ),
{
    let ghost all = directive_views(directives@);
    let mut changes: Vec<FileChange> = Vec::new();
    let mut i: usize = 0;
    assert(all.take(0) =~= Seq::<DirectiveSpec>::empty());
    assert(change_views(changes@) =~= all.take(0).map_values(
        |directive: DirectiveSpec| change_for(directive),
    ));
    while i < directives.len()
        invariant
            i <= directives.len(),
            all == directive_views(directives@),
            mapping@ == applied_all(old(mapping)@, all.take(i as int)),
            change_views(changes@) == all.take(i as int).map_values(
                |directive: DirectiveSpec| change_for(directive),
            ),
        decreases directives.len() - i,
    {
        let ghost done = change_views(changes@);
        proof {
            let longer = all.take(i as int + 1);
            assert(longer.drop_last() =~= all.take(i as int));
            assert(longer.last() == directives@[i as int]@);
        }
        let change = apply_directive(mapping, &directives[i]);
        changes.push(change);
        proof {
            assert(change_views(changes@) =~= done.push(change_for(all[i as int])));
            assert(all.take(i as int + 1).map_values(
                |directive: DirectiveSpec| change_for(directive),
            ) =~= done.push(change_for(all[i as int])));
        }
        i += 1;
    }
    assert(all.take(directives.len() as int) =~= all);
    changes
}

/// A run of directives names a file exactly if the run without its last
/// directive names it or the last directive does.
pub proof fn lemma_directed_unfold(directives: Seq<DirectiveSpec>, name: Seq<char>)
    requires
        directives.len() > 0,
    ensures
        directed(directives, name) <==> (directed(directives.drop_last(), name)
            || directives.last().filename == name),
{
    let before = directives.drop_last();
    if directed(before, name) {
        let i = choose|i: int| 0 <= i < before.len() && (#[trigger] before[i]).filename == name;
        assert(directives[i].filename == name);
    }
    if directives.last().filename == name {
        assert(directives[directives.len() - 1].filename == name);
    }
    if directed(directives, name) && directives.last().filename != name {
        let i = choose|i: int|
            0 <= i < directives.len() && (#[trigger] directives[i]).filename == name;
        assert(before[i].filename == name);
    }
}

/// What a run of directives does to one filename: if none of them names it,
/// the mapping holds for it what it held before; if one does, the filename
/// is either gone or at rest.
pub proof fn lemma_applied_all_at(
    mapping: Map<Seq<char>, EntrySpec>,
    directives: Seq<DirectiveSpec>,
    name: Seq<char>,
)
    ensures
        !directed(directives, name) ==> (applied_all(mapping, directives).contains_key(name)
            <==> mapping.contains_key(name)),
        !directed(directives, name) && mapping.contains_key(name) ==> applied_all(
            mapping,
            directives,
        )[name] == mapping[name],
        directed(directives, name) && applied_all(mapping, directives).contains_key(name) ==> {
            &&& applied_all(mapping, directives)[name].filename == name
            &&& applied_all(mapping, directives)[name].action == Action::Pass
        },
    decreases directives.len(),
{
    if directives.len() > 0 {
        lemma_applied_all_at(mapping, directives.drop_last(), name);
        lemma_directed_unfold(directives, name);
    }
}

/// A deletion that the remote confirms takes the file out of the mapping:
/// after a run of directives whose last word on a filename is a deletion, the
/// mapping does not hold that filename.
pub proof fn lemma_confirmed_delete_is_gone(
    mapping: Map<Seq<char>, EntrySpec>,
    directives: Seq<DirectiveSpec>,
    at: int,
)
    requires
        0 <= at < directives.len(),
        directives[at].action == Action::Delete,
        forall|j: int| at < j < directives.len() ==> (#[trigger] directives[j]).filename
            != directives[at].filename,
    ensures
        !applied_all(mapping, directives).contains_key(directives[at].filename),
    decreases directives.len(),
{
    let before = directives.drop_last();
    if at < directives.len() - 1 {
        assert(before[at] == directives[at]);
        assert forall|j: int| at < j < before.len() implies (#[trigger] before[j]).filename
            != before[at].filename by {
            assert(before[j] == directives[j]);
        }
        lemma_confirmed_delete_is_gone(mapping, before, at);
        assert(directives.last().filename != directives[at].filename);
    }
}

/// The mapping at the end of a successful round: the remote's answer merged
/// in, then every entry that is left put at rest.
pub open spec fn concluded(
    mapping: Map<Seq<char>, EntrySpec>,
    directives: Seq<DirectiveSpec>,
) -> Map<Seq<char>, EntrySpec> {
    settled_all(applied_all(mapping, directives))
}

/// Ends a successful round on the mapping: merges the remote's answer,
/// directive by directive, puts every entry that is left at rest, and lists
/// what has to happen on disk, in the directives' order.  The mapping is then
/// what is persisted as the new baseline.
pub fn conclude_round(mapping: &mut StateMapping, directives: &[Directive]) -> (changes: Vec<
    FileChange,
>)
    ensures
        final(mapping)@ == concluded(old(mapping)@, directive_views(directives@)),
        change_views(changes@) == directive_views(directives@).map_values(
            |directive: DirectiveSpec| change_for(directive),
        ),
{
    let changes = apply_response(mapping, directives);
    mapping.settle_all();
    changes
}

/// After a successful round every entry is at rest, whatever the remote
/// answered.  An entry that no directive names keeps its filename, digest and
/// version; a file that no directive names and that the mapping did not hold
/// is not held afterwards either.
pub proof fn lemma_round_ends_at_rest(
    mapping: Map<Seq<char>, EntrySpec>,
    directives: Seq<DirectiveSpec>,
    name: Seq<char>,
)
    ensures
        concluded(mapping, directives).contains_key(name) ==> concluded(
            mapping,
            directives,
        )[name].action == Action::Pass,
        !directed(directives, name) ==> (concluded(mapping, directives).contains_key(name)
            <==> mapping.contains_key(name)),
        !directed(directives, name) && mapping.contains_key(name) ==> concluded(
            mapping,
            directives,
        )[name] == at_rest(mapping[name]),
{
    lemma_applied_all_at(mapping, directives, name);
}

} // verus!
