//! The outbound half of the exchange: what is sent to the remote store.
//!
//! A request carries two lists.  `files` holds every entry that is not at
//! rest, with the file's bytes where the remote needs them.  `summary` holds
//! filename, digest and version of every entry, so that the remote sees all
//! that the client knows.

use vstd::prelude::*;
use vstd::slice::slice_to_vec;
use crate::entry::{Action, EntrySpec};
use crate::error::SyncError;
use crate::mapping::{views, StateMapping};
use crate::text::same_text;

verus! {

/// Mathematical value of a [`FilePayload`].
pub struct PayloadSpec {
    pub filename: Seq<char>,
    pub version: nat,
    pub hash: Seq<char>,
    pub action: Action,
    pub contents: Seq<u8>,
}

/// One changed file as it is sent: the entry and, for a creation or an edit,
/// the file's bytes.
#[derive(Debug)]
pub struct FilePayload {
    pub filename: String,
    pub version: u64,
    pub hash: String,
    pub action: Action,
    pub contents: Vec<u8>,
}

impl View for FilePayload {
    type V = PayloadSpec;

    open spec fn view(&self) -> PayloadSpec {
        PayloadSpec {
            filename: self.filename@,
            version: self.version as nat,
            hash: self.hash@,
            action: self.action,
            contents: self.contents@,
        }
    }
}

/// Mathematical value of a [`SummaryEntry`].
pub struct SummarySpec {
    pub filename: Seq<char>,
    pub hash: Seq<char>,
    pub version: nat,
}

/// What the client knows of one file: filename, digest and version.
#[derive(Debug)]
pub struct SummaryEntry {
    pub filename: String,
    pub hash: String,
    pub version: u64,
}

impl View for SummaryEntry {
    type V = SummarySpec;

    open spec fn view(&self) -> SummarySpec {
        SummarySpec { filename: self.filename@, hash: self.hash@, version: self.version as nat }
    }
}

/// Mathematical value of a [`SyncRequest`].
pub struct RequestSpec {
    pub files: Seq<PayloadSpec>,
    pub summary: Seq<SummarySpec>,
}

/// The body of the one request of a sync round.
#[derive(Debug)]
pub struct SyncRequest {
    pub files: Vec<FilePayload>,
    pub summary: Vec<SummaryEntry>,
}

impl View for SyncRequest {
    type V = RequestSpec;

    open spec fn view(&self) -> RequestSpec {
        RequestSpec {
            files: self.files@.map_values(|payload: FilePayload| payload@),
            summary: self.summary@.map_values(|line: SummaryEntry| line@),
        }
    }
}

/// Mathematical value of a [`FileContents`].
pub struct ContentsSpec {
    pub filename: Seq<char>,
    pub bytes: Seq<u8>,
}

/// The bytes of one file, read for upload.
#[derive(Debug)]
pub struct FileContents {
    pub filename: String,
    pub bytes: Vec<u8>,
}

impl View for FileContents {
    type V = ContentsSpec;

    open spec fn view(&self) -> ContentsSpec {
        ContentsSpec { filename: self.filename@, bytes: self.bytes@ }
    }
}

/// The mathematical values of the contents that were read, in order.
pub open spec fn contents_views(supplied: Seq<FileContents>) -> Seq<ContentsSpec> {
    supplied.map_values(|contents: FileContents| contents@)
}

/// Whether the file's bytes travel with an entry of this action.
pub open spec fn carries_contents(action: Action) -> bool {
    action == Action::Create || action == Action::Edit
}

/// The bytes read for a filename: those of the first item of that name.
pub open spec fn supplied_for(supplied: Seq<ContentsSpec>, name: Seq<char>) -> Option<Seq<u8>>
    decreases supplied.len(),
{
    if supplied.len() == 0 {
        None
    } else if supplied[0].filename == name {
        Some(supplied[0].bytes)
    } else {
        supplied_for(supplied.drop_first(), name)
    }
}

/// Whether the bytes of every file that is created or edited were read.
pub open spec fn contents_complete(entries: Seq<EntrySpec>, supplied: Seq<ContentsSpec>) -> bool {
    forall|i: int|
        0 <= i < entries.len() && carries_contents((#[trigger] entries[i]).action)
            ==> supplied_for(supplied, entries[i].filename) is Some
}

/// The summary line of an entry.
pub open spec fn summary_of(entry: EntrySpec) -> SummarySpec {
    SummarySpec { filename: entry.filename, hash: entry.hash, version: entry.version }
}

/// The payload of an entry: the entry itself, with the bytes read for it if
/// it is a creation or an edit and with no bytes otherwise.
pub open spec fn payload_of(entry: EntrySpec, supplied: Seq<ContentsSpec>) -> PayloadSpec {
    PayloadSpec {
        filename: entry.filename,
        version: entry.version,
        hash: entry.hash,
        action: entry.action,
        contents: if carries_contents(entry.action) {
            supplied_for(supplied, entry.filename)->0
        } else {
            Seq::<u8>::empty()
        },
    }
}

/// The `files` list for a run of entries: the payloads of those that are not
/// at rest, in the entries' order.
pub open spec fn outbound_files(entries: Seq<EntrySpec>, supplied: Seq<ContentsSpec>) -> Seq<
    PayloadSpec,
>
    decreases entries.len(),
{
    if entries.len() == 0 {
        Seq::<PayloadSpec>::empty()
    } else if entries.last().action == Action::Pass {
        outbound_files(entries.drop_last(), supplied)
    } else {
        outbound_files(entries.drop_last(), supplied).push(payload_of(entries.last(), supplied))
    }
}

/// The filenames whose bytes have to be read: those of the creations and
/// edits, in the entries' order.
pub open spec fn upload_names_spec(entries: Seq<EntrySpec>) -> Seq<Seq<char>>
    decreases entries.len(),
{
    if entries.len() == 0 {
        Seq::<Seq<char>>::empty()
    } else if carries_contents(entries.last().action) {
        upload_names_spec(entries.drop_last()).push(entries.last().filename)
    } else {
        upload_names_spec(entries.drop_last())
    }
}

/// The request for a run of entries and the contents read for them.
pub open spec fn request_spec(entries: Seq<EntrySpec>, supplied: Seq<ContentsSpec>) -> RequestSpec {
    RequestSpec {
        files: outbound_files(entries, supplied),
        summary: entries.map_values(|entry: EntrySpec| summary_of(entry)),
    }
}

/// The views of a list of names.
pub open spec fn name_views(names: Seq<String>) -> Seq<Seq<char>> {
    names.map_values(|name: String| name@)
}

/// The filenames whose bytes the request needs: the creations and edits of
/// the mapping, in its order.
pub fn upload_names(mapping: &StateMapping) -> (names: Vec<String>)
    ensures
        name_views(names@) == upload_names_spec(mapping.entries()),
{
    let rows = mapping.as_slice();
    let ghost entries = mapping.entries();
    let mut names: Vec<String> = Vec::new();
    let mut i: usize = 0;
    assert(entries.take(0) =~= Seq::<EntrySpec>::empty());
    assert(name_views(names@) =~= Seq::<Seq<char>>::empty());
    while i < rows.len()
        invariant
            i <= rows.len(),
            views(rows@) == entries,
            name_views(names@) == upload_names_spec(entries.take(i as int)),
        decreases rows.len() - i,
    {
        let row = &rows[i];
        proof {
            let longer = entries.take(i as int + 1);
            assert(longer.drop_last() =~= entries.take(i as int));
            assert(longer.last() == row@);
        }
        match row.action {
            Action::Create | Action::Edit => {
                let ghost before = name_views(names@);
                names.push(row.filename.clone());
                assert(name_views(names@) =~= before.push(row.filename@));
            },
            _ => {},
        }
        i += 1;
    }
    assert(entries.take(rows.len() as int) =~= entries);
    names
}

/// The bytes read for a filename, if any were.
pub fn find_contents<'a>(supplied: &'a [FileContents], name: &str) -> (found: Option<&'a Vec<u8>>)
    ensures
        found is Some <==> supplied_for(contents_views(supplied@), name@) is Some,
        found is Some ==> found.unwrap()@ == supplied_for(contents_views(supplied@), name@)->0,
{
    let ghost all = contents_views(supplied@);
    let mut i: usize = 0;
    assert(all.skip(0) =~= all);
    while i < supplied.len()
        invariant
            i <= supplied.len(),
            all == contents_views(supplied@),
            supplied_for(all, name@) == supplied_for(all.skip(i as int), name@),
        decreases supplied.len() - i,
    {
        proof {
            assert(all.skip(i as int)[0] == supplied@[i as int]@);
            assert(all.skip(i as int).drop_first() =~= all.skip(i as int + 1));
        }
        if same_text(supplied[i].filename.as_str(), name) {
            return Some(&supplied[i].bytes);
        }
        i += 1;
    }
    None
}

/// Builds the request of a sync round from the reconciled mapping and the
/// file contents read for it.
///
/// Fails with [`SyncError::FilesystemError`] exactly if the bytes of a
/// created or edited file are missing from `supplied`.
pub fn build_request(mapping: &StateMapping, supplied: &[FileContents]) -> (built: Result<
    SyncRequest,
    SyncError,
>)
    ensures
        contents_complete(mapping.entries(), contents_views(supplied@)) ==> built is Ok
            && built->Ok_0@ == request_spec(mapping.entries(), contents_views(supplied@)),
        !contents_complete(mapping.entries(), contents_views(supplied@)) ==> built == Err::<
            SyncRequest,
            SyncError,
        >(SyncError::FilesystemError),
{
    let rows = mapping.as_slice();
    let ghost entries = mapping.entries();
    let ghost read = contents_views(supplied@);
    let mut files: Vec<FilePayload> = Vec::new();
    let mut summary: Vec<SummaryEntry> = Vec::new();
    let mut i: usize = 0;
    assert(entries.take(0) =~= Seq::<EntrySpec>::empty());
    assert(files@.map_values(|payload: FilePayload| payload@) =~= Seq::<PayloadSpec>::empty());
    assert(summary@.map_values(|line: SummaryEntry| line@) =~= Seq::<SummarySpec>::empty());
    while i < rows.len()
        invariant
            i <= rows.len(),
            views(rows@) == entries,
            entries == mapping.entries(),
            read == contents_views(supplied@),
            contents_complete(entries.take(i as int), read),
            files@.map_values(|payload: FilePayload| payload@) == outbound_files(
                entries.take(i as int),
                read,
            ),
            summary@.map_values(|line: SummaryEntry| line@) == entries.take(i as int).map_values(
                |entry: EntrySpec| summary_of(entry),
            ),
        decreases rows.len() - i,
    {
        let row = &rows[i];
        let ghost sent = files@.map_values(|payload: FilePayload| payload@);
        let ghost lines = summary@.map_values(|line: SummaryEntry| line@);
        proof {
            let longer = entries.take(i as int + 1);
            assert(longer.drop_last() =~= entries.take(i as int));
            assert(longer.last() == row@);
            assert(row@ == entries[i as int]);
        }
        let contents = match row.action {
            Action::Pass => None,
            Action::Delete => Some(Vec::new()),
            _ => {
                match find_contents(supplied, row.filename.as_str()) {
                    Some(bytes) => Some(slice_to_vec(bytes.as_slice())),
                    None => {
                        assert(carries_contents(entries[i as int].action));
                        assert(supplied_for(read, entries[i as int].filename) is None);
                        return Err(SyncError::FilesystemError);
                    },
                }
            },
        };
        match contents {
            Some(bytes) => {
                let payload = FilePayload {
                    filename: row.filename.clone(),
                    version: row.version,
                    hash: row.hash.clone(),
                    action: row.action,
                    contents: bytes,
                };
                assert(payload@ == payload_of(row@, read));
                files.push(payload);
                assert(files@.map_values(|payload: FilePayload| payload@) =~= sent.push(
                    payload_of(row@, read),
                ));
            },
            None => {},
        }
        let line = SummaryEntry {
            filename: row.filename.clone(),
            hash: row.hash.clone(),
            version: row.version,
        };
        summary.push(line);
        proof {
            assert(summary@.map_values(|line: SummaryEntry| line@) =~= lines.push(summary_of(row@)));
            assert(entries.take(i as int + 1).map_values(|entry: EntrySpec| summary_of(entry))
                =~= lines.push(summary_of(row@)));
            assert forall|j: int|
                0 <= j < i + 1 && carries_contents(
                    (#[trigger] entries.take(i as int + 1)[j]).action,
                ) implies supplied_for(read, entries.take(i as int + 1)[j].filename) is Some by {
                if j < i {
                    assert(entries.take(i as int)[j] == entries.take(i as int + 1)[j]);
                }
            }
        }
        i += 1;
    }
    assert(entries.take(rows.len() as int) =~= entries);
    Ok(SyncRequest { files, summary })
}

} // verus!
