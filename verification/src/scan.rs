//! The rules of a directory scan: which paths count and how they are named.
//!
//! Walking the directory and reading the files is the caller's part.  For
//! every regular file it finds, the caller hands the path relative to the
//! sync root and the digest of the content to [`observe`], which names the
//! file with `/` as the only separator and leaves out the files that the
//! tool keeps for itself.

use vstd::prelude::*;
use vstd::string::{StrSliceExecFns, StringExecFns};
use crate::snapshot::Snapshot;
use crate::text::same_text;

verus! {

/// Specifies `String::push` of the standard library: the character is
/// appended to the end of the string.
pub assume_specification[ String::push ](text: &mut String, ch: char)
    ensures
        final(text)@ == old(text)@.push(ch),
;

/// The name of the root marker: the file at the sync root that holds the
/// remote's address.
pub open spec fn root_marker_name() -> Seq<char> {
    ".mynk"@
}

/// The name of the file at the sync root that holds the baseline.
pub open spec fn state_file_name() -> Seq<char> {
    ".mynk-state.json"@
}

/// The prefix of every path inside the root marker, where the marker is a
/// directory.
pub open spec fn marker_directory_prefix() -> Seq<char> {
    ".mynk/"@
}

/// The name of the root marker.
pub fn root_marker() -> (name: &'static str)
    ensures
        name@ == root_marker_name(),
{
    ".mynk"
}

/// The name of the baseline file.
pub fn state_file() -> (name: &'static str)
    ensures
        name@ == state_file_name(),
{
    ".mynk-state.json"
}

/// A character of a path with the separator made canonical.
pub open spec fn unified_char(ch: char) -> char {
    if ch == '\\' {
        '/'
    } else {
        ch
    }
}

/// A relative path with `/` in place of every `\`.
pub open spec fn unified(path: Seq<char>) -> Seq<char> {
    path.map_values(|ch: char| unified_char(ch))
}

/// Whether a canonical relative path belongs to the tool itself: the root
/// marker, the baseline file, or anything inside the marker where that is a
/// directory.  Such paths are never part of a scan.
pub open spec fn reserved(name: Seq<char>) -> bool {
    name == root_marker_name() || name == state_file_name() || marker_directory_prefix().is_prefix_of(
        name,
    )
}

/// Whether a text begins with another.
pub fn has_prefix(text: &str, prefix: &str) -> (begins: bool)
    ensures
        begins == prefix@.is_prefix_of(text@),
{
    let n = text.unicode_len();
    let p = prefix.unicode_len();
    if p > n {
        return false;
    }
    let mut i: usize = 0;
    while i < p
        invariant
            i <= p <= n,
            n == text@.len(),
            p == prefix@.len(),
            forall|j: int| 0 <= j < i ==> text@[j] == prefix@[j],
        decreases p - i,
    {
        if text.get_char(i) != prefix.get_char(i) {
            assert(text@.subrange(0, p as int)[i as int] != prefix@[i as int]);
            return false;
        }
        i += 1;
    }
    assert(text@.subrange(0, p as int) =~= prefix@);
    true
}

/// The canonical form of a relative path: `/` is the only separator.
pub fn canonical_name(path: &str) -> (name: String)
    ensures
        name@ == unified(path@),
{
    let n = path.unicode_len();
    let mut name = String::new();
    let mut i: usize = 0;
    while i < n
        invariant
            i <= n,
            n == path@.len(),
            name@ == unified(path@.take(i as int)),
        decreases n - i,
    {
        let ch = path.get_char(i);
        if ch == '\\' {
            name.push('/');
        } else {
            name.push(ch);
        }
        assert(name@ =~= unified(path@.take(i as int + 1)));
        i += 1;
    }
    assert(path@.take(n as int) =~= path@);
    name
}

/// Whether a canonical relative path belongs to the tool itself.
pub fn is_reserved(name: &str) -> (kept_out: bool)
    ensures
        kept_out == reserved(name@),
{
    same_text(name, ".mynk") || same_text(name, ".mynk-state.json") || has_prefix(name, ".mynk/")
}

/// What a scan holds after it met a file: the file under its canonical name,
/// unless that name is reserved.
pub open spec fn observed(
    scan: Map<Seq<char>, Seq<char>>,
    path: Seq<char>,
    hash: Seq<char>,
) -> Map<Seq<char>, Seq<char>> {
    if reserved(unified(path)) {
        scan
    } else {
        scan.insert(unified(path), hash)
    }
}

/// Takes one regular file into the snapshot: `path` is the file's path
/// relative to the sync root as the platform writes it, `hash` the digest of
/// its content.  Says whether the file counts.
pub fn observe(snapshot: &mut Snapshot, path: &str, hash: String) -> (counted: bool)
    ensures
        final(snapshot)@ == observed(old(snapshot)@, path@, hash@),
        counted == !reserved(unified(path@)),
{
    let name = canonical_name(path);
    if is_reserved(name.as_str()) {
        false
    } else {
        snapshot.record(name, hash);
        true
    }
}

/// The address of the sync endpoint under a base address.
pub open spec fn sync_endpoint_spec(base: Seq<char>) -> Seq<char> {
    base + "/sync"@
}

/// The address to which the request of a round is posted.
pub fn sync_endpoint(base: &str) -> (address: String)
    ensures
        address@ == sync_endpoint_spec(base@),
{
    String::from_str(base).concat("/sync")
}

} // verus!
