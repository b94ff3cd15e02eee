//! Content digests: SHA-256 over a file's bytes, written as lower-case hex.
//!
//! Only the bytes count: two files with the same content have the same
//! digest, whatever their names, times or permissions.  A digest is computed
//! chunk by chunk, so that the size of a file does not bound the memory that
//! hashing it takes.

use vstd::prelude::*;

verus! {

/// The lower-case hexadecimal SHA-256 digest of a byte sequence.
///
/// The digest itself is not spelled out here: it is what the `sha2` crate
/// computes, and this crate relies on nothing but its being a function of the
/// bytes.
pub uninterp spec fn sha256_hex(bytes: Seq<u8>) -> Seq<char>;

/// Whether a character is a lower-case hexadecimal digit: `0` to `9` or `a`
/// to `f`.
pub open spec fn is_lower_hex(ch: char) -> bool {
    ('0' <= ch && ch <= '9') || ('a' <= ch && ch <= 'f')
}

/// Whether a text has the shape of a digest: 64 lower-case hexadecimal
/// digits, two for each of the 32 bytes of a SHA-256 output.
pub open spec fn is_hex_digest(text: Seq<char>) -> bool {
    &&& text.len() == 64
    &&& forall|i: int| 0 <= i < text.len() ==> is_lower_hex(#[trigger] text[i])
}

/// The bytes that a hasher has taken in so far, in order.
pub uninterp spec fn absorbed(hasher: ContentHasher) -> Seq<u8>;

/// A running SHA-256 computation.
///
/// Holds a `sha2::Sha256`, whose type is an instance of generic types of the
/// `digest` crate that cannot be declared to the verifier; the state is
/// therefore opaque and spoken of through [`absorbed`] alone.
#[verifier::external_body]
pub struct ContentHasher {
    state: sha2::Sha256,
}

impl View for ContentHasher {
    type V = Seq<u8>;

    /// The bytes taken in so far.
    open spec fn view(&self) -> Seq<u8> {
        absorbed(*self)
    }
}

/// Calls `sha2::Sha256::new` (`digest::Digest::new`): a fresh hasher, which
/// has taken in no bytes.
#[verifier::external_body]
fn sha256_start() -> (hasher: ContentHasher)
    ensures
        absorbed(hasher) == Seq::<u8>::empty(),
{
    ContentHasher { state: sha2::Digest::new() }
}

/// Calls `digest::Digest::update` on the `sha2::Sha256` state: the chunk is
/// appended to what the hasher has taken in.
#[verifier::external_body]
fn sha256_absorb(hasher: &mut ContentHasher, chunk: &[u8])
    ensures
        absorbed(*final(hasher)) == absorbed(*old(hasher)) + chunk@,
{
    sha2::Digest::update(&mut hasher.state, chunk)
}

/// Calls `digest::Digest::finalize` on the `sha2::Sha256` state and formats
/// the 32 bytes it returns with `{:x}`: the lower-case hex digest of all the
/// bytes taken in, two digits for each byte.
#[verifier::external_body]
fn sha256_finish(hasher: ContentHasher) -> (digest: String)
    ensures
        digest@ == sha256_hex(absorbed(hasher)),
        is_hex_digest(digest@),
{
    format!("{:x}", sha2::Digest::finalize(hasher.state))
}

impl ContentHasher {
    /// A hasher that has taken in nothing yet.
    pub fn new() -> (hasher: ContentHasher)
        ensures
            hasher@ == Seq::<u8>::empty(),
    {
        sha256_start()
    }

    /// Takes in the next chunk of the content.
    pub fn update(&mut self, chunk: &[u8])
        ensures
            final(self)@ == old(self)@ + chunk@,
    {
        sha256_absorb(self, chunk)
    }

    /// Ends the computation: the digest of everything taken in.
    pub fn finish(self) -> (digest: String)
        ensures
            digest@ == sha256_hex(self@),
            is_hex_digest(digest@),
    {
        sha256_finish(self)
    }
}

/// The digest of a content held in memory as a whole.
pub fn hash_bytes(content: &[u8]) -> (digest: String)
    ensures
        digest@ == sha256_hex(content@),
        is_hex_digest(digest@),
{
    let mut hasher = ContentHasher::new();
    hasher.update(content);
    assert(hasher@ =~= content@);
    hasher.finish()
}

} // verus!
