//! Content hashing: the digest that duplicate detection keys on.
//!
//! The digest of a file is a function of its bytes alone, so two files with
//! byte-identical content always receive the same digest. The digest itself
//! is computed by an outside hash function and is only named here, never
//! restated; everything the rest of the library needs is that equal content
//! gives equal digests.

use vstd::prelude::*;

verus! {

/// The digest that the content hasher assigns to a byte string, encoded as
/// lowercase hexadecimal. A function of the bytes alone.
pub uninterp spec fn content_digest_of(bytes: Seq<u8>) -> Seq<char>;

/// Relies on `blake3::hash` and `blake3::Hash::to_hex`: the digest depends on
/// the input bytes alone, and its hexadecimal form is 64 characters long (two
/// per digest byte).
#[verifier::external_body]
pub fn hash_content(data: &[u8]) -> (r: String)
    ensures
        r@ == content_digest_of(data@),
        r@.len() == 64,
{
    blake3::hash(data).to_hex().as_str().to_owned()
}

/// Files with byte-identical content receive identical digests: the digest is
/// a function of the content and of nothing else.
pub proof fn lemma_identical_content_identical_digest(a: Seq<u8>, b: Seq<u8>)
    requires
        a == b,
    ensures
        content_digest_of(a) == content_digest_of(b),
{
}

} // verus!
