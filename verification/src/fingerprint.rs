//! Content fingerprints: a fixed-length digest of a file's bytes, used only
//! for equality comparison when symlink identity is unavailable.

use vstd::prelude::*;

verus! {

/// The digest that the outside hash computes for a byte sequence. The digest
/// is a function of the input bytes alone; nothing more is stated of it.
pub uninterp spec fn md5_of(bytes: Seq<u8>) -> Seq<u8>;

/// Relies on md5::compute: a 16-byte digest that depends on the input bytes
/// alone (RFC 1321; the crate computes it with no other input).
#[verifier::external_body]
pub fn hash_bytes(content: &Vec<u8>) -> (r: Vec<u8>)
    ensures
        r@ == md5_of(content@),
        r@.len() == 16,
{
    md5::compute(content.as_slice()).0.to_vec()
}

} // verus!
