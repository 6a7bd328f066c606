//! SHA-1, by which pieces and the info dictionary are identified.

use sha1::{Digest, Sha1};
use vstd::prelude::*;

verus! {

/// The SHA-1 digest of `data`. What it is on given bytes is not stated
/// here: it is whatever the `sha1` crate computes.
pub uninterp spec fn spec_sha1(data: Seq<u8>) -> Seq<u8>;

/// `Sha1::digest` of the `sha1` crate: the twenty-byte SHA-1 digest of
/// `data`, a function of the bytes alone.
#[verifier::external_body]
pub(crate) fn sha1_digest(data: &[u8]) -> (digest: [u8; 20])
    ensures
        digest@ == spec_sha1(data@),
{
    Sha1::digest(data).into()
}

/// The SHA-1 digest of `data`.
pub fn digest(data: &[u8]) -> (digest: [u8; 20])
    ensures
        digest@ == spec_sha1(data@),
{
    sha1_digest(data)
}

/// Whether two digests are the same, byte for byte.
pub fn digest_matches(digest: &[u8; 20], expected: &[u8; 20]) -> (same: bool)
    ensures
        same == (digest@ == expected@),
{
    let mut k: usize = 0;
    while k < 20
        invariant
            k <= 20,
            forall|m: int| 0 <= m < k ==> digest@[m] == expected@[m],
        decreases 20 - k,
    {
        if digest[k] != expected[k] {
            return false;
        }
        k += 1;
    }
    proof {
        assert(digest@ =~= expected@);
    }
    true
}

} // verus!
