//! The 256-bit digest that links blocks, and comparisons of digests.

use generic_array::typenum::U32;
use generic_array::GenericArray;
use sha3::{Digest, Sha3_256};
use vstd::prelude::*;

verus! {

/// The SHA3-256 digest of `data`, as the sequence of its 32 bytes.
///
/// The function is left uninterpreted: proofs may rely on it being a function
/// of the input alone, and on nothing else.
pub uninterp spec fn sha3_256(data: Seq<u8>) -> Seq<u8>;

/// The digest of the genesis predecessor: 32 zero bytes.
pub open spec fn zero_digest() -> Seq<u8> {
    Seq::new(32, |i: int| 0u8)
}

/// Calls `sha3::Sha3_256::digest` and converts the `GenericArray` it returns
/// into a plain array.
///
/// Trusted: the result is the SHA3-256 digest of `data`, which this crate
/// names `sha3_256`. Nothing is proved of the hashing itself.
#[verifier::external_body]
pub(crate) fn sha3_256_digest(data: &[u8]) -> (out: [u8; 32])
    ensures
        out@ == sha3_256(data@),
{
    let out: GenericArray<u8, U32> = Sha3_256::digest(data);
    out.into()
}

/// Whether two digests hold the same bytes.
pub fn digest_eq(a: &[u8; 32], b: &[u8; 32]) -> (same: bool)
    ensures
        same == (a@ == b@),
{
    let mut i: usize = 0;
    while i < 32
        invariant
            i <= 32,
            forall|k: int| 0 <= k < i ==> a@[k] == b@[k],
        decreases 32 - i,
    {
        if a[i] != b[i] {
            return false;
        }
        i += 1;
    }
    assert(a@ =~= b@);
    true
}

/// Whether a digest is the genesis predecessor, all zero.
pub fn is_zero_digest(a: &[u8; 32]) -> (zero: bool)
    ensures
        zero == (a@ == zero_digest()),
{
    let mut i: usize = 0;
    while i < 32
        invariant
            i <= 32,
            forall|k: int| 0 <= k < i ==> a@[k] == 0u8,
        decreases 32 - i,
    {
        if a[i] != 0 {
            return false;
        }
        i += 1;
    }
    assert(a@ =~= zero_digest());
    true
}

} // verus!
