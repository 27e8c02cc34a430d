//! Fixed-width hash values: commitments, nullifiers, key images and identities.

use vstd::prelude::*;

verus! {

/// A 32-byte opaque value. Commitments, nullifiers, key images, roots and
/// identities are all of this shape; only equality is ever asked of them.
pub type Hash32 = [u8; 32];

/// The SHA-256 digest of a byte string.
pub uninterp spec fn sha256_digest(data: Seq<u8>) -> Hash32;

/// The value whose 32 bytes are all zero.
pub open spec fn zero_hash() -> Hash32 {
    vstd::array::spec_array_fill_for_copy_type::<u8, 32>(0u8)
}

/// Two inputs that differ and still hash to the same digest.
pub open spec fn is_collision(x: Seq<u8>, y: Seq<u8>) -> bool {
    x != y && sha256_digest(x) == sha256_digest(y)
}

/// Compares two hash values byte by byte.
pub fn hash_eq(a: &Hash32, b: &Hash32) -> (same: bool)
    ensures
        same == (*a == *b),
{
    let mut i: usize = 0;
    while i < 32
        invariant
            i <= 32,
            forall|k: int| 0 <= k < i ==> a@[k] == b@[k],
        decreases 32 - i,
    {
        if a[i] != b[i] {
            return false;
        }
        i += 1;
    }
    assert(*a =~= *b);
    true
}

/// Calls `solana_program::hash::hash`, which feeds the bytes to SHA-256 and
/// returns the 32-byte digest. The digest depends on the bytes alone.
#[verifier::external_body]
pub(crate) fn sha256(data: &[u8]) -> (out: Hash32)
    ensures
        out == sha256_digest(data@),
{
    solana_program::hash::hash(data).to_bytes()
}

} // verus!
