//! What the host chain computes for the ledger: program-derived addresses.

use vstd::prelude::*;
use crate::hash::Hash32;

verus! {

/// The address that the host derives for a program from a list of seeds,
/// and the bump seed found for it; `None` where no address can be derived.
pub uninterp spec fn program_address(seeds: Seq<Seq<u8>>, program_id: Hash32) -> Option<
    (Hash32, u8),
>;

/// The seeds from which a pool's vault address is derived: the word
/// `vault`, then the pool's own identity.
pub open spec fn vault_seeds(pool_key: Hash32) -> Seq<Seq<u8>> {
    seq![seq![118u8, 97u8, 117u8, 108u8, 116u8], pool_key@]
}

/// The vault of the pool `pool_key` under the program `program_id`.
pub open spec fn vault_address(pool_key: Hash32, program_id: Hash32) -> Option<(Hash32, u8)> {
    program_address(vault_seeds(pool_key), program_id)
}

/// Calls `Pubkey::try_find_program_address`, which searches the bump seeds
/// from 255 downwards for the first address off the curve. The outcome
/// depends on the seeds and the program alone; it is `None` where no bump
/// seed fits or a seed is longer than the host allows.
#[verifier::external_body]
pub(crate) fn find_program_address(seeds: &Vec<Vec<u8>>, program_id: &Hash32) -> (out: Option<
    (Hash32, u8),
>)
    ensures
        out == program_address(seeds.deep_view(), *program_id),
{
    let parts: Vec<&[u8]> = seeds.iter().map(|seed| seed.as_slice()).collect();
    let program = solana_program::pubkey::Pubkey::new_from_array(*program_id);
    solana_program::pubkey::Pubkey::try_find_program_address(&parts, &program).map(
        |(address, bump)| (address.to_bytes(), bump),
    )
}

/// Derives the vault address of a pool and the bump seed that goes with
/// it.
pub fn derive_vault(pool_key: &Hash32, program_id: &Hash32) -> (out: Option<(Hash32, u8)>)
    ensures
        out == vault_address(*pool_key, *program_id),
{
    let mut word: Vec<u8> = Vec::new();
    word.push(118u8);
    word.push(97u8);
    word.push(117u8);
    word.push(108u8);
    word.push(116u8);
    let mut key: Vec<u8> = Vec::new();
    crate::wire::write_raw(&mut key, pool_key.as_slice());
    let mut seeds: Vec<Vec<u8>> = Vec::new();
    seeds.push(word);
    seeds.push(key);
    assert(seeds.deep_view() =~~= vault_seeds(*pool_key));
    find_program_address(&seeds, program_id)
}

} // verus!
