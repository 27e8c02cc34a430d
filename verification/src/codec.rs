//! The persisted layout of the two ledgers: their fields in a fixed order,
//! each in the encoding of its type.

use vstd::prelude::*;
use vstd::utf8::encode_utf8;
use crate::asset::{AssetLedger, AssetModel};
use crate::error::LedgerError;
use crate::pool::{PoolLedger, PoolModel};
use crate::registry::SpendRegistry;
use crate::tree::CommitmentTree;
use crate::wire::{
    holds_at, lemma_parsed_bool, lemma_parsed_hash, lemma_parsed_hashes, lemma_parsed_string,
    lemma_parsed_u64, lemma_parsed_u8, end_of, enc_bool, enc_hash, enc_hashes, enc_string, enc_u64, enc_u8, lemma_holds_at_concat,
    lemma_read_back_bool, lemma_read_back_hash, lemma_read_back_hashes, lemma_read_back_string,
    lemma_read_back_u64, lemma_read_back_u8, parse_bool, parse_hash, parse_hashes, parse_string,
    parse_u64, parse_u8, read_bool, read_hash, read_hashes, read_string, read_u64, read_u8,
    write_bool, write_hash, write_hashes, write_string, write_u64, write_u8,
};

verus! {

/// The encoding of a pool.
pub open spec fn enc_pool(pool: PoolModel) -> Seq<u8> {
    enc_hash(pool.authority) + enc_hash(pool.tree.root) + enc_u8(pool.tree.depth) + enc_u64(
        pool.tree.count,
    ) + enc_u64(pool.denomination as u64) + enc_u64(pool.total_value_locked as u64) + enc_hashes(
        pool.used_nullifiers,
    ) + enc_hashes(pool.used_key_images) + enc_hash(pool.vault) + enc_bool(pool.initialized)
}

/// Every field of the pool fits the integer that encodes it.
pub open spec fn pool_encodable(pool: PoolModel) -> bool {
    &&& pool.denomination <= u64::MAX
    &&& pool.total_value_locked <= u64::MAX
    &&& pool.used_nullifiers.len() <= u32::MAX
    &&& pool.used_key_images.len() <= u32::MAX
}

/// Reads a pool at `pos`. Bytes that encode a tree with more leaves than
/// its depth allows are refused.
pub open spec fn parse_pool(bytes: Seq<u8>, pos: int) -> Option<(PoolModel, int)> {
    let authority = parse_hash(bytes, pos);
    let root = parse_hash(bytes, end_of(authority));
    let depth = parse_u8(bytes, end_of(root));
    let count = parse_u64(bytes, end_of(depth));
    let denomination = parse_u64(bytes, end_of(count));
    let locked = parse_u64(bytes, end_of(denomination));
    let nullifiers = parse_hashes(bytes, end_of(locked));
    let key_images = parse_hashes(bytes, end_of(nullifiers));
    let vault = parse_hash(bytes, end_of(key_images));
    let initialized = parse_bool(bytes, end_of(vault));
    if initialized is Some {
        let tree = CommitmentTree {
            root: root.unwrap().0,
            depth: depth.unwrap().0,
            count: count.unwrap().0,
        };
        if tree.wf() {
            Some(
                (
                    PoolModel {
                        authority: authority.unwrap().0,
                        tree,
                        denomination: denomination.unwrap().0 as nat,
                        total_value_locked: locked.unwrap().0 as nat,
                        used_nullifiers: nullifiers.unwrap().0,
                        used_key_images: key_images.unwrap().0,
                        vault: vault.unwrap().0,
                        initialized: initialized.unwrap().0,
                    },
                    end_of(initialized),
                ),
            )
        } else {
            None
        }
    } else {
        None
    }
}

/// The encoding of an asset.
pub open spec fn enc_asset(asset: AssetModel) -> Seq<u8> {
    enc_hash(asset.asset_id) + enc_hash(asset.issuer) + enc_string(asset.name) + enc_string(
        asset.symbol,
    ) + enc_u8(asset.decimals) + enc_u64(asset.total_supply as u64) + enc_u64(
        asset.circulating_supply as u64,
    ) + enc_hash(asset.note_tree_root) + enc_u64(asset.note_count as u64) + enc_hashes(
        asset.used_nullifiers,
    ) + enc_bool(asset.initialized)
}

/// Every field of the asset fits the integer that encodes it.
pub open spec fn asset_encodable(asset: AssetModel) -> bool {
    &&& encode_utf8(asset.name).len() <= u32::MAX
    &&& encode_utf8(asset.symbol).len() <= u32::MAX
    &&& asset.total_supply <= u64::MAX
    &&& asset.circulating_supply <= u64::MAX
    &&& asset.note_count <= u64::MAX
    &&& asset.used_nullifiers.len() <= u32::MAX
}

/// Reads an asset at `pos`.
pub open spec fn parse_asset(bytes: Seq<u8>, pos: int) -> Option<(AssetModel, int)> {
    let asset_id = parse_hash(bytes, pos);
    let issuer = parse_hash(bytes, end_of(asset_id));
    let name = parse_string(bytes, end_of(issuer));
    let symbol = parse_string(bytes, end_of(name));
    let decimals = parse_u8(bytes, end_of(symbol));
    let total = parse_u64(bytes, end_of(decimals));
    let circulating = parse_u64(bytes, end_of(total));
    let root = parse_hash(bytes, end_of(circulating));
    let count = parse_u64(bytes, end_of(root));
    let nullifiers = parse_hashes(bytes, end_of(count));
    let initialized = parse_bool(bytes, end_of(nullifiers));
    if initialized is Some {
        Some(
            (
                AssetModel {
                    asset_id: asset_id.unwrap().0,
                    issuer: issuer.unwrap().0,
                    name: name.unwrap().0,
                    symbol: symbol.unwrap().0,
                    decimals: decimals.unwrap().0,
                    total_supply: total.unwrap().0 as nat,
                    circulating_supply: circulating.unwrap().0 as nat,
                    note_tree_root: root.unwrap().0,
                    note_count: count.unwrap().0 as nat,
                    used_nullifiers: nullifiers.unwrap().0,
                    initialized: initialized.unwrap().0,
                },
                end_of(initialized),
            ),
        )
    } else {
        None
    }
}

/// Encodes a pool. Fails with `Overflow` exactly if one of its spend
/// registries holds more tags than a 32-bit length can count.
pub fn encode_pool(pool: &PoolLedger) -> (r: Result<Vec<u8>, LedgerError>)
    ensures
        pool_encodable(pool@) ==> (r matches Ok(bytes) && bytes@ == enc_pool(pool@)),
        !pool_encodable(pool@) ==> r == Err::<Vec<u8>, _>(LedgerError::Overflow),
{
    if pool.used_nullifiers.len() > u32::MAX as usize || pool.used_key_images.len()
        > u32::MAX as usize {
        return Err(LedgerError::Overflow);
    }
    let mut out: Vec<u8> = Vec::new();
    write_hash(&mut out, &pool.authority);
    write_hash(&mut out, &pool.tree.root);
    write_u8(&mut out, pool.tree.depth);
    write_u64(&mut out, pool.tree.count);
    write_u64(&mut out, pool.denomination);
    write_u64(&mut out, pool.total_value_locked);
    let _ = write_hashes(&mut out, &pool.used_nullifiers.used);
    let _ = write_hashes(&mut out, &pool.used_key_images.used);
    write_hash(&mut out, &pool.vault);
    write_bool(&mut out, pool.initialized);
    assert(out@ =~= enc_pool(pool@));
    Ok(out)
}

/// Reads a pool from the front of `bytes`; what follows it is ignored.
pub fn decode_pool(bytes: &[u8]) -> (r: Result<PoolLedger, LedgerError>)
    ensures
        match parse_pool(bytes@, 0) {
            Some((pool, _)) => r matches Ok(p) && p@ == pool,
            None => r == Err::<PoolLedger, _>(LedgerError::MalformedData),
        },
{
    match read_pool(bytes) {
        Some(pool) => Ok(pool),
        None => Err(LedgerError::MalformedData),
    }
}

/// Reads the fields of a pool from the front of `bytes`.
fn read_pool(bytes: &[u8]) -> (r: Option<PoolLedger>)
    ensures
        match parse_pool(bytes@, 0) {
            Some((pool, _)) => r matches Some(p) && p@ == pool,
            None => r is None,
        },
{
    let (authority, pos) = read_hash(bytes, 0)?;
    let (root, pos) = read_hash(bytes, pos)?;
    let (depth, pos) = read_u8(bytes, pos)?;
    let (count, pos) = read_u64(bytes, pos)?;
    let (denomination, pos) = read_u64(bytes, pos)?;
    let (total_value_locked, pos) = read_u64(bytes, pos)?;
    let (nullifiers, pos) = read_hashes(bytes, pos)?;
    let (key_images, pos) = read_hashes(bytes, pos)?;
    let (vault, pos) = read_hash(bytes, pos)?;
    let (initialized, _) = read_bool(bytes, pos)?;
    let tree = CommitmentTree { root, depth, count };
    if count > tree.capacity() {
        return None;
    }
    Some(
        PoolLedger {
            authority,
            tree,
            denomination,
            total_value_locked,
            used_nullifiers: SpendRegistry { used: nullifiers },
            used_key_images: SpendRegistry { used: key_images },
            vault,
            initialized,
        },
    )
}

/// Encodes an asset. Fails with `Overflow` exactly if its name, its symbol
/// or its spend registry is too long for a 32-bit length.
pub fn encode_asset(asset: &AssetLedger) -> (r: Result<Vec<u8>, LedgerError>)
    ensures
        asset_encodable(asset@) ==> (r matches Ok(bytes) && bytes@ == enc_asset(asset@)),
        !asset_encodable(asset@) ==> r == Err::<Vec<u8>, _>(LedgerError::Overflow),
{
    let mut out: Vec<u8> = Vec::new();
    write_hash(&mut out, &asset.asset_id);
    write_hash(&mut out, &asset.issuer);
    if !write_string(&mut out, &asset.name) {
        return Err(LedgerError::Overflow);
    }
    if !write_string(&mut out, &asset.symbol) {
        return Err(LedgerError::Overflow);
    }
    write_u8(&mut out, asset.decimals);
    write_u64(&mut out, asset.total_supply);
    write_u64(&mut out, asset.circulating_supply);
    write_hash(&mut out, &asset.note_tree_root);
    write_u64(&mut out, asset.note_count);
    if !write_hashes(&mut out, &asset.used_nullifiers.used) {
        return Err(LedgerError::Overflow);
    }
    write_bool(&mut out, asset.initialized);
    assert(out@ =~= enc_asset(asset@));
    Ok(out)
}

/// Reads an asset from the front of `bytes`; what follows it is ignored.
pub fn decode_asset(bytes: &[u8]) -> (r: Result<AssetLedger, LedgerError>)
    ensures
        match parse_asset(bytes@, 0) {
            Some((asset, _)) => r matches Ok(a) && a@ == asset,
            None => r == Err::<AssetLedger, _>(LedgerError::MalformedData),
        },
{
    match read_asset(bytes) {
        Some(asset) => Ok(asset),
        None => Err(LedgerError::MalformedData),
    }
}

/// Reads the fields of an asset from the front of `bytes`.
fn read_asset(bytes: &[u8]) -> (r: Option<AssetLedger>)
    ensures
        match parse_asset(bytes@, 0) {
            Some((asset, _)) => r matches Some(a) && a@ == asset,
            None => r is None,
        },
{
    let (asset_id, pos) = read_hash(bytes, 0)?;
    let (issuer, pos) = read_hash(bytes, pos)?;
    let (name, pos) = read_string(bytes, pos)?;
    let (symbol, pos) = read_string(bytes, pos)?;
    let (decimals, pos) = read_u8(bytes, pos)?;
    let (total_supply, pos) = read_u64(bytes, pos)?;
    let (circulating_supply, pos) = read_u64(bytes, pos)?;
    let (note_tree_root, pos) = read_hash(bytes, pos)?;
    let (note_count, pos) = read_u64(bytes, pos)?;
    let (nullifiers, pos) = read_hashes(bytes, pos)?;
    let (initialized, _) = read_bool(bytes, pos)?;
    Some(
        AssetLedger {
            asset_id,
            issuer,
            name,
            symbol,
            decimals,
            total_supply,
            circulating_supply,
            note_tree_root,
            note_count,
            used_nullifiers: SpendRegistry { used: nullifiers },
            initialized,
        },
    )
}

/// Writes `encoding` over the front of `data` and leaves the rest of
/// `data` as it was. A `data` shorter than the encoding is not touched.
pub fn overwrite_front(data: &mut Vec<u8>, encoding: &Vec<u8>) -> (r: Result<(), LedgerError>)
    ensures
        encoding@.len() <= old(data)@.len() ==> r is Ok && final(data)@ == encoding@ + old(
            data,
        )@.subrange(encoding@.len() as int, old(data)@.len() as int),
        encoding@.len() > old(data)@.len() ==> r == Err::<(), _>(LedgerError::AccountTooSmall)
            && final(data)@ == old(data)@,
{
    if encoding.len() > data.len() {
        return Err(LedgerError::AccountTooSmall);
    }
    let mut i: usize = 0;
    while i < encoding.len()
        invariant
            i <= encoding.len() <= data.len(),
            data@.len() == old(data)@.len(),
            forall|k: int| 0 <= k < i ==> data@[k] == encoding@[k],
            forall|k: int| i <= k < data.len() ==> data@[k] == old(data)@[k],
        decreases encoding.len() - i,
    {
        data.set(i, encoding[i]);
        i += 1;
    }
    assert(data@ =~= encoding@ + old(data)@.subrange(
        encoding@.len() as int,
        old(data)@.len() as int,
    ));
    Ok(())
}

/// Reading back what was written gives the pool that was written: the
/// encoding of a pool, followed by any bytes at all, decodes to that pool.
pub proof fn law_pool_round_trip(pool: PoolModel, rest: Seq<u8>)
    requires
        pool_encodable(pool),
        pool.tree.wf(),
    ensures
        parse_pool(enc_pool(pool) + rest, 0) == Some((pool, enc_pool(pool).len() as int)),
{
    let bytes = enc_pool(pool) + rest;
    assert(bytes.subrange(0, enc_pool(pool).len() as int) =~= enc_pool(pool));
    let front1 = enc_hash(pool.authority);
    let front2 = front1 + enc_hash(pool.tree.root);
    let front3 = front2 + enc_u8(pool.tree.depth);
    let front4 = front3 + enc_u64(pool.tree.count);
    let front5 = front4 + enc_u64(pool.denomination as u64);
    let front6 = front5 + enc_u64(pool.total_value_locked as u64);
    let front7 = front6 + enc_hashes(pool.used_nullifiers);
    let front8 = front7 + enc_hashes(pool.used_key_images);
    let front9 = front8 + enc_hash(pool.vault);
    lemma_holds_at_concat(bytes, 0, front9, enc_bool(pool.initialized));
    lemma_holds_at_concat(bytes, 0, front8, enc_hash(pool.vault));
    lemma_holds_at_concat(bytes, 0, front7, enc_hashes(pool.used_key_images));
    lemma_holds_at_concat(bytes, 0, front6, enc_hashes(pool.used_nullifiers));
    lemma_holds_at_concat(bytes, 0, front5, enc_u64(pool.total_value_locked as u64));
    lemma_holds_at_concat(bytes, 0, front4, enc_u64(pool.denomination as u64));
    lemma_holds_at_concat(bytes, 0, front3, enc_u64(pool.tree.count));
    lemma_holds_at_concat(bytes, 0, front2, enc_u8(pool.tree.depth));
    lemma_holds_at_concat(bytes, 0, front1, enc_hash(pool.tree.root));
    lemma_read_back_hash(bytes, 0, pool.authority);
    lemma_read_back_hash(bytes, front1.len() as int, pool.tree.root);
    lemma_read_back_u8(bytes, front2.len() as int, pool.tree.depth);
    lemma_read_back_u64(bytes, front3.len() as int, pool.tree.count);
    lemma_read_back_u64(bytes, front4.len() as int, pool.denomination as u64);
    lemma_read_back_u64(bytes, front5.len() as int, pool.total_value_locked as u64);
    lemma_read_back_hashes(bytes, front6.len() as int, pool.used_nullifiers);
    lemma_read_back_hashes(bytes, front7.len() as int, pool.used_key_images);
    lemma_read_back_hash(bytes, front8.len() as int, pool.vault);
    lemma_read_back_bool(bytes, front9.len() as int, pool.initialized);
}

/// Reading back what was written gives the asset that was written: the
/// encoding of an asset, followed by any bytes at all, decodes to that
/// asset.
pub proof fn law_asset_round_trip(asset: AssetModel, rest: Seq<u8>)
    requires
        asset_encodable(asset),
    ensures
        parse_asset(enc_asset(asset) + rest, 0) == Some((asset, enc_asset(asset).len() as int)),
{
    let bytes = enc_asset(asset) + rest;
    assert(bytes.subrange(0, enc_asset(asset).len() as int) =~= enc_asset(asset));
    let front1 = enc_hash(asset.asset_id);
    let front2 = front1 + enc_hash(asset.issuer);
    let front3 = front2 + enc_string(asset.name);
    let front4 = front3 + enc_string(asset.symbol);
    let front5 = front4 + enc_u8(asset.decimals);
    let front6 = front5 + enc_u64(asset.total_supply as u64);
    let front7 = front6 + enc_u64(asset.circulating_supply as u64);
    let front8 = front7 + enc_hash(asset.note_tree_root);
    let front9 = front8 + enc_u64(asset.note_count as u64);
    let front10 = front9 + enc_hashes(asset.used_nullifiers);
    lemma_holds_at_concat(bytes, 0, front10, enc_bool(asset.initialized));
    lemma_holds_at_concat(bytes, 0, front9, enc_hashes(asset.used_nullifiers));
    lemma_holds_at_concat(bytes, 0, front8, enc_u64(asset.note_count as u64));
    lemma_holds_at_concat(bytes, 0, front7, enc_hash(asset.note_tree_root));
    lemma_holds_at_concat(bytes, 0, front6, enc_u64(asset.circulating_supply as u64));
    lemma_holds_at_concat(bytes, 0, front5, enc_u64(asset.total_supply as u64));
    lemma_holds_at_concat(bytes, 0, front4, enc_u8(asset.decimals));
    lemma_holds_at_concat(bytes, 0, front3, enc_string(asset.symbol));
    lemma_holds_at_concat(bytes, 0, front2, enc_string(asset.name));
    lemma_holds_at_concat(bytes, 0, front1, enc_hash(asset.issuer));
    lemma_read_back_hash(bytes, 0, asset.asset_id);
    lemma_read_back_hash(bytes, front1.len() as int, asset.issuer);
    lemma_read_back_string(bytes, front2.len() as int, asset.name);
    lemma_read_back_string(bytes, front3.len() as int, asset.symbol);
    lemma_read_back_u8(bytes, front4.len() as int, asset.decimals);
    lemma_read_back_u64(bytes, front5.len() as int, asset.total_supply as u64);
    lemma_read_back_u64(bytes, front6.len() as int, asset.circulating_supply as u64);
    lemma_read_back_hash(bytes, front7.len() as int, asset.note_tree_root);
    lemma_read_back_u64(bytes, front8.len() as int, asset.note_count as u64);
    lemma_read_back_hashes(bytes, front9.len() as int, asset.used_nullifiers);
    lemma_read_back_bool(bytes, front10.len() as int, asset.initialized);
}

/// Only encodings are read: whatever decodes to a pool starts with the
/// encoding of that pool, and the pool is well formed.
pub proof fn law_pool_decodes_only_encodings(bytes: Seq<u8>)
    requires
        parse_pool(bytes, 0) is Some,
    ensures
        ({
            let (pool, end) = parse_pool(bytes, 0).unwrap();
            &&& pool_encodable(pool)
            &&& pool.tree.wf()
            &&& holds_at(bytes, 0, enc_pool(pool))
            &&& end == enc_pool(pool).len()
        }),
{
    let pool = parse_pool(bytes, 0).unwrap().0;
    let front1 = enc_hash(pool.authority);
    let front2 = front1 + enc_hash(pool.tree.root);
    let front3 = front2 + enc_u8(pool.tree.depth);
    let front4 = front3 + enc_u64(pool.tree.count);
    let front5 = front4 + enc_u64(pool.denomination as u64);
    let front6 = front5 + enc_u64(pool.total_value_locked as u64);
    let front7 = front6 + enc_hashes(pool.used_nullifiers);
    let front8 = front7 + enc_hashes(pool.used_key_images);
    let front9 = front8 + enc_hash(pool.vault);
    lemma_parsed_hash(bytes, 0);
    lemma_parsed_hash(bytes, 32);
    lemma_holds_at_concat(bytes, 0, front1, enc_hash(pool.tree.root));
    lemma_parsed_u8(bytes, 64);
    lemma_holds_at_concat(bytes, 0, front2, enc_u8(pool.tree.depth));
    lemma_parsed_u64(bytes, 65);
    lemma_holds_at_concat(bytes, 0, front3, enc_u64(pool.tree.count));
    lemma_parsed_u64(bytes, 73);
    lemma_holds_at_concat(bytes, 0, front4, enc_u64(pool.denomination as u64));
    lemma_parsed_u64(bytes, 81);
    lemma_holds_at_concat(bytes, 0, front5, enc_u64(pool.total_value_locked as u64));
    lemma_parsed_hashes(bytes, 89);
    lemma_holds_at_concat(bytes, 0, front6, enc_hashes(pool.used_nullifiers));
    lemma_parsed_hashes(bytes, front7.len() as int);
    lemma_holds_at_concat(bytes, 0, front7, enc_hashes(pool.used_key_images));
    lemma_parsed_hash(bytes, front8.len() as int);
    lemma_holds_at_concat(bytes, 0, front8, enc_hash(pool.vault));
    lemma_parsed_bool(bytes, front9.len() as int);
    lemma_holds_at_concat(bytes, 0, front9, enc_bool(pool.initialized));
}

/// Only encodings are read: whatever decodes to an asset starts with the
/// encoding of that asset.
pub proof fn law_asset_decodes_only_encodings(bytes: Seq<u8>)
    requires
        parse_asset(bytes, 0) is Some,
    ensures
        ({
            let (asset, end) = parse_asset(bytes, 0).unwrap();
            &&& asset_encodable(asset)
            &&& holds_at(bytes, 0, enc_asset(asset))
            &&& end == enc_asset(asset).len()
        }),
{
    let asset = parse_asset(bytes, 0).unwrap().0;
    let front1 = enc_hash(asset.asset_id);
    let front2 = front1 + enc_hash(asset.issuer);
    let front3 = front2 + enc_string(asset.name);
    let front4 = front3 + enc_string(asset.symbol);
    let front5 = front4 + enc_u8(asset.decimals);
    let front6 = front5 + enc_u64(asset.total_supply as u64);
    let front7 = front6 + enc_u64(asset.circulating_supply as u64);
    let front8 = front7 + enc_hash(asset.note_tree_root);
    let front9 = front8 + enc_u64(asset.note_count as u64);
    let front10 = front9 + enc_hashes(asset.used_nullifiers);
    lemma_parsed_hash(bytes, 0);
    lemma_parsed_hash(bytes, 32);
    lemma_holds_at_concat(bytes, 0, front1, enc_hash(asset.issuer));
    lemma_parsed_string(bytes, 64);
    lemma_holds_at_concat(bytes, 0, front2, enc_string(asset.name));
    lemma_parsed_string(bytes, front3.len() as int);
    lemma_holds_at_concat(bytes, 0, front3, enc_string(asset.symbol));
    lemma_parsed_u8(bytes, front4.len() as int);
    lemma_holds_at_concat(bytes, 0, front4, enc_u8(asset.decimals));
    lemma_parsed_u64(bytes, front5.len() as int);
    lemma_holds_at_concat(bytes, 0, front5, enc_u64(asset.total_supply as u64));
    lemma_parsed_u64(bytes, front6.len() as int);
    lemma_holds_at_concat(bytes, 0, front6, enc_u64(asset.circulating_supply as u64));
    lemma_parsed_hash(bytes, front7.len() as int);
    lemma_holds_at_concat(bytes, 0, front7, enc_hash(asset.note_tree_root));
    lemma_parsed_u64(bytes, front8.len() as int);
    lemma_holds_at_concat(bytes, 0, front8, enc_u64(asset.note_count as u64));
    lemma_parsed_hashes(bytes, front9.len() as int);
    lemma_holds_at_concat(bytes, 0, front9, enc_hashes(asset.used_nullifiers));
    lemma_parsed_bool(bytes, front10.len() as int);
    lemma_holds_at_concat(bytes, 0, front10, enc_bool(asset.initialized));
}

/// Two pools with one encoding are one pool.
pub proof fn law_pool_encoding_is_injective(a: PoolModel, b: PoolModel)
    requires
        pool_encodable(a),
        pool_encodable(b),
        a.tree.wf(),
        b.tree.wf(),
        enc_pool(a) == enc_pool(b),
    ensures
        a == b,
{
    law_pool_round_trip(a, Seq::empty());
    law_pool_round_trip(b, Seq::empty());
}

/// Two assets with one encoding are one asset.
pub proof fn law_asset_encoding_is_injective(a: AssetModel, b: AssetModel)
    requires
        asset_encodable(a),
        asset_encodable(b),
        enc_asset(a) == enc_asset(b),
    ensures
        a == b,
{
    law_asset_round_trip(a, Seq::empty());
    law_asset_round_trip(b, Seq::empty());
}

/// The encoding of a pool is 130 bytes and 32 more for every spent tag.
pub proof fn lemma_enc_pool_len(pool: PoolModel)
    ensures
        enc_pool(pool).len() == 130 + 32 * pool.used_nullifiers.len() + 32
            * pool.used_key_images.len(),
{
    vstd::bytes::lemma_auto_spec_u64_to_from_le_bytes();
    vstd::bytes::lemma_auto_spec_u32_to_from_le_bytes();
    crate::wire::lemma_flatten(pool.used_nullifiers, 0);
    crate::wire::lemma_flatten(pool.used_key_images, 0);
}

} // verus!
