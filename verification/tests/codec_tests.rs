use ghost_privacy::asset::AssetLedger;
use ghost_privacy::codec::{decode_asset, decode_pool, encode_asset, encode_pool, overwrite_front};
use ghost_privacy::error::LedgerError;
use ghost_privacy::pool::PoolLedger;

fn sample_pool() -> PoolLedger {
    let mut pool = PoolLedger::initialize([0x11; 32], [0x22; 32], 5, 1_000_000_000);
    pool.deposit([0xC1; 32], 1_000_000_000).unwrap();
    pool.deposit([0xC2; 32], 1_000_000_000).unwrap();
    pool.withdraw([0x01; 32], Some([0xC3; 32]), 400, true).unwrap();
    pool.withdraw([0x02; 32], None, 5, true).unwrap();
    pool.private_transfer([0x71; 32], 3, [0xC4; 32], true).unwrap();
    pool
}

fn sample_asset() -> AssetLedger {
    let mut asset = AssetLedger::issue(
        [0xA5; 32],
        [0x15; 32],
        "Gh\u{00f6}st \u{20ac}".to_string(),
        "G\u{1F47B}".to_string(),
        9,
        1000,
    );
    asset.transfer([0xA5; 32], [1; 32], [2; 32], true).unwrap();
    asset.transfer([0xA5; 32], [3; 32], [4; 32], true).unwrap();
    asset
}

#[test]
fn pool_round_trip() {
    let pool = sample_pool();
    let bytes = encode_pool(&pool).unwrap();
    assert_eq!(decode_pool(&bytes), Ok(pool));
}

#[test]
fn fresh_pool_round_trip() {
    let pool = PoolLedger::initialize([0x11; 32], [0x22; 32], 2, 100);
    let bytes = encode_pool(&pool).unwrap();
    assert_eq!(bytes.len(), 130);
    assert_eq!(decode_pool(&bytes), Ok(pool));
}

#[test]
fn pool_round_trip_ignores_what_follows() {
    let pool = sample_pool();
    let mut bytes = encode_pool(&pool).unwrap();
    bytes.extend_from_slice(&[0xEE; 77]);
    assert_eq!(decode_pool(&bytes), Ok(pool));
}

#[test]
fn pool_encoding_is_the_borsh_encoding_of_its_fields() {
    let pool = sample_pool();
    let expected = borsh::to_vec(&(
        pool.authority,
        pool.tree.root,
        pool.tree.depth,
        pool.tree.count,
        pool.denomination,
        pool.total_value_locked,
        pool.used_nullifiers.used.clone(),
        pool.used_key_images.used.clone(),
        pool.vault,
        pool.initialized,
    ))
    .unwrap();
    assert_eq!(encode_pool(&pool).unwrap(), expected);
}

#[test]
fn pool_encoding_lays_fields_out_in_order() {
    let pool = sample_pool();
    let bytes = encode_pool(&pool).unwrap();
    assert_eq!(&bytes[0..32], &[0x11; 32]);
    assert_eq!(&bytes[32..64], &pool.tree.root);
    assert_eq!(bytes[64], 5);
    assert_eq!(&bytes[65..73], &4u64.to_le_bytes());
    assert_eq!(&bytes[73..81], &1_000_000_000u64.to_le_bytes());
    assert_eq!(&bytes[81..89], &1_999_999_595u64.to_le_bytes());
    assert_eq!(&bytes[89..93], &2u32.to_le_bytes());
    assert_eq!(&bytes[93..125], &[0x01; 32]);
    assert_eq!(&bytes[125..157], &[0x02; 32]);
    assert_eq!(&bytes[157..161], &1u32.to_le_bytes());
    assert_eq!(&bytes[161..193], &[0x71; 32]);
    assert_eq!(&bytes[193..225], &[0x22; 32]);
    assert_eq!(bytes[225], 1);
    assert_eq!(bytes.len(), 226);
}

#[test]
fn zeroed_data_decodes_to_an_uninitialized_pool() {
    let pool = decode_pool(&[0u8; 200]).unwrap();
    assert!(!pool.initialized);
    assert_eq!(pool.total_value_locked, 0);
    assert_eq!(pool.commitment_count(), 0);
    assert_eq!(pool.used_nullifiers.len(), 0);
}

#[test]
fn truncated_pool_is_refused() {
    let bytes = encode_pool(&sample_pool()).unwrap();
    for cut in [0usize, 1, 31, 64, 65, 72, 92, 124, 160, 192, 225] {
        assert_eq!(decode_pool(&bytes[..cut]), Err(LedgerError::MalformedData));
    }
}

#[test]
fn pool_with_a_bad_flag_byte_is_refused() {
    let mut bytes = encode_pool(&sample_pool()).unwrap();
    let last = bytes.len() - 1;
    bytes[last] = 2;
    assert_eq!(decode_pool(&bytes), Err(LedgerError::MalformedData));
    bytes[last] = 0;
    assert!(!decode_pool(&bytes).unwrap().initialized);
}

#[test]
fn pool_with_more_leaves_than_its_depth_allows_is_refused() {
    let mut pool = PoolLedger::initialize([0x11; 32], [0x22; 32], 2, 100);
    pool.tree.count = 5;
    let bytes = encode_pool(&pool).unwrap();
    assert_eq!(decode_pool(&bytes), Err(LedgerError::MalformedData));
    pool.tree.count = 4;
    let bytes = encode_pool(&pool).unwrap();
    assert_eq!(decode_pool(&bytes), Ok(pool));
}

#[test]
fn pool_whose_list_length_exceeds_the_data_is_refused() {
    let mut bytes = encode_pool(&PoolLedger::initialize([1; 32], [2; 32], 2, 100)).unwrap();
    bytes[89..93].copy_from_slice(&u32::MAX.to_le_bytes());
    assert_eq!(decode_pool(&bytes), Err(LedgerError::MalformedData));
}

#[test]
fn asset_round_trip() {
    let asset = sample_asset();
    let bytes = encode_asset(&asset).unwrap();
    assert_eq!(decode_asset(&bytes), Ok(asset.clone()));
    let mut longer = bytes.clone();
    longer.extend_from_slice(&[0u8; 40]);
    assert_eq!(decode_asset(&longer), Ok(asset));
}

#[test]
fn asset_encoding_is_the_borsh_encoding_of_its_fields() {
    let asset = sample_asset();
    let expected = borsh::to_vec(&(
        asset.asset_id,
        asset.issuer,
        asset.name.clone(),
        asset.symbol.clone(),
        asset.decimals,
        asset.total_supply,
        asset.circulating_supply,
        asset.note_tree_root,
        asset.note_count,
        asset.used_nullifiers.used.clone(),
        asset.initialized,
    ))
    .unwrap();
    assert_eq!(encode_asset(&asset).unwrap(), expected);
}

#[test]
fn asset_with_a_name_that_is_not_utf8_is_refused() {
    let asset = AssetLedger::issue([1; 32], [2; 32], "ab".to_string(), "c".to_string(), 0, 1);
    let mut bytes = encode_asset(&asset).unwrap();
    assert_eq!(&bytes[64..68], &2u32.to_le_bytes());
    bytes[68] = 0xFF;
    assert_eq!(decode_asset(&bytes), Err(LedgerError::MalformedData));
}

#[test]
fn truncated_asset_is_refused() {
    let bytes = encode_asset(&sample_asset()).unwrap();
    for cut in 0..bytes.len() {
        assert_eq!(decode_asset(&bytes[..cut]), Err(LedgerError::MalformedData));
    }
}

#[test]
fn zeroed_data_decodes_to_an_uninitialized_asset() {
    let asset = decode_asset(&[0u8; 200]).unwrap();
    assert!(!asset.initialized);
    assert_eq!(asset.name, "");
    assert_eq!(asset.note_count, 0);
}

#[test]
fn overwrite_front_keeps_the_tail() {
    let mut data = vec![9u8; 6];
    assert_eq!(overwrite_front(&mut data, &vec![1, 2, 3]), Ok(()));
    assert_eq!(data, vec![1, 2, 3, 9, 9, 9]);
    assert_eq!(overwrite_front(&mut data, &vec![]), Ok(()));
    assert_eq!(data, vec![1, 2, 3, 9, 9, 9]);
    assert_eq!(overwrite_front(&mut data, &vec![7; 6]), Ok(()));
    assert_eq!(data, vec![7; 6]);
}

#[test]
fn overwrite_front_refuses_what_does_not_fit() {
    let mut data = vec![9u8; 2];
    assert_eq!(overwrite_front(&mut data, &vec![1, 2, 3]), Err(LedgerError::AccountTooSmall));
    assert_eq!(data, vec![9, 9]);
}
