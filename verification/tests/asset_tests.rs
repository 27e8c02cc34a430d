use ghost_privacy::asset::AssetLedger;
use ghost_privacy::error::LedgerError;

const ASSET: [u8; 32] = [0xA5; 32];
const ISSUER: [u8; 32] = [0x15; 32];

fn asset(total_supply: u64) -> AssetLedger {
    AssetLedger::issue(ASSET, ISSUER, "Ghost Dollar".to_string(), "GUSD".to_string(), 6, total_supply)
}

#[test]
fn issued_asset_has_nothing_in_circulation() {
    let a = asset(1000);
    assert_eq!(a.asset_id, ASSET);
    assert_eq!(a.issuer, ISSUER);
    assert_eq!(a.name, "Ghost Dollar");
    assert_eq!(a.symbol, "GUSD");
    assert_eq!(a.decimals, 6);
    assert_eq!(a.total_supply, 1000);
    assert_eq!(a.circulating_supply, 0);
    assert_eq!(a.note_count, 0);
    assert_eq!(a.note_tree_root, [0u8; 32]);
    assert_eq!(a.used_nullifiers.len(), 0);
    assert!(a.initialized);
}

#[test]
fn circulating_supply_stays_zero_through_transfers() {
    let mut a = asset(1000);
    for i in 0u8..6 {
        assert_eq!(a.transfer(ASSET, [i; 32], [0x80 + i; 32], true), Ok(()));
        assert_eq!(a.circulating_supply, 0);
        assert_eq!(a.total_supply, 1000);
    }
    assert_eq!(a.note_count, 6);
}

#[test]
fn transfer_spends_nullifier_and_inserts_the_note() {
    let mut a = asset(1000);
    assert_eq!(a.transfer(ASSET, [1; 32], [2; 32], true), Ok(()));
    assert_eq!(a.note_count, 1);
    assert_eq!(a.used_nullifiers.used, vec![[1u8; 32]]);
    assert_eq!(a.note_tree_root, ghost_privacy::tree::next_root(&[0u8; 32], &[2u8; 32]));
    assert_ne!(a.note_tree_root, [0u8; 32]);
}

#[test]
fn transfer_of_another_asset_is_refused() {
    let mut a = asset(1000);
    let before = a.clone();
    assert_eq!(a.transfer([0xA6; 32], [1; 32], [2; 32], true), Err(LedgerError::AccountMismatch));
    assert_eq!(a, before);
}

#[test]
fn note_is_spent_once() {
    let mut a = asset(1000);
    a.transfer(ASSET, [1; 32], [2; 32], true).unwrap();
    let before = a.clone();
    assert_eq!(a.transfer(ASSET, [1; 32], [3; 32], true), Err(LedgerError::AlreadyUsed));
    assert_eq!(a.transfer(ASSET, [1; 32], [3; 32], false), Err(LedgerError::AlreadyUsed));
    assert_eq!(a, before);
}

#[test]
fn transfer_with_rejected_proof_is_refused() {
    let mut a = asset(1000);
    let before = a.clone();
    assert_eq!(a.transfer(ASSET, [1; 32], [2; 32], false), Err(LedgerError::InvalidProof));
    assert_eq!(a, before);
}

#[test]
fn transfer_on_uninitialized_asset_is_refused() {
    let mut a = asset(1000);
    a.initialized = false;
    assert_eq!(a.transfer(ASSET, [1; 32], [2; 32], true), Err(LedgerError::NotInitialized));
}

#[test]
fn transfer_when_the_note_counter_is_exhausted_is_refused() {
    let mut a = asset(1000);
    a.note_count = u64::MAX;
    let before = a.clone();
    assert_eq!(a.transfer(ASSET, [1; 32], [2; 32], true), Err(LedgerError::TreeFull));
    assert_eq!(a, before);
}
