use ghost_privacy::error::LedgerError;
use ghost_privacy::pool::PoolLedger;

const AUTHORITY: [u8; 32] = [0x11; 32];
const VAULT: [u8; 32] = [0x22; 32];
const C1: [u8; 32] = [0xC1; 32];
const C2: [u8; 32] = [0xC2; 32];
const N1: [u8; 32] = [0x01; 32];
const N2: [u8; 32] = [0x02; 32];
const K1: [u8; 32] = [0x71; 32];

fn pool(depth: u8, denomination: u64) -> PoolLedger {
    PoolLedger::initialize(AUTHORITY, VAULT, depth, denomination)
}

#[test]
fn initialized_pool_is_empty() {
    let p = pool(2, 100);
    assert_eq!(p.authority, AUTHORITY);
    assert_eq!(p.vault, VAULT);
    assert_eq!(p.tree.depth, 2);
    assert_eq!(p.denomination, 100);
    assert_eq!(p.total_value_locked, 0);
    assert_eq!(p.commitment_count(), 0);
    assert_eq!(p.merkle_root(), [0u8; 32]);
    assert_eq!(p.used_nullifiers.len(), 0);
    assert_eq!(p.used_key_images.len(), 0);
    assert!(p.initialized);
}

#[test]
fn pool_scenario_deposit_withdraw_replay() {
    let mut p = pool(2, 100);

    assert_eq!(p.deposit(C1, 100), Ok(()));
    assert_eq!(p.total_value_locked, 100);
    assert_eq!(p.commitment_count(), 1);

    let before = p.clone();
    assert_eq!(p.deposit(C2, 50), Err(LedgerError::InvalidAmount));
    assert_eq!(p, before);

    assert_eq!(p.withdraw(N1, None, 100, true), Ok(()));
    assert_eq!(p.total_value_locked, 0);
    assert_eq!(p.used_nullifiers.used, vec![N1]);
    assert_eq!(p.commitment_count(), 1);

    let before = p.clone();
    assert_eq!(p.withdraw(N1, None, 100, true), Err(LedgerError::AlreadyUsed));
    assert_eq!(p, before);
}

#[test]
fn deposit_adds_amount_and_one_commitment() {
    let mut p = pool(3, 7);
    for i in 0u64..5 {
        assert_eq!(p.total_value_locked, 7 * i);
        assert_eq!(p.commitment_count(), i);
        assert_eq!(p.deposit([i as u8; 32], 7), Ok(()));
    }
    assert_eq!(p.total_value_locked, 35);
    assert_eq!(p.commitment_count(), 5);
}

#[test]
fn deposit_root_is_the_chain_root() {
    let mut p = pool(2, 100);
    p.deposit(C1, 100).unwrap();
    assert_eq!(
        p.merkle_root(),
        [
            0x7d, 0x77, 0x5d, 0xc5, 0x78, 0x6f, 0x4f, 0xb2, 0xb0, 0x0d, 0xf7, 0xba, 0x62, 0xbe,
            0x68, 0x55, 0xe6, 0xb2, 0x61, 0xf1, 0x6f, 0x26, 0xe6, 0xb4, 0x77, 0xa8, 0x1d, 0x67,
            0x25, 0xf0, 0x89, 0x4e
        ]
    );
}

#[test]
fn deposit_into_uninitialized_pool_is_refused() {
    let mut p = pool(2, 100);
    p.initialized = false;
    let before = p.clone();
    assert_eq!(p.deposit(C1, 100), Err(LedgerError::NotInitialized));
    assert_eq!(p, before);
}

#[test]
fn deposit_into_full_tree_is_refused() {
    let mut p = pool(1, 10);
    p.deposit(C1, 10).unwrap();
    p.deposit(C2, 10).unwrap();
    let before = p.clone();
    assert_eq!(p.deposit(C1, 10), Err(LedgerError::TreeFull));
    assert_eq!(p, before);
}

#[test]
fn deposit_that_would_overflow_the_locked_value_is_refused() {
    let mut p = pool(8, 10);
    p.total_value_locked = u64::MAX - 9;
    let before = p.clone();
    assert_eq!(p.deposit(C1, 10), Err(LedgerError::Overflow));
    assert_eq!(p, before);
    p.total_value_locked = u64::MAX - 10;
    assert_eq!(p.deposit(C1, 10), Ok(()));
    assert_eq!(p.total_value_locked, u64::MAX);
}

#[test]
fn withdraw_with_rejected_proof_is_refused() {
    let mut p = pool(2, 100);
    p.deposit(C1, 100).unwrap();
    let before = p.clone();
    assert_eq!(p.withdraw(N1, None, 100, false), Err(LedgerError::InvalidProof));
    assert_eq!(p, before);
    assert_eq!(p.withdraw(N1, None, 100, true), Ok(()));
}

#[test]
fn withdraw_of_more_than_is_locked_is_refused_whole() {
    let mut p = pool(2, 100);
    p.deposit(C1, 100).unwrap();
    let before = p.clone();
    assert_eq!(p.withdraw(N1, Some(C2), 101, true), Err(LedgerError::InsufficientCustodyBalance));
    assert_eq!(p, before);
    assert!(!p.used_nullifiers.is_used(&N1));
    assert_eq!(p.commitment_count(), 1);
}

#[test]
fn withdraw_with_change_inserts_the_change_commitment() {
    let mut p = pool(2, 100);
    p.deposit(C1, 100).unwrap();
    let root_before = p.merkle_root();
    assert_eq!(p.withdraw(N1, Some(C2), 40, true), Ok(()));
    assert_eq!(p.total_value_locked, 60);
    assert_eq!(p.commitment_count(), 2);
    assert_eq!(p.merkle_root(), ghost_privacy::tree::next_root(&root_before, &C2));
    assert_eq!(p.used_nullifiers.used, vec![N1]);
}

#[test]
fn withdraw_with_change_into_full_tree_is_refused() {
    let mut p = pool(0, 100);
    p.deposit(C1, 100).unwrap();
    let before = p.clone();
    assert_eq!(p.withdraw(N1, Some(C2), 10, true), Err(LedgerError::TreeFull));
    assert_eq!(p, before);
    assert_eq!(p.withdraw(N1, None, 10, true), Ok(()));
}

#[test]
fn withdraw_from_uninitialized_pool_is_refused() {
    let mut p = pool(2, 100);
    p.initialized = false;
    assert_eq!(p.withdraw(N1, None, 0, true), Err(LedgerError::NotInitialized));
}

#[test]
fn used_nullifier_is_refused_before_the_proof_is_looked_at() {
    let mut p = pool(2, 100);
    p.deposit(C1, 100).unwrap();
    p.withdraw(N1, None, 10, true).unwrap();
    assert_eq!(p.withdraw(N1, None, 10, false), Err(LedgerError::AlreadyUsed));
    assert_eq!(p.withdraw(N2, None, 10, false), Err(LedgerError::InvalidProof));
}

#[test]
fn spent_nullifier_stays_spent_across_other_operations() {
    let mut p = pool(4, 100);
    p.deposit(C1, 100).unwrap();
    p.withdraw(N1, None, 30, true).unwrap();
    p.deposit(C2, 100).unwrap();
    p.private_transfer(K1, 3, [0xD1; 32], true).unwrap();
    p.withdraw(N2, Some([0xD2; 32]), 20, true).unwrap();
    let before = p.clone();
    assert_eq!(p.withdraw(N1, None, 1, true), Err(LedgerError::AlreadyUsed));
    assert_eq!(p.withdraw(N1, Some(C1), 0, true), Err(LedgerError::AlreadyUsed));
    assert_eq!(p, before);
}

#[test]
fn private_transfer_spends_key_image_and_keeps_value() {
    let mut p = pool(2, 100);
    p.deposit(C1, 100).unwrap();
    assert_eq!(p.private_transfer(K1, 4, C2, true), Ok(()));
    assert_eq!(p.total_value_locked, 100);
    assert_eq!(p.commitment_count(), 2);
    assert_eq!(p.used_key_images.used, vec![K1]);
    assert_eq!(p.used_nullifiers.len(), 0);
}

#[test]
fn key_image_is_spent_once() {
    let mut p = pool(3, 100);
    p.private_transfer(K1, 2, C1, true).unwrap();
    p.deposit(C2, 100).unwrap();
    let before = p.clone();
    assert_eq!(p.private_transfer(K1, 2, C2, true), Err(LedgerError::AlreadyUsed));
    assert_eq!(p, before);
}

#[test]
fn private_transfer_with_bad_signature_or_empty_ring_is_refused() {
    let mut p = pool(2, 100);
    let before = p.clone();
    assert_eq!(p.private_transfer(K1, 4, C2, false), Err(LedgerError::InvalidSignature));
    assert_eq!(p.private_transfer(K1, 0, C2, true), Err(LedgerError::InvalidSignature));
    assert_eq!(p, before);
}

#[test]
fn private_transfer_on_uninitialized_or_full_pool_is_refused() {
    let mut p = pool(0, 100);
    p.initialized = false;
    assert_eq!(p.private_transfer(K1, 1, C1, true), Err(LedgerError::NotInitialized));
    p.initialized = true;
    p.deposit(C1, 100).unwrap();
    let before = p.clone();
    assert_eq!(p.private_transfer(K1, 1, C2, true), Err(LedgerError::TreeFull));
    assert_eq!(p, before);
}

#[test]
fn nullifier_and_key_image_registries_are_separate() {
    let mut p = pool(3, 100);
    p.deposit(C1, 100).unwrap();
    p.withdraw(N1, None, 10, true).unwrap();
    assert_eq!(p.private_transfer(N1, 1, C2, true), Ok(()));
    assert_eq!(p.withdraw(K1, None, 10, true), Ok(()));
}
