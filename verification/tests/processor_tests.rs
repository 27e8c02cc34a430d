use ghost_privacy::account::{move_value, plan_move, store, Account};
use ghost_privacy::codec::{decode_asset, decode_pool, encode_pool};
use ghost_privacy::error::LedgerError;
use ghost_privacy::host::derive_vault;
use ghost_privacy::instruction::{encode_instruction, PrivacyInstruction};
use ghost_privacy::pool::PoolLedger;
use ghost_privacy::processor::{
    build_balance_inputs, build_hash_inputs, build_withdraw_inputs, Processor,
};

const PROGRAM: [u8; 32] = [0x07; 32];
const POOL: [u8; 32] = [0x50; 32];
const AUTHORITY: [u8; 32] = [0x11; 32];
const RECIPIENT: [u8; 32] = [0x33; 32];
const SYSTEM: [u8; 32] = [0x00; 32];
const C1: [u8; 32] = [0xC1; 32];
const N1: [u8; 32] = [0x01; 32];
const RENT: u64 = 890_880;

fn account(key: [u8; 32], is_signer: bool, lamports: u64, size: usize) -> Account {
    Account { key, is_signer, lamports, data: vec![0u8; size] }
}

fn vault_key() -> [u8; 32] {
    derive_vault(&POOL, &PROGRAM).unwrap().0
}

fn fresh_accounts() -> Vec<Account> {
    vec![
        account(POOL, false, 0, 400),
        account(AUTHORITY, true, 10_000_000, 0),
        account(vault_key(), false, 0, 0),
        account(SYSTEM, false, 1, 0),
    ]
}

fn accept(_proof: &Vec<u8>, _inputs: &Vec<Vec<u8>>) -> bool {
    true
}

fn reject(_proof: &Vec<u8>, _inputs: &Vec<Vec<u8>>) -> bool {
    false
}

fn accept_ring(_signature: &Vec<u8>, _key_image: &[u8; 32], _ring: &Vec<[u8; 32]>) -> bool {
    true
}

fn reject_ring(_signature: &Vec<u8>, _key_image: &[u8; 32], _ring: &Vec<[u8; 32]>) -> bool {
    false
}

fn run(accounts: &mut Vec<Account>, instruction: &PrivacyInstruction) -> Result<(), LedgerError> {
    let data = encode_instruction(instruction).unwrap();
    Processor::process(&PROGRAM, accounts, &data, RENT, accept, accept_ring, accept)
}

fn initialized_accounts(depth: u8, denomination: u64) -> Vec<Account> {
    let mut accounts = fresh_accounts();
    run(&mut accounts, &PrivacyInstruction::InitializePool { tree_depth: depth, denomination })
        .unwrap();
    accounts
}

fn withdraw_accounts(deposit_accounts: &Vec<Account>) -> Vec<Account> {
    vec![
        deposit_accounts[0].clone(),
        deposit_accounts[2].clone(),
        account(RECIPIENT, false, 5, 0),
        account(SYSTEM, false, 1, 0),
    ]
}

fn withdraw(amount: u64) -> PrivacyInstruction {
    PrivacyInstruction::Withdraw {
        proof: vec![1, 2, 3],
        root: [0x10; 32],
        nullifier: N1,
        new_commitment: None,
        recipient: RECIPIENT,
        amount,
    }
}

#[test]
fn initialize_pool_creates_the_pool_and_funds_the_vault() {
    let accounts = initialized_accounts(2, 100);
    let pool = decode_pool(&accounts[0].data).unwrap();
    assert_eq!(pool, PoolLedger::initialize(AUTHORITY, vault_key(), 2, 100));
    assert_eq!(accounts[1].lamports, 10_000_000 - RENT);
    assert_eq!(accounts[2].lamports, RENT);
    assert_eq!(accounts[0].data.len(), 400);
    assert_eq!(accounts[3], account(SYSTEM, false, 1, 0));
}

#[test]
fn initialize_pool_needs_four_accounts() {
    let mut accounts = fresh_accounts();
    accounts.pop();
    let before = accounts.clone();
    let r = run(&mut accounts, &PrivacyInstruction::InitializePool { tree_depth: 2, denomination: 100 });
    assert_eq!(r, Err(LedgerError::NotEnoughAccounts));
    assert_eq!(accounts, before);
}

#[test]
fn initialize_pool_needs_the_authority_to_sign() {
    let mut accounts = fresh_accounts();
    accounts[1].is_signer = false;
    let before = accounts.clone();
    let r = run(&mut accounts, &PrivacyInstruction::InitializePool { tree_depth: 2, denomination: 100 });
    assert_eq!(r, Err(LedgerError::MissingSignature));
    assert_eq!(accounts, before);
}

#[test]
fn initialize_pool_twice_is_refused() {
    let mut accounts = initialized_accounts(2, 100);
    let before = accounts.clone();
    let r = run(&mut accounts, &PrivacyInstruction::InitializePool { tree_depth: 3, denomination: 5 });
    assert_eq!(r, Err(LedgerError::AlreadyInitialized));
    assert_eq!(accounts, before);
}

#[test]
fn initialize_pool_with_a_foreign_vault_is_refused() {
    let mut accounts = fresh_accounts();
    accounts[2].key = [0x99; 32];
    let before = accounts.clone();
    let r = run(&mut accounts, &PrivacyInstruction::InitializePool { tree_depth: 2, denomination: 100 });
    assert_eq!(r, Err(LedgerError::AccountMismatch));
    assert_eq!(accounts, before);
}

#[test]
fn initialize_pool_with_a_poor_authority_is_refused() {
    let mut accounts = fresh_accounts();
    accounts[1].lamports = RENT - 1;
    let before = accounts.clone();
    let r = run(&mut accounts, &PrivacyInstruction::InitializePool { tree_depth: 2, denomination: 100 });
    assert_eq!(r, Err(LedgerError::InsufficientCustodyBalance));
    assert_eq!(accounts, before);
}

#[test]
fn initialize_pool_into_too_small_an_account_is_refused() {
    let mut accounts = fresh_accounts();
    accounts[0].data = vec![0u8; 129];
    let before = accounts.clone();
    let r = run(&mut accounts, &PrivacyInstruction::InitializePool { tree_depth: 2, denomination: 100 });
    assert_eq!(r, Err(LedgerError::AccountTooSmall));
    assert_eq!(accounts, before);
    accounts[0].data = vec![0u8; 130];
    let r = run(&mut accounts, &PrivacyInstruction::InitializePool { tree_depth: 2, denomination: 100 });
    assert_eq!(r, Ok(()));
}

#[test]
fn initialize_pool_over_undecodable_data_succeeds() {
    let mut accounts = fresh_accounts();
    accounts[0].data = vec![0xFFu8; 400];
    let r = run(&mut accounts, &PrivacyInstruction::InitializePool { tree_depth: 2, denomination: 100 });
    assert_eq!(r, Ok(()));
    let pool = decode_pool(&accounts[0].data).unwrap();
    assert!(pool.initialized);
    assert_eq!(&accounts[0].data[130..], &[0xFFu8; 270][..]);
}

#[test]
fn processor_scenario_deposit_withdraw_replay() {
    let mut accounts = initialized_accounts(2, 100);

    assert_eq!(run(&mut accounts, &PrivacyInstruction::Deposit { commitment: C1, amount: 100 }), Ok(()));
    let pool = decode_pool(&accounts[0].data).unwrap();
    assert_eq!(pool.total_value_locked, 100);
    assert_eq!(pool.commitment_count(), 1);
    assert_eq!(accounts[1].lamports, 10_000_000 - RENT - 100);
    assert_eq!(accounts[2].lamports, RENT + 100);

    let before = accounts.clone();
    assert_eq!(
        run(&mut accounts, &PrivacyInstruction::Deposit { commitment: [0xC2; 32], amount: 50 }),
        Err(LedgerError::InvalidAmount)
    );
    assert_eq!(accounts, before);

    let mut accounts = withdraw_accounts(&accounts);
    assert_eq!(run(&mut accounts, &withdraw(100)), Ok(()));
    let pool = decode_pool(&accounts[0].data).unwrap();
    assert_eq!(pool.total_value_locked, 0);
    assert_eq!(pool.used_nullifiers.used, vec![N1]);
    assert_eq!(accounts[1].lamports, RENT);
    assert_eq!(accounts[2].lamports, 105);

    let before = accounts.clone();
    assert_eq!(run(&mut accounts, &withdraw(100)), Err(LedgerError::AlreadyUsed));
    assert_eq!(accounts, before);
}

#[test]
fn deposit_needs_the_depositor_to_sign() {
    let mut accounts = initialized_accounts(2, 100);
    accounts[1].is_signer = false;
    let before = accounts.clone();
    let r = Processor::process_deposit(&mut accounts, C1, 100);
    assert_eq!(r, Err(LedgerError::MissingSignature));
    assert_eq!(accounts, before);
}

#[test]
fn deposit_into_a_foreign_vault_is_refused() {
    let mut accounts = initialized_accounts(2, 100);
    accounts[2].key = [0x99; 32];
    let before = accounts.clone();
    assert_eq!(Processor::process_deposit(&mut accounts, C1, 100), Err(LedgerError::AccountMismatch));
    assert_eq!(accounts, before);
}

#[test]
fn deposit_by_a_poor_depositor_is_refused() {
    let mut accounts = initialized_accounts(2, 100);
    accounts[1].lamports = 99;
    let before = accounts.clone();
    assert_eq!(
        Processor::process_deposit(&mut accounts, C1, 100),
        Err(LedgerError::InsufficientCustodyBalance)
    );
    assert_eq!(accounts, before);
}

#[test]
fn deposit_that_overflows_the_vault_is_refused() {
    let mut accounts = initialized_accounts(2, 100);
    accounts[2].lamports = u64::MAX - 99;
    let before = accounts.clone();
    assert_eq!(Processor::process_deposit(&mut accounts, C1, 100), Err(LedgerError::Overflow));
    assert_eq!(accounts, before);
}

#[test]
fn deposit_into_a_pool_that_was_never_created_is_refused() {
    let mut accounts = fresh_accounts();
    let before = accounts.clone();
    assert_eq!(Processor::process_deposit(&mut accounts, C1, 100), Err(LedgerError::NotInitialized));
    assert_eq!(accounts, before);
}

#[test]
fn deposit_over_undecodable_data_is_refused() {
    let mut accounts = fresh_accounts();
    accounts[0].data = vec![0xFF; 400];
    assert_eq!(Processor::process_deposit(&mut accounts, C1, 100), Err(LedgerError::MalformedData));
    accounts[0].data = vec![];
    assert_eq!(Processor::process_deposit(&mut accounts, C1, 100), Err(LedgerError::MalformedData));
}

#[test]
fn withdraw_that_no_longer_fits_the_account_is_refused() {
    let mut accounts = initialized_accounts(3, 100);
    accounts[0].data.truncate(161);
    Processor::process_deposit(&mut accounts, C1, 100).unwrap();
    let mut accounts = withdraw_accounts(&accounts);
    let before = accounts.clone();
    let r = Processor::apply_withdraw(&mut accounts, N1, None, RECIPIENT, 10, true);
    assert_eq!(r, Err(LedgerError::AccountTooSmall));
    assert_eq!(accounts, before);
}

#[test]
fn deposit_into_a_full_tree_is_refused() {
    let mut accounts = initialized_accounts(0, 100);
    Processor::process_deposit(&mut accounts, C1, 100).unwrap();
    let before = accounts.clone();
    assert_eq!(Processor::process_deposit(&mut accounts, C1, 100), Err(LedgerError::TreeFull));
    assert_eq!(accounts, before);
}

#[test]
fn withdraw_asks_the_verifier_about_proof_and_public_inputs() {
    let mut accounts = initialized_accounts(2, 100);
    Processor::process_deposit(&mut accounts, C1, 100).unwrap();
    let mut accounts = withdraw_accounts(&accounts);
    let root = [0x10u8; 32];
    let expected = vec![root.to_vec(), N1.to_vec(), vec![0u8; 32]];
    let verify = |proof: &Vec<u8>, inputs: &Vec<Vec<u8>>| *proof == vec![1, 2, 3] && *inputs == expected;
    let r = Processor::process_withdraw(
        &mut accounts,
        vec![1, 2, 3],
        root,
        N1,
        None,
        RECIPIENT,
        60,
        verify,
    );
    assert_eq!(r, Ok(()));
    assert_eq!(decode_pool(&accounts[0].data).unwrap().total_value_locked, 40);
}

#[test]
fn withdraw_with_rejected_proof_changes_nothing() {
    let mut accounts = initialized_accounts(2, 100);
    Processor::process_deposit(&mut accounts, C1, 100).unwrap();
    let mut accounts = withdraw_accounts(&accounts);
    let before = accounts.clone();
    let data = encode_instruction(&withdraw(100)).unwrap();
    let r = Processor::process(&PROGRAM, &mut accounts, &data, RENT, reject, accept_ring, accept);
    assert_eq!(r, Err(LedgerError::InvalidProof));
    assert_eq!(accounts, before);
}

#[test]
fn withdraw_exceeding_what_is_locked_changes_nothing() {
    let mut accounts = initialized_accounts(2, 100);
    Processor::process_deposit(&mut accounts, C1, 100).unwrap();
    let mut accounts = withdraw_accounts(&accounts);
    let before = accounts.clone();
    assert_eq!(run(&mut accounts, &withdraw(101)), Err(LedgerError::InsufficientCustodyBalance));
    assert_eq!(accounts, before);
}

#[test]
fn withdraw_exceeding_the_vault_balance_changes_nothing() {
    let mut accounts = initialized_accounts(2, 100);
    Processor::process_deposit(&mut accounts, C1, 100).unwrap();
    let mut accounts = withdraw_accounts(&accounts);
    accounts[1].lamports = 99;
    let before = accounts.clone();
    assert_eq!(run(&mut accounts, &withdraw(100)), Err(LedgerError::InsufficientCustodyBalance));
    assert_eq!(accounts, before);
}

#[test]
fn withdraw_to_another_account_than_the_recipient_is_refused() {
    let mut accounts = initialized_accounts(2, 100);
    Processor::process_deposit(&mut accounts, C1, 100).unwrap();
    let mut accounts = withdraw_accounts(&accounts);
    accounts[2].key = [0x34; 32];
    let before = accounts.clone();
    assert_eq!(run(&mut accounts, &withdraw(100)), Err(LedgerError::AccountMismatch));
    assert_eq!(accounts, before);
}

#[test]
fn withdraw_from_another_account_than_the_vault_is_refused() {
    let mut accounts = initialized_accounts(2, 100);
    Processor::process_deposit(&mut accounts, C1, 100).unwrap();
    let mut accounts = withdraw_accounts(&accounts);
    accounts[1].key = [0x99; 32];
    let before = accounts.clone();
    assert_eq!(run(&mut accounts, &withdraw(100)), Err(LedgerError::AccountMismatch));
    assert_eq!(accounts, before);
}

#[test]
fn withdraw_with_too_few_accounts_does_not_ask_the_verifier() {
    let mut accounts = vec![account(POOL, false, 0, 400)];
    let data = encode_instruction(&withdraw(100)).unwrap();
    let must_not_run = |_: &Vec<u8>, _: &Vec<Vec<u8>>| -> bool { panic!("verifier was asked") };
    let r = Processor::process(&PROGRAM, &mut accounts, &data, RENT, must_not_run, accept_ring, accept);
    assert_eq!(r, Err(LedgerError::NotEnoughAccounts));
}

#[test]
fn private_transfer_through_the_processor() {
    let accounts = initialized_accounts(2, 100);
    let mut accounts = vec![
        accounts[0].clone(),
        account([0x61; 32], false, 0, 0),
        account([0x62; 32], false, 0, 0),
    ];
    let instruction = PrivacyInstruction::PrivateTransfer {
        ring_signature: vec![9; 64],
        key_image: [0x71; 32],
        ring_members: vec![[1; 32], [2; 32]],
        new_commitment: [0xC5; 32],
        encrypted_amount: vec![0xEE; 8],
    };
    assert_eq!(run(&mut accounts, &instruction), Ok(()));
    let pool = decode_pool(&accounts[0].data).unwrap();
    assert_eq!(pool.used_key_images.used, vec![[0x71u8; 32]]);
    assert_eq!(pool.commitment_count(), 1);
    assert_eq!(pool.total_value_locked, 0);

    let before = accounts.clone();
    assert_eq!(run(&mut accounts, &instruction), Err(LedgerError::AlreadyUsed));
    assert_eq!(accounts, before);
}

#[test]
fn private_transfer_with_rejected_signature_or_empty_ring_is_refused() {
    let accounts = initialized_accounts(2, 100);
    let mut accounts = vec![
        accounts[0].clone(),
        account([0x61; 32], false, 0, 0),
        account([0x62; 32], false, 0, 0),
    ];
    let before = accounts.clone();
    let r = Processor::process_private_transfer(
        &mut accounts,
        vec![9; 64],
        [0x71; 32],
        vec![[1; 32]],
        [0xC5; 32],
        vec![],
        reject_ring,
    );
    assert_eq!(r, Err(LedgerError::InvalidSignature));
    let r = Processor::process_private_transfer(
        &mut accounts,
        vec![9; 64],
        [0x71; 32],
        vec![],
        [0xC5; 32],
        vec![],
        accept_ring,
    );
    assert_eq!(r, Err(LedgerError::InvalidSignature));
    assert_eq!(accounts, before);
    accounts.pop();
    let r = Processor::apply_private_transfer(&mut accounts, [0x71; 32], 1, [0xC5; 32], true);
    assert_eq!(r, Err(LedgerError::NotEnoughAccounts));
}

#[test]
fn private_transfer_hands_the_ring_to_the_verifier() {
    let accounts = initialized_accounts(2, 100);
    let mut accounts = vec![
        accounts[0].clone(),
        account([0x61; 32], false, 0, 0),
        account([0x62; 32], false, 0, 0),
    ];
    let verify = |signature: &Vec<u8>, key_image: &[u8; 32], ring: &Vec<[u8; 32]>| {
        *signature == vec![9u8; 4] && *key_image == [0x71; 32] && *ring == vec![[1u8; 32], [2; 32]]
    };
    let r = Processor::process_private_transfer(
        &mut accounts,
        vec![9; 4],
        [0x71; 32],
        vec![[1; 32], [2; 32]],
        [0xC5; 32],
        vec![],
        verify,
    );
    assert_eq!(r, Ok(()));
}

#[test]
fn verify_balance_follows_the_verifier() {
    let mut accounts: Vec<Account> = Vec::new();
    let instruction = PrivacyInstruction::VerifyBalance {
        proof: vec![4, 5],
        min_balance: 258,
        balance_commitment: [0xB1; 32],
    };
    let data = encode_instruction(&instruction).unwrap();
    let r = Processor::process(&PROGRAM, &mut accounts, &data, RENT, reject, accept_ring, accept);
    assert_eq!(r, Ok(()));
    let r = Processor::process(&PROGRAM, &mut accounts, &data, RENT, accept, accept_ring, reject);
    assert_eq!(r, Err(LedgerError::InvalidProof));
    assert!(accounts.is_empty());

    let expected = vec![vec![2u8, 1, 0, 0, 0, 0, 0, 0], vec![0xB1u8; 32]];
    let verify = |proof: &Vec<u8>, inputs: &Vec<Vec<u8>>| *proof == vec![4, 5] && *inputs == expected;
    assert_eq!(Processor::process_verify_balance(vec![4, 5], 258, [0xB1; 32], verify), Ok(()));
    assert_eq!(Processor::settle_balance(true), Ok(()));
    assert_eq!(Processor::settle_balance(false), Err(LedgerError::InvalidProof));
}

fn asset_accounts() -> Vec<Account> {
    vec![
        account(AUTHORITY, true, 10, 0),
        account([0xA0; 32], false, 0, 300),
        account(SYSTEM, false, 1, 0),
    ]
}

fn issue() -> PrivacyInstruction {
    PrivacyInstruction::IssueAsset {
        name: "Ghost Dollar".to_string(),
        symbol: "GUSD".to_string(),
        decimals: 6,
        total_supply: 1000,
        asset_id: [0xA5; 32],
    }
}

#[test]
fn issue_asset_scenario() {
    let mut accounts = asset_accounts();
    assert_eq!(run(&mut accounts, &issue()), Ok(()));
    let asset = decode_asset(&accounts[1].data).unwrap();
    assert_eq!(asset.total_supply, 1000);
    assert_eq!(asset.circulating_supply, 0);
    assert_eq!(asset.issuer, AUTHORITY);
    assert_eq!(asset.asset_id, [0xA5; 32]);
    assert_eq!(asset.name, "Ghost Dollar");
    assert_eq!(asset.symbol, "GUSD");
    assert_eq!(asset.note_count, 0);
    assert!(asset.initialized);

    let mut accounts = vec![
        accounts[1].clone(),
        account([0x61; 32], false, 0, 0),
        account([0x62; 32], false, 0, 0),
    ];
    let transfer = PrivacyInstruction::TransferAsset {
        proof: vec![1],
        asset_id: [0xA5; 32],
        nullifier: N1,
        new_commitment: [0xC7; 32],
        encrypted_data: vec![1, 2, 3],
    };
    assert_eq!(run(&mut accounts, &transfer), Ok(()));
    let asset = decode_asset(&accounts[0].data).unwrap();
    assert_eq!(asset.circulating_supply, 0);
    assert_eq!(asset.note_count, 1);
    assert_eq!(asset.used_nullifiers.used, vec![N1]);

    let before = accounts.clone();
    assert_eq!(run(&mut accounts, &transfer), Err(LedgerError::AlreadyUsed));
    assert_eq!(accounts, before);
}

#[test]
fn issue_asset_checks_signer_accounts_and_existing_state() {
    let mut accounts = asset_accounts();
    accounts[0].is_signer = false;
    let before = accounts.clone();
    assert_eq!(run(&mut accounts, &issue()), Err(LedgerError::MissingSignature));
    assert_eq!(accounts, before);

    let mut accounts = asset_accounts();
    accounts.pop();
    assert_eq!(run(&mut accounts, &issue()), Err(LedgerError::NotEnoughAccounts));

    let mut accounts = asset_accounts();
    accounts[1].data = vec![0u8; 20];
    assert_eq!(run(&mut accounts, &issue()), Err(LedgerError::AccountTooSmall));

    let mut accounts = asset_accounts();
    run(&mut accounts, &issue()).unwrap();
    let before = accounts.clone();
    assert_eq!(run(&mut accounts, &issue()), Err(LedgerError::AlreadyInitialized));
    assert_eq!(accounts, before);
}

#[test]
fn transfer_asset_checks_asset_proof_and_accounts() {
    let mut issued = asset_accounts();
    run(&mut issued, &issue()).unwrap();
    let accounts = vec![
        issued[1].clone(),
        account([0x61; 32], false, 0, 0),
        account([0x62; 32], false, 0, 0),
    ];

    let mut a = accounts.clone();
    let r = Processor::apply_transfer_asset(&mut a, [0xA6; 32], N1, [0xC7; 32], true);
    assert_eq!(r, Err(LedgerError::AccountMismatch));
    assert_eq!(a, accounts);

    let r = Processor::process_transfer_asset(&mut a, vec![1], [0xA5; 32], N1, [0xC7; 32], vec![], reject);
    assert_eq!(r, Err(LedgerError::InvalidProof));
    assert_eq!(a, accounts);

    let expected = vec![vec![0xA5u8; 32], N1.to_vec(), vec![0xC7u8; 32]];
    let verify = |proof: &Vec<u8>, inputs: &Vec<Vec<u8>>| *proof == vec![1] && *inputs == expected;
    let r = Processor::process_transfer_asset(&mut a, vec![1], [0xA5; 32], N1, [0xC7; 32], vec![], verify);
    assert_eq!(r, Ok(()));

    let mut short = accounts.clone();
    short.truncate(2);
    let r = Processor::apply_transfer_asset(&mut short, [0xA5; 32], N1, [0xC7; 32], true);
    assert_eq!(r, Err(LedgerError::NotEnoughAccounts));

    let mut blank = accounts.clone();
    blank[0].data = vec![0u8; 300];
    let r = Processor::apply_transfer_asset(&mut blank, [0u8; 32], N1, [0xC7; 32], true);
    assert_eq!(r, Err(LedgerError::NotInitialized));
}

#[test]
fn malformed_instruction_data_is_refused() {
    let mut accounts = fresh_accounts();
    let before = accounts.clone();
    for data in [vec![], vec![9u8], vec![0u8, 2], vec![0u8, 2, 100, 0, 0, 0, 0, 0, 0, 0, 0]] {
        let r = Processor::process(&PROGRAM, &mut accounts, &data, RENT, accept, accept_ring, accept);
        assert_eq!(r, Err(LedgerError::MalformedData));
        assert_eq!(accounts, before);
    }
}

#[test]
fn stored_pool_loads_again_from_a_larger_account() {
    let pool = PoolLedger::initialize(AUTHORITY, [0x22; 32], 4, 10);
    let mut accounts = vec![account(POOL, false, 0, 1000)];
    accounts[0].data = vec![0xAB; 1000];
    assert_eq!(store(&mut accounts, 0, &encode_pool(&pool).unwrap()), Ok(()));
    assert_eq!(decode_pool(&accounts[0].data), Ok(pool));
    assert_eq!(&accounts[0].data[130..], &[0xABu8; 870][..]);
}

#[test]
fn move_value_moves_or_refuses_whole() {
    let mut accounts = vec![account([1; 32], false, 10, 0), account([2; 32], false, 5, 0)];
    assert_eq!(plan_move(&accounts, 0, 1, 4), Ok((6, 9)));
    assert_eq!(move_value(&mut accounts, 0, 1, 4), Ok(()));
    assert_eq!((accounts[0].lamports, accounts[1].lamports), (6, 9));
    assert_eq!(move_value(&mut accounts, 0, 1, 7), Err(LedgerError::InsufficientCustodyBalance));
    assert_eq!((accounts[0].lamports, accounts[1].lamports), (6, 9));
    assert_eq!(move_value(&mut accounts, 1, 0, 9), Ok(()));
    assert_eq!((accounts[0].lamports, accounts[1].lamports), (15, 0));
    accounts[1].lamports = u64::MAX;
    assert_eq!(move_value(&mut accounts, 0, 1, 1), Err(LedgerError::Overflow));
    assert_eq!(move_value(&mut accounts, 0, 1, 0), Ok(()));
    accounts[1].key = [1; 32];
    assert_eq!(move_value(&mut accounts, 0, 1, 1), Err(LedgerError::AccountMismatch));
    assert_eq!(move_value(&mut accounts, 0, 0, 1), Err(LedgerError::AccountMismatch));
}

#[test]
fn public_inputs_are_built_as_documented() {
    let a = [1u8; 32];
    let b = [2u8; 32];
    let c = [3u8; 32];
    assert_eq!(build_hash_inputs(&a, &b, &c), vec![a.to_vec(), b.to_vec(), c.to_vec()]);
    assert_eq!(build_withdraw_inputs(&a, &b, &Some(c)), vec![a.to_vec(), b.to_vec(), c.to_vec()]);
    assert_eq!(build_withdraw_inputs(&a, &b, &None), vec![a.to_vec(), b.to_vec(), vec![0u8; 32]]);
    assert_eq!(
        build_balance_inputs(0x0102_0304_0506_0708, &c),
        vec![vec![8u8, 7, 6, 5, 4, 3, 2, 1], c.to_vec()]
    );
}

#[test]
fn wrong_amount_is_refused_as_such_whoever_signed() {
    let mut accounts = initialized_accounts(2, 100);
    accounts[1].is_signer = false;
    let before = accounts.clone();
    for amount in [0u64, 50, 99, 101, 200] {
        let r = run(&mut accounts, &PrivacyInstruction::Deposit { commitment: C1, amount });
        assert_eq!(r, Err(LedgerError::InvalidAmount));
        assert_eq!(accounts, before);
    }
}

#[test]
fn uninitialized_pool_refuses_every_request_as_such() {
    let mut accounts = fresh_accounts();
    accounts[1].is_signer = false;
    let before = accounts.clone();
    let r = run(&mut accounts, &PrivacyInstruction::Deposit { commitment: C1, amount: 100 });
    assert_eq!(r, Err(LedgerError::NotInitialized));
    assert_eq!(accounts, before);

    let mut accounts = withdraw_accounts(&fresh_accounts());
    let before = accounts.clone();
    assert_eq!(run(&mut accounts, &withdraw(0)), Err(LedgerError::NotInitialized));
    let data = encode_instruction(&withdraw(0)).unwrap();
    let r = Processor::process(&PROGRAM, &mut accounts, &data, RENT, reject, accept_ring, accept);
    assert_eq!(r, Err(LedgerError::NotInitialized));
    assert_eq!(accounts, before);

    let transfer = PrivacyInstruction::PrivateTransfer {
        ring_signature: vec![1],
        key_image: [0x71; 32],
        ring_members: vec![[1; 32]],
        new_commitment: C1,
        encrypted_amount: vec![],
    };
    assert_eq!(run(&mut accounts, &transfer), Err(LedgerError::NotInitialized));
    assert_eq!(accounts, before);

    let asset_transfer = PrivacyInstruction::TransferAsset {
        proof: vec![1],
        asset_id: [0u8; 32],
        nullifier: N1,
        new_commitment: C1,
        encrypted_data: vec![],
    };
    assert_eq!(run(&mut accounts, &asset_transfer), Err(LedgerError::NotInitialized));
    assert_eq!(accounts, before);
}

#[test]
fn deposit_into_a_full_tree_is_refused_as_such_whoever_signed() {
    let mut accounts = initialized_accounts(0, 100);
    Processor::process_deposit(&mut accounts, C1, 100).unwrap();
    accounts[1].is_signer = false;
    let before = accounts.clone();
    assert_eq!(Processor::process_deposit(&mut accounts, C1, 100), Err(LedgerError::TreeFull));
    assert_eq!(accounts, before);
}

#[test]
fn spent_nullifier_is_refused_after_other_requests_on_the_pool() {
    let mut accounts = initialized_accounts(3, 100);
    Processor::process_deposit(&mut accounts, C1, 100).unwrap();
    Processor::process_deposit(&mut accounts, [0xC2; 32], 100).unwrap();
    let mut paying = withdraw_accounts(&accounts);
    assert_eq!(run(&mut paying, &withdraw(30)), Ok(()));

    let mut depositing = vec![
        paying[0].clone(),
        accounts[1].clone(),
        paying[1].clone(),
        account(SYSTEM, false, 1, 0),
    ];
    Processor::process_deposit(&mut depositing, [0xC3; 32], 100).unwrap();
    let mut moving = vec![
        depositing[0].clone(),
        account([0x61; 32], false, 0, 0),
        account([0x62; 32], false, 0, 0),
    ];
    Processor::apply_private_transfer(&mut moving, [0x71; 32], 2, [0xC4; 32], true).unwrap();

    let mut again = vec![
        moving[0].clone(),
        depositing[2].clone(),
        account([0x44; 32], false, 0, 0),
        account(SYSTEM, false, 1, 0),
    ];
    let before = again.clone();
    let r = Processor::apply_withdraw(&mut again, N1, Some([0xC5; 32]), [0x44; 32], 1, true);
    assert_eq!(r, Err(LedgerError::AlreadyUsed));
    let r = Processor::apply_withdraw(&mut again, N1, None, [0x44; 32], 0, false);
    assert_eq!(r, Err(LedgerError::AlreadyUsed));
    assert_eq!(again, before);
    let pool = decode_pool(&again[0].data).unwrap();
    assert_eq!(pool.used_nullifiers.used, vec![N1]);
    assert_eq!(pool.used_key_images.used, vec![[0x71u8; 32]]);
    assert_eq!(pool.total_value_locked, 270);
    assert_eq!(pool.commitment_count(), 4);
}

#[test]
fn withdraw_above_the_locked_value_or_the_vault_is_refused_before_storage_is_looked_at() {
    let mut accounts = initialized_accounts(2, 100);
    Processor::process_deposit(&mut accounts, C1, 100).unwrap();
    let mut accounts = withdraw_accounts(&accounts);
    accounts[0].data.truncate(130);
    accounts[1].lamports = 50;
    let before = accounts.clone();
    let r = Processor::apply_withdraw(&mut accounts, N1, None, RECIPIENT, 60, true);
    assert_eq!(r, Err(LedgerError::InsufficientCustodyBalance));
    let r = Processor::apply_withdraw(&mut accounts, N1, None, RECIPIENT, 101, true);
    assert_eq!(r, Err(LedgerError::InsufficientCustodyBalance));
    assert_eq!(accounts, before);
    let r = Processor::apply_withdraw(&mut accounts, N1, None, RECIPIENT, 50, true);
    assert_eq!(r, Err(LedgerError::AccountTooSmall));
    assert_eq!(accounts, before);
}
