//! The operations as transitions over the accounts of a request: load the
//! ledger, check, ask the verifier, change, store. A refused request
//! leaves every account as it was.

use vstd::prelude::*;
use crate::account::{
    models, moved, plan_move, store, store_at, stored, Account, AccountModel,
};
use crate::asset::{AssetLedger, AssetModel};
use crate::codec::{
    asset_encodable, decode_asset, decode_pool, enc_asset, enc_pool, encode_asset, encode_pool,
    law_asset_round_trip, law_pool_decodes_only_encodings, law_pool_round_trip,
    lemma_enc_pool_len, overwrite_front, parse_asset, parse_pool, pool_encodable,
};
use crate::error::{settles, LedgerError};
use crate::hash::{hash_eq, zero_hash, Hash32};
use crate::host::{derive_vault, vault_address};
use crate::instruction::{decode_instruction, parse_instruction, InstructionModel, PrivacyInstruction};
use crate::pool::{law_requests_preserve, PoolLedger, PoolModel, PoolOp};
use crate::tree::{extend_root, law_insert_appends, leaf_capacity, root_of};
use crate::wire::{borsh_u64, enc_u64, write_raw};

verus! {

/// The entry point of the ledger.
pub struct Processor;

/// The public inputs of a proof over three hash values.
pub open spec fn hash_inputs(a: Hash32, b: Hash32, c: Hash32) -> Seq<Seq<u8>> {
    seq![a@, b@, c@]
}

/// The public inputs of a withdrawal: the root, the nullifier and the
/// change commitment, or the all-zero value where there is no change.
pub open spec fn withdraw_inputs(
    root: Hash32,
    nullifier: Hash32,
    new_commitment: Option<Hash32>,
) -> Seq<Seq<u8>> {
    hash_inputs(
        root,
        nullifier,
        match new_commitment {
            Some(c) => c,
            None => zero_hash(),
        },
    )
}

/// The public inputs of a balance proof: the minimum balance as eight
/// little-endian bytes, then the balance commitment.
pub open spec fn balance_inputs(min_balance: u64, balance_commitment: Hash32) -> Seq<Seq<u8>> {
    seq![enc_u64(min_balance), balance_commitment@]
}

/// `verdict` is an answer that `verify` gave for this proof and these
/// public inputs.
pub open spec fn proof_verdict<F: Fn(&Vec<u8>, &Vec<Vec<u8>>) -> bool>(
    verify: F,
    proof: Seq<u8>,
    inputs: Seq<Seq<u8>>,
    verdict: bool,
) -> bool {
    exists|p: Vec<u8>, i: Vec<Vec<u8>>|
        p@ == proof && i.deep_view() == inputs && call_ensures(verify, (&p, &i), verdict)
}

/// `verdict` is an answer that `verify` gave for this ring signature.
pub open spec fn ring_verdict<F: Fn(&Vec<u8>, &Hash32, &Vec<Hash32>) -> bool>(
    verify: F,
    signature: Seq<u8>,
    key_image: Hash32,
    ring_members: Seq<Hash32>,
    verdict: bool,
) -> bool {
    exists|s: Vec<u8>, m: Vec<Hash32>|
        s@ == signature && m@ == ring_members && call_ensures(verify, (&s, &key_image, &m), verdict)
}

/// The accounts after `amount` moved from one account to another and
/// `encoding` was written to the data of the account at `index`: both
/// happen, or neither.
pub open spec fn paid_and_stored(
    accounts: Seq<AccountModel>,
    from: int,
    to: int,
    amount: nat,
    index: int,
    encoding: Seq<u8>,
) -> Result<Seq<AccountModel>, LedgerError> {
    match moved(accounts, from, to, amount) {
        Err(e) => Err(e),
        Ok(paid) => store_at(paid, index, encoding),
    }
}

/// The accounts after `amount` moved from one account to another and the
/// pool `next` was written to the data of the first account: both happen,
/// or neither. The move is looked at first, then whether the pool can be
/// written.
pub open spec fn paid_and_kept(
    accounts: Seq<AccountModel>,
    from: int,
    to: int,
    amount: nat,
    next: PoolModel,
) -> Result<Seq<AccountModel>, LedgerError> {
    match moved(accounts, from, to, amount) {
        Err(e) => Err(e),
        Ok(paid) => if !pool_encodable(next) {
            Err(LedgerError::Overflow)
        } else {
            store_at(paid, 0, enc_pool(next))
        },
    }
}

/// Creating a pool. Accounts: the pool's state, the authority, the
/// vault, the system program.
pub open spec fn initialize_pool_outcome(
    accounts: Seq<AccountModel>,
    program_id: Hash32,
    tree_depth: u8,
    denomination: nat,
    vault_rent: nat,
) -> Result<Seq<AccountModel>, LedgerError> {
    if accounts.len() < 4 {
        Err(LedgerError::NotEnoughAccounts)
    } else if !accounts[1].is_signer {
        Err(LedgerError::MissingSignature)
    } else if parse_pool(accounts[0].data, 0) matches Some((pool, _)) && pool.initialized {
        Err(LedgerError::AlreadyInitialized)
    } else {
        match vault_address(accounts[0].key, program_id) {
            None => Err(LedgerError::AccountMismatch),
            Some((vault, _)) => if accounts[2].key != vault {
                Err(LedgerError::AccountMismatch)
            } else {
                paid_and_stored(
                    accounts,
                    1,
                    2,
                    vault_rent,
                    0,
                    enc_pool(PoolModel::created(accounts[1].key, vault, tree_depth, denomination)),
                )
            },
        }
    }
}

/// A deposit. Accounts: the pool's state, the depositor, the vault, the
/// system program. The pool's own conditions are tested first; only a
/// deposit that the pool accepts is held to the host's conditions on the
/// move of value, of which the depositor's signature is the first.
pub open spec fn deposit_outcome(
    accounts: Seq<AccountModel>,
    commitment: Hash32,
    amount: nat,
) -> Result<Seq<AccountModel>, LedgerError> {
    if accounts.len() < 4 {
        Err(LedgerError::NotEnoughAccounts)
    } else {
        match parse_pool(accounts[0].data, 0) {
            None => Err(LedgerError::MalformedData),
            Some((pool, _)) => match pool.deposit(commitment, amount) {
                Err(e) => Err(e),
                Ok(next) => if !accounts[1].is_signer {
                    Err(LedgerError::MissingSignature)
                } else if accounts[2].key != pool.vault {
                    Err(LedgerError::AccountMismatch)
                } else {
                    paid_and_kept(accounts, 1, 2, amount, next)
                },
            },
        }
    }
}

/// A withdrawal, given the verifier's answer. Accounts: the pool's state,
/// the vault, the recipient, the system program.
pub open spec fn withdraw_outcome(
    accounts: Seq<AccountModel>,
    nullifier: Hash32,
    new_commitment: Option<Hash32>,
    recipient: Hash32,
    amount: nat,
    proof_ok: bool,
) -> Result<Seq<AccountModel>, LedgerError> {
    if accounts.len() < 4 {
        Err(LedgerError::NotEnoughAccounts)
    } else {
        match parse_pool(accounts[0].data, 0) {
            None => Err(LedgerError::MalformedData),
            Some((pool, _)) => match pool.withdraw(nullifier, new_commitment, amount, proof_ok) {
                Err(e) => Err(e),
                Ok(next) => if accounts[1].key != pool.vault || accounts[2].key != recipient {
                    Err(LedgerError::AccountMismatch)
                } else {
                    paid_and_kept(accounts, 1, 2, amount, next)
                },
            },
        }
    }
}

/// A private transfer, given the verifier's answer. Accounts: the pool's
/// state, the sender's commitment, the recipient's commitment.
pub open spec fn private_transfer_outcome(
    accounts: Seq<AccountModel>,
    key_image: Hash32,
    ring_size: nat,
    new_commitment: Hash32,
    signature_ok: bool,
) -> Result<Seq<AccountModel>, LedgerError> {
    if accounts.len() < 3 {
        Err(LedgerError::NotEnoughAccounts)
    } else {
        match parse_pool(accounts[0].data, 0) {
            None => Err(LedgerError::MalformedData),
            Some((pool, _)) => match pool.private_transfer(
                key_image,
                ring_size,
                new_commitment,
                signature_ok,
            ) {
                Err(e) => Err(e),
                Ok(next) => if !pool_encodable(next) {
                    Err(LedgerError::Overflow)
                } else {
                    store_at(accounts, 0, enc_pool(next))
                },
            },
        }
    }
}

/// The result of a balance check, given the verifier's answer.
pub open spec fn balance_result(proof_ok: bool) -> Result<(), LedgerError> {
    if proof_ok {
        Ok(())
    } else {
        Err(LedgerError::InvalidProof)
    }
}

/// Issuing an asset. Accounts: the issuer, the asset's state, the system
/// program.
pub open spec fn issue_asset_outcome(
    accounts: Seq<AccountModel>,
    name: Seq<char>,
    symbol: Seq<char>,
    decimals: u8,
    total_supply: nat,
    asset_id: Hash32,
) -> Result<Seq<AccountModel>, LedgerError> {
    if accounts.len() < 3 {
        Err(LedgerError::NotEnoughAccounts)
    } else if !accounts[0].is_signer {
        Err(LedgerError::MissingSignature)
    } else if parse_asset(accounts[1].data, 0) matches Some((asset, _)) && asset.initialized {
        Err(LedgerError::AlreadyInitialized)
    } else {
        let asset = AssetModel::issued(
            asset_id,
            accounts[0].key,
            name,
            symbol,
            decimals,
            total_supply,
        );
        if !asset_encodable(asset) {
            Err(LedgerError::Overflow)
        } else {
            store_at(accounts, 1, enc_asset(asset))
        }
    }
}

/// A transfer of an asset note, given the verifier's answer. Accounts:
/// the asset's state, the sender's note, the recipient's note.
pub open spec fn transfer_asset_outcome(
    accounts: Seq<AccountModel>,
    asset_id: Hash32,
    nullifier: Hash32,
    new_commitment: Hash32,
    proof_ok: bool,
) -> Result<Seq<AccountModel>, LedgerError> {
    if accounts.len() < 3 {
        Err(LedgerError::NotEnoughAccounts)
    } else {
        match parse_asset(accounts[0].data, 0) {
            None => Err(LedgerError::MalformedData),
            Some((asset, _)) => match asset.transfer(asset_id, nullifier, new_commitment, proof_ok) {
                Err(e) => Err(e),
                Ok(next) => if !asset_encodable(next) {
                    Err(LedgerError::Overflow)
                } else {
                    store_at(accounts, 0, enc_asset(next))
                },
            },
        }
    }
}

/// What a withdrawal that asks `verify` comes to: the outcome for an
/// answer that `verify` gave, where the request has the accounts it needs
/// and so reaches the verifier.
pub open spec fn withdraw_post<F: Fn(&Vec<u8>, &Vec<Vec<u8>>) -> bool>(
    verify: F,
    before: Seq<AccountModel>,
    after: Seq<AccountModel>,
    r: Result<(), LedgerError>,
    proof: Seq<u8>,
    root: Hash32,
    nullifier: Hash32,
    new_commitment: Option<Hash32>,
    recipient: Hash32,
    amount: u64,
) -> bool {
    exists|verdict: bool|
        (before.len() >= 4 ==> proof_verdict(
            verify,
            proof,
            withdraw_inputs(root, nullifier, new_commitment),
            verdict,
        )) && settles(
            r,
            before,
            after,
            #[trigger] withdraw_outcome(
                before,
                nullifier,
                new_commitment,
                recipient,
                amount as nat,
                verdict,
            ),
        )
}

/// What a private transfer that asks `verify` comes to.
pub open spec fn private_transfer_post<F: Fn(&Vec<u8>, &Hash32, &Vec<Hash32>) -> bool>(
    verify: F,
    before: Seq<AccountModel>,
    after: Seq<AccountModel>,
    r: Result<(), LedgerError>,
    ring_signature: Seq<u8>,
    key_image: Hash32,
    ring_members: Seq<Hash32>,
    new_commitment: Hash32,
) -> bool {
    exists|verdict: bool|
        (before.len() >= 3 ==> ring_verdict(
            verify,
            ring_signature,
            key_image,
            ring_members,
            verdict,
        )) && settles(
            r,
            before,
            after,
            #[trigger] private_transfer_outcome(
                before,
                key_image,
                ring_members.len(),
                new_commitment,
                verdict,
            ),
        )
}

/// What a balance check that asks `verify` comes to: the result for an
/// answer that `verify` gave.
pub open spec fn verify_balance_post<F: Fn(&Vec<u8>, &Vec<Vec<u8>>) -> bool>(
    verify: F,
    r: Result<(), LedgerError>,
    proof: Seq<u8>,
    min_balance: u64,
    balance_commitment: Hash32,
) -> bool {
    exists|verdict: bool|
        proof_verdict(verify, proof, balance_inputs(min_balance, balance_commitment), verdict)
            && r == #[trigger] balance_result(verdict)
}

/// What a transfer of an asset note that asks `verify` comes to.
pub open spec fn transfer_asset_post<F: Fn(&Vec<u8>, &Vec<Vec<u8>>) -> bool>(
    verify: F,
    before: Seq<AccountModel>,
    after: Seq<AccountModel>,
    r: Result<(), LedgerError>,
    proof: Seq<u8>,
    asset_id: Hash32,
    nullifier: Hash32,
    new_commitment: Hash32,
) -> bool {
    exists|verdict: bool|
        (before.len() >= 3 ==> proof_verdict(
            verify,
            proof,
            hash_inputs(asset_id, nullifier, new_commitment),
            verdict,
        )) && settles(
            r,
            before,
            after,
            #[trigger] transfer_asset_outcome(
                before,
                asset_id,
                nullifier,
                new_commitment,
                verdict,
            ),
        )
}

/// The bytes of a hash value as a vector.
fn hash_bytes(h: &Hash32) -> (out: Vec<u8>)
    ensures
        out@ == h@,
{
    let mut out: Vec<u8> = Vec::new();
    write_raw(&mut out, h.as_slice());
    out
}

/// Builds the public inputs of a proof over three hash values.
pub fn build_hash_inputs(a: &Hash32, b: &Hash32, c: &Hash32) -> (out: Vec<Vec<u8>>)
    ensures
        out.deep_view() == hash_inputs(*a, *b, *c),
{
    let mut out: Vec<Vec<u8>> = Vec::new();
    out.push(hash_bytes(a));
    out.push(hash_bytes(b));
    out.push(hash_bytes(c));
    assert(out.deep_view() =~~= hash_inputs(*a, *b, *c));
    out
}

/// Builds the public inputs of a withdrawal.
pub fn build_withdraw_inputs(
    root: &Hash32,
    nullifier: &Hash32,
    new_commitment: &Option<Hash32>,
) -> (out: Vec<Vec<u8>>)
    ensures
        out.deep_view() == withdraw_inputs(*root, *nullifier, *new_commitment),
{
    match new_commitment {
        Some(c) => build_hash_inputs(root, nullifier, c),
        None => {
            let zero: Hash32 = [0u8; 32];
            build_hash_inputs(root, nullifier, &zero)
        },
    }
}

/// Builds the public inputs of a balance proof.
pub fn build_balance_inputs(min_balance: u64, balance_commitment: &Hash32) -> (out: Vec<Vec<u8>>)
    ensures
        out.deep_view() == balance_inputs(min_balance, *balance_commitment),
{
    let mut out: Vec<Vec<u8>> = Vec::new();
    out.push(borsh_u64(min_balance));
    out.push(hash_bytes(balance_commitment));
    assert(out.deep_view() =~~= balance_inputs(min_balance, *balance_commitment));
    out
}

/// What a request comes to. Bytes that encode no operation are refused
/// with `MalformedData`; an operation is served as its handler serves it.
pub open spec fn process_post<
    VT: Fn(&Vec<u8>, &Vec<Vec<u8>>) -> bool,
    VR: Fn(&Vec<u8>, &Hash32, &Vec<Hash32>) -> bool,
    VB: Fn(&Vec<u8>, &Vec<Vec<u8>>) -> bool,
>(
    verify_transfer: VT,
    verify_ring_signature: VR,
    verify_balance: VB,
    program_id: Hash32,
    before: Seq<AccountModel>,
    after: Seq<AccountModel>,
    r: Result<(), LedgerError>,
    instruction_data: Seq<u8>,
    vault_rent: u64,
) -> bool {
    match parse_instruction(instruction_data) {
        None => r == Err::<(), _>(LedgerError::MalformedData) && after == before,
        Some(InstructionModel::InitializePool { tree_depth, denomination }) => settles(
            r,
            before,
            after,
            initialize_pool_outcome(
                before,
                program_id,
                tree_depth,
                denomination as nat,
                vault_rent as nat,
            ),
        ),
        Some(InstructionModel::Deposit { commitment, amount }) => settles(
            r,
            before,
            after,
            deposit_outcome(before, commitment, amount as nat),
        ),
        Some(
            InstructionModel::Withdraw {
                proof,
                root,
                nullifier,
                new_commitment,
                recipient,
                amount,
            },
        ) => withdraw_post(
            verify_transfer,
            before,
            after,
            r,
            proof,
            root,
            nullifier,
            new_commitment,
            recipient,
            amount,
        ),
        Some(
            InstructionModel::PrivateTransfer {
                ring_signature,
                key_image,
                ring_members,
                new_commitment,
                encrypted_amount,
            },
        ) => private_transfer_post(
            verify_ring_signature,
            before,
            after,
            r,
            ring_signature,
            key_image,
            ring_members,
            new_commitment,
        ),
        Some(InstructionModel::VerifyBalance { proof, min_balance, balance_commitment }) => after
            == before && verify_balance_post(
            verify_balance,
            r,
            proof,
            min_balance,
            balance_commitment,
        ),
        Some(
            InstructionModel::IssueAsset { name, symbol, decimals, total_supply, asset_id },
        ) => settles(
            r,
            before,
            after,
            issue_asset_outcome(before, name, symbol, decimals, total_supply as nat, asset_id),
        ),
        Some(
            InstructionModel::TransferAsset {
                proof,
                asset_id,
                nullifier,
                new_commitment,
                encrypted_data,
            },
        ) => transfer_asset_post(
            verify_transfer,
            before,
            after,
            r,
            proof,
            asset_id,
            nullifier,
            new_commitment,
        ),
    }
}

/// Moves `amount` between two accounts and stores `encoding` in a third,
/// after checking that both can be done.
fn pay_and_store(
    accounts: &mut Vec<Account>,
    from: usize,
    to: usize,
    amount: u64,
    index: usize,
    encoding: &Vec<u8>,
) -> (r: Result<(), LedgerError>)
    requires
        from < old(accounts)@.len(),
        to < old(accounts)@.len(),
        index < old(accounts)@.len(),
    ensures
        settles(
            r,
            models(old(accounts)@),
            models(final(accounts)@),
            paid_and_stored(
                models(old(accounts)@),
                from as int,
                to as int,
                amount as nat,
                index as int,
                encoding@,
            ),
        ),
{
    let (paid, received) = match plan_move(accounts, from, to, amount) {
        Ok(pair) => pair,
        Err(e) => {
            return Err(e);
        },
    };
    if encoding.len() > accounts[index].data.len() {
        return Err(LedgerError::AccountTooSmall);
    }
    accounts[from].lamports = paid;
    accounts[to].lamports = received;
    let _ = overwrite_front(&mut accounts[index].data, encoding);
    assert(models(accounts@) =~= paid_and_stored(
        models(old(accounts)@),
        from as int,
        to as int,
        amount as nat,
        index as int,
        encoding@,
    ).unwrap());
    Ok(())
}

/// Moves `amount` between two accounts and writes `pool` to the data of
/// the first account, after checking that both can be done.
fn pay_and_keep(
    accounts: &mut Vec<Account>,
    from: usize,
    to: usize,
    amount: u64,
    pool: &PoolLedger,
) -> (r: Result<(), LedgerError>)
    requires
        from < old(accounts)@.len(),
        to < old(accounts)@.len(),
        0 < old(accounts)@.len(),
    ensures
        settles(
            r,
            models(old(accounts)@),
            models(final(accounts)@),
            paid_and_kept(models(old(accounts)@), from as int, to as int, amount as nat, pool@),
        ),
{
    match plan_move(accounts, from, to, amount) {
        Ok(_) => {},
        Err(e) => {
            return Err(e);
        },
    }
    let encoding = match encode_pool(pool) {
        Ok(encoding) => encoding,
        Err(e) => {
            return Err(e);
        },
    };
    pay_and_store(accounts, from, to, amount, 0, &encoding)
}

impl Processor {
    /// Serves one request: decodes the operation and hands it to its
    /// handler. `vault_rent` is what a new vault has to hold; the three
    /// verifiers answer for transfer proofs, ring signatures and balance
    /// proofs.
    pub fn process<
        VT: Fn(&Vec<u8>, &Vec<Vec<u8>>) -> bool,
        VR: Fn(&Vec<u8>, &Hash32, &Vec<Hash32>) -> bool,
        VB: Fn(&Vec<u8>, &Vec<Vec<u8>>) -> bool,
    >(
        program_id: &Hash32,
        accounts: &mut Vec<Account>,
        instruction_data: &[u8],
        vault_rent: u64,
        verify_transfer: VT,
        verify_ring_signature: VR,
        verify_balance: VB,
    ) -> (r: Result<(), LedgerError>)
        requires
            forall|p: &Vec<u8>, i: &Vec<Vec<u8>>| call_requires(verify_transfer, (p, i)),
            forall|s: &Vec<u8>, k: &Hash32, m: &Vec<Hash32>|
                call_requires(verify_ring_signature, (s, k, m)),
            forall|p: &Vec<u8>, i: &Vec<Vec<u8>>| call_requires(verify_balance, (p, i)),
        ensures
            process_post(
                verify_transfer,
                verify_ring_signature,
                verify_balance,
                *program_id,
                models(old(accounts)@),
                models(final(accounts)@),
                r,
                instruction_data@,
                vault_rent,
            ),
    {
        let instruction = match decode_instruction(instruction_data) {
            Ok(instruction) => instruction,
            Err(e) => {
                return Err(e);
            },
        };
        match instruction {
            PrivacyInstruction::InitializePool {
                tree_depth,
                denomination,
            } => Self::process_initialize_pool(
                program_id,
                accounts,
                tree_depth,
                denomination,
                vault_rent,
            ),
            PrivacyInstruction::Deposit { commitment, amount } => Self::process_deposit(
                accounts,
                commitment,
                amount,
            ),
            PrivacyInstruction::Withdraw {
                proof,
                root,
                nullifier,
                new_commitment,
                recipient,
                amount,
            } => Self::process_withdraw(
                accounts,
                proof,
                root,
                nullifier,
                new_commitment,
                recipient,
                amount,
                verify_transfer,
            ),
            PrivacyInstruction::PrivateTransfer {
                ring_signature,
                key_image,
                ring_members,
                new_commitment,
                encrypted_amount,
            } => Self::process_private_transfer(
                accounts,
                ring_signature,
                key_image,
                ring_members,
                new_commitment,
                encrypted_amount,
                verify_ring_signature,
            ),
            PrivacyInstruction::VerifyBalance {
                proof,
                min_balance,
                balance_commitment,
            } => Self::process_verify_balance(
                proof,
                min_balance,
                balance_commitment,
                verify_balance,
            ),
            PrivacyInstruction::IssueAsset {
                name,
                symbol,
                decimals,
                total_supply,
                asset_id,
            } => Self::process_issue_asset(
                accounts,
                name,
                symbol,
                decimals,
                total_supply,
                asset_id,
            ),
            PrivacyInstruction::TransferAsset {
                proof,
                asset_id,
                nullifier,
                new_commitment,
                encrypted_data,
            } => Self::process_transfer_asset(
                accounts,
                proof,
                asset_id,
                nullifier,
                new_commitment,
                encrypted_data,
                verify_transfer,
            ),
        }
    }

    /// Creates a pool of one denomination in the first account, with the
    /// second account as its authority, and funds the pool's vault with
    /// `vault_rent` from the authority.
    pub fn process_initialize_pool(
        program_id: &Hash32,
        accounts: &mut Vec<Account>,
        tree_depth: u8,
        denomination: u64,
        vault_rent: u64,
    ) -> (r: Result<(), LedgerError>)
        ensures
            settles(
                r,
                models(old(accounts)@),
                models(final(accounts)@),
                initialize_pool_outcome(
                    models(old(accounts)@),
                    *program_id,
                    tree_depth,
                    denomination as nat,
                    vault_rent as nat,
                ),
            ),
    {
        if accounts.len() < 4 {
            return Err(LedgerError::NotEnoughAccounts);
        }
        if !accounts[1].is_signer {
            return Err(LedgerError::MissingSignature);
        }
        match decode_pool(accounts[0].data.as_slice()) {
            Ok(existing) => {
                if existing.initialized {
                    return Err(LedgerError::AlreadyInitialized);
                }
            },
            Err(_) => {},
        }
        let vault = match derive_vault(&accounts[0].key, program_id) {
            Some((vault, _)) => vault,
            None => {
                return Err(LedgerError::AccountMismatch);
            },
        };
        if !hash_eq(&accounts[2].key, &vault) {
            return Err(LedgerError::AccountMismatch);
        }
        let pool = PoolLedger::initialize(accounts[1].key, vault, tree_depth, denomination);
        let encoding = match encode_pool(&pool) {
            Ok(encoding) => encoding,
            Err(e) => {
                return Err(e);
            },
        };
        pay_and_store(accounts, 1, 2, vault_rent, 0, &encoding)
    }

    /// Accepts a deposit of one denomination: the value moves from the
    /// depositor to the vault, the commitment joins the tree.
    pub fn process_deposit(accounts: &mut Vec<Account>, commitment: Hash32, amount: u64) -> (r:
        Result<(), LedgerError>)
        ensures
            settles(
                r,
                models(old(accounts)@),
                models(final(accounts)@),
                deposit_outcome(models(old(accounts)@), commitment, amount as nat),
            ),
    {
        if accounts.len() < 4 {
            return Err(LedgerError::NotEnoughAccounts);
        }
        let mut pool = match decode_pool(accounts[0].data.as_slice()) {
            Ok(pool) => pool,
            Err(e) => {
                return Err(e);
            },
        };
        match pool.deposit(commitment, amount) {
            Ok(()) => {},
            Err(e) => {
                return Err(e);
            },
        }
        if !accounts[1].is_signer {
            return Err(LedgerError::MissingSignature);
        }
        if !hash_eq(&accounts[2].key, &pool.vault) {
            return Err(LedgerError::AccountMismatch);
        }
        pay_and_keep(accounts, 1, 2, amount, &pool)
    }

    /// Settles a withdrawal for which the verifier's answer is known.
    pub fn apply_withdraw(
        accounts: &mut Vec<Account>,
        nullifier: Hash32,
        new_commitment: Option<Hash32>,
        recipient: Hash32,
        amount: u64,
        proof_ok: bool,
    ) -> (r: Result<(), LedgerError>)
        ensures
            settles(
                r,
                models(old(accounts)@),
                models(final(accounts)@),
                withdraw_outcome(
                    models(old(accounts)@),
                    nullifier,
                    new_commitment,
                    recipient,
                    amount as nat,
                    proof_ok,
                ),
            ),
    {
        if accounts.len() < 4 {
            return Err(LedgerError::NotEnoughAccounts);
        }
        let mut pool = match decode_pool(accounts[0].data.as_slice()) {
            Ok(pool) => pool,
            Err(e) => {
                return Err(e);
            },
        };
        match pool.withdraw(nullifier, new_commitment, amount, proof_ok) {
            Ok(()) => {},
            Err(e) => {
                return Err(e);
            },
        }
        if !hash_eq(&accounts[1].key, &pool.vault) || !hash_eq(&accounts[2].key, &recipient) {
            return Err(LedgerError::AccountMismatch);
        }
        pay_and_keep(accounts, 1, 2, amount, &pool)
    }

    /// Pays out of the pool against a proof: asks `verify` about the proof
    /// and the withdrawal's public inputs, then settles the withdrawal for
    /// its answer.
    pub fn process_withdraw<F: Fn(&Vec<u8>, &Vec<Vec<u8>>) -> bool>(
        accounts: &mut Vec<Account>,
        proof: Vec<u8>,
        root: Hash32,
        nullifier: Hash32,
        new_commitment: Option<Hash32>,
        recipient: Hash32,
        amount: u64,
        verify: F,
    ) -> (r: Result<(), LedgerError>)
        requires
            forall|p: &Vec<u8>, i: &Vec<Vec<u8>>| call_requires(verify, (p, i)),
        ensures
            withdraw_post(
                verify,
                models(old(accounts)@),
                models(final(accounts)@),
                r,
                proof@,
                root,
                nullifier,
                new_commitment,
                recipient,
                amount,
            ),
    {
        let proof_ok = if accounts.len() < 4 {
            false
        } else {
            let inputs = build_withdraw_inputs(&root, &nullifier, &new_commitment);
            verify(&proof, &inputs)
        };
        Self::apply_withdraw(accounts, nullifier, new_commitment, recipient, amount, proof_ok)
    }

    /// Settles a private transfer for which the verifier's answer is
    /// known.
    pub fn apply_private_transfer(
        accounts: &mut Vec<Account>,
        key_image: Hash32,
        ring_size: usize,
        new_commitment: Hash32,
        signature_ok: bool,
    ) -> (r: Result<(), LedgerError>)
        ensures
            settles(
                r,
                models(old(accounts)@),
                models(final(accounts)@),
                private_transfer_outcome(
                    models(old(accounts)@),
                    key_image,
                    ring_size as nat,
                    new_commitment,
                    signature_ok,
                ),
            ),
    {
        if accounts.len() < 3 {
            return Err(LedgerError::NotEnoughAccounts);
        }
        let mut pool = match decode_pool(accounts[0].data.as_slice()) {
            Ok(pool) => pool,
            Err(e) => {
                return Err(e);
            },
        };
        match pool.private_transfer(key_image, ring_size, new_commitment, signature_ok) {
            Ok(()) => {},
            Err(e) => {
                return Err(e);
            },
        }
        let encoding = match encode_pool(&pool) {
            Ok(encoding) => encoding,
            Err(e) => {
                return Err(e);
            },
        };
        store(accounts, 0, &encoding)
    }

    /// Moves a note inside the pool: asks `verify` about the ring
    /// signature, then settles the transfer for its answer. The encrypted
    /// amount is the recipient's business; the ledger does not read it.
    pub fn process_private_transfer<F: Fn(&Vec<u8>, &Hash32, &Vec<Hash32>) -> bool>(
        accounts: &mut Vec<Account>,
        ring_signature: Vec<u8>,
        key_image: Hash32,
        ring_members: Vec<Hash32>,
        new_commitment: Hash32,
        encrypted_amount: Vec<u8>,
        verify: F,
    ) -> (r: Result<(), LedgerError>)
        requires
            forall|s: &Vec<u8>, k: &Hash32, m: &Vec<Hash32>| call_requires(verify, (s, k, m)),
        ensures
            private_transfer_post(
                verify,
                models(old(accounts)@),
                models(final(accounts)@),
                r,
                ring_signature@,
                key_image,
                ring_members@,
                new_commitment,
            ),
    {
        let signature_ok = if accounts.len() < 3 {
            false
        } else {
            verify(&ring_signature, &key_image, &ring_members)
        };
        Self::apply_private_transfer(
            accounts,
            key_image,
            ring_members.len(),
            new_commitment,
            signature_ok,
        )
    }

    /// Checks a proof of a minimum balance: asks `verify` about the proof
    /// and its public inputs. Nothing is read from or written to any
    /// account.
    pub fn process_verify_balance<F: Fn(&Vec<u8>, &Vec<Vec<u8>>) -> bool>(
        proof: Vec<u8>,
        min_balance: u64,
        balance_commitment: Hash32,
        verify: F,
    ) -> (r: Result<(), LedgerError>)
        requires
            forall|p: &Vec<u8>, i: &Vec<Vec<u8>>| call_requires(verify, (p, i)),
        ensures
            verify_balance_post(verify, r, proof@, min_balance, balance_commitment),
    {
        let inputs = build_balance_inputs(min_balance, &balance_commitment);
        let verdict = verify(&proof, &inputs);
        assert(proof_verdict(
            verify,
            proof@,
            balance_inputs(min_balance, balance_commitment),
            verdict,
        ));
        Self::settle_balance(verdict)
    }

    /// The result of a balance check for which the verifier's answer is
    /// known.
    pub fn settle_balance(proof_ok: bool) -> (r: Result<(), LedgerError>)
        ensures
            r == balance_result(proof_ok),
    {
        if proof_ok {
            Ok(())
        } else {
            Err(LedgerError::InvalidProof)
        }
    }

    /// Issues an asset into the second account, with the first account as
    /// its issuer.
    pub fn process_issue_asset(
        accounts: &mut Vec<Account>,
        name: String,
        symbol: String,
        decimals: u8,
        total_supply: u64,
        asset_id: Hash32,
    ) -> (r: Result<(), LedgerError>)
        ensures
            settles(
                r,
                models(old(accounts)@),
                models(final(accounts)@),
                issue_asset_outcome(
                    models(old(accounts)@),
                    name@,
                    symbol@,
                    decimals,
                    total_supply as nat,
                    asset_id,
                ),
            ),
    {
        if accounts.len() < 3 {
            return Err(LedgerError::NotEnoughAccounts);
        }
        if !accounts[0].is_signer {
            return Err(LedgerError::MissingSignature);
        }
        match decode_asset(accounts[1].data.as_slice()) {
            Ok(existing) => {
                if existing.initialized {
                    return Err(LedgerError::AlreadyInitialized);
                }
            },
            Err(_) => {},
        }
        let asset = AssetLedger::issue(
            asset_id,
            accounts[0].key,
            name,
            symbol,
            decimals,
            total_supply,
        );
        let encoding = match encode_asset(&asset) {
            Ok(encoding) => encoding,
            Err(e) => {
                return Err(e);
            },
        };
        store(accounts, 1, &encoding)
    }

    /// Settles a transfer of an asset note for which the verifier's answer
    /// is known.
    pub fn apply_transfer_asset(
        accounts: &mut Vec<Account>,
        asset_id: Hash32,
        nullifier: Hash32,
        new_commitment: Hash32,
        proof_ok: bool,
    ) -> (r: Result<(), LedgerError>)
        ensures
            settles(
                r,
                models(old(accounts)@),
                models(final(accounts)@),
                transfer_asset_outcome(
                    models(old(accounts)@),
                    asset_id,
                    nullifier,
                    new_commitment,
                    proof_ok,
                ),
            ),
    {
        if accounts.len() < 3 {
            return Err(LedgerError::NotEnoughAccounts);
        }
        let mut asset = match decode_asset(accounts[0].data.as_slice()) {
            Ok(asset) => asset,
            Err(e) => {
                return Err(e);
            },
        };
        match asset.transfer(asset_id, nullifier, new_commitment, proof_ok) {
            Ok(()) => {},
            Err(e) => {
                return Err(e);
            },
        }
        let encoding = match encode_asset(&asset) {
            Ok(encoding) => encoding,
            Err(e) => {
                return Err(e);
            },
        };
        store(accounts, 0, &encoding)
    }

    /// Moves a note of an asset: asks `verify` about the proof and the
    /// transfer's public inputs, then settles the transfer for its answer.
    /// The encrypted data is the recipient's business; the ledger does not
    /// read it.
    pub fn process_transfer_asset<F: Fn(&Vec<u8>, &Vec<Vec<u8>>) -> bool>(
        accounts: &mut Vec<Account>,
        proof: Vec<u8>,
        asset_id: Hash32,
        nullifier: Hash32,
        new_commitment: Hash32,
        encrypted_data: Vec<u8>,
        verify: F,
    ) -> (r: Result<(), LedgerError>)
        requires
            forall|p: &Vec<u8>, i: &Vec<Vec<u8>>| call_requires(verify, (p, i)),
        ensures
            transfer_asset_post(
                verify,
                models(old(accounts)@),
                models(final(accounts)@),
                r,
                proof@,
                asset_id,
                nullifier,
                new_commitment,
            ),
    {
        let proof_ok = if accounts.len() < 3 {
            false
        } else {
            let inputs = build_hash_inputs(&asset_id, &nullifier, &new_commitment);
            verify(&proof, &inputs)
        };
        Self::apply_transfer_asset(accounts, asset_id, nullifier, new_commitment, proof_ok)
    }
}

/// What was stored loads again: after a pool was written over the front
/// of a data area that can hold it, the data area decodes to that pool,
/// whatever it held before.
pub proof fn law_stored_pool_loads(data: Seq<u8>, pool: PoolModel)
    requires
        pool_encodable(pool),
        pool.tree.wf(),
        enc_pool(pool).len() <= data.len(),
    ensures
        parse_pool(stored(data, enc_pool(pool)), 0) matches Some((loaded, _)) && loaded == pool,
{
    law_pool_round_trip(pool, data.subrange(enc_pool(pool).len() as int, data.len() as int));
}

/// What was stored loads again: after an asset was written over the front
/// of a data area that can hold it, the data area decodes to that asset,
/// whatever it held before.
pub proof fn law_stored_asset_loads(data: Seq<u8>, asset: AssetModel)
    requires
        asset_encodable(asset),
        enc_asset(asset).len() <= data.len(),
    ensures
        parse_asset(stored(data, enc_asset(asset)), 0) matches Some((loaded, _)) && loaded
            == asset,
{
    law_asset_round_trip(asset, data.subrange(enc_asset(asset).len() as int, data.len() as int));
}

/// An accepted deposit leaves behind the pool that the deposit makes of
/// the pool it found, and the vault holds `amount` more for the `amount`
/// more that is locked; the depositor holds `amount` less.
pub proof fn law_deposit_settles(accounts: Seq<AccountModel>, commitment: Hash32, amount: nat)
    requires
        deposit_outcome(accounts, commitment, amount) is Ok,
    ensures
        ({
            let after = deposit_outcome(accounts, commitment, amount).unwrap();
            let found = parse_pool(accounts[0].data, 0).unwrap().0;
            &&& after.len() == accounts.len()
            &&& parse_pool(after[0].data, 0) matches Some((left, _)) && Ok::<_, LedgerError>(left)
                == found.deposit(commitment, amount) && left.total_value_locked
                == found.total_value_locked + amount && left.tree.count == found.tree.count + 1
                && left.tree.root == extend_root(found.tree.root, commitment)
            &&& after[2].lamports == accounts[2].lamports + amount
            &&& after[1].lamports + amount == accounts[1].lamports
        }),
{
    let found = parse_pool(accounts[0].data, 0).unwrap().0;
    let next = found.deposit(commitment, amount).unwrap();
    if found.tree.depth < 64 {
        vstd::bits::lemma_u64_pow2_no_overflow(found.tree.depth as nat);
    }
    law_stored_pool_loads(accounts[0].data, next);
}

/// An accepted withdrawal leaves behind the pool that the withdrawal makes
/// of the pool it found: `amount` less is locked and the vault holds
/// `amount` less, which the recipient has. The same nullifier, presented
/// again to what was left behind, is refused with `AlreadyUsed`.
pub proof fn law_withdraw_settles(
    accounts: Seq<AccountModel>,
    nullifier: Hash32,
    new_commitment: Option<Hash32>,
    recipient: Hash32,
    amount: nat,
    again_commitment: Option<Hash32>,
    again_amount: nat,
    again_ok: bool,
)
    requires
        withdraw_outcome(accounts, nullifier, new_commitment, recipient, amount, true) is Ok,
    ensures
        ({
            let after = withdraw_outcome(
                accounts,
                nullifier,
                new_commitment,
                recipient,
                amount,
                true,
            ).unwrap();
            let found = parse_pool(accounts[0].data, 0).unwrap().0;
            &&& after.len() == accounts.len()
            &&& parse_pool(after[0].data, 0) matches Some((left, _)) && Ok::<_, LedgerError>(left)
                == found.withdraw(nullifier, new_commitment, amount, true)
                && left.total_value_locked + amount == found.total_value_locked
                && left.used_nullifiers.contains(nullifier) && left.used_key_images
                == found.used_key_images
            &&& after[1].lamports + amount == accounts[1].lamports
            &&& after[2].lamports == accounts[2].lamports + amount
            &&& withdraw_outcome(
                after,
                nullifier,
                again_commitment,
                recipient,
                again_amount,
                again_ok,
            ) == Err::<Seq<AccountModel>, _>(LedgerError::AlreadyUsed)
        }),
{
    let found = parse_pool(accounts[0].data, 0).unwrap().0;
    let next = found.withdraw(nullifier, new_commitment, amount, true).unwrap();
    if found.tree.depth < 64 {
        vstd::bits::lemma_u64_pow2_no_overflow(found.tree.depth as nat);
    }
    assert(next.used_nullifiers.last() == nullifier);
    law_stored_pool_loads(accounts[0].data, next);
}

/// A withdrawal of more than the pool has locked, or of more than the
/// vault holds, is refused, whatever the verifier said.
pub proof fn law_withdraw_covered(
    accounts: Seq<AccountModel>,
    nullifier: Hash32,
    new_commitment: Option<Hash32>,
    recipient: Hash32,
    amount: nat,
    proof_ok: bool,
)
    requires
        accounts.len() >= 4,
        parse_pool(accounts[0].data, 0) matches Some((pool, _)) && (amount
            > pool.total_value_locked || amount > accounts[1].lamports),
    ensures
        withdraw_outcome(accounts, nullifier, new_commitment, recipient, amount, proof_ok) is Err,
{
}

/// When a deposit is owed success: into an initialized pool with a free
/// leaf, of exactly one denomination, signed by a depositor who holds the
/// amount, into the pool's own vault. Then the locked value rises by the
/// amount, the count by one, and the commitment is appended to the
/// leaves: if the root summarised `leaves`, it now summarises `leaves`
/// followed by the commitment.
pub proof fn law_deposit_accepted(
    accounts: Seq<AccountModel>,
    commitment: Hash32,
    amount: nat,
    leaves: Seq<Hash32>,
)
    requires
        accounts.len() >= 4,
        parse_pool(accounts[0].data, 0) matches Some((pool, _)) && pool.initialized && amount
            == pool.denomination && pool.tree.count < leaf_capacity(pool.tree.depth)
            && pool.total_value_locked + amount <= u64::MAX && accounts[2].key == pool.vault,
        accounts[1].is_signer,
        accounts[1].key != accounts[2].key,
        accounts[1].lamports >= amount,
        accounts[2].lamports + amount <= u64::MAX,
    ensures
        deposit_outcome(accounts, commitment, amount) is Ok,
        ({
            let after = deposit_outcome(accounts, commitment, amount).unwrap();
            let found = parse_pool(accounts[0].data, 0).unwrap().0;
            &&& parse_pool(after[0].data, 0) matches Some((left, _)) && left.total_value_locked
                == found.total_value_locked + amount && left.tree.count == found.tree.count + 1
                && (found.tree.root == root_of(leaves) ==> left.tree.root == root_of(
                leaves.push(commitment),
            ))
            &&& after[2].lamports == accounts[2].lamports + amount
            &&& after[1].lamports + amount == accounts[1].lamports
        }),
{
    let found = parse_pool(accounts[0].data, 0).unwrap().0;
    let next = found.deposit(commitment, amount).unwrap();
    law_pool_decodes_only_encodings(accounts[0].data);
    lemma_enc_pool_len(found);
    lemma_enc_pool_len(next);
    law_deposit_settles(accounts, commitment, amount);
    if found.tree.root == root_of(leaves) {
        law_insert_appends(found.tree, leaves, commitment);
    }
}

/// A deposit of another amount than the denomination into an initialized
/// pool is refused with `InvalidAmount`, whoever signed and whatever the
/// other accounts hold.
pub proof fn law_deposit_wrong_amount(
    accounts: Seq<AccountModel>,
    commitment: Hash32,
    amount: nat,
)
    requires
        accounts.len() >= 4,
        parse_pool(accounts[0].data, 0) matches Some((pool, _)) && pool.initialized && amount
            != pool.denomination,
    ensures
        deposit_outcome(accounts, commitment, amount) == Err::<Seq<AccountModel>, _>(
            LedgerError::InvalidAmount,
        ),
{
}

/// Every request to a pool that was not created is refused with
/// `NotInitialized`, whoever signed and whatever the verifier said.
pub proof fn law_uninitialized_pool_refuses(
    accounts: Seq<AccountModel>,
    commitment: Hash32,
    tag: Hash32,
    new_commitment: Option<Hash32>,
    recipient: Hash32,
    amount: nat,
    ring_size: nat,
    verdict: bool,
)
    requires
        accounts.len() >= 4,
        parse_pool(accounts[0].data, 0) matches Some((pool, _)) && !pool.initialized,
    ensures
        deposit_outcome(accounts, commitment, amount) == Err::<Seq<AccountModel>, _>(
            LedgerError::NotInitialized,
        ),
        withdraw_outcome(accounts, tag, new_commitment, recipient, amount, verdict) == Err::<
            Seq<AccountModel>,
            _,
        >(LedgerError::NotInitialized),
        private_transfer_outcome(accounts, tag, ring_size, commitment, verdict) == Err::<
            Seq<AccountModel>,
            _,
        >(LedgerError::NotInitialized),
{
}

/// Every transfer of an asset that was not issued is refused with
/// `NotInitialized`, whatever the verifier said.
pub proof fn law_uninitialized_asset_refuses(
    accounts: Seq<AccountModel>,
    asset_id: Hash32,
    nullifier: Hash32,
    new_commitment: Hash32,
    verdict: bool,
)
    requires
        accounts.len() >= 3,
        parse_asset(accounts[0].data, 0) matches Some((asset, _)) && !asset.initialized,
    ensures
        transfer_asset_outcome(accounts, asset_id, nullifier, new_commitment, verdict) == Err::<
            Seq<AccountModel>,
            _,
        >(LedgerError::NotInitialized),
{
}

/// A withdrawal that the pool and the verifier would accept, and that
/// asks for more than is locked or for more than the vault holds, is
/// refused with `InsufficientCustodyBalance`.
pub proof fn law_withdraw_uncovered(
    accounts: Seq<AccountModel>,
    nullifier: Hash32,
    new_commitment: Option<Hash32>,
    recipient: Hash32,
    amount: nat,
)
    requires
        accounts.len() >= 4,
        parse_pool(accounts[0].data, 0) matches Some((pool, _)) && pool.initialized
            && !pool.used_nullifiers.contains(nullifier) && (new_commitment is Some
            ==> pool.tree.count < leaf_capacity(pool.tree.depth)) && (amount
            > pool.total_value_locked || (amount > accounts[1].lamports && accounts[1].key
            == pool.vault && accounts[2].key == recipient && accounts[1].key
            != accounts[2].key)),
    ensures
        withdraw_outcome(accounts, nullifier, new_commitment, recipient, amount, true) == Err::<
            Seq<AccountModel>,
            _,
        >(LedgerError::InsufficientCustodyBalance),
{
}

/// A withdrawal that presents a spent nullifier is refused with
/// `AlreadyUsed`, whatever the proof, the amount and the other accounts.
pub proof fn law_spent_nullifier_refused(
    accounts: Seq<AccountModel>,
    nullifier: Hash32,
    new_commitment: Option<Hash32>,
    recipient: Hash32,
    amount: nat,
    verdict: bool,
)
    requires
        accounts.len() >= 4,
        parse_pool(accounts[0].data, 0) matches Some((pool, _)) && pool.initialized
            && pool.used_nullifiers.contains(nullifier),
    ensures
        withdraw_outcome(accounts, nullifier, new_commitment, recipient, amount, verdict) == Err::<
            Seq<AccountModel>,
            _,
        >(LedgerError::AlreadyUsed),
{
}

/// A private transfer that presents a spent key image is refused with
/// `AlreadyUsed`, whatever the signature, the ring and the commitment.
pub proof fn law_spent_key_image_refused(
    accounts: Seq<AccountModel>,
    key_image: Hash32,
    ring_size: nat,
    new_commitment: Hash32,
    verdict: bool,
)
    requires
        accounts.len() >= 3,
        parse_pool(accounts[0].data, 0) matches Some((pool, _)) && pool.initialized
            && pool.used_key_images.contains(key_image),
    ensures
        private_transfer_outcome(accounts, key_image, ring_size, new_commitment, verdict) == Err::<
            Seq<AccountModel>,
            _,
        >(LedgerError::AlreadyUsed),
{
}

/// A transfer of an asset that presents a spent nullifier is refused with
/// `AlreadyUsed`, whatever the proof and the commitment.
pub proof fn law_spent_note_refused(
    accounts: Seq<AccountModel>,
    nullifier: Hash32,
    new_commitment: Hash32,
    verdict: bool,
)
    requires
        accounts.len() >= 3,
        parse_asset(accounts[0].data, 0) matches Some((asset, _)) && asset.initialized
            && asset.used_nullifiers.contains(nullifier),
    ensures
        transfer_asset_outcome(
            accounts,
            parse_asset(accounts[0].data, 0).unwrap().0.asset_id,
            nullifier,
            new_commitment,
            verdict,
        ) == Err::<Seq<AccountModel>, _>(LedgerError::AlreadyUsed),
{
}

/// One request to a pool as a handler sees it, with the verifier's answer
/// where one is asked.
#[allow(inconsistent_fields)]
pub enum PoolRequest {
    Deposit { commitment: Hash32, amount: nat },
    Withdraw {
        nullifier: Hash32,
        new_commitment: Option<Hash32>,
        recipient: Hash32,
        amount: nat,
        proof_ok: bool,
    },
    PrivateTransfer {
        key_image: Hash32,
        ring_size: nat,
        new_commitment: Hash32,
        signature_ok: bool,
    },
}

/// A request together with the accounts it came with.
pub struct PoolStep {
    pub accounts: Seq<AccountModel>,
    pub request: PoolRequest,
}

/// What the handler of a request makes of the accounts.
pub open spec fn request_outcome(accounts: Seq<AccountModel>, request: PoolRequest) -> Result<
    Seq<AccountModel>,
    LedgerError,
> {
    match request {
        PoolRequest::Deposit { commitment, amount } => deposit_outcome(
            accounts,
            commitment,
            amount,
        ),
        PoolRequest::Withdraw {
            nullifier,
            new_commitment,
            recipient,
            amount,
            proof_ok,
        } => withdraw_outcome(accounts, nullifier, new_commitment, recipient, amount, proof_ok),
        PoolRequest::PrivateTransfer {
            key_image,
            ring_size,
            new_commitment,
            signature_ok,
        } => private_transfer_outcome(accounts, key_image, ring_size, new_commitment, signature_ok),
    }
}

/// What a request asks of the pool itself.
pub open spec fn pool_op(request: PoolRequest) -> PoolOp {
    match request {
        PoolRequest::Deposit { commitment, amount } => PoolOp::Deposit { commitment, amount },
        PoolRequest::Withdraw {
            nullifier,
            new_commitment,
            recipient,
            amount,
            proof_ok,
        } => PoolOp::Withdraw { nullifier, new_commitment, amount, proof_ok },
        PoolRequest::PrivateTransfer {
            key_image,
            ring_size,
            new_commitment,
            signature_ok,
        } => PoolOp::PrivateTransfer { key_image, ring_size, new_commitment, signature_ok },
    }
}

/// The accounts of a request, with `data` as the data of the first
/// account, which holds the ledger.
pub open spec fn with_ledger_data(accounts: Seq<AccountModel>, data: Seq<u8>) -> Seq<AccountModel> {
    if accounts.len() > 0 {
        accounts.update(0, AccountModel { data, ..accounts[0] })
    } else {
        accounts
    }
}

/// The data of the pool's account after one request was served on it.
pub open spec fn pool_data_after(data: Seq<u8>, step: PoolStep) -> Seq<u8> {
    match request_outcome(with_ledger_data(step.accounts, data), step.request) {
        Ok(after) => after[0].data,
        Err(_) => data,
    }
}

/// The data of the pool's account after a series of requests was served
/// on it, each with accounts of its own.
pub open spec fn pool_data_after_all(data: Seq<u8>, steps: Seq<PoolStep>) -> Seq<u8>
    decreases steps.len(),
{
    if steps.len() == 0 {
        data
    } else {
        pool_data_after(pool_data_after_all(data, steps.drop_last()), steps.last())
    }
}

/// A request leaves behind the pool it found, or the pool that its
/// operation makes of the pool it found.
pub proof fn law_request_serves_pool(data: Seq<u8>, step: PoolStep)
    requires
        parse_pool(data, 0) is Some,
    ensures
        ({
            let found = parse_pool(data, 0).unwrap().0;
            parse_pool(pool_data_after(data, step), 0) matches Some((left, _)) && (left == found
                || left == found.after(pool_op(step.request)))
        }),
{
    let found = parse_pool(data, 0).unwrap().0;
    let accounts = with_ledger_data(step.accounts, data);
    if request_outcome(accounts, step.request) is Ok {
        let next = found.attempt(pool_op(step.request)).unwrap();
        if found.tree.depth < 64 {
            vstd::bits::lemma_u64_pow2_no_overflow(found.tree.depth as nat);
        }
        law_stored_pool_loads(data, next);
    }
}

/// Whatever requests are served on a pool, it stays a pool, stays
/// initialized, and keeps every nullifier and every key image that was
/// spent.
pub proof fn law_history_preserves(data: Seq<u8>, steps: Seq<PoolStep>)
    requires
        parse_pool(data, 0) is Some,
    ensures
        ({
            let found = parse_pool(data, 0).unwrap().0;
            parse_pool(pool_data_after_all(data, steps), 0) matches Some((left, _)) && (
            found.initialized ==> left.initialized) && (forall|tag: Hash32|
                found.used_nullifiers.contains(tag) ==> #[trigger] left.used_nullifiers.contains(
                    tag,
                )) && (forall|tag: Hash32|
                found.used_key_images.contains(tag) ==> #[trigger] left.used_key_images.contains(
                    tag,
                ))
        }),
    decreases steps.len(),
{
    if steps.len() > 0 {
        let before = pool_data_after_all(data, steps.drop_last());
        law_history_preserves(data, steps.drop_last());
        law_request_serves_pool(before, steps.last());
        let mid = parse_pool(before, 0).unwrap().0;
        let one = seq![pool_op(steps.last().request)];
        assert(one.drop_last() =~= Seq::<PoolOp>::empty());
        assert(mid.after_all(one) == mid.after(pool_op(steps.last().request))) by {
            assert(mid.after_all(one.drop_last()) == mid);
        }
        law_requests_preserve(mid, one);
    }
}

/// A nullifier is spent once: after a withdrawal that presented it was
/// accepted, and whatever requests were served on the pool since, a
/// withdrawal that presents it again is refused with `AlreadyUsed`,
/// whatever else it presents and whatever the verifier says.
pub proof fn law_withdraw_replay_refused(
    accounts: Seq<AccountModel>,
    nullifier: Hash32,
    new_commitment: Option<Hash32>,
    recipient: Hash32,
    amount: nat,
    since: Seq<PoolStep>,
    again: Seq<AccountModel>,
    again_commitment: Option<Hash32>,
    again_recipient: Hash32,
    again_amount: nat,
    again_ok: bool,
)
    requires
        withdraw_outcome(accounts, nullifier, new_commitment, recipient, amount, true) is Ok,
        again.len() >= 4,
        again[0].data == pool_data_after_all(
            withdraw_outcome(
                accounts,
                nullifier,
                new_commitment,
                recipient,
                amount,
                true,
            ).unwrap()[0].data,
            since,
        ),
    ensures
        withdraw_outcome(
            again,
            nullifier,
            again_commitment,
            again_recipient,
            again_amount,
            again_ok,
        ) == Err::<Seq<AccountModel>, _>(LedgerError::AlreadyUsed),
{
    let after = withdraw_outcome(accounts, nullifier, new_commitment, recipient, amount, true).unwrap();
    law_withdraw_settles(accounts, nullifier, new_commitment, recipient, amount, None, 0, true);
    law_history_preserves(after[0].data, since);
}

/// An accepted private transfer leaves behind the pool that the transfer
/// makes of the pool it found: the key image is spent, the commitment is
/// in the tree, and the locked value and the spent nullifiers are what
/// they were. No account but the pool's changes.
pub proof fn law_private_transfer_settles(
    accounts: Seq<AccountModel>,
    key_image: Hash32,
    ring_size: nat,
    new_commitment: Hash32,
)
    requires
        private_transfer_outcome(accounts, key_image, ring_size, new_commitment, true) is Ok,
    ensures
        ({
            let after = private_transfer_outcome(
                accounts,
                key_image,
                ring_size,
                new_commitment,
                true,
            ).unwrap();
            let found = parse_pool(accounts[0].data, 0).unwrap().0;
            &&& after.len() == accounts.len()
            &&& forall|i: int| 1 <= i < accounts.len() ==> after[i] == accounts[i]
            &&& parse_pool(after[0].data, 0) matches Some((left, _)) && Ok::<_, LedgerError>(left)
                == found.private_transfer(key_image, ring_size, new_commitment, true)
                && left.used_key_images.contains(key_image) && left.used_nullifiers
                == found.used_nullifiers && left.total_value_locked
                == found.total_value_locked && left.tree.count == found.tree.count + 1
                && left.tree.root == extend_root(found.tree.root, new_commitment)
        }),
{
    let found = parse_pool(accounts[0].data, 0).unwrap().0;
    let next = found.private_transfer(key_image, ring_size, new_commitment, true).unwrap();
    if found.tree.depth < 64 {
        vstd::bits::lemma_u64_pow2_no_overflow(found.tree.depth as nat);
    }
    assert(next.used_key_images.last() == key_image);
    law_stored_pool_loads(accounts[0].data, next);
}

/// A key image is spent once: after a private transfer that presented it
/// was accepted, and whatever requests were served on the pool since, a
/// private transfer that presents it again is refused with `AlreadyUsed`,
/// whatever else it presents and whatever the verifier says.
pub proof fn law_private_transfer_replay_refused(
    accounts: Seq<AccountModel>,
    key_image: Hash32,
    ring_size: nat,
    new_commitment: Hash32,
    since: Seq<PoolStep>,
    again: Seq<AccountModel>,
    again_ring_size: nat,
    again_commitment: Hash32,
    again_ok: bool,
)
    requires
        private_transfer_outcome(accounts, key_image, ring_size, new_commitment, true) is Ok,
        again.len() >= 3,
        again[0].data == pool_data_after_all(
            private_transfer_outcome(
                accounts,
                key_image,
                ring_size,
                new_commitment,
                true,
            ).unwrap()[0].data,
            since,
        ),
    ensures
        private_transfer_outcome(again, key_image, again_ring_size, again_commitment, again_ok)
            == Err::<Seq<AccountModel>, _>(LedgerError::AlreadyUsed),
{
    let after = private_transfer_outcome(
        accounts,
        key_image,
        ring_size,
        new_commitment,
        true,
    ).unwrap();
    law_private_transfer_settles(accounts, key_image, ring_size, new_commitment);
    law_history_preserves(after[0].data, since);
}

/// An accepted transfer of an asset leaves behind the asset that the
/// transfer makes of the asset it found. No account but the asset's
/// changes.
pub proof fn law_transfer_asset_settles(
    accounts: Seq<AccountModel>,
    asset_id: Hash32,
    nullifier: Hash32,
    new_commitment: Hash32,
)
    requires
        transfer_asset_outcome(accounts, asset_id, nullifier, new_commitment, true) is Ok,
    ensures
        ({
            let after = transfer_asset_outcome(
                accounts,
                asset_id,
                nullifier,
                new_commitment,
                true,
            ).unwrap();
            let found = parse_asset(accounts[0].data, 0).unwrap().0;
            &&& after.len() == accounts.len()
            &&& forall|i: int| 1 <= i < accounts.len() ==> after[i] == accounts[i]
            &&& parse_asset(after[0].data, 0) matches Some((left, _)) && Ok::<_, LedgerError>(left)
                == found.transfer(asset_id, nullifier, new_commitment, true)
                && left.used_nullifiers.contains(nullifier) && left.note_count == found.note_count
                + 1 && left.circulating_supply == found.circulating_supply
            &&& transfer_asset_outcome(after, asset_id, nullifier, new_commitment, true) == Err::<
                Seq<AccountModel>,
                _,
            >(LedgerError::AlreadyUsed)
        }),
{
    let found = parse_asset(accounts[0].data, 0).unwrap().0;
    let next = found.transfer(asset_id, nullifier, new_commitment, true).unwrap();
    assert(next.used_nullifiers.last() == nullifier);
    law_stored_asset_loads(accounts[0].data, next);
}

/// One transfer request to an asset, with the accounts it came with and
/// the verifier's answer.
pub struct AssetStep {
    pub accounts: Seq<AccountModel>,
    pub asset_id: Hash32,
    pub nullifier: Hash32,
    pub new_commitment: Hash32,
    pub proof_ok: bool,
}

/// The data of the asset's account after one transfer request was served
/// on it.
pub open spec fn asset_data_after(data: Seq<u8>, step: AssetStep) -> Seq<u8> {
    match transfer_asset_outcome(
        with_ledger_data(step.accounts, data),
        step.asset_id,
        step.nullifier,
        step.new_commitment,
        step.proof_ok,
    ) {
        Ok(after) => after[0].data,
        Err(_) => data,
    }
}

/// The data of the asset's account after a series of transfer requests
/// was served on it, each with accounts of its own.
pub open spec fn asset_data_after_all(data: Seq<u8>, steps: Seq<AssetStep>) -> Seq<u8>
    decreases steps.len(),
{
    if steps.len() == 0 {
        data
    } else {
        asset_data_after(asset_data_after_all(data, steps.drop_last()), steps.last())
    }
}

/// Whatever transfers are served on an asset, it stays that asset, keeps
/// its supply, and keeps every nullifier that was spent.
pub proof fn law_asset_history_preserves(data: Seq<u8>, steps: Seq<AssetStep>)
    requires
        parse_asset(data, 0) is Some,
    ensures
        ({
            let found = parse_asset(data, 0).unwrap().0;
            parse_asset(asset_data_after_all(data, steps), 0) matches Some((left, _))
                && left.initialized == found.initialized && left.asset_id == found.asset_id
                && left.total_supply == found.total_supply && left.circulating_supply
                == found.circulating_supply && (forall|tag: Hash32|
                found.used_nullifiers.contains(tag) ==> #[trigger] left.used_nullifiers.contains(
                    tag,
                ))
        }),
    decreases steps.len(),
{
    if steps.len() > 0 {
        let before = asset_data_after_all(data, steps.drop_last());
        law_asset_history_preserves(data, steps.drop_last());
        let step = steps.last();
        let mid = parse_asset(before, 0).unwrap().0;
        let accounts = with_ledger_data(step.accounts, before);
        if transfer_asset_outcome(
            accounts,
            step.asset_id,
            step.nullifier,
            step.new_commitment,
            step.proof_ok,
        ) is Ok {
            let next = mid.transfer(
                step.asset_id,
                step.nullifier,
                step.new_commitment,
                step.proof_ok,
            ).unwrap();
            law_stored_asset_loads(before, next);
            assert forall|tag: Hash32| mid.used_nullifiers.contains(tag) implies next.used_nullifiers.contains(tag) by {
                let i = choose|i: int| 0 <= i < mid.used_nullifiers.len() && mid.used_nullifiers[i] == tag;
                assert(next.used_nullifiers[i] == tag);
            }
        }
    }
}

/// A note is spent once: after a transfer that presented a nullifier was
/// accepted, and whatever transfers were served on the asset since, a
/// transfer of the asset that presents it again is refused with
/// `AlreadyUsed`, whatever else it presents and whatever the verifier
/// says.
pub proof fn law_transfer_asset_replay_refused(
    accounts: Seq<AccountModel>,
    asset_id: Hash32,
    nullifier: Hash32,
    new_commitment: Hash32,
    since: Seq<AssetStep>,
    again: Seq<AccountModel>,
    again_commitment: Hash32,
    again_ok: bool,
)
    requires
        transfer_asset_outcome(accounts, asset_id, nullifier, new_commitment, true) is Ok,
        again.len() >= 3,
        again[0].data == asset_data_after_all(
            transfer_asset_outcome(
                accounts,
                asset_id,
                nullifier,
                new_commitment,
                true,
            ).unwrap()[0].data,
            since,
        ),
    ensures
        transfer_asset_outcome(again, asset_id, nullifier, again_commitment, again_ok) == Err::<
            Seq<AccountModel>,
            _,
        >(LedgerError::AlreadyUsed),
{
    let after = transfer_asset_outcome(
        accounts,
        asset_id,
        nullifier,
        new_commitment,
        true,
    ).unwrap();
    law_transfer_asset_settles(accounts, asset_id, nullifier, new_commitment);
    law_asset_history_preserves(after[0].data, since);
}

} // verus!
