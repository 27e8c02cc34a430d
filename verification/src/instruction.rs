//! The operations a caller can request, and their encoding: one tag byte,
//! then the fields of the operation in order.

use vstd::prelude::*;
use vstd::utf8::encode_utf8;
use crate::error::LedgerError;
use crate::hash::Hash32;
use crate::wire::{
    holds_at, lemma_parsed_bytes, lemma_parsed_hash, lemma_parsed_hashes,
    lemma_parsed_option_hash, lemma_parsed_string, lemma_parsed_u64, lemma_parsed_u8, enc_bytes, enc_hash, enc_hashes, enc_option_hash, enc_string, enc_u64, enc_u8, end_of,
    lemma_holds_at_concat, lemma_read_back_bytes, lemma_read_back_hash, lemma_read_back_hashes,
    lemma_read_back_option_hash, lemma_read_back_string, lemma_read_back_u64, lemma_read_back_u8,
    parse_bytes, parse_hash, parse_hashes, parse_option_hash, parse_string, parse_u64, parse_u8,
    read_bytes, read_hash, read_hashes, read_option_hash, read_string, read_u64, read_u8,
    write_bytes, write_hash, write_hashes, write_option_hash, write_string, write_u64, write_u8,
};

verus! {

/// The operations of the ledger.
#[allow(inconsistent_fields)]
#[derive(Clone, Debug, PartialEq, Eq)]
pub enum PrivacyInstruction {
    /// Create a pool of one denomination.
    InitializePool { tree_depth: u8, denomination: u64 },
    /// Lock one denomination under a commitment.
    Deposit { commitment: Hash32, amount: u64 },
    /// Pay out against a proof of ownership.
    Withdraw {
        proof: Vec<u8>,
        root: Hash32,
        nullifier: Hash32,
        new_commitment: Option<Hash32>,
        recipient: Hash32,
        amount: u64,
    },
    /// Move a note inside the pool under a ring signature.
    PrivateTransfer {
        ring_signature: Vec<u8>,
        key_image: Hash32,
        ring_members: Vec<Hash32>,
        new_commitment: Hash32,
        encrypted_amount: Vec<u8>,
    },
    /// Check a proof of a minimum balance.
    VerifyBalance { proof: Vec<u8>, min_balance: u64, balance_commitment: Hash32 },
    /// Issue a shielded asset.
    IssueAsset { name: String, symbol: String, decimals: u8, total_supply: u64, asset_id: Hash32 },
    /// Move a note of a shielded asset.
    TransferAsset {
        proof: Vec<u8>,
        asset_id: Hash32,
        nullifier: Hash32,
        new_commitment: Hash32,
        encrypted_data: Vec<u8>,
    },
}

/// An operation as a mathematical value.
#[allow(inconsistent_fields)]
pub enum InstructionModel {
    InitializePool { tree_depth: u8, denomination: u64 },
    Deposit { commitment: Hash32, amount: u64 },
    Withdraw {
        proof: Seq<u8>,
        root: Hash32,
        nullifier: Hash32,
        new_commitment: Option<Hash32>,
        recipient: Hash32,
        amount: u64,
    },
    PrivateTransfer {
        ring_signature: Seq<u8>,
        key_image: Hash32,
        ring_members: Seq<Hash32>,
        new_commitment: Hash32,
        encrypted_amount: Seq<u8>,
    },
    VerifyBalance { proof: Seq<u8>, min_balance: u64, balance_commitment: Hash32 },
    IssueAsset {
        name: Seq<char>,
        symbol: Seq<char>,
        decimals: u8,
        total_supply: u64,
        asset_id: Hash32,
    },
    TransferAsset {
        proof: Seq<u8>,
        asset_id: Hash32,
        nullifier: Hash32,
        new_commitment: Hash32,
        encrypted_data: Seq<u8>,
    },
}

impl View for PrivacyInstruction {
    type V = InstructionModel;

    open spec fn view(&self) -> InstructionModel {
        match *self {
            PrivacyInstruction::InitializePool {
                tree_depth,
                denomination,
            } => InstructionModel::InitializePool { tree_depth, denomination },
            PrivacyInstruction::Deposit { commitment, amount } => InstructionModel::Deposit {
                commitment,
                amount,
            },
            PrivacyInstruction::Withdraw {
                proof,
                root,
                nullifier,
                new_commitment,
                recipient,
                amount,
            } => InstructionModel::Withdraw {
                proof: proof@,
                root,
                nullifier,
                new_commitment,
                recipient,
                amount,
            },
            PrivacyInstruction::PrivateTransfer {
                ring_signature,
                key_image,
                ring_members,
                new_commitment,
                encrypted_amount,
            } => InstructionModel::PrivateTransfer {
                ring_signature: ring_signature@,
                key_image,
                ring_members: ring_members@,
                new_commitment,
                encrypted_amount: encrypted_amount@,
            },
            PrivacyInstruction::VerifyBalance {
                proof,
                min_balance,
                balance_commitment,
            } => InstructionModel::VerifyBalance { proof: proof@, min_balance, balance_commitment },
            PrivacyInstruction::IssueAsset {
                name,
                symbol,
                decimals,
                total_supply,
                asset_id,
            } => InstructionModel::IssueAsset {
                name: name@,
                symbol: symbol@,
                decimals,
                total_supply,
                asset_id,
            },
            PrivacyInstruction::TransferAsset {
                proof,
                asset_id,
                nullifier,
                new_commitment,
                encrypted_data,
            } => InstructionModel::TransferAsset {
                proof: proof@,
                asset_id,
                nullifier,
                new_commitment,
                encrypted_data: encrypted_data@,
            },
        }
    }
}

/// The encoding of an operation.
pub open spec fn enc_instruction(instruction: InstructionModel) -> Seq<u8> {
    match instruction {
        InstructionModel::InitializePool { tree_depth, denomination } => enc_u8(0) + enc_u8(
            tree_depth,
        ) + enc_u64(denomination),
        InstructionModel::Deposit { commitment, amount } => enc_u8(1) + enc_hash(commitment)
            + enc_u64(amount),
        InstructionModel::Withdraw {
            proof,
            root,
            nullifier,
            new_commitment,
            recipient,
            amount,
        } => enc_u8(2) + enc_bytes(proof) + enc_hash(root) + enc_hash(nullifier)
            + enc_option_hash(new_commitment) + enc_hash(recipient) + enc_u64(amount),
        InstructionModel::PrivateTransfer {
            ring_signature,
            key_image,
            ring_members,
            new_commitment,
            encrypted_amount,
        } => enc_u8(3) + enc_bytes(ring_signature) + enc_hash(key_image) + enc_hashes(ring_members)
            + enc_hash(new_commitment) + enc_bytes(encrypted_amount),
        InstructionModel::VerifyBalance { proof, min_balance, balance_commitment } => enc_u8(4)
            + enc_bytes(proof) + enc_u64(min_balance) + enc_hash(balance_commitment),
        InstructionModel::IssueAsset { name, symbol, decimals, total_supply, asset_id } => enc_u8(5)
            + enc_string(name) + enc_string(symbol) + enc_u8(decimals) + enc_u64(total_supply)
            + enc_hash(asset_id),
        InstructionModel::TransferAsset {
            proof,
            asset_id,
            nullifier,
            new_commitment,
            encrypted_data,
        } => enc_u8(6) + enc_bytes(proof) + enc_hash(asset_id) + enc_hash(nullifier) + enc_hash(
            new_commitment,
        ) + enc_bytes(encrypted_data),
    }
}

/// Every variable-length field fits its 32-bit length prefix.
pub open spec fn instruction_encodable(instruction: InstructionModel) -> bool {
    match instruction {
        InstructionModel::InitializePool { .. } => true,
        InstructionModel::Deposit { .. } => true,
        InstructionModel::Withdraw { proof, .. } => proof.len() <= u32::MAX,
        InstructionModel::PrivateTransfer {
            ring_signature,
            ring_members,
            encrypted_amount,
            ..
        } => ring_signature.len() <= u32::MAX && ring_members.len() <= u32::MAX
            && encrypted_amount.len() <= u32::MAX,
        InstructionModel::VerifyBalance { proof, .. } => proof.len() <= u32::MAX,
        InstructionModel::IssueAsset { name, symbol, .. } => encode_utf8(name).len() <= u32::MAX
            && encode_utf8(symbol).len() <= u32::MAX,
        InstructionModel::TransferAsset { proof, encrypted_data, .. } => proof.len() <= u32::MAX
            && encrypted_data.len() <= u32::MAX,
    }
}

/// Reads the fields of `InitializePool` at `pos`.
pub open spec fn parse_initialize_pool(bytes: Seq<u8>, pos: int) -> Option<
    (InstructionModel, int),
> {
    let tree_depth = parse_u8(bytes, pos);
    let denomination = parse_u64(bytes, end_of(tree_depth));
    if denomination is Some {
        Some(
            (
                InstructionModel::InitializePool {
                    tree_depth: tree_depth.unwrap().0,
                    denomination: denomination.unwrap().0,
                },
                end_of(denomination),
            ),
        )
    } else {
        None
    }
}

/// Reads the fields of `Deposit` at `pos`.
pub open spec fn parse_deposit(bytes: Seq<u8>, pos: int) -> Option<(InstructionModel, int)> {
    let commitment = parse_hash(bytes, pos);
    let amount = parse_u64(bytes, end_of(commitment));
    if amount is Some {
        Some(
            (
                InstructionModel::Deposit {
                    commitment: commitment.unwrap().0,
                    amount: amount.unwrap().0,
                },
                end_of(amount),
            ),
        )
    } else {
        None
    }
}

/// Reads the fields of `Withdraw` at `pos`.
pub open spec fn parse_withdraw(bytes: Seq<u8>, pos: int) -> Option<(InstructionModel, int)> {
    let proof = parse_bytes(bytes, pos);
    let root = parse_hash(bytes, end_of(proof));
    let nullifier = parse_hash(bytes, end_of(root));
    let new_commitment = parse_option_hash(bytes, end_of(nullifier));
    let recipient = parse_hash(bytes, end_of(new_commitment));
    let amount = parse_u64(bytes, end_of(recipient));
    if amount is Some {
        Some(
            (
                InstructionModel::Withdraw {
                    proof: proof.unwrap().0,
                    root: root.unwrap().0,
                    nullifier: nullifier.unwrap().0,
                    new_commitment: new_commitment.unwrap().0,
                    recipient: recipient.unwrap().0,
                    amount: amount.unwrap().0,
                },
                end_of(amount),
            ),
        )
    } else {
        None
    }
}

/// Reads the fields of `PrivateTransfer` at `pos`.
pub open spec fn parse_private_transfer(bytes: Seq<u8>, pos: int) -> Option<
    (InstructionModel, int),
> {
    let ring_signature = parse_bytes(bytes, pos);
    let key_image = parse_hash(bytes, end_of(ring_signature));
    let ring_members = parse_hashes(bytes, end_of(key_image));
    let new_commitment = parse_hash(bytes, end_of(ring_members));
    let encrypted_amount = parse_bytes(bytes, end_of(new_commitment));
    if encrypted_amount is Some {
        Some(
            (
                InstructionModel::PrivateTransfer {
                    ring_signature: ring_signature.unwrap().0,
                    key_image: key_image.unwrap().0,
                    ring_members: ring_members.unwrap().0,
                    new_commitment: new_commitment.unwrap().0,
                    encrypted_amount: encrypted_amount.unwrap().0,
                },
                end_of(encrypted_amount),
            ),
        )
    } else {
        None
    }
}

/// Reads the fields of `VerifyBalance` at `pos`.
pub open spec fn parse_verify_balance(bytes: Seq<u8>, pos: int) -> Option<(InstructionModel, int)> {
    let proof = parse_bytes(bytes, pos);
    let min_balance = parse_u64(bytes, end_of(proof));
    let balance_commitment = parse_hash(bytes, end_of(min_balance));
    if balance_commitment is Some {
        Some(
            (
                InstructionModel::VerifyBalance {
                    proof: proof.unwrap().0,
                    min_balance: min_balance.unwrap().0,
                    balance_commitment: balance_commitment.unwrap().0,
                },
                end_of(balance_commitment),
            ),
        )
    } else {
        None
    }
}

/// Reads the fields of `IssueAsset` at `pos`.
pub open spec fn parse_issue_asset(bytes: Seq<u8>, pos: int) -> Option<(InstructionModel, int)> {
    let name = parse_string(bytes, pos);
    let symbol = parse_string(bytes, end_of(name));
    let decimals = parse_u8(bytes, end_of(symbol));
    let total_supply = parse_u64(bytes, end_of(decimals));
    let asset_id = parse_hash(bytes, end_of(total_supply));
    if asset_id is Some {
        Some(
            (
                InstructionModel::IssueAsset {
                    name: name.unwrap().0,
                    symbol: symbol.unwrap().0,
                    decimals: decimals.unwrap().0,
                    total_supply: total_supply.unwrap().0,
                    asset_id: asset_id.unwrap().0,
                },
                end_of(asset_id),
            ),
        )
    } else {
        None
    }
}

/// Reads the fields of `TransferAsset` at `pos`.
pub open spec fn parse_transfer_asset(bytes: Seq<u8>, pos: int) -> Option<(InstructionModel, int)> {
    let proof = parse_bytes(bytes, pos);
    let asset_id = parse_hash(bytes, end_of(proof));
    let nullifier = parse_hash(bytes, end_of(asset_id));
    let new_commitment = parse_hash(bytes, end_of(nullifier));
    let encrypted_data = parse_bytes(bytes, end_of(new_commitment));
    if encrypted_data is Some {
        Some(
            (
                InstructionModel::TransferAsset {
                    proof: proof.unwrap().0,
                    asset_id: asset_id.unwrap().0,
                    nullifier: nullifier.unwrap().0,
                    new_commitment: new_commitment.unwrap().0,
                    encrypted_data: encrypted_data.unwrap().0,
                },
                end_of(encrypted_data),
            ),
        )
    } else {
        None
    }
}

/// Reads the operation that follows its tag byte.
pub open spec fn parse_tagged(bytes: Seq<u8>, tag: u8, pos: int) -> Option<(InstructionModel, int)> {
    if tag == 0 {
        parse_initialize_pool(bytes, pos)
    } else if tag == 1 {
        parse_deposit(bytes, pos)
    } else if tag == 2 {
        parse_withdraw(bytes, pos)
    } else if tag == 3 {
        parse_private_transfer(bytes, pos)
    } else if tag == 4 {
        parse_verify_balance(bytes, pos)
    } else if tag == 5 {
        parse_issue_asset(bytes, pos)
    } else if tag == 6 {
        parse_transfer_asset(bytes, pos)
    } else {
        None
    }
}

/// The operation that `bytes` encodes: `bytes` must hold one operation
/// and nothing after it.
pub open spec fn parse_instruction(bytes: Seq<u8>) -> Option<InstructionModel> {
    match parse_u8(bytes, 0) {
        Some((tag, pos)) => match parse_tagged(bytes, tag, pos) {
            Some((instruction, end)) => if end == bytes.len() {
                Some(instruction)
            } else {
                None
            },
            None => None,
        },
        None => None,
    }
}

/// An executable reader agrees with a parser of operations: both fail, or
/// the operation read is the one parsed and ends where it ends.
pub open spec fn same_instruction(
    r: Option<(PrivacyInstruction, usize)>,
    expected: Option<(InstructionModel, int)>,
) -> bool {
    match expected {
        Some((instruction, end)) => r matches Some((i, n)) && i@ == instruction && n == end,
        None => r is None,
    }
}

/// Reads the fields of `InitializePool` at `pos`.
fn read_initialize_pool(bytes: &[u8], pos: usize) -> (r: Option<(PrivacyInstruction, usize)>)
    ensures
        same_instruction(r, parse_initialize_pool(bytes@, pos as int)),
{
    let (tree_depth, pos) = read_u8(bytes, pos)?;
    let (denomination, pos) = read_u64(bytes, pos)?;
    Some((PrivacyInstruction::InitializePool { tree_depth, denomination }, pos))
}

/// Reads the fields of `Deposit` at `pos`.
fn read_deposit(bytes: &[u8], pos: usize) -> (r: Option<(PrivacyInstruction, usize)>)
    ensures
        same_instruction(r, parse_deposit(bytes@, pos as int)),
{
    let (commitment, pos) = read_hash(bytes, pos)?;
    let (amount, pos) = read_u64(bytes, pos)?;
    Some((PrivacyInstruction::Deposit { commitment, amount }, pos))
}

/// Reads the fields of `Withdraw` at `pos`.
fn read_withdraw(bytes: &[u8], pos: usize) -> (r: Option<(PrivacyInstruction, usize)>)
    ensures
        same_instruction(r, parse_withdraw(bytes@, pos as int)),
{
    let (proof, pos) = read_bytes(bytes, pos)?;
    let (root, pos) = read_hash(bytes, pos)?;
    let (nullifier, pos) = read_hash(bytes, pos)?;
    let (new_commitment, pos) = read_option_hash(bytes, pos)?;
    let (recipient, pos) = read_hash(bytes, pos)?;
    let (amount, pos) = read_u64(bytes, pos)?;
    Some(
        (
            PrivacyInstruction::Withdraw {
                proof,
                root,
                nullifier,
                new_commitment,
                recipient,
                amount,
            },
            pos,
        ),
    )
}

/// Reads the fields of `PrivateTransfer` at `pos`.
fn read_private_transfer(bytes: &[u8], pos: usize) -> (r: Option<(PrivacyInstruction, usize)>)
    ensures
        same_instruction(r, parse_private_transfer(bytes@, pos as int)),
{
    let (ring_signature, pos) = read_bytes(bytes, pos)?;
    let (key_image, pos) = read_hash(bytes, pos)?;
    let (ring_members, pos) = read_hashes(bytes, pos)?;
    let (new_commitment, pos) = read_hash(bytes, pos)?;
    let (encrypted_amount, pos) = read_bytes(bytes, pos)?;
    Some(
        (
            PrivacyInstruction::PrivateTransfer {
                ring_signature,
                key_image,
                ring_members,
                new_commitment,
                encrypted_amount,
            },
            pos,
        ),
    )
}

/// Reads the fields of `VerifyBalance` at `pos`.
fn read_verify_balance(bytes: &[u8], pos: usize) -> (r: Option<(PrivacyInstruction, usize)>)
    ensures
        same_instruction(r, parse_verify_balance(bytes@, pos as int)),
{
    let (proof, pos) = read_bytes(bytes, pos)?;
    let (min_balance, pos) = read_u64(bytes, pos)?;
    let (balance_commitment, pos) = read_hash(bytes, pos)?;
    Some((PrivacyInstruction::VerifyBalance { proof, min_balance, balance_commitment }, pos))
}

/// Reads the fields of `IssueAsset` at `pos`.
fn read_issue_asset(bytes: &[u8], pos: usize) -> (r: Option<(PrivacyInstruction, usize)>)
    ensures
        same_instruction(r, parse_issue_asset(bytes@, pos as int)),
{
    let (name, pos) = read_string(bytes, pos)?;
    let (symbol, pos) = read_string(bytes, pos)?;
    let (decimals, pos) = read_u8(bytes, pos)?;
    let (total_supply, pos) = read_u64(bytes, pos)?;
    let (asset_id, pos) = read_hash(bytes, pos)?;
    Some((PrivacyInstruction::IssueAsset { name, symbol, decimals, total_supply, asset_id }, pos))
}

/// Reads the fields of `TransferAsset` at `pos`.
fn read_transfer_asset(bytes: &[u8], pos: usize) -> (r: Option<(PrivacyInstruction, usize)>)
    ensures
        same_instruction(r, parse_transfer_asset(bytes@, pos as int)),
{
    let (proof, pos) = read_bytes(bytes, pos)?;
    let (asset_id, pos) = read_hash(bytes, pos)?;
    let (nullifier, pos) = read_hash(bytes, pos)?;
    let (new_commitment, pos) = read_hash(bytes, pos)?;
    let (encrypted_data, pos) = read_bytes(bytes, pos)?;
    Some(
        (
            PrivacyInstruction::TransferAsset {
                proof,
                asset_id,
                nullifier,
                new_commitment,
                encrypted_data,
            },
            pos,
        ),
    )
}

/// Decodes an operation. The bytes must hold exactly one operation: an
/// unknown tag, a field cut short, a flag that is neither 0 nor 1, a text
/// that is not UTF-8 and bytes left over are all refused.
pub fn decode_instruction(bytes: &[u8]) -> (r: Result<PrivacyInstruction, LedgerError>)
    ensures
        match parse_instruction(bytes@) {
            Some(instruction) => r matches Ok(i) && i@ == instruction,
            None => r == Err::<PrivacyInstruction, _>(LedgerError::MalformedData),
        },
{
    let (tag, pos) = match read_u8(bytes, 0) {
        Some(pair) => pair,
        None => {
            return Err(LedgerError::MalformedData);
        },
    };
    let read = if tag == 0 {
        read_initialize_pool(bytes, pos)
    } else if tag == 1 {
        read_deposit(bytes, pos)
    } else if tag == 2 {
        read_withdraw(bytes, pos)
    } else if tag == 3 {
        read_private_transfer(bytes, pos)
    } else if tag == 4 {
        read_verify_balance(bytes, pos)
    } else if tag == 5 {
        read_issue_asset(bytes, pos)
    } else if tag == 6 {
        read_transfer_asset(bytes, pos)
    } else {
        None
    };
    match read {
        Some((instruction, end)) => {
            if end == bytes.len() {
                Ok(instruction)
            } else {
                Err(LedgerError::MalformedData)
            }
        },
        None => Err(LedgerError::MalformedData),
    }
}

/// Encodes an operation. Fails with `Overflow` exactly if one of its
/// variable-length fields is too long for a 32-bit length.
pub fn encode_instruction(instruction: &PrivacyInstruction) -> (r: Result<Vec<u8>, LedgerError>)
    ensures
        instruction_encodable(instruction@) ==> (r matches Ok(bytes) && bytes@ == enc_instruction(
            instruction@,
        )),
        !instruction_encodable(instruction@) ==> r == Err::<Vec<u8>, _>(LedgerError::Overflow),
{
    let mut out: Vec<u8> = Vec::new();
    match instruction {
        PrivacyInstruction::InitializePool { tree_depth, denomination } => {
            write_u8(&mut out, 0);
            write_u8(&mut out, *tree_depth);
            write_u64(&mut out, *denomination);
        },
        PrivacyInstruction::Deposit { commitment, amount } => {
            write_u8(&mut out, 1);
            write_hash(&mut out, commitment);
            write_u64(&mut out, *amount);
        },
        PrivacyInstruction::Withdraw {
            proof,
            root,
            nullifier,
            new_commitment,
            recipient,
            amount,
        } => {
            write_u8(&mut out, 2);
            if !write_bytes(&mut out, proof.as_slice()) {
                return Err(LedgerError::Overflow);
            }
            write_hash(&mut out, root);
            write_hash(&mut out, nullifier);
            write_option_hash(&mut out, new_commitment);
            write_hash(&mut out, recipient);
            write_u64(&mut out, *amount);
        },
        PrivacyInstruction::PrivateTransfer {
            ring_signature,
            key_image,
            ring_members,
            new_commitment,
            encrypted_amount,
        } => {
            write_u8(&mut out, 3);
            if !write_bytes(&mut out, ring_signature.as_slice()) {
                return Err(LedgerError::Overflow);
            }
            write_hash(&mut out, key_image);
            if !write_hashes(&mut out, ring_members) {
                return Err(LedgerError::Overflow);
            }
            write_hash(&mut out, new_commitment);
            if !write_bytes(&mut out, encrypted_amount.as_slice()) {
                return Err(LedgerError::Overflow);
            }
        },
        PrivacyInstruction::VerifyBalance { proof, min_balance, balance_commitment } => {
            write_u8(&mut out, 4);
            if !write_bytes(&mut out, proof.as_slice()) {
                return Err(LedgerError::Overflow);
            }
            write_u64(&mut out, *min_balance);
            write_hash(&mut out, balance_commitment);
        },
        PrivacyInstruction::IssueAsset { name, symbol, decimals, total_supply, asset_id } => {
            write_u8(&mut out, 5);
            if !write_string(&mut out, name) {
                return Err(LedgerError::Overflow);
            }
            if !write_string(&mut out, symbol) {
                return Err(LedgerError::Overflow);
            }
            write_u8(&mut out, *decimals);
            write_u64(&mut out, *total_supply);
            write_hash(&mut out, asset_id);
        },
        PrivacyInstruction::TransferAsset {
            proof,
            asset_id,
            nullifier,
            new_commitment,
            encrypted_data,
        } => {
            write_u8(&mut out, 6);
            if !write_bytes(&mut out, proof.as_slice()) {
                return Err(LedgerError::Overflow);
            }
            write_hash(&mut out, asset_id);
            write_hash(&mut out, nullifier);
            write_hash(&mut out, new_commitment);
            if !write_bytes(&mut out, encrypted_data.as_slice()) {
                return Err(LedgerError::Overflow);
            }
        },
    }
    assert(out@ =~= enc_instruction(instruction@));
    Ok(out)
}

/// The encoding of a `InitializePool` decodes to it.
proof fn lemma_round_trip_initialize_pool(instruction: InstructionModel)
    requires
        instruction is InitializePool,
        instruction_encodable(instruction),
    ensures
        parse_instruction(enc_instruction(instruction)) == Some(instruction),
{
    let bytes = enc_instruction(instruction);
    assert(bytes.subrange(0, bytes.len() as int) =~= bytes);
    match instruction {
        InstructionModel::InitializePool { tree_depth, denomination } => {
            let front1 = enc_u8(0);
            let front2 = front1 + enc_u8(tree_depth);
            lemma_holds_at_concat(bytes, 0, front2, enc_u64(denomination));
            lemma_holds_at_concat(bytes, 0, front1, enc_u8(tree_depth));
            lemma_read_back_u8(bytes, 0, 0);
            lemma_read_back_u8(bytes, 1, tree_depth);
            lemma_read_back_u64(bytes, 2, denomination);
        },
        _ => {},
    }
}

/// The encoding of a `Deposit` decodes to it.
proof fn lemma_round_trip_deposit(instruction: InstructionModel)
    requires
        instruction is Deposit,
        instruction_encodable(instruction),
    ensures
        parse_instruction(enc_instruction(instruction)) == Some(instruction),
{
    let bytes = enc_instruction(instruction);
    assert(bytes.subrange(0, bytes.len() as int) =~= bytes);
    match instruction {
        InstructionModel::Deposit { commitment, amount } => {
            let front1 = enc_u8(1);
            let front2 = front1 + enc_hash(commitment);
            lemma_holds_at_concat(bytes, 0, front2, enc_u64(amount));
            lemma_holds_at_concat(bytes, 0, front1, enc_hash(commitment));
            lemma_read_back_u8(bytes, 0, 1);
            lemma_read_back_hash(bytes, 1, commitment);
            lemma_read_back_u64(bytes, 33, amount);
        },
        _ => {},
    }
}

/// The encoding of a `Withdraw` decodes to it.
proof fn lemma_round_trip_withdraw(instruction: InstructionModel)
    requires
        instruction is Withdraw,
        instruction_encodable(instruction),
    ensures
        parse_instruction(enc_instruction(instruction)) == Some(instruction),
{
    let bytes = enc_instruction(instruction);
    assert(bytes.subrange(0, bytes.len() as int) =~= bytes);
    match instruction {
        InstructionModel::Withdraw {
            proof,
            root,
            nullifier,
            new_commitment,
            recipient,
            amount,
        } => {
            let front1 = enc_u8(2);
            let front2 = front1 + enc_bytes(proof);
            let front3 = front2 + enc_hash(root);
            let front4 = front3 + enc_hash(nullifier);
            let front5 = front4 + enc_option_hash(new_commitment);
            let front6 = front5 + enc_hash(recipient);
            lemma_holds_at_concat(bytes, 0, front6, enc_u64(amount));
            lemma_holds_at_concat(bytes, 0, front5, enc_hash(recipient));
            lemma_holds_at_concat(bytes, 0, front4, enc_option_hash(new_commitment));
            lemma_holds_at_concat(bytes, 0, front3, enc_hash(nullifier));
            lemma_holds_at_concat(bytes, 0, front2, enc_hash(root));
            lemma_holds_at_concat(bytes, 0, front1, enc_bytes(proof));
            lemma_read_back_u8(bytes, 0, 2);
            lemma_read_back_bytes(bytes, 1, proof);
            lemma_read_back_hash(bytes, front2.len() as int, root);
            lemma_read_back_hash(bytes, front3.len() as int, nullifier);
            lemma_read_back_option_hash(bytes, front4.len() as int, new_commitment);
            lemma_read_back_hash(bytes, front5.len() as int, recipient);
            lemma_read_back_u64(bytes, front6.len() as int, amount);
        },
        _ => {},
    }
}

/// The encoding of a `PrivateTransfer` decodes to it.
proof fn lemma_round_trip_private_transfer(instruction: InstructionModel)
    requires
        instruction is PrivateTransfer,
        instruction_encodable(instruction),
    ensures
        parse_instruction(enc_instruction(instruction)) == Some(instruction),
{
    let bytes = enc_instruction(instruction);
    assert(bytes.subrange(0, bytes.len() as int) =~= bytes);
    match instruction {
        InstructionModel::PrivateTransfer {
            ring_signature,
            key_image,
            ring_members,
            new_commitment,
            encrypted_amount,
        } => {
            let front1 = enc_u8(3);
            let front2 = front1 + enc_bytes(ring_signature);
            let front3 = front2 + enc_hash(key_image);
            let front4 = front3 + enc_hashes(ring_members);
            let front5 = front4 + enc_hash(new_commitment);
            lemma_holds_at_concat(bytes, 0, front5, enc_bytes(encrypted_amount));
            lemma_holds_at_concat(bytes, 0, front4, enc_hash(new_commitment));
            lemma_holds_at_concat(bytes, 0, front3, enc_hashes(ring_members));
            lemma_holds_at_concat(bytes, 0, front2, enc_hash(key_image));
            lemma_holds_at_concat(bytes, 0, front1, enc_bytes(ring_signature));
            lemma_read_back_u8(bytes, 0, 3);
            lemma_read_back_bytes(bytes, 1, ring_signature);
            lemma_read_back_hash(bytes, front2.len() as int, key_image);
            lemma_read_back_hashes(bytes, front3.len() as int, ring_members);
            lemma_read_back_hash(bytes, front4.len() as int, new_commitment);
            lemma_read_back_bytes(bytes, front5.len() as int, encrypted_amount);
        },
        _ => {},
    }
}

/// The encoding of a `VerifyBalance` decodes to it.
proof fn lemma_round_trip_verify_balance(instruction: InstructionModel)
    requires
        instruction is VerifyBalance,
        instruction_encodable(instruction),
    ensures
        parse_instruction(enc_instruction(instruction)) == Some(instruction),
{
    let bytes = enc_instruction(instruction);
    assert(bytes.subrange(0, bytes.len() as int) =~= bytes);
    match instruction {
        InstructionModel::VerifyBalance { proof, min_balance, balance_commitment } => {
            let front1 = enc_u8(4);
            let front2 = front1 + enc_bytes(proof);
            let front3 = front2 + enc_u64(min_balance);
            lemma_holds_at_concat(bytes, 0, front3, enc_hash(balance_commitment));
            lemma_holds_at_concat(bytes, 0, front2, enc_u64(min_balance));
            lemma_holds_at_concat(bytes, 0, front1, enc_bytes(proof));
            lemma_read_back_u8(bytes, 0, 4);
            lemma_read_back_bytes(bytes, 1, proof);
            lemma_read_back_u64(bytes, front2.len() as int, min_balance);
            lemma_read_back_hash(bytes, front3.len() as int, balance_commitment);
        },
        _ => {},
    }
}

/// The encoding of a `IssueAsset` decodes to it.
proof fn lemma_round_trip_issue_asset(instruction: InstructionModel)
    requires
        instruction is IssueAsset,
        instruction_encodable(instruction),
    ensures
        parse_instruction(enc_instruction(instruction)) == Some(instruction),
{
    let bytes = enc_instruction(instruction);
    assert(bytes.subrange(0, bytes.len() as int) =~= bytes);
    match instruction {
        InstructionModel::IssueAsset { name, symbol, decimals, total_supply, asset_id } => {
            let front1 = enc_u8(5);
            let front2 = front1 + enc_string(name);
            let front3 = front2 + enc_string(symbol);
            let front4 = front3 + enc_u8(decimals);
            let front5 = front4 + enc_u64(total_supply);
            lemma_holds_at_concat(bytes, 0, front5, enc_hash(asset_id));
            lemma_holds_at_concat(bytes, 0, front4, enc_u64(total_supply));
            lemma_holds_at_concat(bytes, 0, front3, enc_u8(decimals));
            lemma_holds_at_concat(bytes, 0, front2, enc_string(symbol));
            lemma_holds_at_concat(bytes, 0, front1, enc_string(name));
            lemma_read_back_u8(bytes, 0, 5);
            lemma_read_back_string(bytes, 1, name);
            lemma_read_back_string(bytes, front2.len() as int, symbol);
            lemma_read_back_u8(bytes, front3.len() as int, decimals);
            lemma_read_back_u64(bytes, front4.len() as int, total_supply);
            lemma_read_back_hash(bytes, front5.len() as int, asset_id);
        },
        _ => {},
    }
}

/// The encoding of a `TransferAsset` decodes to it.
proof fn lemma_round_trip_transfer_asset(instruction: InstructionModel)
    requires
        instruction is TransferAsset,
        instruction_encodable(instruction),
    ensures
        parse_instruction(enc_instruction(instruction)) == Some(instruction),
{
    let bytes = enc_instruction(instruction);
    assert(bytes.subrange(0, bytes.len() as int) =~= bytes);
    match instruction {
        InstructionModel::TransferAsset {
            proof,
            asset_id,
            nullifier,
            new_commitment,
            encrypted_data,
        } => {
            let front1 = enc_u8(6);
            let front2 = front1 + enc_bytes(proof);
            let front3 = front2 + enc_hash(asset_id);
            let front4 = front3 + enc_hash(nullifier);
            let front5 = front4 + enc_hash(new_commitment);
            lemma_holds_at_concat(bytes, 0, front5, enc_bytes(encrypted_data));
            lemma_holds_at_concat(bytes, 0, front4, enc_hash(new_commitment));
            lemma_holds_at_concat(bytes, 0, front3, enc_hash(nullifier));
            lemma_holds_at_concat(bytes, 0, front2, enc_hash(asset_id));
            lemma_holds_at_concat(bytes, 0, front1, enc_bytes(proof));
            lemma_read_back_u8(bytes, 0, 6);
            lemma_read_back_bytes(bytes, 1, proof);
            lemma_read_back_hash(bytes, front2.len() as int, asset_id);
            lemma_read_back_hash(bytes, front3.len() as int, nullifier);
            lemma_read_back_hash(bytes, front4.len() as int, new_commitment);
            lemma_read_back_bytes(bytes, front5.len() as int, encrypted_data);
        },
        _ => {},
    }
}

/// Decoding what was encoded gives the operation that was encoded.
pub proof fn law_instruction_round_trip(instruction: InstructionModel)
    requires
        instruction_encodable(instruction),
    ensures
        parse_instruction(enc_instruction(instruction)) == Some(instruction),
{
    match instruction {
        InstructionModel::InitializePool { .. } => lemma_round_trip_initialize_pool(instruction),
        InstructionModel::Deposit { .. } => lemma_round_trip_deposit(instruction),
        InstructionModel::Withdraw { .. } => lemma_round_trip_withdraw(instruction),
        InstructionModel::PrivateTransfer { .. } => lemma_round_trip_private_transfer(instruction),
        InstructionModel::VerifyBalance { .. } => lemma_round_trip_verify_balance(instruction),
        InstructionModel::IssueAsset { .. } => lemma_round_trip_issue_asset(instruction),
        InstructionModel::TransferAsset { .. } => lemma_round_trip_transfer_asset(instruction),
    }
}

/// Bytes that decode to a `InitializePool` are its encoding.
proof fn lemma_parsed_initialize_pool(bytes: Seq<u8>)
    requires
        parse_u8(bytes, 0) == Some((0u8, 1int)),
        parse_initialize_pool(bytes, 1) is Some,
    ensures
        ({
            let (instruction, end) = parse_initialize_pool(bytes, 1).unwrap();
            &&& instruction_encodable(instruction)
            &&& holds_at(bytes, 0, enc_instruction(instruction))
            &&& end == enc_instruction(instruction).len()
        }),
{
    match parse_initialize_pool(bytes, 1).unwrap().0 {
        InstructionModel::InitializePool { tree_depth, denomination } => {
            let front0 = enc_u8(0);
            lemma_parsed_u8(bytes, 0);
            lemma_parsed_u8(bytes, front0.len() as int);
            lemma_holds_at_concat(bytes, 0, front0, enc_u8(tree_depth));
            let front1 = front0 + enc_u8(tree_depth);
            lemma_parsed_u64(bytes, front1.len() as int);
            lemma_holds_at_concat(bytes, 0, front1, enc_u64(denomination));
        },
        _ => {},
    }
}

/// Bytes that decode to a `Deposit` are its encoding.
proof fn lemma_parsed_deposit(bytes: Seq<u8>)
    requires
        parse_u8(bytes, 0) == Some((1u8, 1int)),
        parse_deposit(bytes, 1) is Some,
    ensures
        ({
            let (instruction, end) = parse_deposit(bytes, 1).unwrap();
            &&& instruction_encodable(instruction)
            &&& holds_at(bytes, 0, enc_instruction(instruction))
            &&& end == enc_instruction(instruction).len()
        }),
{
    match parse_deposit(bytes, 1).unwrap().0 {
        InstructionModel::Deposit { commitment, amount } => {
            let front0 = enc_u8(1);
            lemma_parsed_u8(bytes, 0);
            lemma_parsed_hash(bytes, front0.len() as int);
            lemma_holds_at_concat(bytes, 0, front0, enc_hash(commitment));
            let front1 = front0 + enc_hash(commitment);
            lemma_parsed_u64(bytes, front1.len() as int);
            lemma_holds_at_concat(bytes, 0, front1, enc_u64(amount));
        },
        _ => {},
    }
}

/// Bytes that decode to a `Withdraw` are its encoding.
proof fn lemma_parsed_withdraw(bytes: Seq<u8>)
    requires
        parse_u8(bytes, 0) == Some((2u8, 1int)),
        parse_withdraw(bytes, 1) is Some,
    ensures
        ({
            let (instruction, end) = parse_withdraw(bytes, 1).unwrap();
            &&& instruction_encodable(instruction)
            &&& holds_at(bytes, 0, enc_instruction(instruction))
            &&& end == enc_instruction(instruction).len()
        }),
{
    match parse_withdraw(bytes, 1).unwrap().0 {
        InstructionModel::Withdraw { proof, root, nullifier, new_commitment, recipient, amount } => {
            let front0 = enc_u8(2);
            lemma_parsed_u8(bytes, 0);
            lemma_parsed_bytes(bytes, front0.len() as int);
            lemma_holds_at_concat(bytes, 0, front0, enc_bytes(proof));
            let front1 = front0 + enc_bytes(proof);
            lemma_parsed_hash(bytes, front1.len() as int);
            lemma_holds_at_concat(bytes, 0, front1, enc_hash(root));
            let front2 = front1 + enc_hash(root);
            lemma_parsed_hash(bytes, front2.len() as int);
            lemma_holds_at_concat(bytes, 0, front2, enc_hash(nullifier));
            let front3 = front2 + enc_hash(nullifier);
            lemma_parsed_option_hash(bytes, front3.len() as int);
            lemma_holds_at_concat(bytes, 0, front3, enc_option_hash(new_commitment));
            let front4 = front3 + enc_option_hash(new_commitment);
            lemma_parsed_hash(bytes, front4.len() as int);
            lemma_holds_at_concat(bytes, 0, front4, enc_hash(recipient));
            let front5 = front4 + enc_hash(recipient);
            lemma_parsed_u64(bytes, front5.len() as int);
            lemma_holds_at_concat(bytes, 0, front5, enc_u64(amount));
        },
        _ => {},
    }
}

/// Bytes that decode to a `PrivateTransfer` are its encoding.
proof fn lemma_parsed_private_transfer(bytes: Seq<u8>)
    requires
        parse_u8(bytes, 0) == Some((3u8, 1int)),
        parse_private_transfer(bytes, 1) is Some,
    ensures
        ({
            let (instruction, end) = parse_private_transfer(bytes, 1).unwrap();
            &&& instruction_encodable(instruction)
            &&& holds_at(bytes, 0, enc_instruction(instruction))
            &&& end == enc_instruction(instruction).len()
        }),
{
    match parse_private_transfer(bytes, 1).unwrap().0 {
        InstructionModel::PrivateTransfer { ring_signature, key_image, ring_members, new_commitment, encrypted_amount } => {
            let front0 = enc_u8(3);
            lemma_parsed_u8(bytes, 0);
            lemma_parsed_bytes(bytes, front0.len() as int);
            lemma_holds_at_concat(bytes, 0, front0, enc_bytes(ring_signature));
            let front1 = front0 + enc_bytes(ring_signature);
            lemma_parsed_hash(bytes, front1.len() as int);
            lemma_holds_at_concat(bytes, 0, front1, enc_hash(key_image));
            let front2 = front1 + enc_hash(key_image);
            lemma_parsed_hashes(bytes, front2.len() as int);
            lemma_holds_at_concat(bytes, 0, front2, enc_hashes(ring_members));
            let front3 = front2 + enc_hashes(ring_members);
            lemma_parsed_hash(bytes, front3.len() as int);
            lemma_holds_at_concat(bytes, 0, front3, enc_hash(new_commitment));
            let front4 = front3 + enc_hash(new_commitment);
            lemma_parsed_bytes(bytes, front4.len() as int);
            lemma_holds_at_concat(bytes, 0, front4, enc_bytes(encrypted_amount));
        },
        _ => {},
    }
}

/// Bytes that decode to a `VerifyBalance` are its encoding.
proof fn lemma_parsed_verify_balance(bytes: Seq<u8>)
    requires
        parse_u8(bytes, 0) == Some((4u8, 1int)),
        parse_verify_balance(bytes, 1) is Some,
    ensures
        ({
            let (instruction, end) = parse_verify_balance(bytes, 1).unwrap();
            &&& instruction_encodable(instruction)
            &&& holds_at(bytes, 0, enc_instruction(instruction))
            &&& end == enc_instruction(instruction).len()
        }),
{
    match parse_verify_balance(bytes, 1).unwrap().0 {
        InstructionModel::VerifyBalance { proof, min_balance, balance_commitment } => {
            let front0 = enc_u8(4);
            lemma_parsed_u8(bytes, 0);
            lemma_parsed_bytes(bytes, front0.len() as int);
            lemma_holds_at_concat(bytes, 0, front0, enc_bytes(proof));
            let front1 = front0 + enc_bytes(proof);
            lemma_parsed_u64(bytes, front1.len() as int);
            lemma_holds_at_concat(bytes, 0, front1, enc_u64(min_balance));
            let front2 = front1 + enc_u64(min_balance);
            lemma_parsed_hash(bytes, front2.len() as int);
            lemma_holds_at_concat(bytes, 0, front2, enc_hash(balance_commitment));
        },
        _ => {},
    }
}

/// Bytes that decode to a `IssueAsset` are its encoding.
proof fn lemma_parsed_issue_asset(bytes: Seq<u8>)
    requires
        parse_u8(bytes, 0) == Some((5u8, 1int)),
        parse_issue_asset(bytes, 1) is Some,
    ensures
        ({
            let (instruction, end) = parse_issue_asset(bytes, 1).unwrap();
            &&& instruction_encodable(instruction)
            &&& holds_at(bytes, 0, enc_instruction(instruction))
            &&& end == enc_instruction(instruction).len()
        }),
{
    match parse_issue_asset(bytes, 1).unwrap().0 {
        InstructionModel::IssueAsset { name, symbol, decimals, total_supply, asset_id } => {
            let front0 = enc_u8(5);
            lemma_parsed_u8(bytes, 0);
            lemma_parsed_string(bytes, front0.len() as int);
            lemma_holds_at_concat(bytes, 0, front0, enc_string(name));
            let front1 = front0 + enc_string(name);
            lemma_parsed_string(bytes, front1.len() as int);
            lemma_holds_at_concat(bytes, 0, front1, enc_string(symbol));
            let front2 = front1 + enc_string(symbol);
            lemma_parsed_u8(bytes, front2.len() as int);
            lemma_holds_at_concat(bytes, 0, front2, enc_u8(decimals));
            let front3 = front2 + enc_u8(decimals);
            lemma_parsed_u64(bytes, front3.len() as int);
            lemma_holds_at_concat(bytes, 0, front3, enc_u64(total_supply));
            let front4 = front3 + enc_u64(total_supply);
            lemma_parsed_hash(bytes, front4.len() as int);
            lemma_holds_at_concat(bytes, 0, front4, enc_hash(asset_id));
        },
        _ => {},
    }
}

/// Bytes that decode to a `TransferAsset` are its encoding.
proof fn lemma_parsed_transfer_asset(bytes: Seq<u8>)
    requires
        parse_u8(bytes, 0) == Some((6u8, 1int)),
        parse_transfer_asset(bytes, 1) is Some,
    ensures
        ({
            let (instruction, end) = parse_transfer_asset(bytes, 1).unwrap();
            &&& instruction_encodable(instruction)
            &&& holds_at(bytes, 0, enc_instruction(instruction))
            &&& end == enc_instruction(instruction).len()
        }),
{
    match parse_transfer_asset(bytes, 1).unwrap().0 {
        InstructionModel::TransferAsset { proof, asset_id, nullifier, new_commitment, encrypted_data } => {
            let front0 = enc_u8(6);
            lemma_parsed_u8(bytes, 0);
            lemma_parsed_bytes(bytes, front0.len() as int);
            lemma_holds_at_concat(bytes, 0, front0, enc_bytes(proof));
            let front1 = front0 + enc_bytes(proof);
            lemma_parsed_hash(bytes, front1.len() as int);
            lemma_holds_at_concat(bytes, 0, front1, enc_hash(asset_id));
            let front2 = front1 + enc_hash(asset_id);
            lemma_parsed_hash(bytes, front2.len() as int);
            lemma_holds_at_concat(bytes, 0, front2, enc_hash(nullifier));
            let front3 = front2 + enc_hash(nullifier);
            lemma_parsed_hash(bytes, front3.len() as int);
            lemma_holds_at_concat(bytes, 0, front3, enc_hash(new_commitment));
            let front4 = front3 + enc_hash(new_commitment);
            lemma_parsed_bytes(bytes, front4.len() as int);
            lemma_holds_at_concat(bytes, 0, front4, enc_bytes(encrypted_data));
        },
        _ => {},
    }
}

/// Only encodings are read: the bytes that decode to an operation are
/// the encoding of that operation, to the last byte.
pub proof fn law_instruction_decodes_only_encodings(bytes: Seq<u8>)
    requires
        parse_instruction(bytes) is Some,
    ensures
        instruction_encodable(parse_instruction(bytes).unwrap()),
        enc_instruction(parse_instruction(bytes).unwrap()) == bytes,
{
    let tag = parse_u8(bytes, 0).unwrap().0;
    if tag == 0 {
        lemma_parsed_initialize_pool(bytes);
    } else if tag == 1 {
        lemma_parsed_deposit(bytes);
    } else if tag == 2 {
        lemma_parsed_withdraw(bytes);
    } else if tag == 3 {
        lemma_parsed_private_transfer(bytes);
    } else if tag == 4 {
        lemma_parsed_verify_balance(bytes);
    } else if tag == 5 {
        lemma_parsed_issue_asset(bytes);
    } else {
        lemma_parsed_transfer_asset(bytes);
    }
    assert(bytes.subrange(0, bytes.len() as int) =~= bytes);
}

/// Two operations with one encoding are one operation.
pub proof fn law_instruction_encoding_is_injective(a: InstructionModel, b: InstructionModel)
    requires
        instruction_encodable(a),
        instruction_encodable(b),
        enc_instruction(a) == enc_instruction(b),
    ensures
        a == b,
{
    law_instruction_round_trip(a);
    law_instruction_round_trip(b);
}

} // verus!
