use ghost_privacy::error::LedgerError;
use ghost_privacy::instruction::{decode_instruction, encode_instruction, PrivacyInstruction};

fn samples() -> Vec<PrivacyInstruction> {
    vec![
        PrivacyInstruction::InitializePool { tree_depth: 20, denomination: 1_000_000_000 },
        PrivacyInstruction::Deposit { commitment: [0xC1; 32], amount: 100 },
        PrivacyInstruction::Withdraw {
            proof: vec![1, 2, 3, 4, 5],
            root: [0x10; 32],
            nullifier: [0x01; 32],
            new_commitment: Some([0xC2; 32]),
            recipient: [0x33; 32],
            amount: 100,
        },
        PrivacyInstruction::Withdraw {
            proof: vec![],
            root: [0x10; 32],
            nullifier: [0x01; 32],
            new_commitment: None,
            recipient: [0x33; 32],
            amount: u64::MAX,
        },
        PrivacyInstruction::PrivateTransfer {
            ring_signature: vec![7; 64],
            key_image: [0x71; 32],
            ring_members: vec![[1; 32], [2; 32], [3; 32]],
            new_commitment: [0xC3; 32],
            encrypted_amount: vec![0xEE; 9],
        },
        PrivacyInstruction::VerifyBalance {
            proof: vec![5; 12],
            min_balance: 42,
            balance_commitment: [0xB1; 32],
        },
        PrivacyInstruction::IssueAsset {
            name: "Ghost Dollar".to_string(),
            symbol: "GUSD".to_string(),
            decimals: 6,
            total_supply: 1000,
            asset_id: [0xA5; 32],
        },
        PrivacyInstruction::TransferAsset {
            proof: vec![8; 3],
            asset_id: [0xA5; 32],
            nullifier: [0x01; 32],
            new_commitment: [0xC4; 32],
            encrypted_data: vec![],
        },
    ]
}

#[test]
fn every_instruction_round_trips() {
    for instruction in samples() {
        let bytes = encode_instruction(&instruction).unwrap();
        assert_eq!(decode_instruction(&bytes), Ok(instruction));
    }
}

#[test]
fn trailing_bytes_are_refused() {
    for instruction in samples() {
        let mut bytes = encode_instruction(&instruction).unwrap();
        bytes.push(0);
        assert_eq!(decode_instruction(&bytes), Err(LedgerError::MalformedData));
    }
}

#[test]
fn truncated_instructions_are_refused() {
    for instruction in samples() {
        let bytes = encode_instruction(&instruction).unwrap();
        for cut in 0..bytes.len() {
            assert_eq!(decode_instruction(&bytes[..cut]), Err(LedgerError::MalformedData));
        }
    }
}

#[test]
fn unknown_tag_is_refused() {
    assert_eq!(decode_instruction(&[7]), Err(LedgerError::MalformedData));
    assert_eq!(decode_instruction(&[255, 0, 0]), Err(LedgerError::MalformedData));
    assert_eq!(decode_instruction(&[]), Err(LedgerError::MalformedData));
}

#[test]
fn initialize_pool_bytes() {
    let bytes = encode_instruction(&PrivacyInstruction::InitializePool {
        tree_depth: 2,
        denomination: 100,
    })
    .unwrap();
    assert_eq!(bytes, vec![0, 2, 100, 0, 0, 0, 0, 0, 0, 0]);
}

#[test]
fn deposit_bytes() {
    let bytes =
        encode_instruction(&PrivacyInstruction::Deposit { commitment: [0xC1; 32], amount: 258 })
            .unwrap();
    let mut expected = vec![1u8];
    expected.extend_from_slice(&[0xC1; 32]);
    expected.extend_from_slice(&[2, 1, 0, 0, 0, 0, 0, 0]);
    assert_eq!(bytes, expected);
}

#[test]
fn instruction_bytes_are_the_tag_and_the_borsh_encoding_of_the_fields() {
    let all = samples();
    let mut expected: Vec<Vec<u8>> = Vec::new();
    expected.push([vec![0u8], borsh::to_vec(&(20u8, 1_000_000_000u64)).unwrap()].concat());
    expected.push([vec![1u8], borsh::to_vec(&([0xC1u8; 32], 100u64)).unwrap()].concat());
    expected.push(
        [
            vec![2u8],
            borsh::to_vec(&(
                vec![1u8, 2, 3, 4, 5],
                [0x10u8; 32],
                [0x01u8; 32],
                Some([0xC2u8; 32]),
                [0x33u8; 32],
                100u64,
            ))
            .unwrap(),
        ]
        .concat(),
    );
    expected.push(
        [
            vec![2u8],
            borsh::to_vec(&(
                Vec::<u8>::new(),
                [0x10u8; 32],
                [0x01u8; 32],
                None::<[u8; 32]>,
                [0x33u8; 32],
                u64::MAX,
            ))
            .unwrap(),
        ]
        .concat(),
    );
    expected.push(
        [
            vec![3u8],
            borsh::to_vec(&(
                vec![7u8; 64],
                [0x71u8; 32],
                vec![[1u8; 32], [2; 32], [3; 32]],
                [0xC3u8; 32],
                vec![0xEEu8; 9],
            ))
            .unwrap(),
        ]
        .concat(),
    );
    expected.push(
        [vec![4u8], borsh::to_vec(&(vec![5u8; 12], 42u64, [0xB1u8; 32])).unwrap()].concat(),
    );
    expected.push(
        [
            vec![5u8],
            borsh::to_vec(&("Ghost Dollar".to_string(), "GUSD".to_string(), 6u8, 1000u64, [0xA5u8; 32]))
                .unwrap(),
        ]
        .concat(),
    );
    expected.push(
        [
            vec![6u8],
            borsh::to_vec(&(vec![8u8; 3], [0xA5u8; 32], [0x01u8; 32], [0xC4u8; 32], Vec::<u8>::new()))
                .unwrap(),
        ]
        .concat(),
    );
    assert_eq!(all.len(), expected.len());
    for (instruction, bytes) in all.iter().zip(expected.iter()) {
        assert_eq!(&encode_instruction(instruction).unwrap(), bytes);
        assert_eq!(decode_instruction(bytes).as_ref(), Ok(instruction));
    }
}

#[test]
fn option_tag_other_than_zero_or_one_is_refused() {
    let mut bytes = encode_instruction(&samples()[3]).unwrap();
    let tag_at = 1 + 4 + 32 + 32;
    assert_eq!(bytes[tag_at], 0);
    bytes[tag_at] = 3;
    assert_eq!(decode_instruction(&bytes), Err(LedgerError::MalformedData));
}

#[test]
fn asset_name_that_is_not_utf8_is_refused() {
    let mut bytes = encode_instruction(&samples()[6]).unwrap();
    bytes[5] = 0xFF;
    assert_eq!(decode_instruction(&bytes), Err(LedgerError::MalformedData));
}
