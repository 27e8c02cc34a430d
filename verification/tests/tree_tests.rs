use ghost_privacy::error::LedgerError;
use ghost_privacy::tree::CommitmentTree;

fn leaf(byte: u8) -> [u8; 32] {
    [byte; 32]
}

#[test]
fn fresh_tree_has_zero_root_and_no_leaves() {
    let tree = CommitmentTree::new(2);
    assert_eq!(tree.root, [0u8; 32]);
    assert_eq!(tree.count, 0);
    assert_eq!(tree.depth, 2);
    assert_eq!(tree.capacity(), 4);
}

#[test]
fn same_leaves_in_same_order_give_same_root() {
    let mut first = CommitmentTree::new(3);
    let mut second = CommitmentTree::new(5);
    for tree in [&mut first, &mut second] {
        assert_eq!(tree.insert(leaf(0xA1)), Ok(()));
        assert_eq!(tree.insert(leaf(0xB2)), Ok(()));
    }
    assert_eq!(first.root, second.root);
    assert_eq!(first.count, 2);
}

#[test]
fn swapped_leaves_give_a_different_root() {
    let mut ab = CommitmentTree::new(2);
    let mut ba = CommitmentTree::new(2);
    ab.insert(leaf(0xA1)).unwrap();
    ab.insert(leaf(0xB2)).unwrap();
    ba.insert(leaf(0xB2)).unwrap();
    ba.insert(leaf(0xA1)).unwrap();
    assert_ne!(ab.root, ba.root);
}

#[test]
fn full_tree_refuses_and_stays_as_it_was() {
    let mut tree = CommitmentTree::new(1);
    tree.insert(leaf(1)).unwrap();
    tree.insert(leaf(2)).unwrap();
    let before = tree;
    assert!(tree.is_full());
    assert_eq!(tree.insert(leaf(3)), Err(LedgerError::TreeFull));
    assert_eq!(tree, before);
}

#[test]
fn root_is_the_sha256_chain_over_the_leaves() {
    let mut tree = CommitmentTree::new(4);
    tree.insert(leaf(0xA1)).unwrap();
    assert_eq!(
        tree.root,
        [
            0x54, 0xcd, 0x99, 0xee, 0x21, 0x7a, 0x4e, 0x5c, 0x6e, 0xd9, 0xa1, 0xa3, 0x47, 0x49,
            0xb8, 0xb8, 0x4e, 0xf7, 0xce, 0x13, 0x8b, 0xf2, 0x12, 0xc9, 0xd2, 0x6c, 0xca, 0x58,
            0x0c, 0xfe, 0xe8, 0xd7
        ]
    );
    tree.insert(leaf(0xB2)).unwrap();
    assert_eq!(
        tree.root,
        [
            0xb8, 0x5a, 0x08, 0x8c, 0x6f, 0xea, 0x64, 0x00, 0x95, 0x3f, 0xab, 0xeb, 0xcb, 0x24,
            0x91, 0xe3, 0x2b, 0xe4, 0x52, 0x02, 0x2a, 0xdb, 0xb4, 0xe8, 0x65, 0xa6, 0x48, 0x39,
            0xf1, 0xf5, 0x2d, 0xe8
        ]
    );
    assert_eq!(tree.count, 2);
}

#[test]
fn next_root_hashes_root_then_leaf() {
    let root = ghost_privacy::tree::next_root(&[0u8; 32], &leaf(0xA1));
    let mut preimage = vec![0u8; 32];
    preimage.extend_from_slice(&leaf(0xA1));
    assert_eq!(root, solana_program::hash::hash(&preimage).to_bytes());
    assert_ne!(root, [0u8; 32]);
    assert_ne!(root, leaf(0xA1));
}

#[test]
fn capacity_is_two_to_the_depth_and_saturates() {
    assert_eq!(CommitmentTree::new(0).capacity(), 1);
    assert_eq!(CommitmentTree::new(1).capacity(), 2);
    assert_eq!(CommitmentTree::new(10).capacity(), 1024);
    assert_eq!(CommitmentTree::new(63).capacity(), 1u64 << 63);
    assert_eq!(CommitmentTree::new(64).capacity(), u64::MAX);
    assert_eq!(CommitmentTree::new(255).capacity(), u64::MAX);
}

#[test]
fn tree_of_depth_zero_holds_one_leaf() {
    let mut tree = CommitmentTree::new(0);
    assert!(!tree.is_full());
    assert_eq!(tree.insert(leaf(9)), Ok(()));
    assert!(tree.is_full());
    assert_eq!(tree.insert(leaf(9)), Err(LedgerError::TreeFull));
    assert_eq!(tree.count, 1);
}

#[test]
fn counter_at_its_limit_counts_as_full() {
    let mut tree = CommitmentTree { root: [3u8; 32], depth: 200, count: u64::MAX };
    assert_eq!(tree.insert(leaf(1)), Err(LedgerError::TreeFull));
    assert_eq!(tree.root, [3u8; 32]);
    assert_eq!(tree.count, u64::MAX);
}
