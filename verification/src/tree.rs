//! The append-only commitment tree: a running root and a leaf count.

use vstd::prelude::*;
use vstd::arithmetic::power2::pow2;
use crate::error::LedgerError;
use crate::hash::{is_collision, sha256, sha256_digest, zero_hash, Hash32};

verus! {

/// How many leaves a tree of the given depth holds: `2^depth`, and never
/// more than the 64-bit leaf counter can count.
pub open spec fn leaf_capacity(depth: u8) -> nat {
    if depth < 64 {
        pow2(depth as nat)
    } else {
        u64::MAX as nat
    }
}

/// The bytes hashed when `leaf` is appended under `root`.
pub open spec fn root_preimage(root: Hash32, leaf: Hash32) -> Seq<u8> {
    root@ + leaf@
}

/// The root after appending `leaf` to a tree whose root was `root`.
pub open spec fn extend_root(root: Hash32, leaf: Hash32) -> Hash32 {
    sha256_digest(root_preimage(root, leaf))
}

/// The root that summarises `leaves`, read in insertion order. The empty
/// tree has the all-zero root.
pub open spec fn root_of(leaves: Seq<Hash32>) -> Hash32
    decreases leaves.len(),
{
    if leaves.len() == 0 {
        zero_hash()
    } else {
        extend_root(root_of(leaves.drop_last()), leaves.last())
    }
}

/// Root, fixed depth and number of leaves of one tree. Leaves are appended
/// at the next free position and never changed or removed.
#[derive(Clone, Copy, Debug, PartialEq, Eq)]
pub struct CommitmentTree {
    pub root: Hash32,
    pub depth: u8,
    pub count: u64,
}

impl CommitmentTree {
    /// The tree never holds more leaves than its depth allows.
    pub open spec fn wf(self) -> bool {
        self.count <= leaf_capacity(self.depth)
    }

    /// No position is free.
    pub open spec fn full(self) -> bool {
        self.count >= leaf_capacity(self.depth)
    }

    /// The tree of the given depth without leaves.
    pub open spec fn empty(depth: u8) -> CommitmentTree {
        CommitmentTree { root: zero_hash(), depth, count: 0 }
    }

    /// This tree with `leaf` appended.
    pub open spec fn with_leaf(self, leaf: Hash32) -> CommitmentTree {
        CommitmentTree {
            root: extend_root(self.root, leaf),
            depth: self.depth,
            count: (self.count + 1) as u64,
        }
    }

    /// This tree with `leaves` appended one after the other.
    pub open spec fn with_leaves(self, leaves: Seq<Hash32>) -> CommitmentTree
        decreases leaves.len(),
    {
        if leaves.len() == 0 {
            self
        } else {
            self.with_leaves(leaves.drop_last()).with_leaf(leaves.last())
        }
    }

    /// Creates the empty tree of the given depth.
    pub fn new(depth: u8) -> (tree: CommitmentTree)
        ensures
            tree == CommitmentTree::empty(depth),
            tree.wf(),
    {
        CommitmentTree { root: [0u8; 32], depth, count: 0 }
    }

    /// The number of leaves the tree can hold.
    pub fn capacity(&self) -> (cap: u64)
        ensures
            cap == leaf_capacity(self.depth),
    {
        if self.depth >= 64 {
            u64::MAX
        } else {
            let shift: u64 = self.depth as u64;
            proof {
                vstd::bits::lemma_u64_pow2_no_overflow(shift as nat);
                vstd::bits::lemma_u64_shl_is_mul(1u64, shift);
            }
            1u64 << shift
        }
    }

    /// Whether every position is taken.
    pub fn is_full(&self) -> (full: bool)
        ensures
            full == self.full(),
    {
        self.count >= self.capacity()
    }

    /// Appends `leaf` at the next free position and recomputes the root.
    /// A full tree is left as it was and `TreeFull` is returned.
    pub fn insert(&mut self, leaf: Hash32) -> (r: Result<(), LedgerError>)
        ensures
            old(self).full() ==> r == Err::<(), _>(LedgerError::TreeFull) && *final(self) == *old(
                self,
            ),
            !old(self).full() ==> r is Ok && *final(self) == old(self).with_leaf(leaf),
            old(self).wf() ==> final(self).wf(),
    {
        if self.is_full() {
            return Err(LedgerError::TreeFull);
        }
        proof {
            if self.depth < 64 {
                vstd::bits::lemma_u64_pow2_no_overflow(self.depth as nat);
            }
        }
        self.root = next_root(&self.root, &leaf);
        self.count = self.count + 1;
        Ok(())
    }
}

/// Computes the root that follows `root` when `leaf` is appended.
pub fn next_root(root: &Hash32, leaf: &Hash32) -> (out: Hash32)
    ensures
        out == extend_root(*root, *leaf),
{
    let mut buf: Vec<u8> = Vec::with_capacity(64);
    let mut i: usize = 0;
    while i < 32
        invariant
            i <= 32,
            buf@ == root@.subrange(0, i as int),
        decreases 32 - i,
    {
        buf.push(root[i]);
        i += 1;
    }
    let mut j: usize = 0;
    while j < 32
        invariant
            j <= 32,
            buf@ == root@ + leaf@.subrange(0, j as int),
        decreases 32 - j,
    {
        buf.push(leaf[j]);
        j += 1;
    }
    assert(buf@ == root_preimage(*root, *leaf));
    sha256(buf.as_slice())
}

/// The root of a tree depends on nothing but the leaves it was given and
/// their order: whatever their depths, two trees that start empty and
/// receive the same leaves in the same order have the same root and count.
pub proof fn law_same_leaves_same_root(depth_a: u8, depth_b: u8, leaves: Seq<Hash32>)
    requires
        leaves.len() <= u64::MAX,
    ensures
        CommitmentTree::empty(depth_a).with_leaves(leaves).root == root_of(leaves),
        CommitmentTree::empty(depth_b).with_leaves(leaves).root == root_of(leaves),
        CommitmentTree::empty(depth_a).with_leaves(leaves).count == leaves.len(),
        CommitmentTree::empty(depth_a).with_leaves(leaves).depth == depth_a,
    decreases leaves.len(),
{
    if leaves.len() > 0 {
        law_same_leaves_same_root(depth_a, depth_b, leaves.drop_last());
    }
}

/// The root is sensitive to the leaves and to their order: two different
/// leaf sequences of one length can only share a root if SHA-256 maps two
/// different inputs to one digest.
pub proof fn law_root_binds_leaves(a: Seq<Hash32>, b: Seq<Hash32>)
    requires
        a.len() == b.len(),
        a != b,
        root_of(a) == root_of(b),
    ensures
        exists|x: Seq<u8>, y: Seq<u8>| is_collision(x, y),
    decreases a.len(),
{
    if a.len() == 0 {
        assert(a =~= b);
    } else {
        let ra = root_of(a.drop_last());
        let rb = root_of(b.drop_last());
        let x = root_preimage(ra, a.last());
        let y = root_preimage(rb, b.last());
        if x == y {
            assert(ra@ =~= x.subrange(0, 32));
            assert(rb@ =~= y.subrange(0, 32));
            assert(a.last()@ =~= x.subrange(32, 64));
            assert(b.last()@ =~= y.subrange(32, 64));
            assert(ra =~= rb);
            assert(a.last() =~= b.last());
            if a.drop_last() == b.drop_last() {
                assert(a =~= a.drop_last().push(a.last()));
                assert(b =~= b.drop_last().push(b.last()));
            } else {
                law_root_binds_leaves(a.drop_last(), b.drop_last());
            }
        } else {
            assert(is_collision(x, y));
        }
    }
}

/// Swapping two different leaves changes the root, short of a SHA-256
/// collision.
pub proof fn law_root_order_sensitive(a: Hash32, b: Hash32)
    requires
        a != b,
    ensures
        root_of(seq![a, b]) != root_of(seq![b, a]) || exists|x: Seq<u8>, y: Seq<u8>|
            is_collision(x, y),
{
    let ab = seq![a, b];
    let ba = seq![b, a];
    assert(ab[0] != ba[0]);
    if root_of(ab) == root_of(ba) {
        law_root_binds_leaves(ab, ba);
    }
}

/// Inserting appends: a tree whose root summarises `leaves` has, with
/// `leaf` inserted, the root that summarises `leaves` followed by `leaf`.
/// The leaves before it are the leaves that were there.
pub proof fn law_insert_appends(tree: CommitmentTree, leaves: Seq<Hash32>, leaf: Hash32)
    requires
        tree.root == root_of(leaves),
    ensures
        tree.with_leaf(leaf).root == root_of(leaves.push(leaf)),
        leaves.push(leaf).last() == leaf,
        leaves.push(leaf).drop_last() == leaves,
{
    assert(leaves.push(leaf).drop_last() =~= leaves);
}

} // verus!
