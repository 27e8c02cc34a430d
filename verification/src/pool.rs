//! The shielded pool of one denomination and its transitions.

use vstd::prelude::*;
use crate::error::{settles, LedgerError};
use crate::hash::Hash32;
use crate::registry::SpendRegistry;
use crate::tree::{extend_root, CommitmentTree};

verus! {

/// The state of a pool as a mathematical value.
pub struct PoolModel {
    pub authority: Hash32,
    pub tree: CommitmentTree,
    pub denomination: nat,
    pub total_value_locked: nat,
    pub used_nullifiers: Seq<Hash32>,
    pub used_key_images: Seq<Hash32>,
    pub vault: Hash32,
    pub initialized: bool,
}

impl PoolModel {
    /// The pool right after its creation.
    pub open spec fn created(
        authority: Hash32,
        vault: Hash32,
        tree_depth: u8,
        denomination: nat,
    ) -> PoolModel {
        PoolModel {
            authority,
            tree: CommitmentTree::empty(tree_depth),
            denomination,
            total_value_locked: 0,
            used_nullifiers: Seq::empty(),
            used_key_images: Seq::empty(),
            vault,
            initialized: true,
        }
    }

    /// A deposit of `amount` under `commitment`.
    pub open spec fn deposit(self, commitment: Hash32, amount: nat) -> Result<
        PoolModel,
        LedgerError,
    > {
        if !self.initialized {
            Err(LedgerError::NotInitialized)
        } else if amount != self.denomination {
            Err(LedgerError::InvalidAmount)
        } else if self.tree.full() {
            Err(LedgerError::TreeFull)
        } else if self.total_value_locked + amount > u64::MAX {
            Err(LedgerError::Overflow)
        } else {
            Ok(
                PoolModel {
                    tree: self.tree.with_leaf(commitment),
                    total_value_locked: self.total_value_locked + amount,
                    ..self
                },
            )
        }
    }

    /// A withdrawal of `amount` that spends `nullifier` and may leave a
    /// change commitment. `proof_ok` is the verifier's answer.
    pub open spec fn withdraw(
        self,
        nullifier: Hash32,
        new_commitment: Option<Hash32>,
        amount: nat,
        proof_ok: bool,
    ) -> Result<PoolModel, LedgerError> {
        if !self.initialized {
            Err(LedgerError::NotInitialized)
        } else if self.used_nullifiers.contains(nullifier) {
            Err(LedgerError::AlreadyUsed)
        } else if !proof_ok {
            Err(LedgerError::InvalidProof)
        } else if new_commitment is Some && self.tree.full() {
            Err(LedgerError::TreeFull)
        } else if amount > self.total_value_locked {
            Err(LedgerError::InsufficientCustodyBalance)
        } else {
            Ok(
                PoolModel {
                    tree: match new_commitment {
                        Some(c) => self.tree.with_leaf(c),
                        None => self.tree,
                    },
                    total_value_locked: (self.total_value_locked - amount) as nat,
                    used_nullifiers: self.used_nullifiers.push(nullifier),
                    ..self
                },
            )
        }
    }

    /// A transfer inside the pool, authorised by a ring signature over
    /// `ring_size` members. `signature_ok` is the verifier's answer.
    pub open spec fn private_transfer(
        self,
        key_image: Hash32,
        ring_size: nat,
        new_commitment: Hash32,
        signature_ok: bool,
    ) -> Result<PoolModel, LedgerError> {
        if !self.initialized {
            Err(LedgerError::NotInitialized)
        } else if self.used_key_images.contains(key_image) {
            Err(LedgerError::AlreadyUsed)
        } else if ring_size == 0 || !signature_ok {
            Err(LedgerError::InvalidSignature)
        } else if self.tree.full() {
            Err(LedgerError::TreeFull)
        } else {
            Ok(
                PoolModel {
                    tree: self.tree.with_leaf(new_commitment),
                    used_key_images: self.used_key_images.push(key_image),
                    ..self
                },
            )
        }
    }
}

/// One shielded pool: who administers it, its commitment tree, the value
/// it holds and what has been spent from it.
#[derive(Clone, Debug, PartialEq, Eq)]
pub struct PoolLedger {
    pub authority: Hash32,
    pub tree: CommitmentTree,
    pub denomination: u64,
    pub total_value_locked: u64,
    pub used_nullifiers: SpendRegistry,
    pub used_key_images: SpendRegistry,
    pub vault: Hash32,
    pub initialized: bool,
}

impl View for PoolLedger {
    type V = PoolModel;

    open spec fn view(&self) -> PoolModel {
        PoolModel {
            authority: self.authority,
            tree: self.tree,
            denomination: self.denomination as nat,
            total_value_locked: self.total_value_locked as nat,
            used_nullifiers: self.used_nullifiers@,
            used_key_images: self.used_key_images@,
            vault: self.vault,
            initialized: self.initialized,
        }
    }
}

impl PoolLedger {
    /// Creates the pool: empty tree, nothing locked, nothing spent.
    pub fn initialize(authority: Hash32, vault: Hash32, tree_depth: u8, denomination: u64) -> (pool:
        PoolLedger)
        ensures
            pool@ == PoolModel::created(authority, vault, tree_depth, denomination as nat),
    {
        PoolLedger {
            authority,
            tree: CommitmentTree::new(tree_depth),
            denomination,
            total_value_locked: 0,
            used_nullifiers: SpendRegistry::new(),
            used_key_images: SpendRegistry::new(),
            vault,
            initialized: true,
        }
    }

    /// The current root of the commitment tree.
    pub fn merkle_root(&self) -> (root: Hash32)
        ensures
            root == self@.tree.root,
    {
        self.tree.root
    }

    /// The number of commitments inserted so far.
    pub fn commitment_count(&self) -> (count: u64)
        ensures
            count == self@.tree.count,
    {
        self.tree.count
    }

    /// Accepts a deposit of exactly one denomination: the commitment joins
    /// the tree and the locked value grows by `amount`.
    pub fn deposit(&mut self, commitment: Hash32, amount: u64) -> (r: Result<(), LedgerError>)
        ensures
            settles(r, old(self)@, final(self)@, old(self)@.deposit(commitment, amount as nat)),
    {
        if !self.initialized {
            return Err(LedgerError::NotInitialized);
        }
        if amount != self.denomination {
            return Err(LedgerError::InvalidAmount);
        }
        if self.tree.is_full() {
            return Err(LedgerError::TreeFull);
        }
        let total = match self.total_value_locked.checked_add(amount) {
            Some(total) => total,
            None => {
                return Err(LedgerError::Overflow);
            },
        };
        match self.tree.insert(commitment) {
            Ok(()) => {},
            Err(e) => {
                return Err(e);
            },
        }
        self.total_value_locked = total;
        Ok(())
    }

    /// Pays `amount` out of the pool against an unspent nullifier and an
    /// accepted proof. Every check precedes the first change, so a refused
    /// withdrawal changes nothing.
    pub fn withdraw(
        &mut self,
        nullifier: Hash32,
        new_commitment: Option<Hash32>,
        amount: u64,
        proof_ok: bool,
    ) -> (r: Result<(), LedgerError>)
        ensures
            settles(
                r,
                old(self)@,
                final(self)@,
                old(self)@.withdraw(nullifier, new_commitment, amount as nat, proof_ok),
            ),
    {
        if !self.initialized {
            return Err(LedgerError::NotInitialized);
        }
        if self.used_nullifiers.is_used(&nullifier) {
            return Err(LedgerError::AlreadyUsed);
        }
        if !proof_ok {
            return Err(LedgerError::InvalidProof);
        }
        if new_commitment.is_some() && self.tree.is_full() {
            return Err(LedgerError::TreeFull);
        }
        if amount > self.total_value_locked {
            return Err(LedgerError::InsufficientCustodyBalance);
        }
        if let Some(commitment) = new_commitment {
            match self.tree.insert(commitment) {
                Ok(()) => {},
                Err(e) => {
                    return Err(e);
                },
            }
        }
        self.used_nullifiers.used.push(nullifier);
        self.total_value_locked = self.total_value_locked - amount;
        Ok(())
    }

    /// Moves a note inside the pool under a ring signature: the key image
    /// is spent and the recipient's commitment joins the tree. No value
    /// enters or leaves.
    pub fn private_transfer(
        &mut self,
        key_image: Hash32,
        ring_size: usize,
        new_commitment: Hash32,
        signature_ok: bool,
    ) -> (r: Result<(), LedgerError>)
        ensures
            settles(
                r,
                old(self)@,
                final(self)@,
                old(self)@.private_transfer(key_image, ring_size as nat, new_commitment, signature_ok),
            ),
    {
        if !self.initialized {
            return Err(LedgerError::NotInitialized);
        }
        if self.used_key_images.is_used(&key_image) {
            return Err(LedgerError::AlreadyUsed);
        }
        if ring_size == 0 || !signature_ok {
            return Err(LedgerError::InvalidSignature);
        }
        match self.tree.insert(new_commitment) {
            Ok(()) => {},
            Err(e) => {
                return Err(e);
            },
        }
        self.used_key_images.used.push(key_image);
        Ok(())
    }
}

/// One request to a pool, with the verifier's answer where one is asked.
#[allow(inconsistent_fields)]
pub enum PoolOp {
    Deposit { commitment: Hash32, amount: nat },
    Withdraw { nullifier: Hash32, new_commitment: Option<Hash32>, amount: nat, proof_ok: bool },
    PrivateTransfer {
        key_image: Hash32,
        ring_size: nat,
        new_commitment: Hash32,
        signature_ok: bool,
    },
}

impl PoolModel {
    /// The outcome of one request.
    pub open spec fn attempt(self, op: PoolOp) -> Result<PoolModel, LedgerError> {
        match op {
            PoolOp::Deposit { commitment, amount } => self.deposit(commitment, amount),
            PoolOp::Withdraw { nullifier, new_commitment, amount, proof_ok } => self.withdraw(
                nullifier,
                new_commitment,
                amount,
                proof_ok,
            ),
            PoolOp::PrivateTransfer {
                key_image,
                ring_size,
                new_commitment,
                signature_ok,
            } => self.private_transfer(key_image, ring_size, new_commitment, signature_ok),
        }
    }

    /// The pool after one request: changed if it was accepted, as before
    /// if it was refused.
    pub open spec fn after(self, op: PoolOp) -> PoolModel {
        match self.attempt(op) {
            Ok(next) => next,
            Err(_) => self,
        }
    }

    /// The pool after a series of requests, served in order.
    pub open spec fn after_all(self, ops: Seq<PoolOp>) -> PoolModel
        decreases ops.len(),
    {
        if ops.len() == 0 {
            self
        } else {
            self.after_all(ops.drop_last()).after(ops.last())
        }
    }
}

/// An accepted deposit is of exactly one denomination, raises the locked
/// value by its amount and the commitment count by one, and touches
/// nothing else. A deposit of any other amount into an initialized pool
/// is refused with `InvalidAmount`.
pub proof fn law_deposit_accounting(pool: PoolModel, commitment: Hash32, amount: nat)
    ensures
        pool.deposit(commitment, amount) matches Ok(next) ==> {
            &&& amount == pool.denomination
            &&& next.total_value_locked == pool.total_value_locked + amount
            &&& next.tree.count == pool.tree.count + 1
            &&& next.tree.root == extend_root(pool.tree.root, commitment)
            &&& next.used_nullifiers == pool.used_nullifiers
            &&& next.used_key_images == pool.used_key_images
        },
        pool.initialized && amount != pool.denomination ==> pool.deposit(commitment, amount) == Err::<
            PoolModel,
            _,
        >(LedgerError::InvalidAmount),
{
    if pool.tree.depth < 64 {
        vstd::bits::lemma_u64_pow2_no_overflow(pool.tree.depth as nat);
    }
}

/// A withdrawal never takes more than is locked: an accepted one lowers
/// the locked value by exactly its amount, and one that asks for more than
/// is locked is refused whatever else it presents.
pub proof fn law_withdraw_bounded(
    pool: PoolModel,
    nullifier: Hash32,
    new_commitment: Option<Hash32>,
    amount: nat,
    proof_ok: bool,
)
    ensures
        pool.withdraw(nullifier, new_commitment, amount, proof_ok) matches Ok(next) ==> amount
            <= pool.total_value_locked && next.total_value_locked + amount
            == pool.total_value_locked,
        amount > pool.total_value_locked ==> pool.withdraw(
            nullifier,
            new_commitment,
            amount,
            proof_ok,
        ) is Err,
{
}

/// No request removes a spent tag, closes the pool or breaks the tree's
/// bound on its leaf count.
pub proof fn law_requests_preserve(pool: PoolModel, ops: Seq<PoolOp>)
    ensures
        pool.initialized ==> pool.after_all(ops).initialized,
        pool.tree.wf() ==> pool.after_all(ops).tree.wf(),
        forall|tag: Hash32|
            pool.used_nullifiers.contains(tag) ==> #[trigger] pool.after_all(
                ops,
            ).used_nullifiers.contains(tag),
        forall|tag: Hash32|
            pool.used_key_images.contains(tag) ==> #[trigger] pool.after_all(
                ops,
            ).used_key_images.contains(tag),
    decreases ops.len(),
{
    if ops.len() > 0 {
        let before = pool.after_all(ops.drop_last());
        let after = before.after(ops.last());
        law_requests_preserve(pool, ops.drop_last());
        if before.tree.depth < 64 {
            vstd::bits::lemma_u64_pow2_no_overflow(before.tree.depth as nat);
        }
        assert forall|tag: Hash32| before.used_nullifiers.contains(tag) implies after.used_nullifiers.contains(tag) by {
            if after.used_nullifiers != before.used_nullifiers {
                let i = choose|i: int| 0 <= i < before.used_nullifiers.len() && before.used_nullifiers[i] == tag;
                assert(after.used_nullifiers[i] == tag);
            }
        }
        assert forall|tag: Hash32| before.used_key_images.contains(tag) implies after.used_key_images.contains(tag) by {
            if after.used_key_images != before.used_key_images {
                let i = choose|i: int| 0 <= i < before.used_key_images.len() && before.used_key_images[i] == tag;
                assert(after.used_key_images[i] == tag);
            }
        }
    }
}

/// A nullifier is spent once: after a withdrawal that presented it was
/// accepted, and whatever requests follow, every withdrawal that presents
/// it again is refused with `AlreadyUsed`.
pub proof fn law_nullifier_spent_once(
    pool: PoolModel,
    nullifier: Hash32,
    first: PoolOp,
    later: Seq<PoolOp>,
    new_commitment: Option<Hash32>,
    amount: nat,
    proof_ok: bool,
)
    requires
        first matches PoolOp::Withdraw { nullifier: n, .. } && n == nullifier,
        pool.attempt(first) is Ok,
    ensures
        pool.after(first).after_all(later).withdraw(nullifier, new_commitment, amount, proof_ok)
            == Err::<PoolModel, _>(LedgerError::AlreadyUsed),
{
    let spent = pool.after(first);
    assert(spent.used_nullifiers.last() == nullifier);
    assert(spent.used_nullifiers.contains(nullifier));
    law_requests_preserve(spent, later);
}

/// A key image is spent once: after a private transfer that presented it
/// was accepted, and whatever requests follow, every private transfer that
/// presents it again is refused with `AlreadyUsed`.
pub proof fn law_key_image_spent_once(
    pool: PoolModel,
    key_image: Hash32,
    first: PoolOp,
    later: Seq<PoolOp>,
    ring_size: nat,
    new_commitment: Hash32,
    signature_ok: bool,
)
    requires
        first matches PoolOp::PrivateTransfer { key_image: k, .. } && k == key_image,
        pool.attempt(first) is Ok,
    ensures
        pool.after(first).after_all(later).private_transfer(
            key_image,
            ring_size,
            new_commitment,
            signature_ok,
        ) == Err::<PoolModel, _>(LedgerError::AlreadyUsed),
{
    let spent = pool.after(first);
    assert(spent.used_key_images.last() == key_image);
    assert(spent.used_key_images.contains(key_image));
    law_requests_preserve(spent, later);
}

} // verus!
