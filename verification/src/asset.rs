//! The shielded note pool of one issued asset and its transitions.

use vstd::prelude::*;
use crate::error::{settles, LedgerError};
use crate::hash::{zero_hash, Hash32};
use crate::registry::SpendRegistry;
use crate::tree::{extend_root, next_root};

verus! {

/// The state of an asset as a mathematical value.
pub struct AssetModel {
    pub asset_id: Hash32,
    pub issuer: Hash32,
    pub name: Seq<char>,
    pub symbol: Seq<char>,
    pub decimals: u8,
    pub total_supply: nat,
    pub circulating_supply: nat,
    pub note_tree_root: Hash32,
    pub note_count: nat,
    pub used_nullifiers: Seq<Hash32>,
    pub initialized: bool,
}

impl AssetModel {
    /// The asset right after it was issued: nothing circulates, no note
    /// exists, nothing is spent.
    pub open spec fn issued(
        asset_id: Hash32,
        issuer: Hash32,
        name: Seq<char>,
        symbol: Seq<char>,
        decimals: u8,
        total_supply: nat,
    ) -> AssetModel {
        AssetModel {
            asset_id,
            issuer,
            name,
            symbol,
            decimals,
            total_supply,
            circulating_supply: 0,
            note_tree_root: zero_hash(),
            note_count: 0,
            used_nullifiers: Seq::empty(),
            initialized: true,
        }
    }

    /// A transfer of a note of the asset `asset_id`: the sender's note is
    /// spent through `nullifier`, the recipient's note joins the note tree.
    /// `proof_ok` is the verifier's answer.
    pub open spec fn transfer(
        self,
        asset_id: Hash32,
        nullifier: Hash32,
        new_commitment: Hash32,
        proof_ok: bool,
    ) -> Result<AssetModel, LedgerError> {
        if !self.initialized {
            Err(LedgerError::NotInitialized)
        } else if asset_id != self.asset_id {
            Err(LedgerError::AccountMismatch)
        } else if self.used_nullifiers.contains(nullifier) {
            Err(LedgerError::AlreadyUsed)
        } else if !proof_ok {
            Err(LedgerError::InvalidProof)
        } else if self.note_count >= u64::MAX {
            Err(LedgerError::TreeFull)
        } else {
            Ok(
                AssetModel {
                    note_tree_root: extend_root(self.note_tree_root, new_commitment),
                    note_count: self.note_count + 1,
                    used_nullifiers: self.used_nullifiers.push(nullifier),
                    ..self
                },
            )
        }
    }
}

/// One issued asset: its fixed description, its supply and its notes.
#[derive(Clone, Debug, PartialEq, Eq)]
pub struct AssetLedger {
    pub asset_id: Hash32,
    pub issuer: Hash32,
    pub name: String,
    pub symbol: String,
    pub decimals: u8,
    pub total_supply: u64,
    pub circulating_supply: u64,
    pub note_tree_root: Hash32,
    pub note_count: u64,
    pub used_nullifiers: SpendRegistry,
    pub initialized: bool,
}

impl View for AssetLedger {
    type V = AssetModel;

    open spec fn view(&self) -> AssetModel {
        AssetModel {
            asset_id: self.asset_id,
            issuer: self.issuer,
            name: self.name@,
            symbol: self.symbol@,
            decimals: self.decimals,
            total_supply: self.total_supply as nat,
            circulating_supply: self.circulating_supply as nat,
            note_tree_root: self.note_tree_root,
            note_count: self.note_count as nat,
            used_nullifiers: self.used_nullifiers@,
            initialized: self.initialized,
        }
    }
}

impl AssetLedger {
    /// Issues the asset. The declared supply is recorded; no note is
    /// created and nothing circulates yet.
    pub fn issue(
        asset_id: Hash32,
        issuer: Hash32,
        name: String,
        symbol: String,
        decimals: u8,
        total_supply: u64,
    ) -> (asset: AssetLedger)
        ensures
            asset@ == AssetModel::issued(
                asset_id,
                issuer,
                name@,
                symbol@,
                decimals,
                total_supply as nat,
            ),
    {
        AssetLedger {
            asset_id,
            issuer,
            name,
            symbol,
            decimals,
            total_supply,
            circulating_supply: 0,
            note_tree_root: [0u8; 32],
            note_count: 0,
            used_nullifiers: SpendRegistry::new(),
            initialized: true,
        }
    }

    /// Transfers a note: spends the nullifier and appends the recipient's
    /// commitment to the note tree, so that the note count always counts
    /// leaves that the root commits to.
    pub fn transfer(
        &mut self,
        asset_id: Hash32,
        nullifier: Hash32,
        new_commitment: Hash32,
        proof_ok: bool,
    ) -> (r: Result<(), LedgerError>)
        ensures
            settles(
                r,
                old(self)@,
                final(self)@,
                old(self)@.transfer(asset_id, nullifier, new_commitment, proof_ok),
            ),
    {
        if !self.initialized {
            return Err(LedgerError::NotInitialized);
        }
        if !crate::hash::hash_eq(&asset_id, &self.asset_id) {
            return Err(LedgerError::AccountMismatch);
        }
        if self.used_nullifiers.is_used(&nullifier) {
            return Err(LedgerError::AlreadyUsed);
        }
        if !proof_ok {
            return Err(LedgerError::InvalidProof);
        }
        if self.note_count == u64::MAX {
            return Err(LedgerError::TreeFull);
        }
        self.note_tree_root = next_root(&self.note_tree_root, &new_commitment);
        self.note_count = self.note_count + 1;
        self.used_nullifiers.used.push(nullifier);
        Ok(())
    }
}

/// A transfer moves notes, not supply: the declared and the circulating
/// supply of an asset are what they were at issue, which is zero for the
/// circulating supply, after any number of transfers.
pub proof fn law_transfer_keeps_supply(
    asset: AssetModel,
    asset_id: Hash32,
    nullifier: Hash32,
    new_commitment: Hash32,
    proof_ok: bool,
)
    ensures
        asset.transfer(asset_id, nullifier, new_commitment, proof_ok) matches Ok(next) ==> {
            &&& next.total_supply == asset.total_supply
            &&& next.circulating_supply == asset.circulating_supply
            &&& next.note_count == asset.note_count + 1
            &&& next.used_nullifiers.contains(nullifier)
        },
{
    if asset.transfer(asset_id, nullifier, new_commitment, proof_ok) is Ok {
        assert(asset.used_nullifiers.push(nullifier).last() == nullifier);
    }
}

/// One transfer request, with the verifier's answer.
pub struct AssetTransfer {
    pub asset_id: Hash32,
    pub nullifier: Hash32,
    pub new_commitment: Hash32,
    pub proof_ok: bool,
}

impl AssetModel {
    /// The asset after one transfer request: changed if it was accepted,
    /// as before if it was refused.
    pub open spec fn after(self, request: AssetTransfer) -> AssetModel {
        match self.transfer(
            request.asset_id,
            request.nullifier,
            request.new_commitment,
            request.proof_ok,
        ) {
            Ok(next) => next,
            Err(_) => self,
        }
    }

    /// The asset after a series of transfer requests, served in order.
    pub open spec fn after_all(self, requests: Seq<AssetTransfer>) -> AssetModel
        decreases requests.len(),
    {
        if requests.len() == 0 {
            self
        } else {
            self.after_all(requests.drop_last()).after(requests.last())
        }
    }
}

/// No transfer removes a spent nullifier, closes the asset or changes its
/// identity or its supply.
pub proof fn law_transfers_preserve(asset: AssetModel, requests: Seq<AssetTransfer>)
    ensures
        asset.after_all(requests).initialized == asset.initialized,
        asset.after_all(requests).asset_id == asset.asset_id,
        asset.after_all(requests).total_supply == asset.total_supply,
        asset.after_all(requests).circulating_supply == asset.circulating_supply,
        forall|tag: Hash32|
            asset.used_nullifiers.contains(tag) ==> #[trigger] asset.after_all(
                requests,
            ).used_nullifiers.contains(tag),
    decreases requests.len(),
{
    if requests.len() > 0 {
        let before = asset.after_all(requests.drop_last());
        let after = before.after(requests.last());
        law_transfers_preserve(asset, requests.drop_last());
        assert forall|tag: Hash32| before.used_nullifiers.contains(tag) implies after.used_nullifiers.contains(tag) by {
            if after.used_nullifiers != before.used_nullifiers {
                let i = choose|i: int| 0 <= i < before.used_nullifiers.len() && before.used_nullifiers[i] == tag;
                assert(after.used_nullifiers[i] == tag);
            }
        }
    }
}

/// A note is spent once: after a transfer that presented a nullifier was
/// accepted, and whatever transfers follow, every transfer of the asset
/// that presents the nullifier again is refused with `AlreadyUsed`.
pub proof fn law_note_spent_once(
    asset: AssetModel,
    first: AssetTransfer,
    later: Seq<AssetTransfer>,
    new_commitment: Hash32,
    proof_ok: bool,
)
    requires
        asset.transfer(first.asset_id, first.nullifier, first.new_commitment, first.proof_ok) is Ok,
    ensures
        asset.after(first).after_all(later).transfer(
            asset.asset_id,
            first.nullifier,
            new_commitment,
            proof_ok,
        ) == Err::<AssetModel, _>(LedgerError::AlreadyUsed),
{
    let spent = asset.after(first);
    assert(spent.used_nullifiers.last() == first.nullifier);
    assert(spent.used_nullifiers.contains(first.nullifier));
    law_transfers_preserve(spent, later);
}

} // verus!
