//! Exactly-once spending: the set of nullifiers or key images seen so far.

use vstd::prelude::*;
use crate::error::LedgerError;
use crate::hash::{hash_eq, Hash32};

verus! {

/// The tags spent so far, in the order in which they were spent. Tags are
/// only ever added.
#[derive(Clone, Debug, PartialEq, Eq)]
pub struct SpendRegistry {
    pub used: Vec<Hash32>,
}

/// The registry of the nullifiers spent from a pool or an asset.
pub type NullifierRegistry = SpendRegistry;

/// The registry of the key images spent in a pool.
pub type KeyImageRegistry = SpendRegistry;

impl View for SpendRegistry {
    type V = Seq<Hash32>;

    open spec fn view(&self) -> Seq<Hash32> {
        self.used@
    }
}

impl SpendRegistry {
    /// A registry in which nothing is spent.
    pub fn new() -> (r: SpendRegistry)
        ensures
            r@ == Seq::<Hash32>::empty(),
    {
        SpendRegistry { used: Vec::new() }
    }

    /// How many tags are recorded.
    pub fn len(&self) -> (n: usize)
        ensures
            n == self@.len(),
    {
        self.used.len()
    }

    /// Whether `tag` was spent before.
    pub fn is_used(&self, tag: &Hash32) -> (found: bool)
        ensures
            found == self@.contains(*tag),
    {
        let mut i: usize = 0;
        while i < self.used.len()
            invariant
                i <= self.used.len(),
                forall|k: int| 0 <= k < i ==> self.used@[k] != *tag,
            decreases self.used.len() - i,
        {
            if hash_eq(&self.used[i], tag) {
                return true;
            }
            i += 1;
        }
        false
    }

    /// Records `tag` as spent, unless it already is: then the registry is
    /// left as it was and `AlreadyUsed` is returned.
    pub fn mark_used(&mut self, tag: Hash32) -> (r: Result<(), LedgerError>)
        ensures
            old(self)@.contains(tag) ==> r == Err::<(), _>(LedgerError::AlreadyUsed) && final(self)@
                == old(self)@,
            !old(self)@.contains(tag) ==> r is Ok && final(self)@ == old(self)@.push(tag),
    {
        if self.is_used(&tag) {
            return Err(LedgerError::AlreadyUsed);
        }
        self.used.push(tag);
        Ok(())
    }
}

/// Once a tag is spent it stays spent, whatever is spent after it.
pub proof fn law_spent_stays_spent(before: Seq<Hash32>, tag: Hash32, later: Seq<Hash32>)
    requires
        before.contains(tag),
    ensures
        (before + later).contains(tag),
{
    let i = choose|i: int| 0 <= i < before.len() && before[i] == tag;
    assert((before + later)[i] == tag);
}

} // verus!
