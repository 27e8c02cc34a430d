//! The accounts an operation works on: an identity, a balance and a data
//! area, as plain values.

use vstd::prelude::*;
use crate::codec::overwrite_front;
use crate::error::{settles, LedgerError};
use crate::hash::{hash_eq, Hash32};

verus! {

/// One account as handed to an operation.
#[derive(Clone, Debug, PartialEq, Eq)]
pub struct Account {
    /// The account's identity.
    pub key: Hash32,
    /// Whether the account's owner signed the request.
    pub is_signer: bool,
    /// The value the account holds.
    pub lamports: u64,
    /// The account's data area. Its length is fixed.
    pub data: Vec<u8>,
}

/// An account as a mathematical value.
pub struct AccountModel {
    pub key: Hash32,
    pub is_signer: bool,
    pub lamports: nat,
    pub data: Seq<u8>,
}

impl View for Account {
    type V = AccountModel;

    open spec fn view(&self) -> AccountModel {
        AccountModel {
            key: self.key,
            is_signer: self.is_signer,
            lamports: self.lamports as nat,
            data: self.data@,
        }
    }
}

/// The accounts of a request as mathematical values.
pub open spec fn models(accounts: Seq<Account>) -> Seq<AccountModel> {
    accounts.map_values(|account: Account| account@)
}

/// A data area after `encoding` was written over its front.
pub open spec fn stored(data: Seq<u8>, encoding: Seq<u8>) -> Seq<u8> {
    encoding + data.subrange(encoding.len() as int, data.len() as int)
}

/// The accounts after `encoding` was written over the front of the data of
/// the account at `index`; `AccountTooSmall` where it does not fit.
pub open spec fn store_at(accounts: Seq<AccountModel>, index: int, encoding: Seq<u8>) -> Result<
    Seq<AccountModel>,
    LedgerError,
> {
    if encoding.len() > accounts[index].data.len() {
        Err(LedgerError::AccountTooSmall)
    } else {
        Ok(
            accounts.update(
                index,
                AccountModel { data: stored(accounts[index].data, encoding), ..accounts[index] },
            ),
        )
    }
}

/// The accounts after `amount` moved from the account at `from` to the
/// account at `to`. The move is refused where the two are one account,
/// where the payer holds less than `amount`, and where the payee's balance
/// would leave the 64-bit range.
pub open spec fn moved(accounts: Seq<AccountModel>, from: int, to: int, amount: nat) -> Result<
    Seq<AccountModel>,
    LedgerError,
> {
    if accounts[from].key == accounts[to].key {
        Err(LedgerError::AccountMismatch)
    } else if accounts[from].lamports < amount {
        Err(LedgerError::InsufficientCustodyBalance)
    } else if accounts[to].lamports + amount > u64::MAX {
        Err(LedgerError::Overflow)
    } else {
        Ok(
            accounts.update(
                from,
                AccountModel {
                    lamports: (accounts[from].lamports - amount) as nat,
                    ..accounts[from]
                },
            ).update(
                to,
                AccountModel { lamports: accounts[to].lamports + amount, ..accounts[to] },
            ),
        )
    }
}

/// Works out the balances that a move of `amount` leaves on the paying and
/// on the receiving account, without changing either.
pub fn plan_move(accounts: &Vec<Account>, from: usize, to: usize, amount: u64) -> (r: Result<
    (u64, u64),
    LedgerError,
>)
    requires
        from < accounts@.len(),
        to < accounts@.len(),
    ensures
        match moved(models(accounts@), from as int, to as int, amount as nat) {
            Ok(after) => r matches Ok((paid, received)) && after[from as int].lamports == paid
                && after[to as int].lamports == received && from != to,
            Err(e) => r == Err::<(u64, u64), _>(e),
        },
{
    if hash_eq(&accounts[from].key, &accounts[to].key) {
        return Err(LedgerError::AccountMismatch);
    }
    if accounts[from].lamports < amount {
        return Err(LedgerError::InsufficientCustodyBalance);
    }
    match accounts[to].lamports.checked_add(amount) {
        Some(received) => Ok((accounts[from].lamports - amount, received)),
        None => Err(LedgerError::Overflow),
    }
}

/// Moves `amount` from the account at `from` to the account at `to`. A
/// refused move changes nothing.
pub fn move_value(accounts: &mut Vec<Account>, from: usize, to: usize, amount: u64) -> (r: Result<
    (),
    LedgerError,
>)
    requires
        from < old(accounts)@.len(),
        to < old(accounts)@.len(),
    ensures
        settles(
            r,
            models(old(accounts)@),
            models(final(accounts)@),
            moved(models(old(accounts)@), from as int, to as int, amount as nat),
        ),
{
    let (paid, received) = match plan_move(accounts, from, to, amount) {
        Ok(pair) => pair,
        Err(e) => {
            return Err(e);
        },
    };
    accounts[from].lamports = paid;
    accounts[to].lamports = received;
    assert(models(accounts@) =~= moved(
        models(old(accounts)@),
        from as int,
        to as int,
        amount as nat,
    ).unwrap());
    Ok(())
}

/// Writes `encoding` over the front of the data of the account at `index`.
/// Where it does not fit, nothing is written.
pub fn store(accounts: &mut Vec<Account>, index: usize, encoding: &Vec<u8>) -> (r: Result<
    (),
    LedgerError,
>)
    requires
        index < old(accounts)@.len(),
    ensures
        settles(
            r,
            models(old(accounts)@),
            models(final(accounts)@),
            store_at(models(old(accounts)@), index as int, encoding@),
        ),
{
    match overwrite_front(&mut accounts[index].data, encoding) {
        Ok(()) => {
            assert(models(accounts@) =~= store_at(
                models(old(accounts)@),
                index as int,
                encoding@,
            ).unwrap());
            Ok(())
        },
        Err(e) => {
            assert(models(accounts@) =~= models(old(accounts)@));
            Err(e)
        },
    }
}

} // verus!
