//! Shielded value ledger: commitment trees, spend registries and the
//! proof-gated transitions of pools and assets.
//!
//! The ledgers ([`pool`], [`asset`]) are plain values with exact
//! transitions; [`processor`] runs them over the accounts of a request,
//! [`codec`] and [`instruction`] fix how ledgers and requests are laid out
//! in bytes, and [`hash`] and [`host`] hold what the host chain computes.

pub mod account;
pub mod asset;
pub mod codec;
pub mod error;
pub mod hash;
pub mod host;
pub mod instruction;
pub mod pool;
pub mod processor;
pub mod registry;
pub mod tree;
pub mod wire;
