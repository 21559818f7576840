//! An on-chain-style ledger library with machine-checked contracts.
//!
//! Two account-keyed registries are provided: a fungible balance ledger
//! ([`moo::Moo`]) with supply, balances and spending allowances, and an
//! indexed ownership registry ([`nfmoo::NFMoo`]) for unique items with
//! O(1) swap-remove enumeration. Both are guarded by an owner / minter /
//! pause access-control state. The execution host (caller identity,
//! durable storage, event delivery) is out of scope: every operation
//! takes the caller as an argument, and emitted events are appended to
//! an in-state log.

pub mod account;
pub mod alist;
pub mod moo;
pub mod nfmoo;
