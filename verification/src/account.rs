use vstd::prelude::*;

use crate::alist::EqKey;

verus! {

/// Identity of an account, supplied by the execution host with every call.
///
/// The ledger never fabricates identities; it only stores them and
/// compares them for equality.
#[derive(Clone, Copy, Debug, Hash, PartialEq, Eq, Structural)]
pub struct AccountId {
    pub id: u64,
}

impl EqKey for AccountId {
    fn key_eq(&self, other: &Self) -> (r: bool) {
        *self == *other
    }
}

} // verus!
