//! The fungible balance ledger: total supply, per-account balances and
//! per-(owner, spender) spending allowances, guarded by an owner /
//! minter / pause access-control state.
//!
//! Every mutating operation validates first and writes second, so a
//! failed call leaves the ledger untouched. Each operation's behaviour
//! is captured by a relational spec function (`..._rel`) over the pre-
//! and post-state, and well-formedness ([`Moo::wf`]) — in particular
//! that the total supply always equals the sum of all balances — is
//! preserved by every call.

use vstd::prelude::*;

use crate::account::AccountId;
use crate::alist::{
    AList, EqKey, lemma_sfind_sset, lemma_sfind_le_sum, lemma_sum_sset, lemma_two_le_sum, sget_or,
    sset, sum_vals, unique_keys,
};

verus! {

/// Amounts of the fungible ledger: unsigned, wide enough that realistic
/// balances never wrap; all arithmetic on them is checked or proven.
pub type Balance = u128;

/// Failures of the fungible ledger. Every operation returns either
/// success or exactly one of these, decided before any state is written.
#[derive(Clone, Copy, Debug, PartialEq, Eq, Structural)]
pub enum Error {
    AmountZero,
    InsufficientBalance,
    InsufficientAllowance,
    Overflow,
    SameAccount,
    Unauthorized,
    Paused,
    NotOwner,
    AllowanceRace,
}

/// A balance moved between two accounts.
#[derive(Clone, Copy, Debug, PartialEq, Eq, Structural)]
pub struct Transferred {
    pub from_acc: AccountId,
    pub to_acc: AccountId,
    pub amount_val: Balance,
}

/// New supply created for an account.
#[derive(Clone, Copy, Debug, PartialEq, Eq, Structural)]
pub struct Minted {
    pub to_acc: AccountId,
    pub amount_val: Balance,
}

/// Supply destroyed from an account's balance.
#[derive(Clone, Copy, Debug, PartialEq, Eq, Structural)]
pub struct Burned {
    pub from_acc: AccountId,
    pub amount_val: Balance,
}

/// A spending allowance set to a new value.
#[derive(Clone, Copy, Debug, PartialEq, Eq, Structural)]
pub struct Approved {
    pub owner_acc: AccountId,
    pub spender_acc: AccountId,
    pub amount_val: Balance,
}

/// The pause switch flipped by the owner.
#[derive(Clone, Copy, Debug, PartialEq, Eq, Structural)]
pub struct PausedSet {
    pub paused_flag: bool,
}

/// An account granted or stripped of the minter role.
#[derive(Clone, Copy, Debug, PartialEq, Eq, Structural)]
pub struct MinterSet {
    pub minter_acc: AccountId,
    pub enabled_flag: bool,
}

/// A domain event of the fungible ledger, appended to the event log in
/// call order for the host to deliver.
#[derive(Clone, Copy, Debug, PartialEq, Eq, Structural)]
pub enum Event {
    Transferred(Transferred),
    Minted(Minted),
    Burned(Burned),
    Approved(Approved),
    PausedSet(PausedSet),
    MinterSet(MinterSet),
}

/// Key of the allowance table: who granted the credit, and to whom.
#[derive(Clone, Copy, Debug, PartialEq, Eq, Structural)]
pub struct AllowanceKey {
    pub owner_acc: AccountId,
    pub spender_acc: AccountId,
}

impl EqKey for AllowanceKey {
    fn key_eq(&self, other: &Self) -> (r: bool) {
        self.owner_acc == other.owner_acc && self.spender_acc == other.spender_acc
    }
}

/// The key under which `owner_acc`'s grant to `spender_acc` is stored.
pub open spec fn allowance_key(owner_acc: AccountId, spender_acc: AccountId) -> AllowanceKey {
    AllowanceKey { owner_acc, spender_acc }
}

/// The fungible balance ledger.
pub struct Moo {
    pub owner_acc: AccountId,
    pub paused_flag: bool,
    pub is_minter: AList<AccountId, bool>,
    pub total_supply: Balance,
    pub balances: AList<AccountId, Balance>,
    pub allowances: AList<AllowanceKey, Balance>,
    pub storage_ver_u32: u32,
    pub event_log: Vec<Event>,
}

/// The governance state (owner, pause switch, minter set) and the
/// storage version are the same in both states.
pub open spec fn admin_unchanged(pre: Moo, post: Moo) -> bool {
    &&& post.owner_acc == pre.owner_acc
    &&& post.paused_flag == pre.paused_flag
    &&& post.is_minter@ == pre.is_minter@
    &&& post.storage_ver_u32 == pre.storage_ver_u32
}

/// Supply, balances and allowances are the same in both states.
pub open spec fn funds_unchanged(pre: Moo, post: Moo) -> bool {
    &&& post.total_supply == pre.total_supply
    &&& post.balances@ == pre.balances@
    &&& post.allowances@ == pre.allowances@
}

/// The balance table after moving `amount_val` from one account to a
/// different one.
pub open spec fn balances_moved(
    pre: Moo,
    from_acc: AccountId,
    to_acc: AccountId,
    amount_val: Balance,
) -> Seq<(AccountId, Balance)> {
    sset(
        sset(pre.balances@, from_acc, (pre.spec_balance(from_acc) - amount_val) as u128),
        to_acc,
        (pre.spec_balance(to_acc) + amount_val) as u128,
    )
}

/// Behaviour of [`Moo::set_pause`].
pub open spec fn set_pause_rel(
    pre: Moo,
    caller_acc: AccountId,
    paused_flag: bool,
    post: Moo,
    r: Result<(), Error>,
) -> bool {
    if caller_acc != pre.owner_acc {
        r == Err::<(), Error>(Error::NotOwner) && post == pre
    } else {
        &&& r == Ok::<(), Error>(())
        &&& post.owner_acc == pre.owner_acc
        &&& post.paused_flag == paused_flag
        &&& post.is_minter@ == pre.is_minter@
        &&& post.storage_ver_u32 == pre.storage_ver_u32
        &&& funds_unchanged(pre, post)
        &&& post.event_log@ == pre.event_log@.push(Event::PausedSet(PausedSet { paused_flag }))
    }
}

/// Behaviour of [`Moo::set_minter`].
pub open spec fn set_minter_rel(
    pre: Moo,
    caller_acc: AccountId,
    minter_acc: AccountId,
    enabled_flag: bool,
    post: Moo,
    r: Result<(), Error>,
) -> bool {
    if caller_acc != pre.owner_acc {
        r == Err::<(), Error>(Error::NotOwner) && post == pre
    } else {
        &&& r == Ok::<(), Error>(())
        &&& post.owner_acc == pre.owner_acc
        &&& post.paused_flag == pre.paused_flag
        &&& post.is_minter@ == sset(pre.is_minter@, minter_acc, enabled_flag)
        &&& post.storage_ver_u32 == pre.storage_ver_u32
        &&& funds_unchanged(pre, post)
        &&& post.event_log@ == pre.event_log@.push(
            Event::MinterSet(MinterSet { minter_acc, enabled_flag }),
        )
    }
}

/// Behaviour of [`Moo::mint`].
pub open spec fn mint_rel(
    pre: Moo,
    caller_acc: AccountId,
    amount_val: Balance,
    post: Moo,
    r: Result<(), Error>,
) -> bool {
    if pre.paused_flag {
        r == Err::<(), Error>(Error::Paused) && post == pre
    } else if amount_val == 0 {
        r == Err::<(), Error>(Error::AmountZero) && post == pre
    } else if !pre.spec_is_minter(caller_acc) {
        r == Err::<(), Error>(Error::Unauthorized) && post == pre
    } else if pre.total_supply + amount_val > u128::MAX {
        r == Err::<(), Error>(Error::Overflow) && post == pre
    } else {
        &&& r == Ok::<(), Error>(())
        &&& admin_unchanged(pre, post)
        &&& post.total_supply == pre.total_supply + amount_val
        &&& post.balances@ == sset(
            pre.balances@,
            caller_acc,
            (pre.spec_balance(caller_acc) + amount_val) as u128,
        )
        &&& post.allowances@ == pre.allowances@
        &&& post.event_log@ == pre.event_log@.push(
            Event::Minted(Minted { to_acc: caller_acc, amount_val }),
        )
    }
}

/// Behaviour of [`Moo::burn`].
pub open spec fn burn_rel(
    pre: Moo,
    caller_acc: AccountId,
    amount_val: Balance,
    post: Moo,
    r: Result<(), Error>,
) -> bool {
    if pre.paused_flag {
        r == Err::<(), Error>(Error::Paused) && post == pre
    } else if amount_val == 0 {
        r == Err::<(), Error>(Error::AmountZero) && post == pre
    } else if pre.spec_balance(caller_acc) < amount_val {
        r == Err::<(), Error>(Error::InsufficientBalance) && post == pre
    } else {
        &&& r == Ok::<(), Error>(())
        &&& admin_unchanged(pre, post)
        &&& post.total_supply == pre.total_supply - amount_val
        &&& post.balances@ == sset(
            pre.balances@,
            caller_acc,
            (pre.spec_balance(caller_acc) - amount_val) as u128,
        )
        &&& post.allowances@ == pre.allowances@
        &&& post.event_log@ == pre.event_log@.push(
            Event::Burned(Burned { from_acc: caller_acc, amount_val }),
        )
    }
}

/// Behaviour of [`Moo::transfer`].
pub open spec fn transfer_rel(
    pre: Moo,
    caller_acc: AccountId,
    to_acc: AccountId,
    amount_val: Balance,
    post: Moo,
    r: Result<(), Error>,
) -> bool {
    if pre.paused_flag {
        r == Err::<(), Error>(Error::Paused) && post == pre
    } else if amount_val == 0 {
        r == Err::<(), Error>(Error::AmountZero) && post == pre
    } else if caller_acc == to_acc {
        r == Err::<(), Error>(Error::SameAccount) && post == pre
    } else if pre.spec_balance(caller_acc) < amount_val {
        r == Err::<(), Error>(Error::InsufficientBalance) && post == pre
    } else {
        &&& r == Ok::<(), Error>(())
        &&& admin_unchanged(pre, post)
        &&& post.total_supply == pre.total_supply
        &&& post.balances@ == balances_moved(pre, caller_acc, to_acc, amount_val)
        &&& post.allowances@ == pre.allowances@
        &&& post.event_log@ == pre.event_log@.push(
            Event::Transferred(Transferred { from_acc: caller_acc, to_acc, amount_val }),
        )
    }
}

/// Behaviour of [`Moo::approve`]: the safe-approve policy refuses to
/// replace one non-zero allowance with another without zeroing first.
pub open spec fn approve_rel(
    pre: Moo,
    caller_acc: AccountId,
    spender_acc: AccountId,
    amount_val: Balance,
    post: Moo,
    r: Result<(), Error>,
) -> bool {
    if pre.paused_flag {
        r == Err::<(), Error>(Error::Paused) && post == pre
    } else if pre.spec_allowance(caller_acc, spender_acc) != 0 && amount_val != 0 {
        r == Err::<(), Error>(Error::AllowanceRace) && post == pre
    } else {
        &&& r == Ok::<(), Error>(())
        &&& admin_unchanged(pre, post)
        &&& post.total_supply == pre.total_supply
        &&& post.balances@ == pre.balances@
        &&& post.allowances@ == sset(
            pre.allowances@,
            allowance_key(caller_acc, spender_acc),
            amount_val,
        )
        &&& post.event_log@ == pre.event_log@.push(
            Event::Approved(Approved { owner_acc: caller_acc, spender_acc, amount_val }),
        )
    }
}

/// Behaviour of [`Moo::increase_allowance`].
pub open spec fn increase_allowance_rel(
    pre: Moo,
    caller_acc: AccountId,
    spender_acc: AccountId,
    add_val: Balance,
    post: Moo,
    r: Result<(), Error>,
) -> bool {
    let cur = pre.spec_allowance(caller_acc, spender_acc);
    if pre.paused_flag {
        r == Err::<(), Error>(Error::Paused) && post == pre
    } else if cur + add_val > u128::MAX {
        r == Err::<(), Error>(Error::Overflow) && post == pre
    } else {
        &&& r == Ok::<(), Error>(())
        &&& admin_unchanged(pre, post)
        &&& post.total_supply == pre.total_supply
        &&& post.balances@ == pre.balances@
        &&& post.allowances@ == sset(
            pre.allowances@,
            allowance_key(caller_acc, spender_acc),
            (cur + add_val) as u128,
        )
        &&& post.event_log@ == pre.event_log@.push(
            Event::Approved(
                Approved {
                    owner_acc: caller_acc,
                    spender_acc,
                    amount_val: (cur + add_val) as u128,
                },
            ),
        )
    }
}

/// Behaviour of [`Moo::decrease_allowance`]: a saturating decrease that
/// floors at zero and never fails once the ledger is unpaused.
pub open spec fn decrease_allowance_rel(
    pre: Moo,
    caller_acc: AccountId,
    spender_acc: AccountId,
    sub_val: Balance,
    post: Moo,
    r: Result<(), Error>,
) -> bool {
    let cur = pre.spec_allowance(caller_acc, spender_acc);
    let new_val: Balance = if cur < sub_val {
        0u128
    } else {
        (cur - sub_val) as u128
    };
    if pre.paused_flag {
        r == Err::<(), Error>(Error::Paused) && post == pre
    } else {
        &&& r == Ok::<(), Error>(())
        &&& admin_unchanged(pre, post)
        &&& post.total_supply == pre.total_supply
        &&& post.balances@ == pre.balances@
        &&& post.allowances@ == sset(
            pre.allowances@,
            allowance_key(caller_acc, spender_acc),
            new_val,
        )
        &&& post.event_log@ == pre.event_log@.push(
            Event::Approved(Approved { owner_acc: caller_acc, spender_acc, amount_val: new_val }),
        )
    }
}

/// Behaviour of [`Moo::transfer_from`]. The balance is validated before
/// the allowance, so a transfer doomed by an insufficient balance never
/// consumes any allowance.
pub open spec fn transfer_from_rel(
    pre: Moo,
    caller_acc: AccountId,
    from_acc: AccountId,
    to_acc: AccountId,
    amount_val: Balance,
    post: Moo,
    r: Result<(), Error>,
) -> bool {
    if pre.paused_flag {
        r == Err::<(), Error>(Error::Paused) && post == pre
    } else if amount_val == 0 {
        r == Err::<(), Error>(Error::AmountZero) && post == pre
    } else if from_acc == to_acc {
        r == Err::<(), Error>(Error::SameAccount) && post == pre
    } else if pre.spec_balance(from_acc) < amount_val {
        r == Err::<(), Error>(Error::InsufficientBalance) && post == pre
    } else if pre.spec_allowance(from_acc, caller_acc) < amount_val {
        r == Err::<(), Error>(Error::InsufficientAllowance) && post == pre
    } else {
        &&& r == Ok::<(), Error>(())
        &&& admin_unchanged(pre, post)
        &&& post.total_supply == pre.total_supply
        &&& post.balances@ == balances_moved(pre, from_acc, to_acc, amount_val)
        &&& post.allowances@ == sset(
            pre.allowances@,
            allowance_key(from_acc, caller_acc),
            (pre.spec_allowance(from_acc, caller_acc) - amount_val) as u128,
        )
        &&& post.event_log@ == pre.event_log@.push(
            Event::Transferred(Transferred { from_acc, to_acc, amount_val }),
        )
    }
}

impl Moo {
    /// Balance of an account; an account never seen holds zero.
    pub open spec fn spec_balance(self, owner_acc: AccountId) -> Balance {
        sget_or(self.balances@, owner_acc, 0u128)
    }

    /// Allowance granted by `owner_acc` to `spender_acc`; zero if never set.
    pub open spec fn spec_allowance(self, owner_acc: AccountId, spender_acc: AccountId) -> Balance {
        sget_or(self.allowances@, allowance_key(owner_acc, spender_acc), 0u128)
    }

    /// Whether an account currently holds the minter role.
    pub open spec fn spec_is_minter(self, minter_acc: AccountId) -> bool {
        sget_or(self.is_minter@, minter_acc, false)
    }

    /// Well-formedness: the tables are maps (unique keys), and the total
    /// supply equals the sum of all recorded balances.
    pub open spec fn wf(self) -> bool {
        &&& unique_keys(self.balances@)
        &&& unique_keys(self.allowances@)
        &&& unique_keys(self.is_minter@)
        &&& self.total_supply as int == sum_vals(self.balances@)
    }

    /// A fresh ledger owned by the constructing caller: unpaused, no
    /// minters, zero supply, no balances, no allowances.
    pub fn new(caller_acc: AccountId) -> (r: Moo)
        ensures
            r.wf(),
            r.owner_acc == caller_acc,
            !r.paused_flag,
            r.is_minter@ == Seq::<(AccountId, bool)>::empty(),
            r.total_supply == 0,
            r.balances@ == Seq::<(AccountId, Balance)>::empty(),
            r.allowances@ == Seq::<(AllowanceKey, Balance)>::empty(),
            r.storage_ver_u32 == 1,
            r.event_log@ == Seq::<Event>::empty(),
    {
        let r = Moo {
            owner_acc: caller_acc,
            paused_flag: false,
            is_minter: AList::new(),
            total_supply: 0,
            balances: AList::new(),
            allowances: AList::new(),
            storage_ver_u32: 1,
            event_log: Vec::new(),
        };
        proof {
            assert(sum_vals(r.balances@) == 0);
        }
        r
    }

    /// Guard: only the fixed owner may call.
    fn only_owner(&self, caller_acc: AccountId) -> (r: Result<(), Error>)
        ensures
            r == (if caller_acc != self.owner_acc {
                Err::<(), Error>(Error::NotOwner)
            } else {
                Ok::<(), Error>(())
            }),
    {
        if caller_acc != self.owner_acc {
            return Err(Error::NotOwner);
        }
        Ok(())
    }

    /// Guard: mutating token operations are refused while paused.
    fn when_not_paused(&self) -> (r: Result<(), Error>)
        ensures
            r == (if self.paused_flag {
                Err::<(), Error>(Error::Paused)
            } else {
                Ok::<(), Error>(())
            }),
    {
        if self.paused_flag {
            return Err(Error::Paused);
        }
        Ok(())
    }

    /// Flip the pause switch (owner only). Setting the current value
    /// again is allowed and succeeds.
    pub fn set_pause(&mut self, caller_acc: AccountId, paused_flag: bool) -> (r: Result<
        (),
        Error,
    >)
        requires
            old(self).wf(),
        ensures
            final(self).wf(),
            set_pause_rel(*old(self), caller_acc, paused_flag, *final(self), r),
    {
        if let Err(e) = self.only_owner(caller_acc) {
            return Err(e);
        }
        self.paused_flag = paused_flag;
        self.event_log.push(Event::PausedSet(PausedSet { paused_flag }));
        Ok(())
    }

    /// Grant or revoke the minter role (owner only).
    pub fn set_minter(
        &mut self,
        caller_acc: AccountId,
        minter_acc: AccountId,
        enabled_flag: bool,
    ) -> (r: Result<(), Error>)
        requires
            old(self).wf(),
        ensures
            final(self).wf(),
            set_minter_rel(*old(self), caller_acc, minter_acc, enabled_flag, *final(self), r),
    {
        if let Err(e) = self.only_owner(caller_acc) {
            return Err(e);
        }
        self.is_minter.set(minter_acc, enabled_flag);
        self.event_log.push(Event::MinterSet(MinterSet { minter_acc, enabled_flag }));
        Ok(())
    }

    /// Current total supply.
    pub fn total_supply(&self) -> (r: Balance)
        ensures
            r == self.total_supply,
    {
        self.total_supply
    }

    /// Balance of `owner_acc` (zero when the account was never seen).
    pub fn balance_of(&self, owner_acc: AccountId) -> (r: Balance)
        ensures
            r == self.spec_balance(owner_acc),
    {
        match self.balances.get(owner_acc) {
            Some(v) => v,
            None => 0,
        }
    }

    /// Balance of the calling account.
    pub fn my_balance(&self, caller_acc: AccountId) -> (r: Balance)
        ensures
            r == self.spec_balance(caller_acc),
    {
        self.balance_of(caller_acc)
    }

    /// Allowance granted by `owner_acc` to `spender_acc`.
    pub fn allowance(&self, owner_acc: AccountId, spender_acc: AccountId) -> (r: Balance)
        ensures
            r == self.spec_allowance(owner_acc, spender_acc),
    {
        match self.allowances.get(AllowanceKey { owner_acc, spender_acc }) {
            Some(v) => v,
            None => 0,
        }
    }

    /// Privileged mint: the caller must hold the minter role; the new
    /// supply is credited to the caller.
    pub fn mint(&mut self, caller_acc: AccountId, amount_val: Balance) -> (r: Result<(), Error>)
        requires
            old(self).wf(),
        ensures
            final(self).wf(),
            mint_rel(*old(self), caller_acc, amount_val, *final(self), r),
    {
        if let Err(e) = self.when_not_paused() {
            return Err(e);
        }
        if amount_val == 0 {
            return Err(Error::AmountZero);
        }
        let allowed_flag = match self.is_minter.get(caller_acc) {
            Some(b) => b,
            None => false,
        };
        if !allowed_flag {
            return Err(Error::Unauthorized);
        }
        self.mint_internal(caller_acc, amount_val)
    }

    /// Destroy part of the caller's balance, shrinking total supply.
    pub fn burn(&mut self, caller_acc: AccountId, amount_val: Balance) -> (r: Result<(), Error>)
        requires
            old(self).wf(),
        ensures
            final(self).wf(),
            burn_rel(*old(self), caller_acc, amount_val, *final(self), r),
    {
        if let Err(e) = self.when_not_paused() {
            return Err(e);
        }
        if amount_val == 0 {
            return Err(Error::AmountZero);
        }
        let from_bal = self.balance_of(caller_acc);
        if from_bal < amount_val {
            return Err(Error::InsufficientBalance);
        }
        proof {
            lemma_sfind_le_sum(self.balances@, caller_acc);
        }
        let new_from_bal = from_bal - amount_val;
        let new_total = self.total_supply - amount_val;
        self.balances.set(caller_acc, new_from_bal);
        self.total_supply = new_total;
        proof {
            lemma_sum_sset(old(self).balances@, caller_acc, new_from_bal);
        }
        self.event_log.push(Event::Burned(Burned { from_acc: caller_acc, amount_val }));
        Ok(())
    }

    /// Move part of the caller's balance to another account.
    pub fn transfer(&mut self, caller_acc: AccountId, to_acc: AccountId, amount_val: Balance) -> (r:
        Result<(), Error>)
        requires
            old(self).wf(),
        ensures
            final(self).wf(),
            transfer_rel(*old(self), caller_acc, to_acc, amount_val, *final(self), r),
    {
        if let Err(e) = self.when_not_paused() {
            return Err(e);
        }
        if amount_val == 0 {
            return Err(Error::AmountZero);
        }
        if caller_acc == to_acc {
            return Err(Error::SameAccount);
        }
        self.move_balance(caller_acc, to_acc, amount_val)
    }

    /// Overwrite an allowance under the safe-approve policy: replacing
    /// one non-zero allowance with another non-zero value is refused
    /// until the allowance is zeroed first.
    pub fn approve(&mut self, caller_acc: AccountId, spender_acc: AccountId, amount_val: Balance)
        -> (r: Result<(), Error>)
        requires
            old(self).wf(),
        ensures
            final(self).wf(),
            approve_rel(*old(self), caller_acc, spender_acc, amount_val, *final(self), r),
    {
        if let Err(e) = self.when_not_paused() {
            return Err(e);
        }
        let current_val = self.allowance(caller_acc, spender_acc);
        if current_val != 0 && amount_val != 0 {
            return Err(Error::AllowanceRace);
        }
        self.allowances.set(AllowanceKey { owner_acc: caller_acc, spender_acc }, amount_val);
        self.event_log.push(
            Event::Approved(Approved { owner_acc: caller_acc, spender_acc, amount_val }),
        );
        Ok(())
    }

    /// Raise an allowance by `add_val`, failing on overflow.
    pub fn increase_allowance(
        &mut self,
        caller_acc: AccountId,
        spender_acc: AccountId,
        add_val: Balance,
    ) -> (r: Result<(), Error>)
        requires
            old(self).wf(),
        ensures
            final(self).wf(),
            increase_allowance_rel(*old(self), caller_acc, spender_acc, add_val, *final(self), r),
    {
        if let Err(e) = self.when_not_paused() {
            return Err(e);
        }
        let current_val = self.allowance(caller_acc, spender_acc);
        let new_val = match current_val.checked_add(add_val) {
            Some(v) => v,
            None => {
                return Err(Error::Overflow);
            },
        };
        self.allowances.set(AllowanceKey { owner_acc: caller_acc, spender_acc }, new_val);
        self.event_log.push(
            Event::Approved(Approved { owner_acc: caller_acc, spender_acc, amount_val: new_val }),
        );
        Ok(())
    }

    /// Lower an allowance by `sub_val`, flooring at zero.
    pub fn decrease_allowance(
        &mut self,
        caller_acc: AccountId,
        spender_acc: AccountId,
        sub_val: Balance,
    ) -> (r: Result<(), Error>)
        requires
            old(self).wf(),
        ensures
            final(self).wf(),
            decrease_allowance_rel(*old(self), caller_acc, spender_acc, sub_val, *final(self), r),
    {
        if let Err(e) = self.when_not_paused() {
            return Err(e);
        }
        let current_val = self.allowance(caller_acc, spender_acc);
        let new_val = current_val.saturating_sub(sub_val);
        self.allowances.set(AllowanceKey { owner_acc: caller_acc, spender_acc }, new_val);
        self.event_log.push(
            Event::Approved(Approved { owner_acc: caller_acc, spender_acc, amount_val: new_val }),
        );
        Ok(())
    }

    /// Move a balance on behalf of its owner, consuming exactly the
    /// moved amount from the caller's allowance. The balance is checked
    /// before the allowance, so a doomed transfer consumes nothing.
    pub fn transfer_from(
        &mut self,
        caller_acc: AccountId,
        from_acc: AccountId,
        to_acc: AccountId,
        amount_val: Balance,
    ) -> (r: Result<(), Error>)
        requires
            old(self).wf(),
        ensures
            final(self).wf(),
            transfer_from_rel(
                *old(self),
                caller_acc,
                from_acc,
                to_acc,
                amount_val,
                *final(self),
                r,
            ),
    {
        if let Err(e) = self.when_not_paused() {
            return Err(e);
        }
        if amount_val == 0 {
            return Err(Error::AmountZero);
        }
        if from_acc == to_acc {
            return Err(Error::SameAccount);
        }
        let from_bal = self.balance_of(from_acc);
        if from_bal < amount_val {
            return Err(Error::InsufficientBalance);
        }
        let current_allow = self.allowance(from_acc, caller_acc);
        if current_allow < amount_val {
            return Err(Error::InsufficientAllowance);
        }
        match self.move_balance(from_acc, to_acc, amount_val) {
            Ok(()) => {},
            Err(e) => {
                return Err(e);
            },
        }
        let new_allow = current_allow - amount_val;
        self.allowances.set(
            AllowanceKey { owner_acc: from_acc, spender_acc: caller_acc },
            new_allow,
        );
        Ok(())
    }

    /// New supply for `to_acc`: raises the total first, then the
    /// balance; the balance raise is proven not to overflow once the
    /// supply raise succeeded, so a failed mint changes nothing.
    fn mint_internal(&mut self, to_acc: AccountId, amount_val: Balance) -> (r: Result<(), Error>)
        requires
            old(self).wf(),
            !old(self).paused_flag,
            amount_val > 0,
            old(self).spec_is_minter(to_acc),
        ensures
            final(self).wf(),
            mint_rel(*old(self), to_acc, amount_val, *final(self), r),
    {
        let new_total = match self.total_supply.checked_add(amount_val) {
            Some(v) => v,
            None => {
                return Err(Error::Overflow);
            },
        };
        let to_bal = self.balance_of(to_acc);
        proof {
            lemma_sfind_le_sum(self.balances@, to_acc);
        }
        let new_to = to_bal + amount_val;
        self.total_supply = new_total;
        self.balances.set(to_acc, new_to);
        proof {
            lemma_sum_sset(old(self).balances@, to_acc, new_to);
        }
        self.event_log.push(Event::Minted(Minted { to_acc, amount_val }));
        Ok(())
    }

    /// The shared balance-move primitive: debit `from_acc`, credit
    /// `to_acc`, record the transfer event. The credit is proven not to
    /// overflow because both balances fit in the total supply together.
    fn move_balance(&mut self, from_acc: AccountId, to_acc: AccountId, amount_val: Balance) -> (r:
        Result<(), Error>)
        requires
            old(self).wf(),
            from_acc != to_acc,
        ensures
            final(self).wf(),
            if old(self).spec_balance(from_acc) < amount_val {
                r == Err::<(), Error>(Error::InsufficientBalance) && *final(self) == *old(self)
            } else {
                &&& r == Ok::<(), Error>(())
                &&& admin_unchanged(*old(self), *final(self))
                &&& final(self).total_supply == old(self).total_supply
                &&& final(self).balances@ == balances_moved(
                    *old(self),
                    from_acc,
                    to_acc,
                    amount_val,
                )
                &&& final(self).allowances@ == old(self).allowances@
                &&& final(self).event_log@ == old(self).event_log@.push(
                    Event::Transferred(Transferred { from_acc, to_acc, amount_val }),
                )
            },
    {
        let from_bal = self.balance_of(from_acc);
        if from_bal < amount_val {
            return Err(Error::InsufficientBalance);
        }
        proof {
            lemma_two_le_sum(self.balances@, from_acc, to_acc);
        }
        let new_from = from_bal - amount_val;
        self.balances.set(from_acc, new_from);
        proof {
            lemma_sum_sset(old(self).balances@, from_acc, new_from);
            lemma_sfind_sset(old(self).balances@, from_acc, new_from, to_acc);
        }
        let to_bal = self.balance_of(to_acc);
        let new_to = to_bal + amount_val;
        let ghost mid = self.balances@;
        self.balances.set(to_acc, new_to);
        proof {
            lemma_sum_sset(mid, to_acc, new_to);
        }
        self.event_log.push(Event::Transferred(Transferred { from_acc, to_acc, amount_val }));
        Ok(())
    }
}

/// For every well-formed ledger state, the total supply equals the sum
/// of all recorded balances. Constructors establish well-formedness and
/// every operation preserves it, so this holds of all reachable states.
pub proof fn lemma_supply_is_balance_sum(m: Moo)
    requires
        m.wf(),
    ensures
        m.total_supply as int == sum_vals(m.balances@),
{
}

/// Setting the pause switch to `true` twice in a row succeeds both
/// times and leaves the ledger paused.
pub proof fn lemma_set_pause_idempotent(
    s0: Moo,
    s1: Moo,
    s2: Moo,
    caller_acc: AccountId,
    r1: Result<(), Error>,
    r2: Result<(), Error>,
)
    requires
        caller_acc == s0.owner_acc,
        set_pause_rel(s0, caller_acc, true, s1, r1),
        set_pause_rel(s1, caller_acc, true, s2, r2),
    ensures
        r1 == Ok::<(), Error>(()),
        r2 == Ok::<(), Error>(()),
        s1.paused_flag,
        s2.paused_flag,
{
}

/// Zeroing an allowance and then setting any fresh value succeeds: the
/// safe-approve policy only restricts non-zero to non-zero rewrites.
pub proof fn lemma_approve_zero_then_any(
    s0: Moo,
    s1: Moo,
    s2: Moo,
    owner_acc: AccountId,
    spender_acc: AccountId,
    amount_val: Balance,
    r1: Result<(), Error>,
    r2: Result<(), Error>,
)
    requires
        !s0.paused_flag,
        approve_rel(s0, owner_acc, spender_acc, 0u128, s1, r1),
        approve_rel(s1, owner_acc, spender_acc, amount_val, s2, r2),
    ensures
        r1 == Ok::<(), Error>(()),
        r2 == Ok::<(), Error>(()),
        s2.spec_allowance(owner_acc, spender_acc) == amount_val,
{
    lemma_sfind_sset(
        s0.allowances@,
        allowance_key(owner_acc, spender_acc),
        0u128,
        allowance_key(owner_acc, spender_acc),
    );
    lemma_sfind_sset(
        s1.allowances@,
        allowance_key(owner_acc, spender_acc),
        amount_val,
        allowance_key(owner_acc, spender_acc),
    );
}

/// Rewriting a non-zero allowance directly with another non-zero value
/// is refused with the allowance-race failure and changes nothing.
pub proof fn lemma_approve_nonzero_twice(
    s0: Moo,
    s1: Moo,
    s2: Moo,
    owner_acc: AccountId,
    spender_acc: AccountId,
    first_val: Balance,
    second_val: Balance,
    r1: Result<(), Error>,
    r2: Result<(), Error>,
)
    requires
        !s0.paused_flag,
        s0.spec_allowance(owner_acc, spender_acc) == 0,
        first_val != 0,
        second_val != 0,
        approve_rel(s0, owner_acc, spender_acc, first_val, s1, r1),
        approve_rel(s1, owner_acc, spender_acc, second_val, s2, r2),
    ensures
        r1 == Ok::<(), Error>(()),
        r2 == Err::<(), Error>(Error::AllowanceRace),
        s2 == s1,
        s1.spec_allowance(owner_acc, spender_acc) == first_val,
{
    lemma_sfind_sset(
        s0.allowances@,
        allowance_key(owner_acc, spender_acc),
        first_val,
        allowance_key(owner_acc, spender_acc),
    );
}

} // verus!
