//! The indexed ownership registry: unique items with sequential ids,
//! minting against an optional supply ceiling, transfer and burn,
//! single-item and operator approvals, and paginated enumeration by
//! owner through a dense per-owner slot table kept in O(1) by
//! swap-with-last removal.
//!
//! The registry keeps four tables in lock-step: item to owner, owner to
//! item count, (owner, slot) to item, and item to slot. Well-formedness
//! ([`NFMoo::wf`]) states that for every owner the slots `0..count`
//! hold exactly that owner's items, each indexed back to its slot, and
//! every operation is proven to preserve it.

use vstd::prelude::*;

use crate::account::AccountId;
use crate::alist::{
    AList, EqKey, lemma_sfind_sset, lemma_sfind_sremove, sfind, sget_or, shas, sset, sremove,
    unique_keys,
};

verus! {

broadcast use lemma_sfind_sset, lemma_sfind_sremove;

/// Identifier of a unique item: assigned sequentially, never reused.
pub type TokenId = u128;

/// The largest number of items one mint call may create.
pub const MAX_PER_CALL: u32 = 200;

/// Failures of the ownership registry. Every operation returns either
/// success or exactly one of these, decided before any state is written.
#[derive(Clone, Copy, Debug, PartialEq, Eq, Structural)]
pub enum Error {
    AmountZero,
    Overflow,
    SameAccount,
    NotOwner,
    NotApproved,
    TokenMissing,
    Unauthorized,
    Paused,
}

/// A new item created for an account.
#[derive(Clone, Copy, Debug, PartialEq, Eq, Structural)]
pub struct NFMinted {
    pub to_acc: AccountId,
    pub token_id: TokenId,
}

/// An item moved to a new owner.
#[derive(Clone, Copy, Debug, PartialEq, Eq, Structural)]
pub struct NFTransferred {
    pub from_acc: AccountId,
    pub to_acc: AccountId,
    pub token_id: TokenId,
}

/// An item destroyed by its owner.
#[derive(Clone, Copy, Debug, PartialEq, Eq, Structural)]
pub struct NFBurned {
    pub from_acc: AccountId,
    pub token_id: TokenId,
}

/// A single-item approval granted.
#[derive(Clone, Copy, Debug, PartialEq, Eq, Structural)]
pub struct NFApproval {
    pub owner_acc: AccountId,
    pub approved_acc: AccountId,
    pub token_id: TokenId,
}

/// A blanket operator approval granted or revoked.
#[derive(Clone, Copy, Debug, PartialEq, Eq, Structural)]
pub struct NFApprovalForAll {
    pub owner_acc: AccountId,
    pub operator_acc: AccountId,
    pub approved_flag: bool,
}

/// The pause switch flipped by the owner.
#[derive(Clone, Copy, Debug, PartialEq, Eq, Structural)]
pub struct PausedSet {
    pub paused_flag: bool,
}

/// An account granted or stripped of the minter role.
#[derive(Clone, Copy, Debug, PartialEq, Eq, Structural)]
pub struct MinterSet {
    pub minter_acc: AccountId,
    pub enabled_flag: bool,
}

/// A domain event of the ownership registry, appended to the event log
/// in call order for the host to deliver.
#[derive(Clone, Copy, Debug, PartialEq, Eq, Structural)]
pub enum Event {
    Minted(NFMinted),
    Transferred(NFTransferred),
    Burned(NFBurned),
    Approval(NFApproval),
    ApprovalForAll(NFApprovalForAll),
    PausedSet(PausedSet),
    MinterSet(MinterSet),
}

/// Key of the dense slot table: an owner and a zero-based slot.
#[derive(Clone, Copy, Debug, PartialEq, Eq, Structural)]
pub struct SlotKey {
    pub owner_acc: AccountId,
    pub index_val: u32,
}

impl EqKey for SlotKey {
    fn key_eq(&self, other: &Self) -> (r: bool) {
        self.owner_acc == other.owner_acc && self.index_val == other.index_val
    }
}

/// Key of the operator-approval table: the owner and the operator.
#[derive(Clone, Copy, Debug, PartialEq, Eq, Structural)]
pub struct OperatorKey {
    pub owner_acc: AccountId,
    pub operator_acc: AccountId,
}

impl EqKey for OperatorKey {
    fn key_eq(&self, other: &Self) -> (r: bool) {
        self.owner_acc == other.owner_acc && self.operator_acc == other.operator_acc
    }
}

/// The key of owner `owner_acc`'s slot number `index_val`.
pub open spec fn slot_key(owner_acc: AccountId, index_val: u32) -> SlotKey {
    SlotKey { owner_acc, index_val }
}

/// The key under which `operator_acc`'s blanket approval from
/// `owner_acc` is stored.
pub open spec fn operator_key(owner_acc: AccountId, operator_acc: AccountId) -> OperatorKey {
    OperatorKey { owner_acc, operator_acc }
}

/// Number of items owned by `owner_acc` according to the count table.
pub open spec fn count_of(owned_count: Seq<(AccountId, u32)>, owner_acc: AccountId) -> u32 {
    sget_or(owned_count, owner_acc, 0u32)
}

/// The item sitting in owner `owner_acc`'s slot `index_val`, if any.
pub open spec fn slot_of(
    tokens_by_owner: Seq<(SlotKey, TokenId)>,
    owner_acc: AccountId,
    index_val: u32,
) -> Option<TokenId> {
    sfind(tokens_by_owner, slot_key(owner_acc, index_val))
}

/// One (owner, slot) pair is in order: the slot is occupied exactly
/// when it lies below the owner's count, and an occupying item is owned
/// by that owner and indexed back to that very slot.
pub open spec fn slot_entry_ok(
    owner_by_id: Seq<(TokenId, AccountId)>,
    owned_count: Seq<(AccountId, u32)>,
    tokens_by_owner: Seq<(SlotKey, TokenId)>,
    owned_index: Seq<(TokenId, u32)>,
    owner_acc: AccountId,
    index_val: u32,
) -> bool {
    &&& (slot_of(tokens_by_owner, owner_acc, index_val) is Some <==> index_val < count_of(
        owned_count,
        owner_acc,
    ))
    &&& (slot_of(tokens_by_owner, owner_acc, index_val) matches Some(token_id) ==> sfind(
        owner_by_id,
        token_id,
    ) == Some(owner_acc) && sfind(owned_index, token_id) == Some(index_val))
}

/// Every (owner, slot) pair is in order: each owner's slots are dense
/// (no gaps, nothing at or beyond the count) and link back consistently.
pub open spec fn slots_indexed(
    owner_by_id: Seq<(TokenId, AccountId)>,
    owned_count: Seq<(AccountId, u32)>,
    tokens_by_owner: Seq<(SlotKey, TokenId)>,
    owned_index: Seq<(TokenId, u32)>,
) -> bool {
    forall|owner_acc: AccountId, index_val: u32|
        #[trigger] slot_entry_ok(
            owner_by_id,
            owned_count,
            tokens_by_owner,
            owned_index,
            owner_acc,
            index_val,
        )
}

/// One item id is in order: a live item has a reverse-index entry
/// naming a live slot of its owner that holds the item itself, and a
/// dead item has no reverse-index entry.
pub open spec fn token_entry_ok(
    owner_by_id: Seq<(TokenId, AccountId)>,
    owned_count: Seq<(AccountId, u32)>,
    tokens_by_owner: Seq<(SlotKey, TokenId)>,
    owned_index: Seq<(TokenId, u32)>,
    token_id: TokenId,
) -> bool {
    match (sfind(owner_by_id, token_id), sfind(owned_index, token_id)) {
        (Some(owner_acc), Some(index_val)) => index_val < count_of(owned_count, owner_acc)
            && slot_of(tokens_by_owner, owner_acc, index_val) == Some(token_id),
        (None, None) => true,
        _ => false,
    }
}

/// Every item id is in order.
pub open spec fn tokens_indexed(
    owner_by_id: Seq<(TokenId, AccountId)>,
    owned_count: Seq<(AccountId, u32)>,
    tokens_by_owner: Seq<(SlotKey, TokenId)>,
    owned_index: Seq<(TokenId, u32)>,
) -> bool {
    forall|token_id: TokenId|
        #[trigger] token_entry_ok(owner_by_id, owned_count, tokens_by_owner, owned_index, token_id)
}

/// Single-item approvals exist only for live items.
pub open spec fn approvals_live(
    token_approval: Seq<(TokenId, AccountId)>,
    owner_by_id: Seq<(TokenId, AccountId)>,
) -> bool {
    forall|token_id: TokenId| #![trigger sfind(token_approval, token_id)]
        sfind(token_approval, token_id) is Some ==> shas(owner_by_id, token_id)
}

/// Every live item id was assigned below the next id to hand out.
pub open spec fn ids_below(owner_by_id: Seq<(TokenId, AccountId)>, next_id: TokenId) -> bool {
    forall|token_id: TokenId| #![trigger sfind(owner_by_id, token_id)]
        sfind(owner_by_id, token_id) is Some ==> token_id < next_id
}

/// The indexed ownership registry.
pub struct NFMoo {
    pub owner_acc: AccountId,
    pub paused_flag: bool,
    pub is_minter: AList<AccountId, bool>,
    pub max_supply_opt: Option<u128>,
    pub supply_cnt: u128,
    pub next_id: TokenId,
    pub owner_by_id: AList<TokenId, AccountId>,
    pub owned_count: AList<AccountId, u32>,
    pub tokens_by_owner: AList<SlotKey, TokenId>,
    pub owned_index: AList<TokenId, u32>,
    pub token_approval: AList<TokenId, AccountId>,
    pub operator_approval: AList<OperatorKey, bool>,
    pub storage_ver_u32: u32,
    pub event_log: Vec<Event>,
}

/// The governance state (owner, pause switch, minter set), the supply
/// ceiling and the storage version are the same in both states.
pub open spec fn admin_unchanged(pre: NFMoo, post: NFMoo) -> bool {
    &&& post.owner_acc == pre.owner_acc
    &&& post.paused_flag == pre.paused_flag
    &&& post.is_minter@ == pre.is_minter@
    &&& post.max_supply_opt == pre.max_supply_opt
    &&& post.storage_ver_u32 == pre.storage_ver_u32
}

/// The ownership tables, the supply counter and the id counter are the
/// same in both states.
pub open spec fn items_unchanged(pre: NFMoo, post: NFMoo) -> bool {
    &&& post.supply_cnt == pre.supply_cnt
    &&& post.next_id == pre.next_id
    &&& post.owner_by_id@ == pre.owner_by_id@
    &&& post.owned_count@ == pre.owned_count@
    &&& post.tokens_by_owner@ == pre.tokens_by_owner@
    &&& post.owned_index@ == pre.owned_index@
}

/// Both approval tables are the same in both states.
pub open spec fn approvals_unchanged(pre: NFMoo, post: NFMoo) -> bool {
    &&& post.token_approval@ == pre.token_approval@
    &&& post.operator_approval@ == pre.operator_approval@
}

/// Behaviour of [`NFMoo::set_pause`].
pub open spec fn set_pause_rel(
    pre: NFMoo,
    caller_acc: AccountId,
    paused_flag: bool,
    post: NFMoo,
    r: Result<(), Error>,
) -> bool {
    if caller_acc != pre.owner_acc {
        r == Err::<(), Error>(Error::NotOwner) && post == pre
    } else {
        &&& r == Ok::<(), Error>(())
        &&& post.owner_acc == pre.owner_acc
        &&& post.paused_flag == paused_flag
        &&& post.is_minter@ == pre.is_minter@
        &&& post.max_supply_opt == pre.max_supply_opt
        &&& post.storage_ver_u32 == pre.storage_ver_u32
        &&& items_unchanged(pre, post)
        &&& approvals_unchanged(pre, post)
        &&& post.event_log@ == pre.event_log@.push(Event::PausedSet(PausedSet { paused_flag }))
    }
}

/// Behaviour of [`NFMoo::set_minter`].
pub open spec fn set_minter_rel(
    pre: NFMoo,
    caller_acc: AccountId,
    minter_acc: AccountId,
    enabled_flag: bool,
    post: NFMoo,
    r: Result<(), Error>,
) -> bool {
    if caller_acc != pre.owner_acc {
        r == Err::<(), Error>(Error::NotOwner) && post == pre
    } else {
        &&& r == Ok::<(), Error>(())
        &&& post.owner_acc == pre.owner_acc
        &&& post.paused_flag == pre.paused_flag
        &&& post.is_minter@ == sset(pre.is_minter@, minter_acc, enabled_flag)
        &&& post.max_supply_opt == pre.max_supply_opt
        &&& post.storage_ver_u32 == pre.storage_ver_u32
        &&& items_unchanged(pre, post)
        &&& approvals_unchanged(pre, post)
        &&& post.event_log@ == pre.event_log@.push(
            Event::MinterSet(MinterSet { minter_acc, enabled_flag }),
        )
    }
}

/// Behaviour of [`NFMoo::approve`].
pub open spec fn approve_rel(
    pre: NFMoo,
    caller_acc: AccountId,
    approved_acc: AccountId,
    token_id: TokenId,
    post: NFMoo,
    r: Result<(), Error>,
) -> bool {
    if pre.paused_flag {
        r == Err::<(), Error>(Error::Paused) && post == pre
    } else if pre.spec_owner_of(token_id) is None {
        r == Err::<(), Error>(Error::TokenMissing) && post == pre
    } else if pre.spec_owner_of(token_id) != Some(caller_acc) {
        r == Err::<(), Error>(Error::NotOwner) && post == pre
    } else {
        &&& r == Ok::<(), Error>(())
        &&& admin_unchanged(pre, post)
        &&& items_unchanged(pre, post)
        &&& post.token_approval@ == sset(pre.token_approval@, token_id, approved_acc)
        &&& post.operator_approval@ == pre.operator_approval@
        &&& post.event_log@ == pre.event_log@.push(
            Event::Approval(NFApproval { owner_acc: caller_acc, approved_acc, token_id }),
        )
    }
}

/// Behaviour of [`NFMoo::set_approval_for_all`].
pub open spec fn set_approval_for_all_rel(
    pre: NFMoo,
    caller_acc: AccountId,
    operator_acc: AccountId,
    approved_flag: bool,
    post: NFMoo,
    r: Result<(), Error>,
) -> bool {
    if pre.paused_flag {
        r == Err::<(), Error>(Error::Paused) && post == pre
    } else if caller_acc == operator_acc {
        r == Err::<(), Error>(Error::SameAccount) && post == pre
    } else {
        &&& r == Ok::<(), Error>(())
        &&& admin_unchanged(pre, post)
        &&& items_unchanged(pre, post)
        &&& post.token_approval@ == pre.token_approval@
        &&& post.operator_approval@ == sset(
            pre.operator_approval@,
            operator_key(caller_acc, operator_acc),
            approved_flag,
        )
        &&& post.event_log@ == pre.event_log@.push(
            Event::ApprovalForAll(
                NFApprovalForAll { owner_acc: caller_acc, operator_acc, approved_flag },
            ),
        )
    }
}

/// Behaviour of [`NFMoo::transfer`]: the item moves to `to_acc`, its
/// single approval is cleared, it leaves the old owner's dense table by
/// swap-with-last and is appended at the end of the new owner's table.
pub open spec fn transfer_rel(
    pre: NFMoo,
    caller_acc: AccountId,
    to_acc: AccountId,
    token_id: TokenId,
    post: NFMoo,
    r: Result<(), Error>,
) -> bool {
    if pre.paused_flag {
        r == Err::<(), Error>(Error::Paused) && post == pre
    } else if pre.spec_owner_of(token_id) is None {
        r == Err::<(), Error>(Error::TokenMissing) && post == pre
    } else if !pre.spec_authorized(caller_acc, token_id) {
        r == Err::<(), Error>(Error::NotApproved) && post == pre
    } else if pre.spec_owner_of(token_id) == Some(to_acc) {
        r == Err::<(), Error>(Error::SameAccount) && post == pre
    } else if pre.spec_count(to_acc) == u32::MAX {
        r == Err::<(), Error>(Error::Overflow) && post == pre
    } else {
        let from_acc = pre.spec_owner_of(token_id)->Some_0;
        let c = pre.spec_count(from_acc);
        let j = pre.spec_index_of(token_id)->Some_0;
        let last_tok = pre.spec_slot(from_acc, (c - 1) as u32)->Some_0;
        &&& r == Ok::<(), Error>(())
        &&& admin_unchanged(pre, post)
        &&& post.supply_cnt == pre.supply_cnt
        &&& post.next_id == pre.next_id
        &&& (forall|t: TokenId| #![trigger post.spec_owner_of(t)]
            post.spec_owner_of(t) == (if t == token_id {
                Some(to_acc)
            } else {
                pre.spec_owner_of(t)
            }))
        &&& post.spec_count(from_acc) == c - 1
        &&& post.spec_count(to_acc) == pre.spec_count(to_acc) + 1
        &&& (forall|a: AccountId| #![trigger post.spec_count(a)]
            a != from_acc && a != to_acc ==> post.spec_count(a) == pre.spec_count(a))
        &&& (forall|a: AccountId, i: u32| #![trigger post.spec_slot(a, i)]
            post.spec_slot(a, i) == (if a == from_acc && i == (c - 1) as u32 {
                None::<TokenId>
            } else if a == from_acc && i == j && j != (c - 1) as u32 {
                Some(last_tok)
            } else if a == to_acc && i == pre.spec_count(to_acc) {
                Some(token_id)
            } else {
                pre.spec_slot(a, i)
            }))
        &&& (forall|t: TokenId| #![trigger post.spec_index_of(t)]
            post.spec_index_of(t) == (if t == token_id {
                Some(pre.spec_count(to_acc))
            } else if t == last_tok && j != (c - 1) as u32 {
                Some(j)
            } else {
                pre.spec_index_of(t)
            }))
        &&& (forall|t: TokenId| #![trigger post.spec_approved(t)]
            post.spec_approved(t) == (if t == token_id {
                None::<AccountId>
            } else {
                pre.spec_approved(t)
            }))
        &&& post.operator_approval@ == pre.operator_approval@
        &&& post.event_log@ == pre.event_log@.push(
            Event::Transferred(NFTransferred { from_acc, to_acc, token_id }),
        )
    }
}

/// Behaviour of [`NFMoo::burn`]: only the owner itself may burn; the
/// item's approval is cleared, it leaves the owner's dense table by
/// swap-with-last, its owner entry is deleted and the supply drops.
pub open spec fn burn_rel(
    pre: NFMoo,
    caller_acc: AccountId,
    token_id: TokenId,
    post: NFMoo,
    r: Result<(), Error>,
) -> bool {
    if pre.paused_flag {
        r == Err::<(), Error>(Error::Paused) && post == pre
    } else if pre.spec_owner_of(token_id) is None {
        r == Err::<(), Error>(Error::TokenMissing) && post == pre
    } else if pre.spec_owner_of(token_id) != Some(caller_acc) {
        r == Err::<(), Error>(Error::NotOwner) && post == pre
    } else {
        let c = pre.spec_count(caller_acc);
        let j = pre.spec_index_of(token_id)->Some_0;
        let last_tok = pre.spec_slot(caller_acc, (c - 1) as u32)->Some_0;
        &&& r == Ok::<(), Error>(())
        &&& admin_unchanged(pre, post)
        &&& post.supply_cnt == pre.supply_cnt - 1
        &&& post.next_id == pre.next_id
        &&& (forall|t: TokenId| #![trigger post.spec_owner_of(t)]
            post.spec_owner_of(t) == (if t == token_id {
                None::<AccountId>
            } else {
                pre.spec_owner_of(t)
            }))
        &&& post.spec_count(caller_acc) == c - 1
        &&& (forall|a: AccountId| #![trigger post.spec_count(a)]
            a != caller_acc ==> post.spec_count(a) == pre.spec_count(a))
        &&& (forall|a: AccountId, i: u32| #![trigger post.spec_slot(a, i)]
            post.spec_slot(a, i) == (if a == caller_acc && i == (c - 1) as u32 {
                None::<TokenId>
            } else if a == caller_acc && i == j && j != (c - 1) as u32 {
                Some(last_tok)
            } else {
                pre.spec_slot(a, i)
            }))
        &&& (forall|t: TokenId| #![trigger post.spec_index_of(t)]
            post.spec_index_of(t) == (if t == token_id {
                None::<u32>
            } else if t == last_tok && j != (c - 1) as u32 {
                Some(j)
            } else {
                pre.spec_index_of(t)
            }))
        &&& (forall|t: TokenId| #![trigger post.spec_approved(t)]
            post.spec_approved(t) == (if t == token_id {
                None::<AccountId>
            } else {
                pre.spec_approved(t)
            }))
        &&& post.operator_approval@ == pre.operator_approval@
        &&& post.event_log@ == pre.event_log@.push(
            Event::Burned(NFBurned { from_acc: caller_acc, token_id }),
        )
    }
}

/// Whether `k` further items can be minted to `caller_acc`: the supply
/// ceiling (when set), the id space and the owner's slot count all
/// leave room for `k` more.
pub open spec fn can_mint(pre: NFMoo, caller_acc: AccountId, k: int) -> bool {
    &&& (pre.max_supply_opt matches Some(max_supply_val) ==> pre.supply_cnt + k
        <= max_supply_val)
    &&& pre.next_id + k <= u128::MAX
    &&& pre.spec_count(caller_acc) + k <= u32::MAX
}

/// The number of items a batch of `n` would actually create: the
/// largest `k <= n` for which there is room, since the mint loop stops
/// at the first item that does not fit.
pub open spec fn mint_room(pre: NFMoo, caller_acc: AccountId, n: int) -> int
    decreases n,
{
    if n <= 0 {
        0
    } else if can_mint(pre, caller_acc, n) {
        n
    } else {
        mint_room(pre, caller_acc, n - 1)
    }
}

/// Room for a larger batch is room for a smaller one.
pub proof fn lemma_can_mint_monotone(pre: NFMoo, caller_acc: AccountId, k1: int, k2: int)
    requires
        0 <= k1 <= k2,
        can_mint(pre, caller_acc, k2),
    ensures
        can_mint(pre, caller_acc, k1),
{
}

/// The room of a batch of `n` is pinned by any `k` that fits while
/// `k + 1` does not (or that already reaches `n`).
pub proof fn lemma_mint_room_pins(pre: NFMoo, caller_acc: AccountId, n: int, k: int)
    requires
        0 <= k <= n,
        k > 0 ==> can_mint(pre, caller_acc, k),
        k < n ==> !can_mint(pre, caller_acc, k + 1),
    ensures
        mint_room(pre, caller_acc, n) == k,
    decreases n,
{
    if n == k {
        if n > 0 {
            assert(mint_room(pre, caller_acc, n) == n);
        }
    } else {
        if can_mint(pre, caller_acc, n) {
            lemma_can_mint_monotone(pre, caller_acc, k + 1, n);
        }
        lemma_mint_room_pins(pre, caller_acc, n - 1, k);
    }
}

/// The state after `m` items were minted to `caller_acc`: ids
/// `next_id .. next_id + m` were assigned in order, appended to the
/// caller's dense slots, and both counters grew by `m`.
pub open spec fn minted_state(pre: NFMoo, caller_acc: AccountId, m: int, post: NFMoo) -> bool {
    &&& admin_unchanged(pre, post)
    &&& post.supply_cnt == pre.supply_cnt + m
    &&& post.next_id == pre.next_id + m
    &&& post.spec_count(caller_acc) == pre.spec_count(caller_acc) + m
    &&& (forall|a: AccountId| #![trigger post.spec_count(a)]
        a != caller_acc ==> post.spec_count(a) == pre.spec_count(a))
    &&& (forall|t: TokenId| #![trigger post.spec_owner_of(t)]
        post.spec_owner_of(t) == (if pre.next_id <= t < pre.next_id + m {
            Some(caller_acc)
        } else {
            pre.spec_owner_of(t)
        }))
    &&& (forall|a: AccountId, i: u32| #![trigger post.spec_slot(a, i)]
        post.spec_slot(a, i) == (if a == caller_acc && pre.spec_count(caller_acc) <= i
            < pre.spec_count(caller_acc) + m {
            Some((pre.next_id + (i - pre.spec_count(caller_acc))) as u128)
        } else {
            pre.spec_slot(a, i)
        }))
    &&& (forall|t: TokenId| #![trigger post.spec_index_of(t)]
        post.spec_index_of(t) == (if pre.next_id <= t < pre.next_id + m {
            Some((pre.spec_count(caller_acc) + (t - pre.next_id)) as u32)
        } else {
            pre.spec_index_of(t)
        }))
    &&& approvals_unchanged(pre, post)
    &&& post.event_log@ == pre.event_log@ + Seq::new(
        m as nat,
        |q: int| Event::Minted(NFMinted { to_acc: caller_acc, token_id: (pre.next_id + q) as u128 }),
    )
}

/// Behaviour of [`NFMoo::mint_n`]: a minter creates up to `amount_cnt`
/// items for itself, bounded per call; each item is assigned atomically
/// and items created before a mid-batch overflow stay created.
pub open spec fn mint_n_rel(
    pre: NFMoo,
    caller_acc: AccountId,
    amount_cnt: u32,
    post: NFMoo,
    r: Result<(), Error>,
) -> bool {
    if pre.paused_flag {
        r == Err::<(), Error>(Error::Paused) && post == pre
    } else if amount_cnt == 0 {
        r == Err::<(), Error>(Error::AmountZero) && post == pre
    } else if !pre.spec_is_minter(caller_acc) {
        r == Err::<(), Error>(Error::Unauthorized) && post == pre
    } else if amount_cnt > MAX_PER_CALL {
        r == Err::<(), Error>(Error::Overflow) && post == pre
    } else {
        let m = mint_room(pre, caller_acc, amount_cnt as int);
        &&& r == (if m == amount_cnt {
            Ok::<(), Error>(())
        } else {
            Err::<(), Error>(Error::Overflow)
        })
        &&& minted_state(pre, caller_acc, m, post)
    }
}

/// The page of `owner_acc`'s dense slots in `[start_index,
/// min(count, start_index + limit_cnt))`: the items as currently laid
/// out, which is insertion order only until a removal has swapped slots.
pub open spec fn page_of(
    pre: NFMoo,
    owner_acc: AccountId,
    start_index: u32,
    limit_cnt: u32,
) -> Seq<TokenId> {
    let c = pre.spec_count(owner_acc) as int;
    if start_index >= c || limit_cnt == 0 {
        Seq::empty()
    } else {
        let end = if c < start_index + limit_cnt {
            c
        } else {
            start_index + limit_cnt
        };
        Seq::new(
            (end - start_index) as nat,
            |q: int| pre.spec_slot(owner_acc, (start_index + q) as u32)->Some_0,
        )
    }
}

impl NFMoo {
    /// Owner of an item; `None` when it was never minted or is burned.
    pub open spec fn spec_owner_of(self, token_id: TokenId) -> Option<AccountId> {
        sfind(self.owner_by_id@, token_id)
    }

    /// Number of items currently owned by `owner_acc`.
    pub open spec fn spec_count(self, owner_acc: AccountId) -> u32 {
        count_of(self.owned_count@, owner_acc)
    }

    /// The item in owner `owner_acc`'s slot `index_val`, if occupied.
    pub open spec fn spec_slot(self, owner_acc: AccountId, index_val: u32) -> Option<TokenId> {
        slot_of(self.tokens_by_owner@, owner_acc, index_val)
    }

    /// The slot an item sits in within its owner's dense table.
    pub open spec fn spec_index_of(self, token_id: TokenId) -> Option<u32> {
        sfind(self.owned_index@, token_id)
    }

    /// The single account approved to move this one item, if any.
    pub open spec fn spec_approved(self, token_id: TokenId) -> Option<AccountId> {
        sfind(self.token_approval@, token_id)
    }

    /// Whether `operator_acc` holds a blanket approval from `owner_acc`.
    pub open spec fn spec_operator(self, owner_acc: AccountId, operator_acc: AccountId) -> bool {
        sget_or(self.operator_approval@, operator_key(owner_acc, operator_acc), false)
    }

    /// Whether an account currently holds the minter role.
    pub open spec fn spec_is_minter(self, minter_acc: AccountId) -> bool {
        sget_or(self.is_minter@, minter_acc, false)
    }

    /// Whether `caller_acc` may move `token_id`: it is the owner, holds
    /// the item's single approval, or is a blanket operator of the owner.
    pub open spec fn spec_authorized(self, caller_acc: AccountId, token_id: TokenId) -> bool {
        match self.spec_owner_of(token_id) {
            Some(owner_acc) => caller_acc == owner_acc || self.spec_approved(token_id) == Some(
                caller_acc,
            ) || self.spec_operator(owner_acc, caller_acc),
            None => false,
        }
    }

    /// Well-formedness: the tables are maps (unique keys), the dense
    /// index and the reverse index agree bijectively with the owner
    /// table, approvals name live items, ids stay below the id counter,
    /// and the supply counter equals the number of live items.
    pub open spec fn wf(self) -> bool {
        &&& unique_keys(self.is_minter@)
        &&& unique_keys(self.owner_by_id@)
        &&& unique_keys(self.owned_count@)
        &&& unique_keys(self.tokens_by_owner@)
        &&& unique_keys(self.owned_index@)
        &&& unique_keys(self.token_approval@)
        &&& unique_keys(self.operator_approval@)
        &&& slots_indexed(self.owner_by_id@, self.owned_count@, self.tokens_by_owner@, self.owned_index@)
        &&& tokens_indexed(self.owner_by_id@, self.owned_count@, self.tokens_by_owner@, self.owned_index@)
        &&& approvals_live(self.token_approval@, self.owner_by_id@)
        &&& ids_below(self.owner_by_id@, self.next_id)
        &&& self.supply_cnt as int == self.owner_by_id@.len()
        &&& self.supply_cnt <= self.next_id
    }

    /// A fresh registry owned by the constructing caller: unpaused, no
    /// minters, empty, with an optional fixed ceiling on total supply.
    pub fn new(caller_acc: AccountId, max_supply_opt: Option<u128>) -> (r: NFMoo)
        ensures
            r.wf(),
            r.owner_acc == caller_acc,
            !r.paused_flag,
            r.is_minter@ == Seq::<(AccountId, bool)>::empty(),
            r.max_supply_opt == max_supply_opt,
            r.supply_cnt == 0,
            r.next_id == 0,
            r.owner_by_id@ == Seq::<(TokenId, AccountId)>::empty(),
            r.owned_count@ == Seq::<(AccountId, u32)>::empty(),
            r.tokens_by_owner@ == Seq::<(SlotKey, TokenId)>::empty(),
            r.owned_index@ == Seq::<(TokenId, u32)>::empty(),
            r.token_approval@ == Seq::<(TokenId, AccountId)>::empty(),
            r.operator_approval@ == Seq::<(OperatorKey, bool)>::empty(),
            r.storage_ver_u32 == 1,
            r.event_log@ == Seq::<Event>::empty(),
    {
        let r = NFMoo {
            owner_acc: caller_acc,
            paused_flag: false,
            is_minter: AList::new(),
            max_supply_opt,
            supply_cnt: 0,
            next_id: 0,
            owner_by_id: AList::new(),
            owned_count: AList::new(),
            tokens_by_owner: AList::new(),
            owned_index: AList::new(),
            token_approval: AList::new(),
            operator_approval: AList::new(),
            storage_ver_u32: 1,
            event_log: Vec::new(),
        };
        proof {
            assert forall|owner_acc: AccountId, index_val: u32|
                #[trigger] slot_entry_ok(
                    r.owner_by_id@,
                    r.owned_count@,
                    r.tokens_by_owner@,
                    r.owned_index@,
                    owner_acc,
                    index_val,
                ) by {
                assert(sfind(r.tokens_by_owner@, slot_key(owner_acc, index_val)) is None);
                assert(sfind(r.owned_count@, owner_acc) is None);
            }
            assert forall|token_id: TokenId|
                #[trigger] token_entry_ok(
                    r.owner_by_id@,
                    r.owned_count@,
                    r.tokens_by_owner@,
                    r.owned_index@,
                    token_id,
                ) by {
                assert(sfind(r.owner_by_id@, token_id) is None);
                assert(sfind(r.owned_index@, token_id) is None);
            }
            assert forall|token_id: TokenId| !(#[trigger] sfind(
                r.token_approval@,
                token_id,
            ) is Some) by {
                assert(sfind(r.token_approval@, token_id) is None);
            }
            assert forall|token_id: TokenId| !(#[trigger] sfind(
                r.owner_by_id@,
                token_id,
            ) is Some) by {
                assert(sfind(r.owner_by_id@, token_id) is None);
            }
        }
        r
    }

    /// Guard: only the fixed owner may call.
    fn only_owner(&self, caller_acc: AccountId) -> (r: Result<(), Error>)
        ensures
            r == (if caller_acc != self.owner_acc {
                Err::<(), Error>(Error::NotOwner)
            } else {
                Ok::<(), Error>(())
            }),
    {
        if caller_acc != self.owner_acc {
            return Err(Error::NotOwner);
        }
        Ok(())
    }

    /// Guard: mutating item operations are refused while paused.
    fn when_not_paused(&self) -> (r: Result<(), Error>)
        ensures
            r == (if self.paused_flag {
                Err::<(), Error>(Error::Paused)
            } else {
                Ok::<(), Error>(())
            }),
    {
        if self.paused_flag {
            return Err(Error::Paused);
        }
        Ok(())
    }

    /// Guard: the caller must be owner, approved for the item, or a
    /// blanket operator of the owner.
    fn is_approved_or_owner(&self, caller_acc: AccountId, token_id: TokenId) -> (r: Result<
        (),
        Error,
    >)
        ensures
            r == (if self.spec_owner_of(token_id) is None {
                Err::<(), Error>(Error::TokenMissing)
            } else if self.spec_authorized(caller_acc, token_id) {
                Ok::<(), Error>(())
            } else {
                Err::<(), Error>(Error::NotApproved)
            }),
    {
        let owner_acc = match self.owner_by_id.get(token_id) {
            Some(a) => a,
            None => {
                return Err(Error::TokenMissing);
            },
        };
        if caller_acc == owner_acc {
            return Ok(());
        }
        match self.token_approval.get(token_id) {
            Some(approved_acc) => {
                if approved_acc == caller_acc {
                    return Ok(());
                }
            },
            None => {},
        }
        let operator_flag = match self.operator_approval.get(
            OperatorKey { owner_acc, operator_acc: caller_acc },
        ) {
            Some(b) => b,
            None => false,
        };
        if operator_flag {
            return Ok(());
        }
        Err(Error::NotApproved)
    }

    /// Flip the pause switch (owner only). Setting the current value
    /// again is allowed and succeeds.
    pub fn set_pause(&mut self, caller_acc: AccountId, paused_flag: bool) -> (r: Result<
        (),
        Error,
    >)
        requires
            old(self).wf(),
        ensures
            final(self).wf(),
            set_pause_rel(*old(self), caller_acc, paused_flag, *final(self), r),
    {
        if let Err(e) = self.only_owner(caller_acc) {
            return Err(e);
        }
        self.paused_flag = paused_flag;
        self.event_log.push(Event::PausedSet(PausedSet { paused_flag }));
        Ok(())
    }

    /// Grant or revoke the minter role (owner only).
    pub fn set_minter(
        &mut self,
        caller_acc: AccountId,
        minter_acc: AccountId,
        enabled_flag: bool,
    ) -> (r: Result<(), Error>)
        requires
            old(self).wf(),
        ensures
            final(self).wf(),
            set_minter_rel(*old(self), caller_acc, minter_acc, enabled_flag, *final(self), r),
    {
        if let Err(e) = self.only_owner(caller_acc) {
            return Err(e);
        }
        self.is_minter.set(minter_acc, enabled_flag);
        self.event_log.push(Event::MinterSet(MinterSet { minter_acc, enabled_flag }));
        Ok(())
    }

    /// Grant a single-item approval (current owner only; overwrites).
    pub fn approve(&mut self, caller_acc: AccountId, approved_acc: AccountId, token_id: TokenId)
        -> (r: Result<(), Error>)
        requires
            old(self).wf(),
        ensures
            final(self).wf(),
            approve_rel(*old(self), caller_acc, approved_acc, token_id, *final(self), r),
    {
        if let Err(e) = self.when_not_paused() {
            return Err(e);
        }
        let owner_acc = match self.owner_by_id.get(token_id) {
            Some(a) => a,
            None => {
                return Err(Error::TokenMissing);
            },
        };
        if owner_acc != caller_acc {
            return Err(Error::NotOwner);
        }
        self.token_approval.set(token_id, approved_acc);
        proof {
            assert forall|q: TokenId| #![trigger sfind(self.token_approval@, q)]
                sfind(self.token_approval@, q) is Some implies shas(self.owner_by_id@, q) by {
                if q != token_id {
                    assert(sfind(old(self).token_approval@, q) is Some);
                }
            }
        }
        self.event_log.push(
            Event::Approval(NFApproval { owner_acc: caller_acc, approved_acc, token_id }),
        );
        Ok(())
    }

    /// Grant or revoke a blanket operator approval for the caller's
    /// items; approving oneself is refused.
    pub fn set_approval_for_all(
        &mut self,
        caller_acc: AccountId,
        operator_acc: AccountId,
        approved_flag: bool,
    ) -> (r: Result<(), Error>)
        requires
            old(self).wf(),
        ensures
            final(self).wf(),
            set_approval_for_all_rel(
                *old(self),
                caller_acc,
                operator_acc,
                approved_flag,
                *final(self),
                r,
            ),
    {
        if let Err(e) = self.when_not_paused() {
            return Err(e);
        }
        if caller_acc == operator_acc {
            return Err(Error::SameAccount);
        }
        self.operator_approval.set(
            OperatorKey { owner_acc: caller_acc, operator_acc },
            approved_flag,
        );
        self.event_log.push(
            Event::ApprovalForAll(
                NFApprovalForAll { owner_acc: caller_acc, operator_acc, approved_flag },
            ),
        );
        Ok(())
    }

    /// The single account approved for this item, if any.
    pub fn get_approved(&self, token_id: TokenId) -> (r: Option<AccountId>)
        ensures
            r == self.spec_approved(token_id),
    {
        self.token_approval.get(token_id)
    }

    /// Whether `operator_acc` holds a blanket approval from `owner_acc`.
    pub fn is_approved_for_all(&self, owner_acc: AccountId, operator_acc: AccountId) -> (r: bool)
        ensures
            r == self.spec_operator(owner_acc, operator_acc),
    {
        match self.operator_approval.get(OperatorKey { owner_acc, operator_acc }) {
            Some(b) => b,
            None => false,
        }
    }

    /// Who owns this item, if it exists.
    pub fn owner_of(&self, token_id: TokenId) -> (r: Option<AccountId>)
        ensures
            r == self.spec_owner_of(token_id),
    {
        self.owner_by_id.get(token_id)
    }

    /// How many items this account owns.
    pub fn balance_of(&self, owner_acc: AccountId) -> (r: u32)
        ensures
            r == self.spec_count(owner_acc),
    {
        match self.owned_count.get(owner_acc) {
            Some(c) => c,
            None => 0,
        }
    }

    /// Drop the single-item approval of `token_id`, if any.
    fn clear_token_approval(&mut self, token_id: TokenId)
        ensures
            final(self).token_approval@ == sremove(old(self).token_approval@, token_id),
            unique_keys(old(self).token_approval@) ==> unique_keys(final(self).token_approval@),
            final(self).owner_acc == old(self).owner_acc,
            final(self).paused_flag == old(self).paused_flag,
            final(self).is_minter@ == old(self).is_minter@,
            final(self).max_supply_opt == old(self).max_supply_opt,
            final(self).storage_ver_u32 == old(self).storage_ver_u32,
            items_unchanged(*old(self), *final(self)),
            final(self).operator_approval@ == old(self).operator_approval@,
            final(self).event_log@ == old(self).event_log@,
    {
        self.token_approval.remove(token_id);
    }

    /// Append `token_id` at the end of `to_acc`'s dense slot table and
    /// index it there. Touches only the three index tables; the owner
    /// table is the caller's to update.
    fn add_token_to_owner(&mut self, to_acc: AccountId, token_id: TokenId)
        requires
            unique_keys(old(self).owned_count@),
            unique_keys(old(self).tokens_by_owner@),
            unique_keys(old(self).owned_index@),
            old(self).spec_count(to_acc) < u32::MAX,
        ensures
            unique_keys(final(self).owned_count@),
            unique_keys(final(self).tokens_by_owner@),
            unique_keys(final(self).owned_index@),
            final(self).owned_count@ == sset(
                old(self).owned_count@,
                to_acc,
                (old(self).spec_count(to_acc) + 1) as u32,
            ),
            final(self).tokens_by_owner@ == sset(
                old(self).tokens_by_owner@,
                slot_key(to_acc, old(self).spec_count(to_acc)),
                token_id,
            ),
            final(self).owned_index@ == sset(
                old(self).owned_index@,
                token_id,
                old(self).spec_count(to_acc),
            ),
            final(self).owner_acc == old(self).owner_acc,
            final(self).paused_flag == old(self).paused_flag,
            final(self).is_minter@ == old(self).is_minter@,
            final(self).max_supply_opt == old(self).max_supply_opt,
            final(self).storage_ver_u32 == old(self).storage_ver_u32,
            final(self).supply_cnt == old(self).supply_cnt,
            final(self).next_id == old(self).next_id,
            final(self).owner_by_id@ == old(self).owner_by_id@,
            final(self).token_approval@ == old(self).token_approval@,
            final(self).operator_approval@ == old(self).operator_approval@,
            final(self).event_log@ == old(self).event_log@,
    {
        let count_val = self.balance_of(to_acc);
        self.tokens_by_owner.set(SlotKey { owner_acc: to_acc, index_val: count_val }, token_id);
        self.owned_index.set(token_id, count_val);
        self.owned_count.set(to_acc, count_val + 1);
    }

    /// Remove `token_id` from `from_acc`'s dense slot table by the
    /// swap-with-last scheme: the item in the last slot moves into the
    /// vacated slot (when different), the last slot is cleared and the
    /// count drops by one. Touches only the three index tables.
    fn remove_token_from_owner(&mut self, from_acc: AccountId, token_id: TokenId)
        requires
            unique_keys(old(self).owned_count@),
            unique_keys(old(self).tokens_by_owner@),
            unique_keys(old(self).owned_index@),
            slots_indexed(
                old(self).owner_by_id@,
                old(self).owned_count@,
                old(self).tokens_by_owner@,
                old(self).owned_index@,
            ),
            tokens_indexed(
                old(self).owner_by_id@,
                old(self).owned_count@,
                old(self).tokens_by_owner@,
                old(self).owned_index@,
            ),
            old(self).spec_owner_of(token_id) == Some(from_acc),
        ensures
            unique_keys(final(self).owned_count@),
            unique_keys(final(self).tokens_by_owner@),
            unique_keys(final(self).owned_index@),
            ({
                let c = old(self).spec_count(from_acc);
                let j = old(self).spec_index_of(token_id)->Some_0;
                let last_tok = old(self).spec_slot(from_acc, (c - 1) as u32)->Some_0;
                &&& c >= 1
                &&& old(self).spec_index_of(token_id) == Some(j)
                &&& j < c
                &&& old(self).spec_slot(from_acc, (c - 1) as u32) == Some(last_tok)
                &&& final(self).owned_count@ == sset(
                    old(self).owned_count@,
                    from_acc,
                    (c - 1) as u32,
                )
                &&& (forall|a: AccountId, i: u32| #![trigger final(self).spec_slot(a, i)]
                    final(self).spec_slot(a, i) == (if a == from_acc && i == (c - 1) as u32 {
                        None::<TokenId>
                    } else if a == from_acc && i == j && j != (c - 1) as u32 {
                        Some(last_tok)
                    } else {
                        old(self).spec_slot(a, i)
                    }))
                &&& (forall|t: TokenId| #![trigger final(self).spec_index_of(t)]
                    final(self).spec_index_of(t) == (if t == token_id {
                        None::<u32>
                    } else if t == last_tok && j != (c - 1) as u32 {
                        Some(j)
                    } else {
                        old(self).spec_index_of(t)
                    }))
            }),
            final(self).owner_acc == old(self).owner_acc,
            final(self).paused_flag == old(self).paused_flag,
            final(self).is_minter@ == old(self).is_minter@,
            final(self).max_supply_opt == old(self).max_supply_opt,
            final(self).storage_ver_u32 == old(self).storage_ver_u32,
            final(self).supply_cnt == old(self).supply_cnt,
            final(self).next_id == old(self).next_id,
            final(self).owner_by_id@ == old(self).owner_by_id@,
            final(self).token_approval@ == old(self).token_approval@,
            final(self).operator_approval@ == old(self).operator_approval@,
            final(self).event_log@ == old(self).event_log@,
    {
        proof {
            assert(token_entry_ok(
                old(self).owner_by_id@,
                old(self).owned_count@,
                old(self).tokens_by_owner@,
                old(self).owned_index@,
                token_id,
            ));
        }
        let count_val = self.balance_of(from_acc);
        let remove_index = match self.owned_index.get(token_id) {
            Some(i) => i,
            None => {
                return;
            },
        };
        let last_index = count_val - 1;
        proof {
            assert(slot_entry_ok(
                old(self).owner_by_id@,
                old(self).owned_count@,
                old(self).tokens_by_owner@,
                old(self).owned_index@,
                from_acc,
                last_index,
            ));
        }
        let last_token = match self.tokens_by_owner.get(
            SlotKey { owner_acc: from_acc, index_val: last_index },
        ) {
            Some(t) => t,
            None => {
                return;
            },
        };
        let ghost tb0 = self.tokens_by_owner@;
        let ghost oi0 = self.owned_index@;
        if last_index != remove_index {
            self.tokens_by_owner.set(
                SlotKey { owner_acc: from_acc, index_val: remove_index },
                last_token,
            );
            self.owned_index.set(last_token, remove_index);
        }
        self.tokens_by_owner.remove(SlotKey { owner_acc: from_acc, index_val: last_index });
        self.owned_index.remove(token_id);
        self.owned_count.set(from_acc, last_index);
        proof {
            let c = count_val;
            let j = remove_index;
            if last_index != remove_index {
                assert(last_token != token_id);
                assert forall|a: AccountId, i: u32|
                    #![trigger final(self).spec_slot(a, i)]
                    final(self).spec_slot(a, i) == (if a == from_acc && i == (c - 1) as u32 {
                        None::<TokenId>
                    } else if a == from_acc && i == j && j != (c - 1) as u32 {
                        Some(last_token)
                    } else {
                        old(self).spec_slot(a, i)
                    }) by {
                    let key = slot_key(a, i);
                    assert(sfind(self.tokens_by_owner@, key) == sfind(
                        sremove(sset(tb0, slot_key(from_acc, j), last_token), slot_key(
                            from_acc,
                            last_index,
                        )),
                        key,
                    ));
                }
                assert forall|t: TokenId|
                    #![trigger final(self).spec_index_of(t)]
                    final(self).spec_index_of(t) == (if t == token_id {
                        None::<u32>
                    } else if t == last_token && j != (c - 1) as u32 {
                        Some(j)
                    } else {
                        old(self).spec_index_of(t)
                    }) by {
                    assert(sfind(self.owned_index@, t) == sfind(
                        sremove(sset(oi0, last_token, j), token_id),
                        t,
                    ));
                }
            } else {
                assert(last_token == token_id);
                assert forall|a: AccountId, i: u32|
                    #![trigger final(self).spec_slot(a, i)]
                    final(self).spec_slot(a, i) == (if a == from_acc && i == (c - 1) as u32 {
                        None::<TokenId>
                    } else {
                        old(self).spec_slot(a, i)
                    }) by {
                    let key = slot_key(a, i);
                    assert(sfind(self.tokens_by_owner@, key) == sfind(
                        sremove(tb0, slot_key(from_acc, last_index)),
                        key,
                    ));
                }
                assert forall|t: TokenId|
                    #![trigger final(self).spec_index_of(t)]
                    final(self).spec_index_of(t) == (if t == token_id {
                        None::<u32>
                    } else {
                        old(self).spec_index_of(t)
                    }) by {
                    assert(sfind(self.owned_index@, t) == sfind(sremove(oi0, token_id), t));
                }
            }
        }
    }

    /// Move an item to a new owner. The caller must be the item's
    /// owner, hold its single approval, or be a blanket operator of its
    /// owner; the single approval is cleared and both owners' dense
    /// tables are maintained by swap-with-last.
    pub fn transfer(&mut self, caller_acc: AccountId, to_acc: AccountId, token_id: TokenId) -> (r:
        Result<(), Error>)
        requires
            old(self).wf(),
        ensures
            final(self).wf(),
            transfer_rel(*old(self), caller_acc, to_acc, token_id, *final(self), r),
    {
        if let Err(e) = self.when_not_paused() {
            return Err(e);
        }
        if let Err(e) = self.is_approved_or_owner(caller_acc, token_id) {
            return Err(e);
        }
        let from_acc = match self.owner_by_id.get(token_id) {
            Some(a) => a,
            None => {
                return Err(Error::TokenMissing);
            },
        };
        if from_acc == to_acc {
            return Err(Error::SameAccount);
        }
        let to_count = self.balance_of(to_acc);
        if to_count == u32::MAX {
            return Err(Error::Overflow);
        }
        let ghost pre = *old(self);
        let ghost c = pre.spec_count(from_acc);
        let ghost j = pre.spec_index_of(token_id)->Some_0;
        let ghost last_tok = pre.spec_slot(from_acc, (c - 1) as u32)->Some_0;
        proof {
            assert(token_entry_ok(
                pre.owner_by_id@,
                pre.owned_count@,
                pre.tokens_by_owner@,
                pre.owned_index@,
                token_id,
            ));
            assert(slot_entry_ok(
                pre.owner_by_id@,
                pre.owned_count@,
                pre.tokens_by_owner@,
                pre.owned_index@,
                from_acc,
                (c - 1) as u32,
            ));
        }
        self.clear_token_approval(token_id);
        self.remove_token_from_owner(from_acc, token_id);
        let ghost s2 = *self;
        self.owner_by_id.set(token_id, to_acc);
        proof {
            assert(self.spec_count(to_acc) == to_count);
        }
        self.add_token_to_owner(to_acc, token_id);
        self.event_log.push(Event::Transferred(NFTransferred { from_acc, to_acc, token_id }));
        proof {
            self.lemma_after_item_moved(pre, s2, from_acc, to_acc, token_id);
        }
        Ok(())
    }

    /// Burn an item: only the current owner itself may do so. The
    /// approval is cleared, the item leaves the owner's dense table by
    /// swap-with-last, its owner entry is deleted and the supply drops.
    pub fn burn(&mut self, caller_acc: AccountId, token_id: TokenId) -> (r: Result<(), Error>)
        requires
            old(self).wf(),
        ensures
            final(self).wf(),
            burn_rel(*old(self), caller_acc, token_id, *final(self), r),
    {
        if let Err(e) = self.when_not_paused() {
            return Err(e);
        }
        let from_acc = match self.owner_by_id.get(token_id) {
            Some(a) => a,
            None => {
                return Err(Error::TokenMissing);
            },
        };
        if from_acc != caller_acc {
            return Err(Error::NotOwner);
        }
        let ghost pre = *old(self);
        let ghost c = pre.spec_count(from_acc);
        let ghost j = pre.spec_index_of(token_id)->Some_0;
        let ghost last_tok = pre.spec_slot(from_acc, (c - 1) as u32)->Some_0;
        proof {
            assert(token_entry_ok(
                pre.owner_by_id@,
                pre.owned_count@,
                pre.tokens_by_owner@,
                pre.owned_index@,
                token_id,
            ));
            assert(slot_entry_ok(
                pre.owner_by_id@,
                pre.owned_count@,
                pre.tokens_by_owner@,
                pre.owned_index@,
                from_acc,
                (c - 1) as u32,
            ));
            if pre.owner_by_id@.len() == 0 {
                assert(sfind(pre.owner_by_id@, token_id) is None);
            }
        }
        self.clear_token_approval(token_id);
        self.remove_token_from_owner(from_acc, token_id);
        let ghost s2 = *self;
        self.owner_by_id.remove(token_id);
        self.supply_cnt = self.supply_cnt - 1;
        self.event_log.push(Event::Burned(NFBurned { from_acc, token_id }));
        proof {
            self.lemma_after_item_burned(pre, s2, from_acc, token_id);
        }
        Ok(())
    }

    /// After a transfer's four table updates, the registry is well
    /// formed again and relates to the pre-state as the transfer
    /// relation describes. `s2` is the state after the approval was
    /// cleared and the item left the old owner's dense table.
    proof fn lemma_after_item_moved(
        &self,
        pre: NFMoo,
        s2: NFMoo,
        from_acc: AccountId,
        to_acc: AccountId,
        token_id: TokenId,
    )
        requires
            pre.wf(),
            pre.spec_owner_of(token_id) == Some(from_acc),
            from_acc != to_acc,
            pre.spec_count(to_acc) < u32::MAX,
            // state after clearing the approval and unindexing the item
            s2.token_approval@ == sremove(pre.token_approval@, token_id),
            unique_keys(s2.token_approval@),
            unique_keys(s2.owned_count@),
            unique_keys(s2.tokens_by_owner@),
            unique_keys(s2.owned_index@),
            s2.owned_count@ == sset(
                pre.owned_count@,
                from_acc,
                (pre.spec_count(from_acc) - 1) as u32,
            ),
            (forall|a: AccountId, i: u32| #![trigger s2.spec_slot(a, i)]
                s2.spec_slot(a, i) == (if a == from_acc && i == (pre.spec_count(from_acc)
                    - 1) as u32 {
                    None::<TokenId>
                } else if a == from_acc && i == pre.spec_index_of(token_id)->Some_0
                    && pre.spec_index_of(token_id)->Some_0 != (pre.spec_count(from_acc)
                    - 1) as u32 {
                    Some(pre.spec_slot(from_acc, (pre.spec_count(from_acc) - 1) as u32)->Some_0)
                } else {
                    pre.spec_slot(a, i)
                })),
            (forall|t: TokenId| #![trigger s2.spec_index_of(t)]
                s2.spec_index_of(t) == (if t == token_id {
                    None::<u32>
                } else if t == pre.spec_slot(
                    from_acc,
                    (pre.spec_count(from_acc) - 1) as u32,
                )->Some_0 && pre.spec_index_of(token_id)->Some_0 != (pre.spec_count(from_acc)
                    - 1) as u32 {
                    Some(pre.spec_index_of(token_id)->Some_0)
                } else {
                    pre.spec_index_of(t)
                })),
            s2.owner_by_id@ == pre.owner_by_id@,
            // the final state: owner rewritten, item appended at the new end
            self.owner_by_id@ == sset(pre.owner_by_id@, token_id, to_acc),
            self.owned_count@ == sset(
                s2.owned_count@,
                to_acc,
                (pre.spec_count(to_acc) + 1) as u32,
            ),
            self.tokens_by_owner@ == sset(
                s2.tokens_by_owner@,
                slot_key(to_acc, pre.spec_count(to_acc)),
                token_id,
            ),
            self.owned_index@ == sset(s2.owned_index@, token_id, pre.spec_count(to_acc)),
            self.token_approval@ == s2.token_approval@,
            self.operator_approval@ == pre.operator_approval@,
            self.is_minter@ == pre.is_minter@,
            self.owner_acc == pre.owner_acc,
            self.paused_flag == pre.paused_flag,
            self.max_supply_opt == pre.max_supply_opt,
            self.storage_ver_u32 == pre.storage_ver_u32,
            self.supply_cnt == pre.supply_cnt,
            self.next_id == pre.next_id,
            unique_keys(self.owner_by_id@),
            unique_keys(self.owned_count@),
            unique_keys(self.tokens_by_owner@),
            unique_keys(self.owned_index@),
            self.owner_by_id@.len() == pre.owner_by_id@.len(),
            self.event_log@ == pre.event_log@.push(
                Event::Transferred(NFTransferred { from_acc, to_acc, token_id }),
            ),
        ensures
            self.wf(),
            // the pointwise shape shared with the transfer relation
            (forall|t: TokenId| #![trigger self.spec_owner_of(t)]
                self.spec_owner_of(t) == (if t == token_id {
                    Some(to_acc)
                } else {
                    pre.spec_owner_of(t)
                })),
            self.spec_count(from_acc) == pre.spec_count(from_acc) - 1,
            self.spec_count(to_acc) == pre.spec_count(to_acc) + 1,
            (forall|a: AccountId| #![trigger self.spec_count(a)]
                a != from_acc && a != to_acc ==> self.spec_count(a) == pre.spec_count(a)),
            (forall|a: AccountId, i: u32| #![trigger self.spec_slot(a, i)]
                self.spec_slot(a, i) == (if a == from_acc && i == (pre.spec_count(from_acc)
                    - 1) as u32 {
                    None::<TokenId>
                } else if a == from_acc && i == pre.spec_index_of(token_id)->Some_0
                    && pre.spec_index_of(token_id)->Some_0 != (pre.spec_count(from_acc)
                    - 1) as u32 {
                    Some(pre.spec_slot(from_acc, (pre.spec_count(from_acc) - 1) as u32)->Some_0)
                } else if a == to_acc && i == pre.spec_count(to_acc) {
                    Some(token_id)
                } else {
                    pre.spec_slot(a, i)
                })),
            (forall|t: TokenId| #![trigger self.spec_index_of(t)]
                self.spec_index_of(t) == (if t == token_id {
                    Some(pre.spec_count(to_acc))
                } else if t == pre.spec_slot(
                    from_acc,
                    (pre.spec_count(from_acc) - 1) as u32,
                )->Some_0 && pre.spec_index_of(token_id)->Some_0 != (pre.spec_count(from_acc)
                    - 1) as u32 {
                    Some(pre.spec_index_of(token_id)->Some_0)
                } else {
                    pre.spec_index_of(t)
                })),
            (forall|t: TokenId| #![trigger self.spec_approved(t)]
                self.spec_approved(t) == (if t == token_id {
                    None::<AccountId>
                } else {
                    pre.spec_approved(t)
                })),
    {
        let c = pre.spec_count(from_acc);
        let j = pre.spec_index_of(token_id)->Some_0;
        let last_tok = pre.spec_slot(from_acc, (c - 1) as u32)->Some_0;
        let n = pre.spec_count(to_acc);
        assert(token_entry_ok(
            pre.owner_by_id@,
            pre.owned_count@,
            pre.tokens_by_owner@,
            pre.owned_index@,
            token_id,
        ));
        assert(slot_entry_ok(
            pre.owner_by_id@,
            pre.owned_count@,
            pre.tokens_by_owner@,
            pre.owned_index@,
            from_acc,
            (c - 1) as u32,
        ));
        assert(slot_entry_ok(
            pre.owner_by_id@,
            pre.owned_count@,
            pre.tokens_by_owner@,
            pre.owned_index@,
            to_acc,
            n,
        ));
        // counts, pointwise
        assert(self.spec_count(from_acc) == c - 1);
        assert(self.spec_count(to_acc) == n + 1);
        // slots, pointwise
        assert forall|a: AccountId, i: u32|
            #![trigger self.spec_slot(a, i)]
            self.spec_slot(a, i) == (if a == from_acc && i == (c - 1) as u32 {
                None::<TokenId>
            } else if a == from_acc && i == j && j != (c - 1) as u32 {
                Some(last_tok)
            } else if a == to_acc && i == n {
                Some(token_id)
            } else {
                pre.spec_slot(a, i)
            }) by {
            assert(sfind(self.tokens_by_owner@, slot_key(a, i)) == (if slot_key(a, i) == slot_key(
                to_acc,
                n,
            ) {
                Some(token_id)
            } else {
                sfind(s2.tokens_by_owner@, slot_key(a, i))
            }));
            assert(s2.spec_slot(a, i) == (if a == from_acc && i == (c - 1) as u32 {
                None::<TokenId>
            } else if a == from_acc && i == j && j != (c - 1) as u32 {
                Some(last_tok)
            } else {
                pre.spec_slot(a, i)
            }));
            if a == to_acc && i == n {
                assert(slot_entry_ok(
                    pre.owner_by_id@,
                    pre.owned_count@,
                    pre.tokens_by_owner@,
                    pre.owned_index@,
                    to_acc,
                    n,
                ));
            }
        }
        // reverse index, pointwise
        assert forall|t: TokenId|
            #![trigger self.spec_index_of(t)]
            self.spec_index_of(t) == (if t == token_id {
                Some(n)
            } else if t == last_tok && j != (c - 1) as u32 {
                Some(j)
            } else {
                pre.spec_index_of(t)
            }) by {
            assert(sfind(self.owned_index@, t) == (if t == token_id {
                Some(n)
            } else {
                sfind(s2.owned_index@, t)
            }));
            assert(s2.spec_index_of(t) == (if t == token_id {
                None::<u32>
            } else if t == last_tok && j != (c - 1) as u32 {
                Some(j)
            } else {
                pre.spec_index_of(t)
            }));
        }
        // owners and approvals, pointwise
        assert forall|t: TokenId|
            #![trigger self.spec_owner_of(t)]
            self.spec_owner_of(t) == (if t == token_id {
                Some(to_acc)
            } else {
                pre.spec_owner_of(t)
            }) by {
            assert(sfind(self.owner_by_id@, t) == (if t == token_id {
                Some(to_acc)
            } else {
                sfind(pre.owner_by_id@, t)
            }));
        }
        assert forall|t: TokenId|
            #![trigger self.spec_approved(t)]
            self.spec_approved(t) == (if t == token_id {
                None::<AccountId>
            } else {
                pre.spec_approved(t)
            }) by {
            assert(sfind(self.token_approval@, t) == sfind(
                sremove(pre.token_approval@, token_id),
                t,
            ));
        }
        // well-formedness
        assert forall|a: AccountId, i: u32|
            #[trigger] slot_entry_ok(
                self.owner_by_id@,
                self.owned_count@,
                self.tokens_by_owner@,
                self.owned_index@,
                a,
                i,
            ) by {
            assert(slot_entry_ok(
                pre.owner_by_id@,
                pre.owned_count@,
                pre.tokens_by_owner@,
                pre.owned_index@,
                a,
                i,
            ));
            assert(self.spec_slot(a, i) == (if a == from_acc && i == (c - 1) as u32 {
                None::<TokenId>
            } else if a == from_acc && i == j && j != (c - 1) as u32 {
                Some(last_tok)
            } else if a == to_acc && i == n {
                Some(token_id)
            } else {
                pre.spec_slot(a, i)
            }));
            if !(a == from_acc && i == (c - 1) as u32) && !(a == from_acc && i == j && j != (c
                - 1) as u32) && !(a == to_acc && i == n) {
                match pre.spec_slot(a, i) {
                    Some(t2) => {
                        assert(sfind(pre.owned_index@, t2) == Some(i));
                        assert(sfind(pre.owner_by_id@, t2) == Some(a));
                        assert(t2 != token_id);
                        assert(t2 != last_tok || (a == from_acc && i == (c - 1) as u32));
                        assert(self.spec_owner_of(t2) == Some(a));
                        assert(self.spec_index_of(t2) == Some(i));
                    },
                    None => {},
                }
            }
            if a == from_acc && i == j && j != (c - 1) as u32 {
                assert(self.spec_owner_of(last_tok) == Some(from_acc));
                assert(self.spec_index_of(last_tok) == Some(j));
            }
            if a == to_acc && i == n {
                assert(self.spec_owner_of(token_id) == Some(to_acc));
                assert(self.spec_index_of(token_id) == Some(n));
            }
        }
        assert forall|t: TokenId|
            #[trigger] token_entry_ok(
                self.owner_by_id@,
                self.owned_count@,
                self.tokens_by_owner@,
                self.owned_index@,
                t,
            ) by {
            assert(token_entry_ok(
                pre.owner_by_id@,
                pre.owned_count@,
                pre.tokens_by_owner@,
                pre.owned_index@,
                t,
            ));
            assert(self.spec_owner_of(t) == (if t == token_id {
                Some(to_acc)
            } else {
                pre.spec_owner_of(t)
            }));
            assert(self.spec_index_of(t) == (if t == token_id {
                Some(n)
            } else if t == last_tok && j != (c - 1) as u32 {
                Some(j)
            } else {
                pre.spec_index_of(t)
            }));
            if t == token_id {
                assert(self.spec_slot(to_acc, n) == Some(token_id));
            } else if t == last_tok && j != (c - 1) as u32 {
                assert(self.spec_slot(from_acc, j) == Some(last_tok));
            } else {
                match pre.spec_owner_of(t) {
                    Some(a2) => {
                        let i2 = pre.spec_index_of(t)->Some_0;
                        assert(pre.spec_slot(a2, i2) == Some(t));
                        assert(slot_entry_ok(
                            pre.owner_by_id@,
                            pre.owned_count@,
                            pre.tokens_by_owner@,
                            pre.owned_index@,
                            a2,
                            i2,
                        ));
                        assert(!(a2 == from_acc && i2 == (c - 1) as u32));
                        assert(!(a2 == from_acc && i2 == j && j != (c - 1) as u32));
                        assert(!(a2 == to_acc && i2 == n));
                        assert(self.spec_slot(a2, i2) == Some(t));
                    },
                    None => {},
                }
            }
        }
        assert forall|t: TokenId| #![trigger sfind(self.token_approval@, t)]
            sfind(self.token_approval@, t) is Some implies shas(self.owner_by_id@, t) by {
            assert(sfind(self.token_approval@, t) == sfind(
                sremove(pre.token_approval@, token_id),
                t,
            ));
            if t != token_id {
                assert(sfind(pre.token_approval@, t) is Some);
                assert(sfind(self.owner_by_id@, t) == sfind(pre.owner_by_id@, t));
            }
        }
        assert forall|t: TokenId| #![trigger sfind(self.owner_by_id@, t)]
            sfind(self.owner_by_id@, t) is Some implies t < self.next_id by {
            if t != token_id {
                assert(sfind(pre.owner_by_id@, t) == sfind(self.owner_by_id@, t));
            } else {
                assert(sfind(pre.owner_by_id@, token_id) is Some);
            }
        }
    }

    /// After a burn's table updates, the registry is well formed again
    /// and relates to the pre-state as the burn relation describes.
    /// `s2` is the state after the approval was cleared and the item
    /// left its owner's dense table.
    proof fn lemma_after_item_burned(
        &self,
        pre: NFMoo,
        s2: NFMoo,
        from_acc: AccountId,
        token_id: TokenId,
    )
        requires
            pre.wf(),
            pre.spec_owner_of(token_id) == Some(from_acc),
            // state after clearing the approval and unindexing the item
            s2.token_approval@ == sremove(pre.token_approval@, token_id),
            unique_keys(s2.token_approval@),
            unique_keys(s2.owned_count@),
            unique_keys(s2.tokens_by_owner@),
            unique_keys(s2.owned_index@),
            s2.owned_count@ == sset(
                pre.owned_count@,
                from_acc,
                (pre.spec_count(from_acc) - 1) as u32,
            ),
            (forall|a: AccountId, i: u32| #![trigger s2.spec_slot(a, i)]
                s2.spec_slot(a, i) == (if a == from_acc && i == (pre.spec_count(from_acc)
                    - 1) as u32 {
                    None::<TokenId>
                } else if a == from_acc && i == pre.spec_index_of(token_id)->Some_0
                    && pre.spec_index_of(token_id)->Some_0 != (pre.spec_count(from_acc)
                    - 1) as u32 {
                    Some(pre.spec_slot(from_acc, (pre.spec_count(from_acc) - 1) as u32)->Some_0)
                } else {
                    pre.spec_slot(a, i)
                })),
            (forall|t: TokenId| #![trigger s2.spec_index_of(t)]
                s2.spec_index_of(t) == (if t == token_id {
                    None::<u32>
                } else if t == pre.spec_slot(
                    from_acc,
                    (pre.spec_count(from_acc) - 1) as u32,
                )->Some_0 && pre.spec_index_of(token_id)->Some_0 != (pre.spec_count(from_acc)
                    - 1) as u32 {
                    Some(pre.spec_index_of(token_id)->Some_0)
                } else {
                    pre.spec_index_of(t)
                })),
            // the final state: the owner entry deleted, nothing appended
            self.owner_by_id@ == sremove(pre.owner_by_id@, token_id),
            self.owned_count@ == s2.owned_count@,
            self.tokens_by_owner@ == s2.tokens_by_owner@,
            self.owned_index@ == s2.owned_index@,
            self.token_approval@ == s2.token_approval@,
            self.operator_approval@ == pre.operator_approval@,
            self.is_minter@ == pre.is_minter@,
            self.owner_acc == pre.owner_acc,
            self.paused_flag == pre.paused_flag,
            self.max_supply_opt == pre.max_supply_opt,
            self.storage_ver_u32 == pre.storage_ver_u32,
            pre.supply_cnt >= 1,
            self.supply_cnt == pre.supply_cnt - 1,
            self.next_id == pre.next_id,
            unique_keys(self.owner_by_id@),
            self.owner_by_id@.len() == pre.owner_by_id@.len() - 1,
            self.event_log@ == pre.event_log@.push(
                Event::Burned(NFBurned { from_acc, token_id }),
            ),
        ensures
            self.wf(),
            (forall|t: TokenId| #![trigger self.spec_owner_of(t)]
                self.spec_owner_of(t) == (if t == token_id {
                    None::<AccountId>
                } else {
                    pre.spec_owner_of(t)
                })),
            self.spec_count(from_acc) == pre.spec_count(from_acc) - 1,
            (forall|a: AccountId| #![trigger self.spec_count(a)]
                a != from_acc ==> self.spec_count(a) == pre.spec_count(a)),
            (forall|a: AccountId, i: u32| #![trigger self.spec_slot(a, i)]
                self.spec_slot(a, i) == (if a == from_acc && i == (pre.spec_count(from_acc)
                    - 1) as u32 {
                    None::<TokenId>
                } else if a == from_acc && i == pre.spec_index_of(token_id)->Some_0
                    && pre.spec_index_of(token_id)->Some_0 != (pre.spec_count(from_acc)
                    - 1) as u32 {
                    Some(pre.spec_slot(from_acc, (pre.spec_count(from_acc) - 1) as u32)->Some_0)
                } else {
                    pre.spec_slot(a, i)
                })),
            (forall|t: TokenId| #![trigger self.spec_index_of(t)]
                self.spec_index_of(t) == (if t == token_id {
                    None::<u32>
                } else if t == pre.spec_slot(
                    from_acc,
                    (pre.spec_count(from_acc) - 1) as u32,
                )->Some_0 && pre.spec_index_of(token_id)->Some_0 != (pre.spec_count(from_acc)
                    - 1) as u32 {
                    Some(pre.spec_index_of(token_id)->Some_0)
                } else {
                    pre.spec_index_of(t)
                })),
            (forall|t: TokenId| #![trigger self.spec_approved(t)]
                self.spec_approved(t) == (if t == token_id {
                    None::<AccountId>
                } else {
                    pre.spec_approved(t)
                })),
    {
        let c = pre.spec_count(from_acc);
        let j = pre.spec_index_of(token_id)->Some_0;
        let last_tok = pre.spec_slot(from_acc, (c - 1) as u32)->Some_0;
        assert(token_entry_ok(
            pre.owner_by_id@,
            pre.owned_count@,
            pre.tokens_by_owner@,
            pre.owned_index@,
            token_id,
        ));
        assert(slot_entry_ok(
            pre.owner_by_id@,
            pre.owned_count@,
            pre.tokens_by_owner@,
            pre.owned_index@,
            from_acc,
            (c - 1) as u32,
        ));
        // owners and approvals, pointwise
        assert forall|t: TokenId|
            #![trigger self.spec_owner_of(t)]
            self.spec_owner_of(t) == (if t == token_id {
                None::<AccountId>
            } else {
                pre.spec_owner_of(t)
            }) by {
            assert(sfind(self.owner_by_id@, t) == sfind(sremove(pre.owner_by_id@, token_id), t));
        }
        assert forall|t: TokenId|
            #![trigger self.spec_approved(t)]
            self.spec_approved(t) == (if t == token_id {
                None::<AccountId>
            } else {
                pre.spec_approved(t)
            }) by {
            assert(sfind(self.token_approval@, t) == sfind(
                sremove(pre.token_approval@, token_id),
                t,
            ));
        }
        // slots and reverse index, pointwise
        assert forall|a: AccountId, i: u32|
            #![trigger self.spec_slot(a, i)]
            self.spec_slot(a, i) == (if a == from_acc && i == (c - 1) as u32 {
                None::<TokenId>
            } else if a == from_acc && i == j && j != (c - 1) as u32 {
                Some(last_tok)
            } else {
                pre.spec_slot(a, i)
            }) by {
            assert(self.spec_slot(a, i) == s2.spec_slot(a, i));
            assert(s2.spec_slot(a, i) == (if a == from_acc && i == (c - 1) as u32 {
                None::<TokenId>
            } else if a == from_acc && i == j && j != (c - 1) as u32 {
                Some(last_tok)
            } else {
                pre.spec_slot(a, i)
            }));
        }
        assert forall|t: TokenId|
            #![trigger self.spec_index_of(t)]
            self.spec_index_of(t) == (if t == token_id {
                None::<u32>
            } else if t == last_tok && j != (c - 1) as u32 {
                Some(j)
            } else {
                pre.spec_index_of(t)
            }) by {
            assert(self.spec_index_of(t) == s2.spec_index_of(t));
            assert(s2.spec_index_of(t) == (if t == token_id {
                None::<u32>
            } else if t == last_tok && j != (c - 1) as u32 {
                Some(j)
            } else {
                pre.spec_index_of(t)
            }));
        }
        // well-formedness
        assert forall|a: AccountId, i: u32|
            #[trigger] slot_entry_ok(
                self.owner_by_id@,
                self.owned_count@,
                self.tokens_by_owner@,
                self.owned_index@,
                a,
                i,
            ) by {
            assert(slot_entry_ok(
                pre.owner_by_id@,
                pre.owned_count@,
                pre.tokens_by_owner@,
                pre.owned_index@,
                a,
                i,
            ));
            assert(self.spec_slot(a, i) == (if a == from_acc && i == (c - 1) as u32 {
                None::<TokenId>
            } else if a == from_acc && i == j && j != (c - 1) as u32 {
                Some(last_tok)
            } else {
                pre.spec_slot(a, i)
            }));
            if a == from_acc && i == j && j != (c - 1) as u32 {
                assert(self.spec_owner_of(last_tok) == Some(from_acc));
                assert(self.spec_index_of(last_tok) == Some(j));
            }
            if !(a == from_acc && i == (c - 1) as u32) && !(a == from_acc && i == j && j != (c
                - 1) as u32) {
                match pre.spec_slot(a, i) {
                    Some(t2) => {
                        assert(sfind(pre.owned_index@, t2) == Some(i));
                        assert(sfind(pre.owner_by_id@, t2) == Some(a));
                        assert(t2 != token_id);
                        assert(self.spec_owner_of(t2) == Some(a));
                        assert(self.spec_index_of(t2) == Some(i));
                    },
                    None => {},
                }
            }
        }
        assert forall|t: TokenId|
            #[trigger] token_entry_ok(
                self.owner_by_id@,
                self.owned_count@,
                self.tokens_by_owner@,
                self.owned_index@,
                t,
            ) by {
            assert(token_entry_ok(
                pre.owner_by_id@,
                pre.owned_count@,
                pre.tokens_by_owner@,
                pre.owned_index@,
                t,
            ));
            assert(self.spec_owner_of(t) == (if t == token_id {
                None::<AccountId>
            } else {
                pre.spec_owner_of(t)
            }));
            assert(self.spec_index_of(t) == s2.spec_index_of(t));
            if t != token_id && (t != last_tok || j == (c - 1) as u32) {
                match pre.spec_owner_of(t) {
                    Some(a2) => {
                        let i2 = pre.spec_index_of(t)->Some_0;
                        assert(pre.spec_slot(a2, i2) == Some(t));
                        assert(slot_entry_ok(
                            pre.owner_by_id@,
                            pre.owned_count@,
                            pre.tokens_by_owner@,
                            pre.owned_index@,
                            a2,
                            i2,
                        ));
                        assert(!(a2 == from_acc && i2 == (c - 1) as u32));
                        assert(!(a2 == from_acc && i2 == j && j != (c - 1) as u32));
                        assert(self.spec_slot(a2, i2) == Some(t));
                    },
                    None => {},
                }
            } else if t == last_tok && j != (c - 1) as u32 {
                assert(self.spec_slot(from_acc, j) == Some(last_tok));
                assert(self.spec_index_of(last_tok) == Some(j));
            }
        }
        assert forall|t: TokenId| #![trigger sfind(self.token_approval@, t)]
            sfind(self.token_approval@, t) is Some implies shas(self.owner_by_id@, t) by {
            assert(sfind(self.token_approval@, t) == sfind(
                sremove(pre.token_approval@, token_id),
                t,
            ));
            if t != token_id {
                assert(sfind(pre.token_approval@, t) is Some);
                assert(sfind(self.owner_by_id@, t) == sfind(pre.owner_by_id@, t));
            }
        }
        assert forall|t: TokenId| #![trigger sfind(self.owner_by_id@, t)]
            sfind(self.owner_by_id@, t) is Some implies t < self.next_id by {
            assert(sfind(self.owner_by_id@, t) == sfind(sremove(pre.owner_by_id@, token_id), t));
            if t != token_id {
                assert(sfind(pre.owner_by_id@, t) is Some);
            }
        }
    }

    /// After one more item was assigned to `caller_acc`, the registry
    /// is well formed again and `k + 1` items of the batch stand
    /// minted. `s0` is the state with `k` items of the batch minted.
    proof fn lemma_after_item_minted(&self, pre: NFMoo, s0: NFMoo, caller_acc: AccountId, k: int)
        requires
            s0.wf(),
            k >= 0,
            minted_state(pre, caller_acc, k, s0),
            can_mint(pre, caller_acc, k + 1),
            // the final state: one more id assigned and appended
            self.owner_by_id@ == sset(
                s0.owner_by_id@,
                (pre.next_id + k) as u128,
                caller_acc,
            ),
            self.owner_by_id@.len() == s0.owner_by_id@.len() + 1,
            self.owned_count@ == sset(
                s0.owned_count@,
                caller_acc,
                (s0.spec_count(caller_acc) + 1) as u32,
            ),
            self.tokens_by_owner@ == sset(
                s0.tokens_by_owner@,
                slot_key(caller_acc, s0.spec_count(caller_acc)),
                (pre.next_id + k) as u128,
            ),
            self.owned_index@ == sset(
                s0.owned_index@,
                (pre.next_id + k) as u128,
                s0.spec_count(caller_acc),
            ),
            self.token_approval@ == s0.token_approval@,
            self.operator_approval@ == s0.operator_approval@,
            self.is_minter@ == s0.is_minter@,
            self.owner_acc == s0.owner_acc,
            self.paused_flag == s0.paused_flag,
            self.max_supply_opt == s0.max_supply_opt,
            self.storage_ver_u32 == s0.storage_ver_u32,
            self.supply_cnt == s0.supply_cnt + 1,
            self.next_id == s0.next_id + 1,
            unique_keys(self.owner_by_id@),
            unique_keys(self.owned_count@),
            unique_keys(self.tokens_by_owner@),
            unique_keys(self.owned_index@),
            self.event_log@ == s0.event_log@.push(
                Event::Minted(
                    NFMinted { to_acc: caller_acc, token_id: (pre.next_id + k) as u128 },
                ),
            ),
        ensures
            self.wf(),
            minted_state(pre, caller_acc, k + 1, *self),
    {
        let token_id = (pre.next_id + k) as u128;
        let c0 = s0.spec_count(caller_acc);
        assert(token_entry_ok(
            s0.owner_by_id@,
            s0.owned_count@,
            s0.tokens_by_owner@,
            s0.owned_index@,
            token_id,
        ));
        assert(sfind(s0.owner_by_id@, token_id) is None);
        // pointwise against the batch's pre-state
        assert forall|t: TokenId|
            #![trigger self.spec_owner_of(t)]
            self.spec_owner_of(t) == (if pre.next_id <= t < pre.next_id + (k + 1) {
                Some(caller_acc)
            } else {
                pre.spec_owner_of(t)
            }) by {
            assert(sfind(self.owner_by_id@, t) == (if t == token_id {
                Some(caller_acc)
            } else {
                sfind(s0.owner_by_id@, t)
            }));
            assert(s0.spec_owner_of(t) == (if pre.next_id <= t < pre.next_id + k {
                Some(caller_acc)
            } else {
                pre.spec_owner_of(t)
            }));
        }
        assert(self.spec_count(caller_acc) == pre.spec_count(caller_acc) + (k + 1));
        assert forall|a: AccountId| #![trigger self.spec_count(a)]
            a != caller_acc implies self.spec_count(a) == pre.spec_count(a) by {
            assert(s0.spec_count(a) == pre.spec_count(a));
        }
        assert forall|a: AccountId, i: u32|
            #![trigger self.spec_slot(a, i)]
            self.spec_slot(a, i) == (if a == caller_acc && pre.spec_count(caller_acc) <= i
                < pre.spec_count(caller_acc) + (k + 1) {
                Some((pre.next_id + (i - pre.spec_count(caller_acc))) as u128)
            } else {
                pre.spec_slot(a, i)
            }) by {
            assert(sfind(self.tokens_by_owner@, slot_key(a, i)) == (if slot_key(a, i) == slot_key(
                caller_acc,
                c0,
            ) {
                Some(token_id)
            } else {
                sfind(s0.tokens_by_owner@, slot_key(a, i))
            }));
            assert(s0.spec_slot(a, i) == (if a == caller_acc && pre.spec_count(caller_acc) <= i
                < pre.spec_count(caller_acc) + k {
                Some((pre.next_id + (i - pre.spec_count(caller_acc))) as u128)
            } else {
                pre.spec_slot(a, i)
            }));
        }
        assert forall|t: TokenId|
            #![trigger self.spec_index_of(t)]
            self.spec_index_of(t) == (if pre.next_id <= t < pre.next_id + (k + 1) {
                Some((pre.spec_count(caller_acc) + (t - pre.next_id)) as u32)
            } else {
                pre.spec_index_of(t)
            }) by {
            assert(sfind(self.owned_index@, t) == (if t == token_id {
                Some(c0)
            } else {
                sfind(s0.owned_index@, t)
            }));
            assert(s0.spec_index_of(t) == (if pre.next_id <= t < pre.next_id + k {
                Some((pre.spec_count(caller_acc) + (t - pre.next_id)) as u32)
            } else {
                pre.spec_index_of(t)
            }));
        }
        assert(self.event_log@ =~= pre.event_log@ + Seq::new(
            (k + 1) as nat,
            |q: int|
                Event::Minted(NFMinted { to_acc: caller_acc, token_id: (pre.next_id + q) as u128 }),
        ));
        // well-formedness
        assert forall|a: AccountId, i: u32|
            #[trigger] slot_entry_ok(
                self.owner_by_id@,
                self.owned_count@,
                self.tokens_by_owner@,
                self.owned_index@,
                a,
                i,
            ) by {
            assert(slot_entry_ok(
                s0.owner_by_id@,
                s0.owned_count@,
                s0.tokens_by_owner@,
                s0.owned_index@,
                a,
                i,
            ));
            assert(sfind(self.tokens_by_owner@, slot_key(a, i)) == (if slot_key(a, i) == slot_key(
                caller_acc,
                c0,
            ) {
                Some(token_id)
            } else {
                sfind(s0.tokens_by_owner@, slot_key(a, i))
            }));
            if a == caller_acc && i == c0 {
                assert(sfind(self.owner_by_id@, token_id) == Some(caller_acc));
                assert(sfind(self.owned_index@, token_id) == Some(c0));
            } else {
                match slot_of(s0.tokens_by_owner@, a, i) {
                    Some(t2) => {
                        assert(sfind(s0.owner_by_id@, t2) is Some);
                        assert(t2 != token_id);
                        assert(sfind(self.owner_by_id@, t2) == sfind(s0.owner_by_id@, t2));
                        assert(sfind(self.owned_index@, t2) == sfind(s0.owned_index@, t2));
                    },
                    None => {},
                }
            }
        }
        assert forall|t: TokenId|
            #[trigger] token_entry_ok(
                self.owner_by_id@,
                self.owned_count@,
                self.tokens_by_owner@,
                self.owned_index@,
                t,
            ) by {
            assert(token_entry_ok(
                s0.owner_by_id@,
                s0.owned_count@,
                s0.tokens_by_owner@,
                s0.owned_index@,
                t,
            ));
            assert(sfind(self.owner_by_id@, t) == (if t == token_id {
                Some(caller_acc)
            } else {
                sfind(s0.owner_by_id@, t)
            }));
            assert(sfind(self.owned_index@, t) == (if t == token_id {
                Some(c0)
            } else {
                sfind(s0.owned_index@, t)
            }));
            if t == token_id {
                assert(sfind(self.tokens_by_owner@, slot_key(caller_acc, c0)) == Some(token_id));
            } else {
                match sfind(s0.owner_by_id@, t) {
                    Some(a2) => {
                        let i2 = sfind(s0.owned_index@, t)->Some_0;
                        assert(slot_entry_ok(
                            s0.owner_by_id@,
                            s0.owned_count@,
                            s0.tokens_by_owner@,
                            s0.owned_index@,
                            a2,
                            i2,
                        ));
                        assert(!(a2 == caller_acc && i2 == c0));
                        assert(sfind(self.tokens_by_owner@, slot_key(a2, i2)) == sfind(
                            s0.tokens_by_owner@,
                            slot_key(a2, i2),
                        ));
                    },
                    None => {},
                }
            }
        }
        assert forall|t: TokenId| #![trigger sfind(self.token_approval@, t)]
            sfind(self.token_approval@, t) is Some implies shas(self.owner_by_id@, t) by {
            assert(sfind(s0.token_approval@, t) is Some);
            assert(sfind(self.owner_by_id@, t) == (if t == token_id {
                Some(caller_acc)
            } else {
                sfind(s0.owner_by_id@, t)
            }));
        }
        assert forall|t: TokenId| #![trigger sfind(self.owner_by_id@, t)]
            sfind(self.owner_by_id@, t) is Some implies t < self.next_id by {
            if t != token_id {
                assert(sfind(s0.owner_by_id@, t) == sfind(self.owner_by_id@, t));
            }
        }
    }

    /// Privileged, bounded batch mint: a minter creates `amount_cnt`
    /// fresh items for itself, each assigned the next sequential id.
    /// Each item's assignment is atomic: when the supply ceiling, the
    /// id space or the caller's slot count runs out mid-batch, the
    /// items already minted in this call stay minted and the call
    /// reports the overflow.
    pub fn mint_n(&mut self, caller_acc: AccountId, amount_cnt: u32) -> (r: Result<(), Error>)
        requires
            old(self).wf(),
        ensures
            final(self).wf(),
            mint_n_rel(*old(self), caller_acc, amount_cnt, *final(self), r),
    {
        if let Err(e) = self.when_not_paused() {
            return Err(e);
        }
        if amount_cnt == 0 {
            return Err(Error::AmountZero);
        }
        let minter_flag = match self.is_minter.get(caller_acc) {
            Some(b) => b,
            None => false,
        };
        if !minter_flag {
            return Err(Error::Unauthorized);
        }
        if amount_cnt > MAX_PER_CALL {
            return Err(Error::Overflow);
        }
        let ghost pre = *old(self);
        proof {
            assert(pre.event_log@ =~= pre.event_log@ + Seq::new(
                0nat,
                |q: int|
                    Event::Minted(
                        NFMinted { to_acc: caller_acc, token_id: (pre.next_id + q) as u128 },
                    ),
            ));
            assert(minted_state(pre, caller_acc, 0, pre));
        }
        let mut k: u32 = 0;
        while k < amount_cnt
            invariant
                self.wf(),
                pre.wf(),
                pre == *old(self),
                k <= amount_cnt,
                0 < amount_cnt <= MAX_PER_CALL,
                !pre.paused_flag,
                pre.spec_is_minter(caller_acc),
                k > 0 ==> can_mint(pre, caller_acc, k as int),
                minted_state(pre, caller_acc, k as int, *self),
            decreases amount_cnt as int - k as int,
        {
            let ghost s0 = *self;
            match self.max_supply_opt {
                Some(max_supply_val) => {
                    if self.supply_cnt >= max_supply_val {
                        proof {
                            lemma_mint_room_pins(pre, caller_acc, amount_cnt as int, k as int);
                        }
                        return Err(Error::Overflow);
                    }
                },
                None => {},
            }
            let token_id = self.next_id;
            let next_val = match self.next_id.checked_add(1) {
                Some(v) => v,
                None => {
                    proof {
                        lemma_mint_room_pins(pre, caller_acc, amount_cnt as int, k as int);
                    }
                    return Err(Error::Overflow);
                },
            };
            let cur_count = self.balance_of(caller_acc);
            if cur_count == u32::MAX {
                proof {
                    lemma_mint_room_pins(pre, caller_acc, amount_cnt as int, k as int);
                }
                return Err(Error::Overflow);
            }
            proof {
                assert(can_mint(pre, caller_acc, k as int + 1));
                assert(sfind(s0.owner_by_id@, token_id) is None);
            }
            self.owner_by_id.set(token_id, caller_acc);
            self.add_token_to_owner(caller_acc, token_id);
            self.supply_cnt = self.supply_cnt + 1;
            self.next_id = next_val;
            self.event_log.push(Event::Minted(NFMinted { to_acc: caller_acc, token_id }));
            proof {
                self.lemma_after_item_minted(pre, s0, caller_acc, k as int);
            }
            k = k + 1;
        }
        proof {
            lemma_mint_room_pins(pre, caller_acc, amount_cnt as int, amount_cnt as int);
        }
        Ok(())
    }

    /// Paginated enumeration: the items in `owner_acc`'s dense slots
    /// `[start_index, min(count, start_index + limit_cnt))`, in slot
    /// order. Slot order is insertion order only until a removal has
    /// swapped a later item forward; it is not stable across removals.
    pub fn tokens_of(&self, owner_acc: AccountId, start_index: u32, limit_cnt: u32) -> (r: Vec<
        TokenId,
    >)
        requires
            self.wf(),
        ensures
            r@ == page_of(*self, owner_acc, start_index, limit_cnt),
    {
        let count_val = self.balance_of(owner_acc);
        if start_index >= count_val || limit_cnt == 0 {
            let empty_vec: Vec<TokenId> = Vec::new();
            return empty_vec;
        }
        let cap_val = start_index.saturating_add(limit_cnt);
        let end_index = if count_val < cap_val {
            count_val
        } else {
            cap_val
        };
        let mut list_vec: Vec<TokenId> = Vec::new();
        let mut index_val = start_index;
        while index_val < end_index
            invariant
                self.wf(),
                start_index <= index_val <= end_index,
                end_index <= self.spec_count(owner_acc),
                start_index < self.spec_count(owner_acc),
                limit_cnt > 0,
                end_index as int == (if (self.spec_count(owner_acc) as int) < start_index
                    + limit_cnt {
                    self.spec_count(owner_acc) as int
                } else {
                    start_index + limit_cnt
                }),
                list_vec@.len() == index_val - start_index,
                forall|q: int|
                    0 <= q < list_vec@.len() ==> #[trigger] list_vec@[q] == self.spec_slot(
                        owner_acc,
                        (start_index + q) as u32,
                    )->Some_0,
            decreases end_index as int - index_val as int,
        {
            proof {
                assert(slot_entry_ok(
                    self.owner_by_id@,
                    self.owned_count@,
                    self.tokens_by_owner@,
                    self.owned_index@,
                    owner_acc,
                    index_val,
                ));
            }
            let token_id = match self.tokens_by_owner.get(
                SlotKey { owner_acc, index_val },
            ) {
                Some(t) => t,
                None => {
                    return Vec::new();
                },
            };
            list_vec.push(token_id);
            index_val = index_val + 1;
        }
        proof {
            assert(list_vec@ =~= page_of(*self, owner_acc, start_index, limit_cnt));
        }
        list_vec
    }
}

/// All items laid out in `owner_acc`'s dense slots `0..count`, in slot
/// order.
pub open spec fn owned_seq(s: NFMoo, owner_acc: AccountId) -> Seq<TokenId> {
    Seq::new(s.spec_count(owner_acc) as nat, |q: int| s.spec_slot(owner_acc, q as u32)->Some_0)
}

/// All items the owner table assigns to `owner_acc`.
pub open spec fn owned_set(s: NFMoo, owner_acc: AccountId) -> Set<TokenId> {
    Set::new(|token_id: TokenId| s.spec_owner_of(token_id) == Some(owner_acc))
}

/// Setting the pause switch to `true` twice in a row succeeds both
/// times and leaves the registry paused.
pub proof fn lemma_set_pause_idempotent(
    s0: NFMoo,
    s1: NFMoo,
    s2: NFMoo,
    caller_acc: AccountId,
    r1: Result<(), Error>,
    r2: Result<(), Error>,
)
    requires
        caller_acc == s0.owner_acc,
        set_pause_rel(s0, caller_acc, true, s1, r1),
        set_pause_rel(s1, caller_acc, true, s2, r2),
    ensures
        r1 == Ok::<(), Error>(()),
        r2 == Ok::<(), Error>(()),
        s1.paused_flag,
        s2.paused_flag,
{
}

/// In every well-formed registry state, each owner's dense slots hold
/// exactly the items the owner table assigns to it, without duplicates,
/// and the recorded count is the cardinality of that owned set.
/// Constructors establish well-formedness and every operation preserves
/// it, so this holds of all reachable states.
pub proof fn lemma_count_is_owned_cardinality(s: NFMoo, owner_acc: AccountId)
    requires
        s.wf(),
    ensures
        owned_seq(s, owner_acc).no_duplicates(),
        owned_seq(s, owner_acc).to_set() == owned_set(s, owner_acc),
        owned_set(s, owner_acc).finite(),
        owned_set(s, owner_acc).len() == s.spec_count(owner_acc),
{
    broadcast use vstd::seq_lib::seq_to_set_is_finite;
    broadcast use vstd::set::group_set_axioms;

    let sq = owned_seq(s, owner_acc);
    let c = s.spec_count(owner_acc);
    assert(sq.len() == c);
    assert forall|q1: int, q2: int|
        0 <= q1 < sq.len() && 0 <= q2 < sq.len() && q1 != q2 implies sq[q1] != sq[q2] by {
        assert(slot_entry_ok(
            s.owner_by_id@,
            s.owned_count@,
            s.tokens_by_owner@,
            s.owned_index@,
            owner_acc,
            q1 as u32,
        ));
        assert(slot_entry_ok(
            s.owner_by_id@,
            s.owned_count@,
            s.tokens_by_owner@,
            s.owned_index@,
            owner_acc,
            q2 as u32,
        ));
    }
    assert(sq.no_duplicates());
    assert forall|t: TokenId| #[trigger] owned_set(s, owner_acc).contains(t) implies sq.to_set()
        .contains(t) by {
        assert(token_entry_ok(
            s.owner_by_id@,
            s.owned_count@,
            s.tokens_by_owner@,
            s.owned_index@,
            t,
        ));
        let i = s.spec_index_of(t)->Some_0;
        assert(sq[i as int] == t);
        assert(sq.contains(t));
    }
    assert forall|t: TokenId| #[trigger] sq.to_set().contains(t) implies owned_set(s, owner_acc)
        .contains(t) by {
        assert(sq.contains(t));
        let q = choose|q: int| 0 <= q < sq.len() && sq[q] == t;
        assert(slot_entry_ok(
            s.owner_by_id@,
            s.owned_count@,
            s.tokens_by_owner@,
            s.owned_index@,
            owner_acc,
            q as u32,
        ));
    }
    assert(sq.to_set() =~= owned_set(s, owner_acc));
    sq.unique_seq_to_set();
}

} // verus!
