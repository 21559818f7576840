use moo_ledger::account::AccountId;
use moo_ledger::nfmoo::{Error, Event, NFBurned, NFMinted, NFMoo, NFTransferred};

fn acct(id: u64) -> AccountId {
    AccountId { id }
}

#[test]
fn mint_and_transfer_flow() {
    let alice = acct(1);
    let bob = acct(2);
    let charlie = acct(3);
    let mut c = NFMoo::new(alice, Some(10));
    assert!(c.set_minter(alice, bob, true).is_ok());
    assert!(c.mint_n(bob, 2).is_ok());
    assert_eq!(c.owner_of(0), Some(bob));
    assert_eq!(c.owner_of(1), Some(bob));
    assert_eq!(c.balance_of(bob), 2);
    let list = c.tokens_of(bob, 0, 10);
    assert_eq!(list.len(), 2);
    assert_eq!(list[0], 0);
    assert_eq!(list[1], 1);
    assert!(c.transfer(bob, charlie, 0).is_ok());
    assert_eq!(c.owner_of(0), Some(charlie));
    assert_eq!(c.balance_of(bob), 1);
    assert_eq!(c.balance_of(charlie), 1);
}

#[test]
fn pause_blocks_mint() {
    let alice = acct(1);
    let bob = acct(2);
    let mut c = NFMoo::new(alice, None);
    assert!(c.set_pause(alice, true).is_ok());
    assert!(c.set_minter(alice, bob, true).is_ok());
    assert!(matches!(c.mint_n(bob, 1), Err(Error::Paused)));
}

#[test]
fn operator_can_transfer() {
    let alice = acct(1);
    let bob = acct(2);
    let charlie = acct(3);
    let eve = acct(4);
    let mut c = NFMoo::new(alice, None);
    assert!(c.set_minter(alice, bob, true).is_ok());
    assert!(c.mint_n(bob, 1).is_ok());
    assert!(c.set_approval_for_all(bob, eve, true).is_ok());
    assert!(c.transfer(eve, charlie, 0).is_ok());
    assert_eq!(c.owner_of(0), Some(charlie));
}

#[test]
fn max_supply_rejects_the_third_item() {
    // A registry capped at two items refuses a third mint.
    let alice = acct(1);
    let m = acct(2);
    let mut c = NFMoo::new(alice, Some(2));
    assert!(c.set_minter(alice, m, true).is_ok());
    assert!(c.mint_n(m, 2).is_ok());
    assert_eq!(c.owner_of(0), Some(m));
    assert_eq!(c.owner_of(1), Some(m));
    assert!(matches!(c.mint_n(m, 1), Err(Error::Overflow)));
    assert_eq!(c.supply_cnt, 2);
    assert_eq!(c.balance_of(m), 2);
    assert_eq!(c.owner_of(2), None);
}

#[test]
fn mid_batch_overflow_keeps_earlier_items() {
    // Each item's assignment is atomic: a batch of three against a
    // ceiling of two mints the two that fit, then reports the overflow.
    let alice = acct(1);
    let m = acct(2);
    let mut c = NFMoo::new(alice, Some(2));
    assert!(c.set_minter(alice, m, true).is_ok());
    assert!(matches!(c.mint_n(m, 3), Err(Error::Overflow)));
    assert_eq!(c.supply_cnt, 2);
    assert_eq!(c.owner_of(0), Some(m));
    assert_eq!(c.owner_of(1), Some(m));
    assert_eq!(c.owner_of(2), None);
    assert_eq!(c.balance_of(m), 2);
}

#[test]
fn mint_n_validates_count_and_role() {
    let alice = acct(1);
    let m = acct(2);
    let outsider = acct(9);
    let mut c = NFMoo::new(alice, None);
    assert!(c.set_minter(alice, m, true).is_ok());
    assert!(matches!(c.mint_n(m, 0), Err(Error::AmountZero)));
    assert!(matches!(c.mint_n(outsider, 1), Err(Error::Unauthorized)));
    assert!(matches!(c.mint_n(m, 201), Err(Error::Overflow)));
    assert_eq!(c.supply_cnt, 0);
    assert!(c.mint_n(m, 200).is_ok());
    assert_eq!(c.supply_cnt, 200);
    assert_eq!(
        c.event_log.last(),
        Some(&Event::Minted(NFMinted { to_acc: m, token_id: 199 }))
    );
}

#[test]
fn swap_remove_moves_last_item_into_the_hole() {
    // Owner holds items [0, 1, 2] in slots 0, 1, 2; removing item 1
    // moves item 2 into slot 1, so enumeration yields [0, 2].
    let alice = acct(1);
    let m = acct(2);
    let b = acct(3);
    let mut c = NFMoo::new(alice, None);
    assert!(c.set_minter(alice, m, true).is_ok());
    assert!(c.mint_n(m, 3).is_ok());
    assert!(c.transfer(m, b, 1).is_ok());
    assert_eq!(c.balance_of(m), 2);
    let list = c.tokens_of(m, 0, 10);
    assert_eq!(list.len(), 2);
    assert_eq!(list[0], 0);
    assert_eq!(list[1], 2);
    assert_eq!(c.owner_of(1), Some(b));
    assert_eq!(
        c.event_log.last(),
        Some(&Event::Transferred(NFTransferred { from_acc: m, to_acc: b, token_id: 1 }))
    );
}

#[test]
fn swap_remove_handles_last_and_single_slots() {
    let alice = acct(1);
    let m = acct(2);
    let b = acct(3);
    let mut c = NFMoo::new(alice, None);
    assert!(c.set_minter(alice, m, true).is_ok());
    assert!(c.mint_n(m, 2).is_ok());
    // removing the item in the last slot needs no swap
    assert!(c.transfer(m, b, 1).is_ok());
    let list = c.tokens_of(m, 0, 10);
    assert_eq!(list.len(), 1);
    assert_eq!(list[0], 0);
    // removing the only item empties the table
    assert!(c.transfer(m, b, 0).is_ok());
    assert_eq!(c.balance_of(m), 0);
    assert_eq!(c.tokens_of(m, 0, 10).len(), 0);
    // minting again after removal appends afresh
    assert!(c.mint_n(m, 1).is_ok());
    let list2 = c.tokens_of(m, 0, 10);
    assert_eq!(list2.len(), 1);
    assert_eq!(list2[0], 2);
}

#[test]
fn burn_is_owner_only_and_frees_no_id() {
    let alice = acct(1);
    let m = acct(2);
    let operator = acct(3);
    let mut c = NFMoo::new(alice, None);
    assert!(c.set_minter(alice, m, true).is_ok());
    assert!(c.mint_n(m, 2).is_ok());
    assert!(c.set_approval_for_all(m, operator, true).is_ok());
    // operators may transfer, but burning is the owner's alone
    assert!(matches!(c.burn(operator, 0), Err(Error::NotOwner)));
    assert!(matches!(c.burn(m, 7), Err(Error::TokenMissing)));
    assert!(c.burn(m, 0).is_ok());
    assert_eq!(c.owner_of(0), None);
    assert_eq!(c.supply_cnt, 1);
    assert_eq!(c.balance_of(m), 1);
    assert_eq!(
        c.event_log.last(),
        Some(&Event::Burned(NFBurned { from_acc: m, token_id: 0 }))
    );
    // a burned id is never reassigned: the next mint takes a fresh id
    assert!(c.mint_n(m, 1).is_ok());
    assert_eq!(c.owner_of(0), None);
    assert_eq!(c.owner_of(2), Some(m));
}

#[test]
fn single_item_approval_allows_one_transfer() {
    let alice = acct(1);
    let m = acct(2);
    let approved = acct(3);
    let b = acct(4);
    let mut c = NFMoo::new(alice, None);
    assert!(c.set_minter(alice, m, true).is_ok());
    assert!(c.mint_n(m, 2).is_ok());
    assert!(matches!(c.approve(m, approved, 7), Err(Error::TokenMissing)));
    assert!(matches!(c.approve(approved, approved, 0), Err(Error::NotOwner)));
    assert!(c.approve(m, approved, 0).is_ok());
    assert_eq!(c.get_approved(0), Some(approved));
    // the approval covers only item 0
    assert!(matches!(c.transfer(approved, b, 1), Err(Error::NotApproved)));
    assert!(c.transfer(approved, b, 0).is_ok());
    assert_eq!(c.owner_of(0), Some(b));
    // the approval is cleared by the transfer
    assert_eq!(c.get_approved(0), None);
}

#[test]
fn operator_approval_can_be_revoked() {
    let alice = acct(1);
    let m = acct(2);
    let operator = acct(3);
    let b = acct(4);
    let mut c = NFMoo::new(alice, None);
    assert!(c.set_minter(alice, m, true).is_ok());
    assert!(c.mint_n(m, 2).is_ok());
    assert!(matches!(
        c.set_approval_for_all(m, m, true),
        Err(Error::SameAccount)
    ));
    assert!(c.set_approval_for_all(m, operator, true).is_ok());
    assert!(c.is_approved_for_all(m, operator));
    assert!(c.transfer(operator, b, 0).is_ok());
    assert!(c.set_approval_for_all(m, operator, false).is_ok());
    assert!(!c.is_approved_for_all(m, operator));
    assert!(matches!(c.transfer(operator, b, 1), Err(Error::NotApproved)));
}

#[test]
fn transfer_validates_token_and_destination() {
    let alice = acct(1);
    let m = acct(2);
    let b = acct(3);
    let mut c = NFMoo::new(alice, None);
    assert!(c.set_minter(alice, m, true).is_ok());
    assert!(c.mint_n(m, 1).is_ok());
    assert!(matches!(c.transfer(m, b, 5), Err(Error::TokenMissing)));
    assert!(matches!(c.transfer(b, b, 0), Err(Error::NotApproved)));
    assert!(matches!(c.transfer(m, m, 0), Err(Error::SameAccount)));
    assert_eq!(c.owner_of(0), Some(m));
}

#[test]
fn paused_registry_rejects_mutations_but_answers_reads() {
    let alice = acct(1);
    let m = acct(2);
    let b = acct(3);
    let mut c = NFMoo::new(alice, None);
    assert!(c.set_minter(alice, m, true).is_ok());
    assert!(c.mint_n(m, 1).is_ok());
    assert!(c.set_pause(alice, true).is_ok());
    assert!(matches!(c.mint_n(m, 1), Err(Error::Paused)));
    assert!(matches!(c.transfer(m, b, 0), Err(Error::Paused)));
    assert!(matches!(c.burn(m, 0), Err(Error::Paused)));
    assert!(matches!(c.approve(m, b, 0), Err(Error::Paused)));
    assert!(matches!(c.set_approval_for_all(m, b, true), Err(Error::Paused)));
    // pure reads still succeed while paused
    assert_eq!(c.owner_of(0), Some(m));
    assert_eq!(c.balance_of(m), 1);
    assert_eq!(c.tokens_of(m, 0, 10), vec![0]);
    // the owner may still manage roles and unpause
    assert!(c.set_minter(alice, b, true).is_ok());
    assert!(c.set_pause(alice, false).is_ok());
    assert!(c.mint_n(m, 1).is_ok());
}

#[test]
fn tokens_of_paginates_in_slot_order() {
    let alice = acct(1);
    let m = acct(2);
    let mut c = NFMoo::new(alice, None);
    assert!(c.set_minter(alice, m, true).is_ok());
    assert!(c.mint_n(m, 5).is_ok());
    assert_eq!(c.tokens_of(m, 0, 2), vec![0, 1]);
    assert_eq!(c.tokens_of(m, 2, 2), vec![2, 3]);
    assert_eq!(c.tokens_of(m, 4, 2), vec![4]);
    assert_eq!(c.tokens_of(m, 0, 10), vec![0, 1, 2, 3, 4]);
    assert_eq!(c.tokens_of(m, 5, 2).len(), 0);
    assert_eq!(c.tokens_of(m, 0, 0).len(), 0);
    assert_eq!(c.tokens_of(acct(9), 0, 10).len(), 0);
    // a window that runs over the end is clipped
    assert_eq!(c.tokens_of(m, 3, u32::MAX), vec![3, 4]);
}

#[test]
fn registry_admin_requires_owner() {
    let alice = acct(1);
    let b = acct(2);
    let mut c = NFMoo::new(alice, None);
    assert!(matches!(c.set_pause(b, true), Err(Error::NotOwner)));
    assert!(matches!(c.set_minter(b, b, true), Err(Error::NotOwner)));
    assert!(c.set_pause(alice, true).is_ok());
    assert!(c.paused_flag);
    assert!(c.set_pause(alice, true).is_ok());
    assert!(c.paused_flag);
}
