use moo_ledger::account::AccountId;
use moo_ledger::moo::{Approved, Burned, Error, Event, Minted, Moo, Transferred};

fn acct(id: u64) -> AccountId {
    AccountId { id }
}

#[test]
fn mint_creates_supply_and_balance() {
    let owner = acct(1);
    let minter = acct(2);
    let mut c = Moo::new(owner);
    assert!(c.set_minter(owner, minter, true).is_ok());
    assert!(c.mint(minter, 100).is_ok());
    assert_eq!(c.total_supply(), 100);
    assert_eq!(c.balance_of(minter), 100);
    assert_eq!(c.my_balance(minter), 100);
    assert_eq!(
        c.event_log.last(),
        Some(&Event::Minted(Minted { to_acc: minter, amount_val: 100 }))
    );
}

#[test]
fn mint_then_transfer_scenario() {
    // A fresh ledger: the minter mints 100 to itself, then sends 40 on.
    let owner = acct(1);
    let m = acct(2);
    let a = acct(3);
    let mut c = Moo::new(owner);
    assert!(c.set_minter(owner, m, true).is_ok());
    assert!(c.mint(m, 100).is_ok());
    assert_eq!(c.total_supply(), 100);
    assert_eq!(c.balance_of(m), 100);
    assert!(c.transfer(m, a, 40).is_ok());
    assert_eq!(c.balance_of(m), 60);
    assert_eq!(c.balance_of(a), 40);
    assert_eq!(c.total_supply(), 100);
    assert_eq!(
        c.event_log.last(),
        Some(&Event::Transferred(Transferred { from_acc: m, to_acc: a, amount_val: 40 }))
    );
}

#[test]
fn mint_requires_minter_role_and_nonzero_amount() {
    let owner = acct(1);
    let outsider = acct(9);
    let mut c = Moo::new(owner);
    assert!(matches!(c.mint(outsider, 5), Err(Error::Unauthorized)));
    assert!(c.set_minter(owner, outsider, true).is_ok());
    assert!(matches!(c.mint(outsider, 0), Err(Error::AmountZero)));
    assert!(c.mint(outsider, 5).is_ok());
    // revoking the role blocks further minting
    assert!(c.set_minter(owner, outsider, false).is_ok());
    assert!(matches!(c.mint(outsider, 5), Err(Error::Unauthorized)));
    assert_eq!(c.total_supply(), 5);
}

#[test]
fn transfer_rejects_zero_self_and_overdraft() {
    let owner = acct(1);
    let m = acct(2);
    let b = acct(3);
    let mut c = Moo::new(owner);
    assert!(c.set_minter(owner, m, true).is_ok());
    assert!(c.mint(m, 10).is_ok());
    assert!(matches!(c.transfer(m, b, 0), Err(Error::AmountZero)));
    assert!(matches!(c.transfer(m, m, 1), Err(Error::SameAccount)));
    assert!(matches!(c.transfer(m, b, 11), Err(Error::InsufficientBalance)));
    assert_eq!(c.balance_of(m), 10);
    assert_eq!(c.balance_of(b), 0);
}

#[test]
fn burn_shrinks_supply_and_checks_balance() {
    let owner = acct(1);
    let m = acct(2);
    let mut c = Moo::new(owner);
    assert!(c.set_minter(owner, m, true).is_ok());
    assert!(c.mint(m, 10).is_ok());
    assert!(matches!(c.burn(m, 0), Err(Error::AmountZero)));
    assert!(matches!(c.burn(m, 11), Err(Error::InsufficientBalance)));
    assert!(c.burn(m, 4).is_ok());
    assert_eq!(c.total_supply(), 6);
    assert_eq!(c.balance_of(m), 6);
    assert_eq!(
        c.event_log.last(),
        Some(&Event::Burned(Burned { from_acc: m, amount_val: 4 }))
    );
}

#[test]
fn safe_approve_zero_then_nonzero_round_trip() {
    // Zeroing first always opens the way for a fresh non-zero value.
    let owner = acct(1);
    let a = acct(2);
    let b = acct(3);
    let mut c = Moo::new(owner);
    assert!(c.approve(a, b, 0).is_ok());
    assert!(c.approve(a, b, 5).is_ok());
    assert_eq!(c.allowance(a, b), 5);
    // zeroing is allowed regardless of the current value
    assert!(c.approve(a, b, 0).is_ok());
    assert_eq!(c.allowance(a, b), 0);
}

#[test]
fn safe_approve_rejects_nonzero_rewrite() {
    let owner = acct(1);
    let a = acct(2);
    let b = acct(3);
    let mut c = Moo::new(owner);
    assert!(c.approve(a, b, 5).is_ok());
    assert!(matches!(c.approve(a, b, 7), Err(Error::AllowanceRace)));
    assert_eq!(c.allowance(a, b), 5);
}

#[test]
fn allowance_increase_and_saturating_decrease() {
    let owner = acct(1);
    let a = acct(2);
    let b = acct(3);
    let mut c = Moo::new(owner);
    assert!(c.increase_allowance(a, b, 30).is_ok());
    assert_eq!(c.allowance(a, b), 30);
    assert!(c.increase_allowance(a, b, 12).is_ok());
    assert_eq!(c.allowance(a, b), 42);
    // decreasing floors at zero and never fails
    assert!(c.decrease_allowance(a, b, 100).is_ok());
    assert_eq!(c.allowance(a, b), 0);
    assert_eq!(
        c.event_log.last(),
        Some(&Event::Approved(Approved { owner_acc: a, spender_acc: b, amount_val: 0 }))
    );
}

#[test]
fn allowance_increase_overflow_is_detected() {
    let owner = acct(1);
    let a = acct(2);
    let b = acct(3);
    let mut c = Moo::new(owner);
    assert!(c.approve(a, b, u128::MAX).is_ok());
    assert!(matches!(c.increase_allowance(a, b, 1), Err(Error::Overflow)));
    assert_eq!(c.allowance(a, b), u128::MAX);
}

#[test]
fn transfer_from_consumes_exactly_the_allowance() {
    // The owner grants 30; the spender moves 30 to a third account.
    let owner = acct(1);
    let m = acct(2);
    let a = acct(3);
    let b = acct(4);
    let d = acct(5);
    let mut c = Moo::new(owner);
    assert!(c.set_minter(owner, m, true).is_ok());
    assert!(c.mint(m, 100).is_ok());
    assert!(c.transfer(m, a, 50).is_ok());
    assert!(c.approve(a, b, 30).is_ok());
    assert!(c.transfer_from(b, a, d, 30).is_ok());
    assert_eq!(c.balance_of(a), 20);
    assert_eq!(c.balance_of(d), 30);
    assert_eq!(c.allowance(a, b), 0);
    assert_eq!(c.total_supply(), 100);
}

#[test]
fn transfer_from_checks_balance_before_allowance() {
    // A transfer doomed by the balance must not touch the allowance.
    let owner = acct(1);
    let a = acct(2);
    let b = acct(3);
    let d = acct(4);
    let mut c = Moo::new(owner);
    assert!(c.approve(a, b, 30).is_ok());
    assert!(matches!(
        c.transfer_from(b, a, d, 10),
        Err(Error::InsufficientBalance)
    ));
    assert_eq!(c.allowance(a, b), 30);
}

#[test]
fn transfer_from_rejects_missing_allowance_and_same_account() {
    let owner = acct(1);
    let m = acct(2);
    let b = acct(3);
    let d = acct(4);
    let mut c = Moo::new(owner);
    assert!(c.set_minter(owner, m, true).is_ok());
    assert!(c.mint(m, 100).is_ok());
    assert!(matches!(c.transfer_from(b, m, d, 0), Err(Error::AmountZero)));
    assert!(matches!(c.transfer_from(b, m, m, 10), Err(Error::SameAccount)));
    assert!(matches!(
        c.transfer_from(b, m, d, 10),
        Err(Error::InsufficientAllowance)
    ));
    assert_eq!(c.balance_of(m), 100);
}

#[test]
fn pause_gates_mutations_but_owner_can_always_unpause() {
    let owner = acct(1);
    let m = acct(2);
    let b = acct(3);
    let mut c = Moo::new(owner);
    assert!(c.set_minter(owner, m, true).is_ok());
    assert!(c.mint(m, 10).is_ok());
    assert!(matches!(c.set_pause(b, true), Err(Error::NotOwner)));
    assert!(c.set_pause(owner, true).is_ok());
    assert!(matches!(c.mint(m, 1), Err(Error::Paused)));
    assert!(matches!(c.transfer(m, b, 1), Err(Error::Paused)));
    assert!(matches!(c.burn(m, 1), Err(Error::Paused)));
    assert!(matches!(c.approve(m, b, 1), Err(Error::Paused)));
    assert!(matches!(c.increase_allowance(m, b, 1), Err(Error::Paused)));
    assert!(matches!(c.decrease_allowance(m, b, 1), Err(Error::Paused)));
    assert!(matches!(c.transfer_from(b, m, b, 1), Err(Error::Paused)));
    // reads still work while paused
    assert_eq!(c.total_supply(), 10);
    assert_eq!(c.balance_of(m), 10);
    assert!(c.set_pause(owner, false).is_ok());
    assert!(c.transfer(m, b, 1).is_ok());
}

#[test]
fn set_pause_is_idempotent() {
    // Setting the same value twice succeeds both times.
    let owner = acct(1);
    let mut c = Moo::new(owner);
    assert!(c.set_pause(owner, true).is_ok());
    assert!(c.paused_flag);
    assert!(c.set_pause(owner, true).is_ok());
    assert!(c.paused_flag);
}

#[test]
fn set_minter_requires_owner() {
    let owner = acct(1);
    let b = acct(2);
    let mut c = Moo::new(owner);
    assert!(matches!(c.set_minter(b, b, true), Err(Error::NotOwner)));
    assert!(c.set_minter(owner, b, true).is_ok());
    assert_eq!(
        c.event_log.last(),
        Some(&Event::MinterSet(moo_ledger::moo::MinterSet {
            minter_acc: b,
            enabled_flag: true
        }))
    );
}

#[test]
fn mint_overflow_leaves_ledger_unchanged() {
    let owner = acct(1);
    let m = acct(2);
    let mut c = Moo::new(owner);
    assert!(c.set_minter(owner, m, true).is_ok());
    assert!(c.mint(m, u128::MAX).is_ok());
    assert!(matches!(c.mint(m, 1), Err(Error::Overflow)));
    assert_eq!(c.total_supply(), u128::MAX);
    assert_eq!(c.balance_of(m), u128::MAX);
}
