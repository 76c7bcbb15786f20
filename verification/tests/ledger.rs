use secondary_market::ledger::Ledger;
use secondary_market::types::CurrencyError;

#[test]
fn ledger_starts_empty() {
    let l = Ledger::new();
    assert_eq!(l.free_balance(1), 0);
    assert_eq!(l.reserved_balance(1), 0);
}

#[test]
fn reserve_moves_free_to_reserved() {
    let mut l = Ledger::new();
    l.set_free_balance(1, 100);
    assert_eq!(l.reserve(1, 30), Ok(()));
    assert_eq!(l.free_balance(1), 70);
    assert_eq!(l.reserved_balance(1), 30);
}

#[test]
fn reserve_refuses_more_than_free() {
    let mut l = Ledger::new();
    l.set_free_balance(1, 10);
    assert_eq!(l.reserve(1, 11), Err(CurrencyError::NotEnoughFreeFunds));
    assert_eq!(l.free_balance(1), 10);
    assert_eq!(l.reserved_balance(1), 0);
}

#[test]
fn reserve_refuses_reserved_overflow() {
    let mut l = Ledger::new();
    l.set_free_balance(1, u128::MAX);
    assert_eq!(l.reserve(1, u128::MAX), Ok(()));
    l.set_free_balance(1, 5);
    assert_eq!(l.reserve(1, 1), Err(CurrencyError::ReservedTooHigh));
}

#[test]
fn unreserve_moves_at_most_what_is_reserved() {
    let mut l = Ledger::new();
    l.set_free_balance(1, 100);
    assert_eq!(l.reserve(1, 40), Ok(()));
    assert_eq!(l.unreserve(1, 50), 10);
    assert_eq!(l.free_balance(1), 100);
    assert_eq!(l.reserved_balance(1), 0);
}

#[test]
fn reserve_then_unreserve_restores_balances() {
    let mut l = Ledger::new();
    l.set_free_balance(1, 100);
    assert_eq!(l.reserve(1, 60), Ok(()));
    assert_eq!(l.unreserve(1, 60), 0);
    assert_eq!(l.free_balance(1), 100);
    assert_eq!(l.reserved_balance(1), 0);
}

#[test]
fn transfer_moves_free_balance() {
    let mut l = Ledger::new();
    l.set_free_balance(1, 100);
    l.set_free_balance(2, 5);
    assert_eq!(l.transfer(1, 2, 40), Ok(()));
    assert_eq!(l.free_balance(1), 60);
    assert_eq!(l.free_balance(2), 45);
}

#[test]
fn transfer_refuses_low_balance() {
    let mut l = Ledger::new();
    l.set_free_balance(1, 10);
    assert_eq!(l.transfer(1, 2, 11), Err(CurrencyError::BalanceTooLow));
    assert_eq!(l.free_balance(1), 10);
    assert_eq!(l.free_balance(2), 0);
}

#[test]
fn transfer_refuses_destination_overflow() {
    let mut l = Ledger::new();
    l.set_free_balance(1, 10);
    l.set_free_balance(2, u128::MAX);
    assert_eq!(l.transfer(1, 2, 1), Err(CurrencyError::DestinationTooHigh));
}

#[test]
fn transfer_to_self_moves_nothing() {
    let mut l = Ledger::new();
    l.set_free_balance(1, 10);
    assert_eq!(l.transfer(1, 1, 10), Ok(()));
    assert_eq!(l.free_balance(1), 10);
}

#[test]
fn currency_error_messages() {
    assert_eq!(CurrencyError::BalanceTooLow.message(), "balance too low to send value");
    assert_eq!(CurrencyError::NotEnoughFreeFunds.message(), "not enough free funds");
}
