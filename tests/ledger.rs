use pallet_uniques::{Balances, CurrencyError, ReservableCurrency};

#[test]
fn reserve_needs_free_balance() {
    let mut b = Balances::new();
    b.make_free_balance_be(1, 10);
    assert_eq!(b.reserve(1, 11), Err(CurrencyError::InsufficientBalance));
    assert_eq!((b.free_balance(1), b.reserved_balance(1)), (10, 0));
    assert_eq!(b.reserve(1, 10), Ok(()));
    assert_eq!((b.free_balance(1), b.reserved_balance(1)), (0, 10));
}

#[test]
fn unreserve_goes_as_far_as_the_reserve() {
    let mut b = Balances::new();
    b.make_free_balance_be(1, 10);
    assert_eq!(b.reserve(1, 4), Ok(()));
    assert_eq!(b.unreserve(1, 6), 2);
    assert_eq!((b.free_balance(1), b.reserved_balance(1)), (10, 0));
}

#[test]
fn repatriate_moves_reserve_between_accounts() {
    let mut b = Balances::new();
    b.make_free_balance_be(1, 10);
    assert_eq!(b.reserve(1, 7), Ok(()));
    assert_eq!(b.repatriate_reserved(1, 2, 9), Ok(2));
    assert_eq!((b.reserved_balance(1), b.reserved_balance(2)), (0, 7));
    assert_eq!(b.free_balance(2), 0);
}
