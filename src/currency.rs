use vstd::prelude::*;

use std::collections::HashMap;

use crate::types::{AccountId, Balance, CurrencyError};

verus! {

broadcast use vstd::std_specs::hash::group_hash_axioms;

/// The reserved balance of `who` after taking `amount` from it, as far as it goes.
pub open spec fn reserved_after_taking(reserved: nat, amount: Balance) -> nat {
    if reserved >= amount {
        (reserved - amount) as nat
    } else {
        0
    }
}

/// A currency whose balances can be set aside ("reserved") against an account.
pub trait ReservableCurrency: Sized {
    /// The balance reserved against `who`.
    spec fn reserved_of(&self, who: AccountId) -> nat;

    /// Moves `amount` from the free balance of `who` into its reserved balance.
    fn reserve(&mut self, who: AccountId, amount: Balance) -> (r: Result<(), CurrencyError>)
        ensures
            r is Ok ==> forall|a: AccountId| #[trigger]
                final(self).reserved_of(a) == old(self).reserved_of(a) + (if a == who {
                    amount as int
                } else {
                    0
                }),
            r is Err ==> *final(self) == *old(self),
    ;

    /// Moves `amount` of the reserved balance of `who` back to its free balance, as far
    /// as the reserved balance goes; returns the part that could not be moved.
    fn unreserve(&mut self, who: AccountId, amount: Balance) -> (remaining: Balance)
        ensures
            forall|a: AccountId| #[trigger]
                final(self).reserved_of(a) == if a == who {
                    reserved_after_taking(old(self).reserved_of(a), amount)
                } else {
                    old(self).reserved_of(a)
                },
            remaining == amount - (old(self).reserved_of(who) - reserved_after_taking(
                old(self).reserved_of(who),
                amount,
            )),
    ;

    /// Moves `amount` of the reserved balance of `from`, as far as it goes, into the
    /// reserved balance of `to`; returns the part that could not be moved.
    fn repatriate_reserved(&mut self, from: AccountId, to: AccountId, amount: Balance) -> (r:
        Result<Balance, CurrencyError>)
        requires
            from != to,
        ensures
            r is Ok ==> {
                let moved = old(self).reserved_of(from) - reserved_after_taking(
                    old(self).reserved_of(from),
                    amount,
                );
                &&& forall|a: AccountId| #[trigger]
                    final(self).reserved_of(a) == old(self).reserved_of(a) + (if a == from {
                        -moved
                    } else if a == to {
                        moved
                    } else {
                        0
                    })
                &&& r == Ok::<Balance, CurrencyError>((amount - moved) as Balance)
            },
            r is Err ==> *final(self) == *old(self),
    ;
}

/// The balances of one account.
#[derive(Clone, Copy, Debug, PartialEq, Eq, Structural)]
pub struct AccountData {
    pub free: Balance,
    pub reserved: Balance,
}

/// A simple ledger of free and reserved balances.
pub struct Balances {
    accounts: HashMap<AccountId, AccountData>,
}

impl Balances {
    /// The balances of `who`; an account never seen holds nothing.
    pub closed spec fn data_of(&self, who: AccountId) -> AccountData {
        if self.accounts@.contains_key(who) {
            self.accounts@[who]
        } else {
            AccountData { free: 0, reserved: 0 }
        }
    }

    /// The free balance of `who`.
    pub open spec fn free_of(&self, who: AccountId) -> nat {
        self.data_of(who).free as nat
    }

    pub fn new() -> (b: Self)
        ensures
            forall|a: AccountId| #[trigger] b.data_of(a) == (AccountData { free: 0, reserved: 0 }),
    {
        Balances { accounts: HashMap::new() }
    }

    fn data(&self, who: AccountId) -> (d: AccountData)
        ensures
            d == self.data_of(who),
    {
        match self.accounts.get(&who) {
            Some(d) => *d,
            None => AccountData { free: 0, reserved: 0 },
        }
    }

    fn set_data(&mut self, who: AccountId, d: AccountData)
        ensures
            forall|a: AccountId| #[trigger]
                final(self).data_of(a) == if a == who {
                    d
                } else {
                    old(self).data_of(a)
                },
    {
        self.accounts.insert(who, d);
    }

    /// The free balance of `who`.
    pub fn free_balance(&self, who: AccountId) -> (r: Balance)
        ensures
            r == self.free_of(who),
    {
        self.data(who).free
    }

    /// The reserved balance of `who`.
    pub fn reserved_balance(&self, who: AccountId) -> (r: Balance)
        ensures
            r == self.reserved_of(who),
    {
        self.data(who).reserved
    }

    /// Sets the free balance of `who` to `amount`.
    pub fn make_free_balance_be(&mut self, who: AccountId, amount: Balance)
        ensures
            forall|a: AccountId| #[trigger]
                final(self).data_of(a) == if a == who {
                    AccountData { free: amount, reserved: old(self).data_of(a).reserved }
                } else {
                    old(self).data_of(a)
                },
    {
        let d = self.data(who);
        self.set_data(who, AccountData { free: amount, reserved: d.reserved });
    }
}

impl ReservableCurrency for Balances {
    open spec fn reserved_of(&self, who: AccountId) -> nat {
        self.data_of(who).reserved as nat
    }

    /// Fails where the free balance of `who` is below `amount`, or where the reserved
    /// balance would overflow.
    fn reserve(&mut self, who: AccountId, amount: Balance) -> (r: Result<(), CurrencyError>) {
        let d = self.data(who);
        if d.free < amount {
            return Err(CurrencyError::InsufficientBalance);
        }
        match d.reserved.checked_add(amount) {
            None => Err(CurrencyError::Overflow),
            Some(reserved) => {
                self.set_data(who, AccountData { free: d.free - amount, reserved });
                Ok(())
            },
        }
    }

    fn unreserve(&mut self, who: AccountId, amount: Balance) -> (remaining: Balance) {
        let d = self.data(who);
        let actual = if d.reserved < amount {
            d.reserved
        } else {
            amount
        };
        self.set_data(
            who,
            AccountData { free: d.free.saturating_add(actual), reserved: d.reserved - actual },
        );
        amount - actual
    }

    /// Fails where the reserved balance of `to` would overflow.
    fn repatriate_reserved(&mut self, from: AccountId, to: AccountId, amount: Balance) -> (r:
        Result<Balance, CurrencyError>) {
        let f = self.data(from);
        let t = self.data(to);
        let actual = if f.reserved < amount {
            f.reserved
        } else {
            amount
        };
        match t.reserved.checked_add(actual) {
            None => Err(CurrencyError::Overflow),
            Some(reserved) => {
                self.set_data(from, AccountData { free: f.free, reserved: f.reserved - actual });
                self.set_data(to, AccountData { free: t.free, reserved });
                Ok(amount - actual)
            },
        }
    }
}

} // verus!
