use vstd::prelude::*;
use std::collections::HashMap;

use crate::types::{map_or, AccountId, Balance, CurrencyError};

verus! {

broadcast use vstd::std_specs::hash::group_hash_axioms;

/// The abstract state of the currency: each account's free and reserved
/// balance, where an account without an entry holds zero.
#[verifier::ext_equal]
pub struct LedgerView {
    pub free: Map<AccountId, Balance>,
    pub reserved: Map<AccountId, Balance>,
}

impl LedgerView {
    pub open spec fn free_of(self, who: AccountId) -> Balance {
        map_or(self.free, who, 0)
    }

    pub open spec fn reserved_of(self, who: AccountId) -> Balance {
        map_or(self.reserved, who, 0)
    }

    /// The ledger with `who`'s free balance set to `amount`.
    pub open spec fn with_free(self, who: AccountId, amount: Balance) -> LedgerView {
        LedgerView { free: self.free.insert(who, amount), ..self }
    }

    /// The ledger with `who`'s reserved balance set to `amount`.
    pub open spec fn with_reserved(self, who: AccountId, amount: Balance) -> LedgerView {
        LedgerView { reserved: self.reserved.insert(who, amount), ..self }
    }

    /// Moving `value` from `who`'s free balance to its reserved balance:
    /// refused when the free balance is lower than `value`, or when the
    /// reserved balance would overflow; nothing moves when refused.
    pub open spec fn reserve(self, who: AccountId, value: Balance) -> (LedgerView, Result<(), CurrencyError>) {
        if self.free_of(who) < value {
            (self, Err(CurrencyError::NotEnoughFreeFunds))
        } else if self.reserved_of(who) + value > u128::MAX {
            (self, Err(CurrencyError::ReservedTooHigh))
        } else {
            (
                self.with_reserved(who, (self.reserved_of(who) + value) as u128).with_free(
                    who,
                    (self.free_of(who) - value) as u128,
                ),
                Ok(()),
            )
        }
    }

    /// How much of `value` an unreservation of `who` moves: as much as the
    /// reserved balance holds and the free balance can take.
    pub open spec fn unreserve_amount(self, who: AccountId, value: Balance) -> Balance {
        let room = (u128::MAX - self.free_of(who)) as u128;
        let r = self.reserved_of(who);
        if value <= r && value <= room {
            value
        } else if r <= room {
            r
        } else {
            room
        }
    }

    /// Moving up to `value` from `who`'s reserved balance back to its free
    /// balance. It cannot be refused.
    pub open spec fn unreserve(self, who: AccountId, value: Balance) -> LedgerView {
        let actual = self.unreserve_amount(who, value);
        self.with_free(who, (self.free_of(who) + actual) as u128).with_reserved(
            who,
            (self.reserved_of(who) - actual) as u128,
        )
    }

    /// Moving `value` of free balance from `source` to `dest`: refused when
    /// the sender holds less than `value` or the receiver's balance would
    /// overflow; a transfer to oneself moves nothing.
    pub open spec fn transfer(self, source: AccountId, dest: AccountId, value: Balance) -> (LedgerView, Result<(), CurrencyError>) {
        if self.free_of(source) < value {
            (self, Err(CurrencyError::BalanceTooLow))
        } else if self.free_of(dest) + value > u128::MAX {
            (self, Err(CurrencyError::DestinationTooHigh))
        } else if source == dest {
            (self, Ok(()))
        } else {
            (
                self.with_free(source, (self.free_of(source) - value) as u128).with_free(
                    dest,
                    (self.free_of(dest) + value) as u128,
                ),
                Ok(()),
            )
        }
    }
}

/// The currency that backs the market: a free and a reserved balance per
/// account, with the reserve, unreserve and transfer operations that the
/// market needs of it.
pub struct Ledger {
    free: HashMap<AccountId, Balance>,
    reserved: HashMap<AccountId, Balance>,
}

impl View for Ledger {
    type V = LedgerView;

    closed spec fn view(&self) -> LedgerView {
        LedgerView { free: self.free@, reserved: self.reserved@ }
    }
}

fn balance_at(m: &HashMap<AccountId, Balance>, who: AccountId) -> (r: Balance)
    ensures
        r == map_or(m@, who, 0),
{
    match m.get(&who) {
        Some(v) => *v,
        None => 0,
    }
}

impl Ledger {
    /// A ledger knows finitely many accounts.
    pub proof fn lemma_finite(&self)
        ensures
            self@.free.dom().finite(),
            self@.reserved.dom().finite(),
    {
        vstd::std_specs::hash::axiom_hashmap_view_finite_dom(self.free);
        vstd::std_specs::hash::axiom_hashmap_view_finite_dom(self.reserved);
    }

    /// A ledger in which every account holds nothing.
    pub fn new() -> (l: Ledger)
        ensures
            l@.free == Map::<AccountId, Balance>::empty(),
            l@.reserved == Map::<AccountId, Balance>::empty(),
    {
        Ledger { free: HashMap::new(), reserved: HashMap::new() }
    }

    pub fn free_balance(&self, who: AccountId) -> (r: Balance)
        ensures
            r == self@.free_of(who),
    {
        balance_at(&self.free, who)
    }

    pub fn reserved_balance(&self, who: AccountId) -> (r: Balance)
        ensures
            r == self@.reserved_of(who),
    {
        balance_at(&self.reserved, who)
    }

    /// Sets `who`'s free balance, as a genesis endowment does.
    pub fn set_free_balance(&mut self, who: AccountId, amount: Balance)
        ensures
            final(self)@ == old(self)@.with_free(who, amount),
    {
        self.free.insert(who, amount);
    }

    pub fn reserve(&mut self, who: AccountId, value: Balance) -> (r: Result<(), CurrencyError>)
        ensures
            (final(self)@, r) == old(self)@.reserve(who, value),
    {
        let free = self.free_balance(who);
        if free < value {
            return Err(CurrencyError::NotEnoughFreeFunds);
        }
        let reserved = self.reserved_balance(who);
        match reserved.checked_add(value) {
            None => Err(CurrencyError::ReservedTooHigh),
            Some(new_reserved) => {
                self.reserved.insert(who, new_reserved);
                self.free.insert(who, free - value);
                Ok(())
            },
        }
    }

    /// Moves up to `value` back from reserved to free; returns the part of
    /// `value` that was not moved.
    pub fn unreserve(&mut self, who: AccountId, value: Balance) -> (left: Balance)
        ensures
            final(self)@ == old(self)@.unreserve(who, value),
            left == value - old(self)@.unreserve_amount(who, value),
    {
        let free = self.free_balance(who);
        let reserved = self.reserved_balance(who);
        let room = u128::MAX - free;
        let actual = if value <= reserved && value <= room {
            value
        } else if reserved <= room {
            reserved
        } else {
            room
        };
        self.free.insert(who, free + actual);
        self.reserved.insert(who, reserved - actual);
        value - actual
    }

    pub fn transfer(&mut self, source: AccountId, dest: AccountId, value: Balance) -> (r: Result<(), CurrencyError>)
        ensures
            (final(self)@, r) == old(self)@.transfer(source, dest, value),
    {
        let from_balance = self.free_balance(source);
        let to_balance = self.free_balance(dest);
        if from_balance < value {
            return Err(CurrencyError::BalanceTooLow);
        }
        let new_to = match to_balance.checked_add(value) {
            None => return Err(CurrencyError::DestinationTooHigh),
            Some(b) => b,
        };
        if source != dest {
            self.free.insert(source, from_balance - value);
            self.free.insert(dest, new_to);
        }
        Ok(())
    }
}

} // verus!
