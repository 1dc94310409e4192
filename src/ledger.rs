//! The balance ledger the bridge mints into and burns from.

use std::collections::HashMap;
use vstd::prelude::*;

verus! {

broadcast use vstd::std_specs::hash::group_hash_axioms;

/// Why the ledger refused to change a balance.
#[derive(Debug, Clone, Copy, PartialEq, Eq)]
pub enum LedgerError {
    /// The account, or the issuance, would exceed the largest balance.
    Overflow,
    /// The account holds less than the quantity to remove.
    InsufficientFunds,
}

/// `new` is `old` with `value` added to the balance of `who` and to the
/// issuance.
pub open spec fn minted(old: Ledger, new: Ledger, who: u64, value: u64) -> bool {
    &&& new.issuance() == old.issuance() + value
    &&& new.balance_of(who) == old.balance_of(who) + value
    &&& forall|a: u64| a != who ==> #[trigger] new.balance_of(a) == old.balance_of(a)
}

/// `new` is `old` with `value` removed from the balance of `who` and from the
/// issuance.
pub open spec fn burned(old: Ledger, new: Ledger, who: u64, value: u64) -> bool {
    &&& new.issuance() == old.issuance() - value
    &&& new.balance_of(who) == old.balance_of(who) - value
    &&& forall|a: u64| a != who ==> #[trigger] new.balance_of(a) == old.balance_of(a)
}

/// Balances of accounts and the total issuance.
pub struct Ledger {
    balances: HashMap<u64, u64>,
    issuance: u64,
}

impl Ledger {
    /// The balances held, by account; an account not present holds nothing.
    pub closed spec fn balances(&self) -> Map<u64, u64> {
        self.balances@
    }

    /// The balance of `who`.
    pub open spec fn balance_of(&self, who: u64) -> nat {
        if self.balances().contains_key(who) {
            self.balances()[who] as nat
        } else {
            0
        }
    }

    /// The total issuance.
    pub closed spec fn issuance(&self) -> nat {
        self.issuance as nat
    }

    /// Whether `value` can be added to the balance of `who`.
    pub open spec fn can_mint(&self, who: u64, value: u64) -> bool {
        self.balance_of(who) + value <= u64::MAX && self.issuance() + value <= u64::MAX
    }

    /// Whether `value` can be removed from the balance of `who`.
    pub open spec fn can_burn(&self, who: u64, value: u64) -> bool {
        value <= self.balance_of(who) && value <= self.issuance()
    }

    /// An empty ledger: no balances, no issuance.
    pub fn new() -> (r: Ledger)
        ensures
            forall|a: u64| #[trigger] r.balance_of(a) == 0,
            r.issuance() == 0,
    {
        Ledger { balances: HashMap::new(), issuance: 0 }
    }

    /// The total balance of `who`.
    pub fn total_balance(&self, who: u64) -> (r: u64)
        ensures
            r == self.balance_of(who),
    {
        match self.balances.get(&who) {
            Some(b) => *b,
            None => 0,
        }
    }

    /// The total issuance.
    pub fn total_issuance(&self) -> (r: u64)
        ensures
            r == self.issuance(),
    {
        self.issuance
    }

    /// Adds `value` to the balance of `who`, creating the account if needed,
    /// and to the issuance.
    pub fn increase_free_balance_creating(&mut self, who: u64, value: u64) -> (r: Result<
        (),
        LedgerError,
    >)
        ensures
            r is Ok <==> old(self).can_mint(who, value),
            r is Err ==> r == Err::<(), LedgerError>(LedgerError::Overflow) && *final(self)
                == *old(self),
            r is Ok ==> minted(*old(self), *final(self), who, value),
    {
        let b = self.total_balance(who);
        if b > u64::MAX - value || self.issuance > u64::MAX - value {
            return Err(LedgerError::Overflow);
        }
        self.balances.insert(who, b + value);
        self.issuance = self.issuance + value;
        Ok(())
    }

    /// Removes `value` from the balance of `who` and from the issuance.
    pub fn decrease_free_balance(&mut self, who: u64, value: u64) -> (r: Result<(), LedgerError>)
        ensures
            r is Ok <==> old(self).can_burn(who, value),
            r is Err ==> r == Err::<(), LedgerError>(LedgerError::InsufficientFunds)
                && *final(self) == *old(self),
            r is Ok ==> burned(*old(self), *final(self), who, value),
    {
        let b = self.total_balance(who);
        if b < value || self.issuance < value {
            return Err(LedgerError::InsufficientFunds);
        }
        self.balances.insert(who, b - value);
        self.issuance = self.issuance - value;
        Ok(())
    }
}

} // verus!
