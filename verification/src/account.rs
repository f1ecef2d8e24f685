//! Client accounts and the pure state-transition function.

use vstd::prelude::*;
use crate::transaction::TransactionType;

verus! {

/// True when `x` fits in the fixed-point amount type.
pub open spec fn in_amount_range(x: int) -> bool {
    i64::MIN <= x <= i64::MAX
}

/// One client account.
///
/// The amounts are fixed-point values with four decimal places: `available`
/// is free to withdraw, `held` is locked by open disputes, and `total` is
/// their sum. Once `locked` is true the account is frozen and no further
/// transaction mutates it.
#[derive(Copy, Clone, Debug, PartialEq, Eq, Structural)]
pub struct Account {
    pub client_id: u16,
    pub available: i64,
    pub held: i64,
    pub total: i64,
    pub locked: bool,
}

impl Account {
    /// The zero-balance, unfrozen account of `client_id`.
    pub open spec fn zeroed(client_id: u16) -> Account {
        Account { client_id, available: 0, held: 0, total: 0, locked: false }
    }

    /// The central ledger invariant: the total is exactly the available
    /// funds plus the held funds.
    pub open spec fn is_balanced(self) -> bool {
        self.total == self.available + self.held
    }

    /// True when the arithmetic of `applied` stays within the fixed-point
    /// range, so the transition loses nothing to overflow.
    pub open spec fn can_apply(self, amount: i64, event: TransactionType) -> bool {
        match event {
            TransactionType::Deposit => in_amount_range(self.available + amount)
                && in_amount_range(self.total + amount),
            TransactionType::Withdrawal => in_amount_range(self.available - amount)
                && in_amount_range(self.total - amount),
            TransactionType::Dispute => in_amount_range(self.available - amount)
                && in_amount_range(self.held + amount),
            TransactionType::Resolve => in_amount_range(self.available + amount)
                && in_amount_range(self.held - amount),
            TransactionType::Chargeback => in_amount_range(self.held - amount)
                && in_amount_range(self.total - amount),
        }
    }

    /// The account after one transition:
    /// - `Deposit` credits `available` and `total`;
    /// - `Withdrawal` debits `available` and `total`;
    /// - `Dispute` moves the amount from `available` to `held`;
    /// - `Resolve` moves it back from `held` to `available`;
    /// - `Chargeback` removes it from `held` and `total` and freezes the
    ///   account.
    pub open spec fn applied(self, amount: i64, event: TransactionType) -> Account
        recommends
            self.can_apply(amount, event),
    {
        match event {
            TransactionType::Deposit => Account {
                available: (self.available + amount) as i64,
                total: (self.total + amount) as i64,
                ..self
            },
            TransactionType::Withdrawal => Account {
                available: (self.available - amount) as i64,
                total: (self.total - amount) as i64,
                ..self
            },
            TransactionType::Dispute => Account {
                available: (self.available - amount) as i64,
                held: (self.held + amount) as i64,
                ..self
            },
            TransactionType::Resolve => Account {
                available: (self.available + amount) as i64,
                held: (self.held - amount) as i64,
                ..self
            },
            TransactionType::Chargeback => Account {
                held: (self.held - amount) as i64,
                total: (self.total - amount) as i64,
                locked: true,
                ..self
            },
        }
    }

    /// A fresh zero-balance, unfrozen account for `client_id`.
    pub fn new(client_id: u16) -> (r: Self)
        ensures
            r == Account::zeroed(client_id),
    {
        Account { client_id, available: 0, held: 0, total: 0, locked: false }
    }

    /// Executable test of `can_apply`: true exactly when the transition's
    /// arithmetic stays within the fixed-point range.
    pub fn check_apply(&self, amount: i64, event: TransactionType) -> (r: bool)
        ensures
            r == self.can_apply(amount, event),
    {
        match event {
            TransactionType::Deposit => self.available.checked_add(amount).is_some()
                && self.total.checked_add(amount).is_some(),
            TransactionType::Withdrawal => self.available.checked_sub(amount).is_some()
                && self.total.checked_sub(amount).is_some(),
            TransactionType::Dispute => self.available.checked_sub(amount).is_some()
                && self.held.checked_add(amount).is_some(),
            TransactionType::Resolve => self.available.checked_add(amount).is_some()
                && self.held.checked_sub(amount).is_some(),
            TransactionType::Chargeback => self.held.checked_sub(amount).is_some()
                && self.total.checked_sub(amount).is_some(),
        }
    }

    /// The pure state-transition function. It only performs the arithmetic
    /// of the event; whether applying the event is legal (sufficient funds,
    /// account not frozen) is the caller's decision.
    pub fn apply(&self, amount: i64, event: TransactionType) -> (r: Self)
        requires
            self.can_apply(amount, event),
        ensures
            r == self.applied(amount, event),
    {
        match event {
            TransactionType::Deposit => self.credit(amount),
            TransactionType::Withdrawal => self.debit(amount),
            TransactionType::Dispute => self.hold(amount),
            TransactionType::Resolve => self.release(amount),
            TransactionType::Chargeback => self.charge_back(amount),
        }
    }

    fn credit(&self, amount: i64) -> (r: Self)
        requires
            self.can_apply(amount, TransactionType::Deposit),
        ensures
            r == self.applied(amount, TransactionType::Deposit),
    {
        Account { available: self.available + amount, total: self.total + amount, ..*self }
    }

    fn debit(&self, amount: i64) -> (r: Self)
        requires
            self.can_apply(amount, TransactionType::Withdrawal),
        ensures
            r == self.applied(amount, TransactionType::Withdrawal),
    {
        Account { available: self.available - amount, total: self.total - amount, ..*self }
    }

    fn hold(&self, amount: i64) -> (r: Self)
        requires
            self.can_apply(amount, TransactionType::Dispute),
        ensures
            r == self.applied(amount, TransactionType::Dispute),
    {
        Account { available: self.available - amount, held: self.held + amount, ..*self }
    }

    fn release(&self, amount: i64) -> (r: Self)
        requires
            self.can_apply(amount, TransactionType::Resolve),
        ensures
            r == self.applied(amount, TransactionType::Resolve),
    {
        Account { available: self.available + amount, held: self.held - amount, ..*self }
    }

    fn charge_back(&self, amount: i64) -> (r: Self)
        requires
            self.can_apply(amount, TransactionType::Chargeback),
        ensures
            r == self.applied(amount, TransactionType::Chargeback),
    {
        Account { held: self.held - amount, total: self.total - amount, locked: true, ..*self }
    }
}

/// Law: every transition preserves the balance invariant
/// `total == available + held`, whatever the event and the amount.
pub proof fn lemma_apply_preserves_balance(a: Account, amount: i64, event: TransactionType)
    requires
        a.is_balanced(),
        a.can_apply(amount, event),
    ensures
        a.applied(amount, event).is_balanced(),
{
}

} // verus!
