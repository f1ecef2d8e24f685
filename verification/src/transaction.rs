//! Transaction records and their dispute lifecycle.

use vstd::prelude::*;

verus! {

/// The five kinds of transaction record.
///
/// `Deposit` and `Withdrawal` carry their own amount and create a new ledger
/// entry. `Dispute`, `Resolve` and `Chargeback` carry no amount: they
/// reference a prior monetary transaction by id and act on its stored amount.
#[derive(Copy, Clone, Debug, PartialEq, Eq, Structural)]
pub enum TransactionType {
    Deposit,
    Withdrawal,
    Dispute,
    Resolve,
    Chargeback,
}

/// One transaction record.
///
/// `amount` is a fixed-point value with four decimal places; it is present
/// for `Deposit` and `Withdrawal` records and absent for the referential
/// kinds. `disputed` is false at creation and true while an open dispute
/// exists against the transaction.
#[derive(Copy, Clone, Debug)]
pub struct Transaction {
    pub transaction_type: TransactionType,
    pub client_id: u16,
    pub transaction_id: u32,
    pub amount: Option<i64>,
    pub disputed: bool,
}

impl Transaction {
    /// A monetary record is well formed when it carries an amount; the
    /// referential kinds need none.
    pub open spec fn has_required_amount(self) -> bool {
        match self.transaction_type {
            TransactionType::Deposit | TransactionType::Withdrawal => self.amount is Some,
            _ => true,
        }
    }

    /// Opens a dispute against this transaction: only the `disputed` flag
    /// changes.
    pub fn dispute(&self) -> (r: Self)
        ensures
            r == (Transaction { disputed: true, ..*self }),
    {
        Transaction { disputed: true, ..*self }
    }

    /// Closes the dispute against this transaction (by a resolve or a
    /// chargeback): only the `disputed` flag changes.
    pub fn resolve(&self) -> (r: Self)
        ensures
            r == (Transaction { disputed: false, ..*self }),
    {
        Transaction { disputed: false, ..*self }
    }
}

} // verus!
