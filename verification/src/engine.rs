//! The ledger pipeline: the per-record read-decide-write protocol.
//!
//! `process` consumes an ordered sequence of transaction records and applies
//! each one fully — account looked up, business rules decided, account and
//! transaction persisted — before the next begins. A rejected record is
//! reported and skipped; the run always continues.

use vstd::prelude::*;
use crate::account::Account;
use crate::account_registry::{persist_spec, register_spec, AccountRegistryHandle};
use crate::transaction::{Transaction, TransactionType};
use crate::transaction_registry::{tx_persist_spec, TransactionRegistryHandle};

verus! {

/// The error taxonomy of the ledger.
#[derive(Copy, Clone, Debug, PartialEq, Eq, Structural)]
pub enum LedgerError {
    /// An input row could not be decoded; fatal, the whole run aborts.
    MalformedInput,
    /// The owning processor of a mapping is gone; fatal to the run. Raised
    /// by deployments that put a registry behind a message channel, never by
    /// the in-memory registries of this crate.
    RegistryUnavailable,
    /// The record targets a frozen account; the record is skipped.
    AccountFrozen,
    /// A withdrawal asks for more than the available funds; skipped.
    InsufficientFunds,
    /// A dispute, resolve or chargeback references an unknown transaction
    /// id; skipped.
    UnknownTransactionReference,
    /// A resolve or chargeback references a transaction that is not under
    /// dispute; skipped.
    InvalidDisputeState,
    /// The transition's arithmetic would leave the fixed-point range;
    /// skipped. A limit of the representation, not a business rule.
    AmountOutOfRange,
}

/// Every stored transaction carries an amount. The pipeline persists only
/// monetary records, which do, so the property is an invariant of every run.
pub open spec fn stored_amounts_ok(txs: Map<u32, Transaction>) -> bool {
    forall|id: u32| #[trigger] txs.contains_key(id) ==> txs[id].amount is Some
}

/// Every stored account is balanced and sits under its own client id.
pub open spec fn accounts_ok(accs: Map<u16, Account>) -> bool {
    forall|c: u16|
        #[trigger] accs.contains_key(c) ==> accs[c].is_balanced() && accs[c].client_id == c
}

/// One record's read-decide-write step: the account maps, the transaction
/// maps and the outcome after the record.
///
/// The record's client is registered first (a miss creates a zero-balance
/// account), and that registration stands even when the record is then
/// rejected. A frozen account rejects every record. Deposits and
/// withdrawals apply their own amount and persist both the account and the
/// record; disputes, resolves and chargebacks act on the stored amount of
/// the transaction they reference. As in the reference behaviour, a
/// re-dispute of an already disputed transaction is not rejected, and the
/// record's client is not checked against the referenced transaction's
/// owner.
pub open spec fn step(
    accs: Map<u16, Account>,
    txs: Map<u32, Transaction>,
    rec: Transaction,
) -> (Map<u16, Account>, Map<u32, Transaction>, Option<LedgerError>)
    recommends
        rec.has_required_amount(),
        stored_amounts_ok(txs),
{
    let accs1 = register_spec(accs, rec.client_id).0;
    let acc = register_spec(accs, rec.client_id).1;
    if acc.locked {
        (accs1, txs, Some(LedgerError::AccountFrozen))
    } else {
        match rec.transaction_type {
            TransactionType::Deposit => {
                let amount = rec.amount.unwrap();
                if !acc.can_apply(amount, TransactionType::Deposit) {
                    (accs1, txs, Some(LedgerError::AmountOutOfRange))
                } else {
                    (
                        persist_spec(accs1, acc.applied(amount, TransactionType::Deposit)),
                        tx_persist_spec(txs, rec),
                        None,
                    )
                }
            },
            TransactionType::Withdrawal => {
                let amount = rec.amount.unwrap();
                if amount > acc.available {
                    (accs1, txs, Some(LedgerError::InsufficientFunds))
                } else if !acc.can_apply(amount, TransactionType::Withdrawal) {
                    (accs1, txs, Some(LedgerError::AmountOutOfRange))
                } else {
                    (
                        persist_spec(accs1, acc.applied(amount, TransactionType::Withdrawal)),
                        tx_persist_spec(txs, rec),
                        None,
                    )
                }
            },
            TransactionType::Dispute => {
                if !txs.contains_key(rec.transaction_id) {
                    (accs1, txs, Some(LedgerError::UnknownTransactionReference))
                } else {
                    let referenced = txs[rec.transaction_id];
                    let amount = referenced.amount.unwrap();
                    if !acc.can_apply(amount, TransactionType::Dispute) {
                        (accs1, txs, Some(LedgerError::AmountOutOfRange))
                    } else {
                        (
                            persist_spec(accs1, acc.applied(amount, TransactionType::Dispute)),
                            tx_persist_spec(
                                txs,
                                Transaction { disputed: true, ..referenced },
                            ),
                            None,
                        )
                    }
                }
            },
            TransactionType::Resolve => {
                if !txs.contains_key(rec.transaction_id) {
                    (accs1, txs, Some(LedgerError::UnknownTransactionReference))
                } else {
                    let referenced = txs[rec.transaction_id];
                    if !referenced.disputed {
                        (accs1, txs, Some(LedgerError::InvalidDisputeState))
                    } else {
                        let amount = referenced.amount.unwrap();
                        if !acc.can_apply(amount, TransactionType::Resolve) {
                            (accs1, txs, Some(LedgerError::AmountOutOfRange))
                        } else {
                            (
                                persist_spec(accs1, acc.applied(amount, TransactionType::Resolve)),
                                tx_persist_spec(
                                    txs,
                                    Transaction { disputed: false, ..referenced },
                                ),
                                None,
                            )
                        }
                    }
                }
            },
            TransactionType::Chargeback => {
                if !txs.contains_key(rec.transaction_id) {
                    (accs1, txs, Some(LedgerError::UnknownTransactionReference))
                } else {
                    let referenced = txs[rec.transaction_id];
                    if !referenced.disputed {
                        (accs1, txs, Some(LedgerError::InvalidDisputeState))
                    } else {
                        let amount = referenced.amount.unwrap();
                        if !acc.can_apply(amount, TransactionType::Chargeback) {
                            (accs1, txs, Some(LedgerError::AmountOutOfRange))
                        } else {
                            (
                                persist_spec(
                                    accs1,
                                    acc.applied(amount, TransactionType::Chargeback),
                                ),
                                tx_persist_spec(
                                    txs,
                                    Transaction { disputed: false, ..referenced },
                                ),
                                None,
                            )
                        }
                    }
                }
            },
        }
    }
}

/// The ledger after an ordered sequence of records, with the log of
/// rejections: each record is applied by `step`, strictly in input order,
/// and a rejection is logged under the record's position and skipped.
pub open spec fn run(
    accs: Map<u16, Account>,
    txs: Map<u32, Transaction>,
    recs: Seq<Transaction>,
) -> (Map<u16, Account>, Map<u32, Transaction>, Seq<(usize, LedgerError)>)
    decreases recs.len(),
{
    if recs.len() == 0 {
        (accs, txs, Seq::empty())
    } else {
        let prev = run(accs, txs, recs.drop_last());
        let next = step(prev.0, prev.1, recs.last());
        match next.2 {
            None => (next.0, next.1, prev.2),
            Some(e) => (next.0, next.1, prev.2.push(((recs.len() - 1) as usize, e))),
        }
    }
}

/// Unfolds `run` one record at a time along a prefix of the input.
proof fn lemma_run_take_succ(
    accs: Map<u16, Account>,
    txs: Map<u32, Transaction>,
    recs: Seq<Transaction>,
    i: int,
)
    requires
        0 <= i < recs.len(),
    ensures
        ({
            let prev = run(accs, txs, recs.take(i));
            let next = step(prev.0, prev.1, recs[i]);
            run(accs, txs, recs.take(i + 1)) == (match next.2 {
                None => (next.0, next.1, prev.2),
                Some(e) => (next.0, next.1, prev.2.push((i as usize, e))),
            })
        }),
{
    assert(recs.take(i + 1).drop_last() =~= recs.take(i));
    assert(recs.take(i + 1).last() == recs[i]);
}

/// A persisted balanced account keeps every stored account balanced and
/// under its own client id.
proof fn lemma_persist_preserves_accounts_ok(m: Map<u16, Account>, a: Account)
    requires
        accounts_ok(m),
        a.is_balanced(),
    ensures
        accounts_ok(persist_spec(m, a)),
{
}

/// Law: one step keeps every stored account balanced (`total == available +
/// held`) and under its own client id.
pub proof fn lemma_step_preserves_accounts_ok(
    accs: Map<u16, Account>,
    txs: Map<u32, Transaction>,
    rec: Transaction,
)
    requires
        accounts_ok(accs),
    ensures
        accounts_ok(step(accs, txs, rec).0),
{
    let accs1 = register_spec(accs, rec.client_id).0;
    let acc = register_spec(accs, rec.client_id).1;
    assert(accounts_ok(accs1));
    assert(acc.is_balanced());
    if !acc.locked {
        match rec.transaction_type {
            TransactionType::Deposit => {
                let amount = rec.amount.unwrap();
                if acc.can_apply(amount, TransactionType::Deposit) {
                    crate::account::lemma_apply_preserves_balance(
                        acc,
                        amount,
                        TransactionType::Deposit,
                    );
                    lemma_persist_preserves_accounts_ok(
                        accs1,
                        acc.applied(amount, TransactionType::Deposit),
                    );
                }
            },
            TransactionType::Withdrawal => {
                let amount = rec.amount.unwrap();
                if !(amount > acc.available) && acc.can_apply(amount, TransactionType::Withdrawal) {
                    crate::account::lemma_apply_preserves_balance(
                        acc,
                        amount,
                        TransactionType::Withdrawal,
                    );
                    lemma_persist_preserves_accounts_ok(
                        accs1,
                        acc.applied(amount, TransactionType::Withdrawal),
                    );
                }
            },
            TransactionType::Dispute => {
                if txs.contains_key(rec.transaction_id) {
                    let amount = txs[rec.transaction_id].amount.unwrap();
                    if acc.can_apply(amount, TransactionType::Dispute) {
                        crate::account::lemma_apply_preserves_balance(
                            acc,
                            amount,
                            TransactionType::Dispute,
                        );
                        lemma_persist_preserves_accounts_ok(
                            accs1,
                            acc.applied(amount, TransactionType::Dispute),
                        );
                    }
                }
            },
            TransactionType::Resolve => {
                if txs.contains_key(rec.transaction_id) && txs[rec.transaction_id].disputed {
                    let amount = txs[rec.transaction_id].amount.unwrap();
                    if acc.can_apply(amount, TransactionType::Resolve) {
                        crate::account::lemma_apply_preserves_balance(
                            acc,
                            amount,
                            TransactionType::Resolve,
                        );
                        lemma_persist_preserves_accounts_ok(
                            accs1,
                            acc.applied(amount, TransactionType::Resolve),
                        );
                    }
                }
            },
            TransactionType::Chargeback => {
                if txs.contains_key(rec.transaction_id) && txs[rec.transaction_id].disputed {
                    let amount = txs[rec.transaction_id].amount.unwrap();
                    if acc.can_apply(amount, TransactionType::Chargeback) {
                        crate::account::lemma_apply_preserves_balance(
                            acc,
                            amount,
                            TransactionType::Chargeback,
                        );
                        lemma_persist_preserves_accounts_ok(
                            accs1,
                            acc.applied(amount, TransactionType::Chargeback),
                        );
                    }
                }
            },
        }
    }
}

/// Law: at every observed state of a run, every stored account satisfies
/// `total == available + held` — a run from balanced registries (an empty
/// one included) can never store an unbalanced account.
pub proof fn lemma_run_preserves_accounts_ok(
    accs: Map<u16, Account>,
    txs: Map<u32, Transaction>,
    recs: Seq<Transaction>,
)
    requires
        accounts_ok(accs),
    ensures
        accounts_ok(run(accs, txs, recs).0),
    decreases recs.len(),
{
    if recs.len() > 0 {
        let prev = run(accs, txs, recs.drop_last());
        lemma_run_preserves_accounts_ok(accs, txs, recs.drop_last());
        lemma_step_preserves_accounts_ok(prev.0, prev.1, recs.last());
    }
}

/// Law: once an account is frozen, one further record changes none of its
/// fields — a record of its own client is rejected before any write, and a
/// record of another client writes only under that other client's id.
pub proof fn lemma_step_frozen(
    accs: Map<u16, Account>,
    txs: Map<u32, Transaction>,
    rec: Transaction,
    c: u16,
)
    requires
        accounts_ok(accs),
        accs.contains_key(c),
        accs[c].locked,
    ensures
        step(accs, txs, rec).0.contains_key(c),
        step(accs, txs, rec).0[c] == accs[c],
{
    let acc = register_spec(accs, rec.client_id).1;
    assert(acc.client_id == rec.client_id);
}

/// Law: once an account is frozen, no subsequent transaction of the run
/// changes any of its fields.
pub proof fn lemma_run_frozen(
    accs: Map<u16, Account>,
    txs: Map<u32, Transaction>,
    recs: Seq<Transaction>,
    c: u16,
)
    requires
        accounts_ok(accs),
        accs.contains_key(c),
        accs[c].locked,
    ensures
        run(accs, txs, recs).0.contains_key(c),
        run(accs, txs, recs).0[c] == accs[c],
    decreases recs.len(),
{
    if recs.len() > 0 {
        let prev = run(accs, txs, recs.drop_last());
        lemma_run_frozen(accs, txs, recs.drop_last(), c);
        lemma_run_preserves_accounts_ok(accs, txs, recs.drop_last());
        lemma_step_frozen(prev.0, prev.1, recs.last(), c);
    }
}

/// Applies one record against the registries: look the account up
/// (registering a miss), decide the business rules, write the results back.
/// The outcome, the new account map and the new transaction map are exactly
/// what `step` says of the old ones.
pub fn process_record(
    accounts: &mut AccountRegistryHandle,
    transactions: &mut TransactionRegistryHandle,
    record: Transaction,
) -> (r: Result<(), LedgerError>)
    requires
        old(accounts).wf(),
        old(transactions).wf(),
        record.has_required_amount(),
        stored_amounts_ok(old(transactions)@),
    ensures
        final(accounts).wf(),
        final(transactions).wf(),
        stored_amounts_ok(final(transactions)@),
        ({
            let next = step(old(accounts)@, old(transactions)@, record);
            &&& final(accounts)@ == next.0
            &&& final(transactions)@ == next.1
            &&& r == (match next.2 {
                None => Result::<(), LedgerError>::Ok(()),
                Some(e) => Result::<(), LedgerError>::Err(e),
            })
        }),
{
    let account = accounts.lookup(record.client_id).unwrap();
    if account.locked {
        return Err(LedgerError::AccountFrozen);
    }
    match record.transaction_type {
        TransactionType::Deposit => {
            let amount = record.amount.unwrap();
            if !account.check_apply(amount, TransactionType::Deposit) {
                Err(LedgerError::AmountOutOfRange)
            } else {
                let updated = account.apply(amount, TransactionType::Deposit);
                let _ = accounts.persist(updated);
                let _ = transactions.persist(record);
                Ok(())
            }
        },
        TransactionType::Withdrawal => {
            let amount = record.amount.unwrap();
            if amount > account.available {
                Err(LedgerError::InsufficientFunds)
            } else if !account.check_apply(amount, TransactionType::Withdrawal) {
                Err(LedgerError::AmountOutOfRange)
            } else {
                let updated = account.apply(amount, TransactionType::Withdrawal);
                let _ = accounts.persist(updated);
                let _ = transactions.persist(record);
                Ok(())
            }
        },
        TransactionType::Dispute => {
            match transactions.lookup(record.transaction_id) {
                None => Err(LedgerError::UnknownTransactionReference),
                Some(referenced) => {
                    let amount = referenced.amount.unwrap();
                    if !account.check_apply(amount, TransactionType::Dispute) {
                        Err(LedgerError::AmountOutOfRange)
                    } else {
                        let updated = account.apply(amount, TransactionType::Dispute);
                        let _ = accounts.persist(updated);
                        let _ = transactions.persist(referenced.dispute());
                        Ok(())
                    }
                },
            }
        },
        TransactionType::Resolve => {
            match transactions.lookup(record.transaction_id) {
                None => Err(LedgerError::UnknownTransactionReference),
                Some(referenced) => {
                    if !referenced.disputed {
                        Err(LedgerError::InvalidDisputeState)
                    } else {
                        let amount = referenced.amount.unwrap();
                        if !account.check_apply(amount, TransactionType::Resolve) {
                            Err(LedgerError::AmountOutOfRange)
                        } else {
                            let updated = account.apply(amount, TransactionType::Resolve);
                            let _ = accounts.persist(updated);
                            let _ = transactions.persist(referenced.resolve());
                            Ok(())
                        }
                    }
                },
            }
        },
        TransactionType::Chargeback => {
            match transactions.lookup(record.transaction_id) {
                None => Err(LedgerError::UnknownTransactionReference),
                Some(referenced) => {
                    if !referenced.disputed {
                        Err(LedgerError::InvalidDisputeState)
                    } else {
                        let amount = referenced.amount.unwrap();
                        if !account.check_apply(amount, TransactionType::Chargeback) {
                            Err(LedgerError::AmountOutOfRange)
                        } else {
                            let updated = account.apply(amount, TransactionType::Chargeback);
                            let _ = accounts.persist(updated);
                            let _ = transactions.persist(referenced.resolve());
                            Ok(())
                        }
                    }
                },
            }
        },
    }
}

/// Consumes the records in order, one fully applied before the next begins,
/// and reports each rejection with the position of the record it skipped.
/// The final registries and the report are exactly what `run` says of the
/// input.
pub fn process(
    records: &Vec<Transaction>,
    accounts: &mut AccountRegistryHandle,
    transactions: &mut TransactionRegistryHandle,
) -> (r: Vec<(usize, LedgerError)>)
    requires
        old(accounts).wf(),
        old(transactions).wf(),
        forall|i: int| 0 <= i < records@.len() ==> (#[trigger] records@[i]).has_required_amount(),
        stored_amounts_ok(old(transactions)@),
    ensures
        final(accounts).wf(),
        final(transactions).wf(),
        stored_amounts_ok(final(transactions)@),
        ({
            let out = run(old(accounts)@, old(transactions)@, records@);
            &&& final(accounts)@ == out.0
            &&& final(transactions)@ == out.1
            &&& r@ == out.2
        }),
        accounts_ok(old(accounts)@) ==> accounts_ok(final(accounts)@),
        forall|c: u16|
            (accounts_ok(old(accounts)@) && #[trigger] old(accounts)@.contains_key(c) && old(
                accounts,
            )@[c].locked) ==> final(accounts)@.contains_key(c) && final(accounts)@[c] == old(
                accounts,
            )@[c],
{
    let ghost a0 = accounts@;
    let ghost t0 = transactions@;
    let mut log: Vec<(usize, LedgerError)> = Vec::new();
    let mut i: usize = 0;
    while i < records.len()
        invariant
            i <= records@.len(),
            accounts.wf(),
            transactions.wf(),
            stored_amounts_ok(transactions@),
            forall|j: int|
                0 <= j < records@.len() ==> (#[trigger] records@[j]).has_required_amount(),
            ({
                let out = run(a0, t0, records@.take(i as int));
                &&& accounts@ == out.0
                &&& transactions@ == out.1
                &&& log@ == out.2
            }),
        decreases records@.len() - i,
    {
        let record = records[i];
        let res = process_record(accounts, transactions, record);
        proof {
            lemma_run_take_succ(a0, t0, records@, i as int);
        }
        match res {
            Ok(()) => {},
            Err(e) => {
                log.push((i, e));
            },
        }
        i += 1;
    }
    proof {
        assert(records@.take(records@.len() as int) =~= records@);
        if accounts_ok(a0) {
            lemma_run_preserves_accounts_ok(a0, t0, records@);
            assert forall|c: u16|
                #[trigger] a0.contains_key(c) && a0[c].locked implies accounts@.contains_key(c)
                && accounts@[c] == a0[c] by {
                lemma_run_frozen(a0, t0, records@, c);
            }
        }
    }
    log
}

} // verus!

