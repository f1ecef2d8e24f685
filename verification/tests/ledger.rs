use pay_engine::account::Account;
use pay_engine::account_registry::AccountRegistryHandle;
use pay_engine::engine::{process, LedgerError};
use pay_engine::transaction::{Transaction, TransactionType};
use pay_engine::transaction_registry::TransactionRegistryHandle;

// Amounts are fixed-point with four decimal places: 5.0 is written 50_000.
const ONE: i64 = 10_000;

fn deposit(client: u16, tx: u32, amount: i64) -> Transaction {
    Transaction {
        transaction_type: TransactionType::Deposit,
        client_id: client,
        transaction_id: tx,
        amount: Some(amount),
        disputed: false,
    }
}

fn withdrawal(client: u16, tx: u32, amount: i64) -> Transaction {
    Transaction {
        transaction_type: TransactionType::Withdrawal,
        client_id: client,
        transaction_id: tx,
        amount: Some(amount),
        disputed: false,
    }
}

fn referential(kind: TransactionType, client: u16, tx: u32) -> Transaction {
    Transaction {
        transaction_type: kind,
        client_id: client,
        transaction_id: tx,
        amount: None,
        disputed: false,
    }
}

fn run(
    records: Vec<Transaction>,
) -> (AccountRegistryHandle, TransactionRegistryHandle, Vec<(usize, LedgerError)>) {
    let mut accounts = AccountRegistryHandle::new();
    let mut transactions = TransactionRegistryHandle::new();
    let log = process(&records, &mut accounts, &mut transactions);
    (accounts, transactions, log)
}

fn account_of(accounts: &mut AccountRegistryHandle, client: u16) -> Account {
    accounts.lookup(client).unwrap()
}

#[test]
fn scenario_two_deposits_accumulate() {
    let (mut accounts, _transactions, log) =
        run(vec![deposit(1, 1, 5 * ONE), deposit(1, 2, 3 * ONE)]);
    assert!(log.is_empty());
    assert_eq!(
        account_of(&mut accounts, 1),
        Account { client_id: 1, available: 8 * ONE, held: 0, total: 8 * ONE, locked: false }
    );
}

#[test]
fn scenario_overdraft_is_rejected() {
    let (mut accounts, _transactions, log) =
        run(vec![deposit(1, 1, 5 * ONE), withdrawal(1, 2, 7 * ONE)]);
    assert_eq!(log, vec![(1, LedgerError::InsufficientFunds)]);
    assert_eq!(
        account_of(&mut accounts, 1),
        Account { client_id: 1, available: 5 * ONE, held: 0, total: 5 * ONE, locked: false }
    );
}

#[test]
fn scenario_dispute_holds_funds() {
    let (mut accounts, transactions, log) = run(vec![
        deposit(1, 1, 5 * ONE),
        referential(TransactionType::Dispute, 1, 1),
    ]);
    assert!(log.is_empty());
    assert_eq!(
        account_of(&mut accounts, 1),
        Account { client_id: 1, available: 0, held: 5 * ONE, total: 5 * ONE, locked: false }
    );
    assert!(transactions.lookup(1).unwrap().disputed);
}

#[test]
fn scenario_resolve_releases_funds() {
    let (mut accounts, transactions, log) = run(vec![
        deposit(1, 1, 5 * ONE),
        referential(TransactionType::Dispute, 1, 1),
        referential(TransactionType::Resolve, 1, 1),
    ]);
    assert!(log.is_empty());
    assert_eq!(
        account_of(&mut accounts, 1),
        Account { client_id: 1, available: 5 * ONE, held: 0, total: 5 * ONE, locked: false }
    );
    assert!(!transactions.lookup(1).unwrap().disputed);
}

#[test]
fn scenario_chargeback_freezes_account() {
    let (mut accounts, _transactions, log) = run(vec![
        deposit(1, 1, 5 * ONE),
        referential(TransactionType::Dispute, 1, 1),
        referential(TransactionType::Chargeback, 1, 1),
        deposit(1, 2, 100 * ONE),
    ]);
    assert_eq!(log, vec![(3, LedgerError::AccountFrozen)]);
    assert_eq!(
        account_of(&mut accounts, 1),
        Account { client_id: 1, available: 0, held: 0, total: 0, locked: true }
    );
}

#[test]
fn scenario_unknown_reference_is_rejected() {
    let (mut accounts, _transactions, log) =
        run(vec![referential(TransactionType::Resolve, 1, 99)]);
    assert_eq!(log, vec![(0, LedgerError::UnknownTransactionReference)]);
    // The lookup registered the client, but nothing was applied to it.
    assert_eq!(
        account_of(&mut accounts, 1),
        Account { client_id: 1, available: 0, held: 0, total: 0, locked: false }
    );
}

#[test]
fn withdrawal_of_everything_is_permitted() {
    let (mut accounts, _transactions, log) =
        run(vec![deposit(1, 1, 5 * ONE), withdrawal(1, 2, 5 * ONE)]);
    assert!(log.is_empty());
    assert_eq!(
        account_of(&mut accounts, 1),
        Account { client_id: 1, available: 0, held: 0, total: 0, locked: false }
    );
}

#[test]
fn resolve_of_undisputed_transaction_is_rejected() {
    let (mut accounts, _transactions, log) = run(vec![
        deposit(1, 1, 5 * ONE),
        referential(TransactionType::Resolve, 1, 1),
    ]);
    assert_eq!(log, vec![(1, LedgerError::InvalidDisputeState)]);
    assert_eq!(account_of(&mut accounts, 1).available, 5 * ONE);
}

#[test]
fn chargeback_of_undisputed_transaction_is_rejected() {
    let (mut accounts, _transactions, log) = run(vec![
        deposit(1, 1, 5 * ONE),
        referential(TransactionType::Chargeback, 1, 1),
    ]);
    assert_eq!(log, vec![(1, LedgerError::InvalidDisputeState)]);
    assert_eq!(account_of(&mut accounts, 1).locked, false);
}

#[test]
fn dispute_of_unknown_transaction_is_rejected() {
    let (_accounts, _transactions, log) = run(vec![
        deposit(1, 1, 5 * ONE),
        referential(TransactionType::Dispute, 1, 2),
    ]);
    assert_eq!(log, vec![(1, LedgerError::UnknownTransactionReference)]);
}

#[test]
fn overflowing_deposit_is_rejected() {
    let (mut accounts, _transactions, log) =
        run(vec![deposit(1, 1, i64::MAX), deposit(1, 2, 1)]);
    assert_eq!(log, vec![(1, LedgerError::AmountOutOfRange)]);
    assert_eq!(account_of(&mut accounts, 1).available, i64::MAX);
}

#[test]
fn rejection_does_not_stop_the_run() {
    let (mut accounts, _transactions, log) = run(vec![
        deposit(1, 1, 5 * ONE),
        withdrawal(1, 2, 7 * ONE),
        deposit(1, 3, 2 * ONE),
    ]);
    assert_eq!(log, vec![(1, LedgerError::InsufficientFunds)]);
    assert_eq!(account_of(&mut accounts, 1).available, 7 * ONE);
}

#[test]
fn redispute_is_not_guarded() {
    // The reference behaviour applies a second dispute of the same
    // transaction again rather than rejecting it.
    let (mut accounts, _transactions, log) = run(vec![
        deposit(1, 1, 5 * ONE),
        referential(TransactionType::Dispute, 1, 1),
        referential(TransactionType::Dispute, 1, 1),
    ]);
    assert!(log.is_empty());
    let account = account_of(&mut accounts, 1);
    assert_eq!(account.available, -5 * ONE);
    assert_eq!(account.held, 10 * ONE);
    assert_eq!(account.total, 5 * ONE);
}

#[test]
fn every_account_stays_balanced() {
    let (accounts, _transactions, _log) = run(vec![
        deposit(1, 1, 5 * ONE),
        deposit(2, 2, 3 * ONE),
        referential(TransactionType::Dispute, 1, 1),
        withdrawal(2, 3, ONE),
        referential(TransactionType::Chargeback, 1, 1),
    ]);
    for account in accounts.query() {
        assert_eq!(account.total, account.available + account.held);
    }
}

#[test]
fn rejected_withdrawal_is_not_disputable() {
    // Only successfully applied monetary transactions are retained.
    let (_accounts, transactions, log) = run(vec![
        deposit(1, 1, 5 * ONE),
        withdrawal(1, 2, 7 * ONE),
        referential(TransactionType::Dispute, 1, 2),
    ]);
    assert_eq!(
        log,
        vec![
            (1, LedgerError::InsufficientFunds),
            (2, LedgerError::UnknownTransactionReference),
        ]
    );
    assert!(transactions.lookup(2).is_none());
}

#[test]
fn apply_performs_exact_arithmetic() {
    let account = Account::new(7);
    let after = account.apply(25_000, TransactionType::Deposit);
    assert_eq!(
        after,
        Account { client_id: 7, available: 25_000, held: 0, total: 25_000, locked: false }
    );
    let held = after.apply(25_000, TransactionType::Dispute);
    assert_eq!(
        held,
        Account { client_id: 7, available: 0, held: 25_000, total: 25_000, locked: false }
    );
    let charged = held.apply(25_000, TransactionType::Chargeback);
    assert_eq!(
        charged,
        Account { client_id: 7, available: 0, held: 0, total: 0, locked: true }
    );
}

#[test]
fn dispute_lifecycle_toggles_the_flag() {
    let tx = deposit(1, 1, 5 * ONE);
    assert!(!tx.disputed);
    let disputed = tx.dispute();
    assert!(disputed.disputed);
    let resolved = disputed.resolve();
    assert!(!resolved.disputed);
    assert_eq!(resolved.amount, Some(5 * ONE));
}
