use pay_engine::account::Account;
use pay_engine::account_registry::{AccountRegistry, AccountRegistryHandle};
use pay_engine::messages::{AccountRegistryMsg, AccountRegistryReply, TransactionRegistryMsg};
use pay_engine::transaction::{Transaction, TransactionType};
use pay_engine::transaction_registry::TransactionRegistry;

fn sample_account(client_id: u16, available: i64) -> Account {
    Account { client_id, available, held: 0, total: available, locked: false }
}

fn sample_transaction(transaction_id: u32) -> Transaction {
    Transaction {
        transaction_type: TransactionType::Deposit,
        client_id: 1,
        transaction_id,
        amount: Some(10_000),
        disputed: false,
    }
}

#[test]
fn lookup_of_unknown_client_returns_nothing() {
    let registry = AccountRegistry::new();
    assert!(registry.lookup(1).is_none());
}

#[test]
fn register_is_idempotent() {
    let mut registry = AccountRegistry::new();
    let first = registry.register(9);
    let second = registry.register(9);
    assert_eq!(first, second);
    assert_eq!(first, Account::new(9));
    assert_eq!(registry.query().len(), 1);
}

#[test]
fn persist_then_lookup_round_trips() {
    let mut registry = AccountRegistry::new();
    let account = sample_account(3, 42_000);
    registry.persist(account);
    assert_eq!(registry.lookup(3), Some(account));
}

#[test]
fn persist_is_last_writer_wins() {
    let mut registry = AccountRegistry::new();
    registry.persist(sample_account(3, 10_000));
    registry.persist(sample_account(3, 20_000));
    assert_eq!(registry.lookup(3), Some(sample_account(3, 20_000)));
    assert_eq!(registry.query().len(), 1);
}

#[test]
fn query_is_ascending_by_client_id() {
    let mut registry = AccountRegistry::new();
    registry.persist(sample_account(30, 1));
    registry.persist(sample_account(10, 2));
    registry.persist(sample_account(20, 3));
    let ids: Vec<u16> = registry.query().iter().map(|a| a.client_id).collect();
    assert_eq!(ids, vec![10, 20, 30]);
}

#[test]
fn account_messages_are_dispatched() {
    let mut registry = AccountRegistry::new();
    let account = sample_account(5, 7_000);
    match registry.handle_message(AccountRegistryMsg::Persist { account }) {
        AccountRegistryReply::Record(stored) => assert_eq!(stored, Some(account)),
        AccountRegistryReply::Snapshot(_) => panic!("a persist answers with a record"),
    }
    match registry.handle_message(AccountRegistryMsg::Lookup { id: 5 }) {
        AccountRegistryReply::Record(found) => assert_eq!(found, Some(account)),
        AccountRegistryReply::Snapshot(_) => panic!("a lookup answers with a record"),
    }
    match registry.handle_message(AccountRegistryMsg::Register { id: 6 }) {
        AccountRegistryReply::Record(created) => assert_eq!(created, Some(Account::new(6))),
        AccountRegistryReply::Snapshot(_) => panic!("a register answers with a record"),
    }
    match registry.handle_message(AccountRegistryMsg::Query) {
        AccountRegistryReply::Record(_) => panic!("a query answers with a snapshot"),
        AccountRegistryReply::Snapshot(all) => assert_eq!(all.len(), 2),
    }
}

#[test]
fn transaction_persist_then_lookup_round_trips() {
    let mut registry = TransactionRegistry::new();
    let tx = sample_transaction(11);
    registry.persist(tx);
    let found = registry.lookup(11).unwrap();
    assert_eq!(found.transaction_id, 11);
    assert_eq!(found.amount, Some(10_000));
    assert!(registry.lookup(12).is_none());
}

#[test]
fn transaction_messages_are_dispatched() {
    let mut registry = TransactionRegistry::new();
    let tx = sample_transaction(4);
    let stored = registry.handle_message(TransactionRegistryMsg::Persist { transaction: tx });
    assert_eq!(stored.map(|t| t.transaction_id), Some(4));
    let found = registry.handle_message(TransactionRegistryMsg::Lookup { id: 4 });
    assert_eq!(found.map(|t| t.transaction_id), Some(4));
}

#[test]
fn handle_lookup_registers_unknown_clients() {
    let mut handle = AccountRegistryHandle::new();
    let first = handle.lookup(2).unwrap();
    assert_eq!(first, Account::new(2));
    let second = handle.lookup(2).unwrap();
    assert_eq!(first, second);
    assert_eq!(handle.query().len(), 1);
}

#[test]
fn handle_persist_overwrites() {
    let mut handle = AccountRegistryHandle::new();
    let account = sample_account(8, 99_000);
    assert_eq!(handle.persist(account), Some(account));
    assert_eq!(handle.lookup(8), Some(account));
}
