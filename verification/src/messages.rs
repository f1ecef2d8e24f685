//! The request and reply types of the two registries.
//!
//! Each registry processes one message at a time, so callers that speak to a
//! registry only through these messages can never observe a half-applied
//! operation.

use vstd::prelude::*;
use crate::account::Account;
use crate::transaction::Transaction;

verus! {

/// A request to the account registry.
pub enum AccountRegistryMsg {
    /// The current account of this client, if any; no side effect.
    Lookup { id: u16 },
    /// The existing account of this client, or a fresh zero-balance account,
    /// created and stored, if the client is unknown.
    Register { id: u16 },
    /// Unconditionally store this account under its client id (last writer
    /// wins).
    Persist { account: Account },
    /// A snapshot of all known accounts, in ascending client id order.
    Query,
}

/// A reply of the account registry: a single record, or the snapshot that
/// answers a `Query`.
pub enum AccountRegistryReply {
    Record(Option<Account>),
    Snapshot(Vec<Account>),
}

/// A request to the transaction registry.
pub enum TransactionRegistryMsg {
    /// The stored transaction with this id, if any; no side effect.
    Lookup { id: u32 },
    /// Unconditionally store this transaction under its id (last writer
    /// wins).
    Persist { transaction: Transaction },
}

/// One input record in message form, with the amount present exactly where
/// the kind carries one.
pub enum TransactionMsg {
    Deposit { client: u16, tx: u32, amount: i64 },
    Withdrawal { client: u16, tx: u32, amount: i64 },
    Dispute { client: u16, tx: u32 },
    Resolve { client: u16, tx: u32 },
    Chargeback { client: u16, tx: u32 },
}

} // verus!
