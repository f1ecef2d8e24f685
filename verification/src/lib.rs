//! A small payments ledger.
//!
//! The library ingests a sequence of transaction records (deposits,
//! withdrawals, disputes, resolves, chargebacks) and maintains, per client,
//! an account ledger: available funds, funds held by open disputes, the
//! total, and a frozen flag. Amounts are fixed-point integers with four
//! decimal places, so arithmetic is exact.

pub mod account;
pub mod account_registry;
pub mod engine;
pub mod messages;
pub mod store;
pub mod transaction;
pub mod transaction_registry;
