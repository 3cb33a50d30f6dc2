//! A multi-threaded payment ledger: accounts with balances and per-sender
//! sequence numbers, signed transfers, a queue of transfers that arrive ahead
//! of their turn, and a write-ahead log that every state change passes through.
//!
//! This crate holds the ledger's decisions, each with a contract; the threads,
//! channels, sockets and files around it live in the application crate.

pub mod error;
mod table;
mod signing;
pub mod transaction;
pub mod validator;
pub mod ledger;
pub mod wal;
pub mod protocol;
pub mod crypto;
pub mod display;
pub mod laws;
