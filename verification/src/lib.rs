//! Core execution and historical-storage subsystem of a UTXO-based blockchain
//! full node.
//!
//! The crate has two tightly coupled halves:
//!
//! * a byte-level, column-keyed key-value store with a historical overlay that
//!   records, per block height, the exact write applied to each cell, so that
//!   a read-only view rooted at any past height reconstructs the state visible
//!   at that height and the latest block can be rolled back; and
//! * a deterministic block executor that ingests L1 events, executes L2
//!   transactions, appends the fee-settling mint transaction, and re-executes
//!   received blocks to validate them bit for bit.

pub mod assoc;
pub mod executor;
pub mod historical;
pub mod kv;
pub mod merkle;
pub mod metadata;
pub mod order;
pub mod ports;
pub mod schema;
pub mod service;
pub mod state;
pub mod table;
pub mod transaction;
pub mod tx;
