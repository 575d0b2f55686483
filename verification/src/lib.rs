//! Core of a Solana account-change exporter: it buffers account writes and
//! block metadata per slot, assembles one deterministic record per finished
//! slot, formats the lines of the two output channels, and decides when the
//! durable cursor may move.
//!
//! Everything here is pure: the host adapter, the files and the threads live
//! with the caller, which hands plain values in and performs what comes back.

pub mod key_order;
pub mod records;
pub mod accounts;
pub mod state;
pub mod utils;
pub mod plugins;
pub mod text;
pub mod encoding;
pub mod cursor;
pub mod block_printer;
