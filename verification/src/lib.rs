//! A durable key-value store built on an append-only log of BSON records.
//!
//! Every mutation is one command, written as one BSON document and appended
//! to the log. An index in memory maps each bound key to the place of its
//! latest `Put` in the log, and a lookup reads the value from there. When the
//! log has grown to more than twice the live records, it is compacted.
//!
//! The store works on the bytes of the log and leaves the file to its
//! caller: [`KvStore::open`] takes the bytes that were read,
//! [`KvStore::log`] hands out the bytes to write, and each operation reports
//! in a [`LogChange`] whether it appended a record or replaced the log.

pub mod codec;
pub mod command;
pub mod document;
pub mod error;
pub mod frame;
pub mod index;
pub mod record;
pub mod replay;
pub mod shape;
pub mod state;
pub mod store;
pub mod weight;

pub use command::Command;
pub use error::{KvError, LogChange};
pub use store::KvStore;
