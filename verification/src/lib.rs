//! A key-value store that keeps its mutations in an append-only log of text
//! records and rebuilds its mapping by replaying that log.
//!
//! The library holds the record format, the replay and the store's rules, and
//! does no input or output itself: it is handed the text of the log, and hands
//! back the text to append.

pub mod command;
pub mod error;
pub mod literal;
pub mod log;
pub mod store;
pub mod text;

pub use store::KvStore;
