//! Projection of a blockchain's execution events into two current-state
//! tables, `accounts` and `access_keys`, with tombstoned deletion.
//!
//! One shard's batch of receipts flows through three verified stages: the
//! extractor ([`extract`]) turns each successful receipt's actions into
//! lifecycle events; the reducer ([`reduce`]) folds those events into one row
//! per touched entity, last-write-wins within the batch, and routes the rows
//! into disjoint write sets; the writer ([`writer`]) decides how the sets are
//! grouped into statements, what those statements say, and when a failed
//! group is retried or fatal. [`store`] is the model of what the statements
//! do to the tables, with the laws that make duplicate delivery safe:
//! replaying a block changes nothing, and a tombstone, once set, is never
//! rewritten.
pub mod input;
pub mod models;
pub mod events;
pub mod implicit;
pub mod extract;
pub mod reduce;
pub mod store;
pub mod writer;
