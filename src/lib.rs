//! A real-time indexer of smart-contract state for a two-tier chain: it
//! archives anchor and execution blocks, folds each observed contract's
//! events into its current values and event log, orders a protocol's
//! contracts for analysis, and answers field queries.
//!
//! - `types`: chain data, stored records and protocol configuration.
//! - `codec`: decimal amounts and hex payloads.
//! - `keys`: the byte keys of the stores.
//! - `table`: a small verified associative table.
//! - `ledger`: the state transitions of events and their fold.
//! - `processor`: one contract's event log and materialized view.
//! - `block_store`: archived blocks, heights, tips and deployments.
//! - `supervisor`: registries and the decisions each chain event calls for.
//! - `protocol`: dependency discovery and order, and field queries.
//! - `format`: stored records rendered for observers.
//! - `predicates`: triggers that chain activity fires.
//! - `storage`: where the stores live.
//! - `mock`: a sample transaction touching every kind of field.

pub mod block_store;
pub mod codec;
pub mod format;
pub mod keys;
pub mod ledger;
pub mod mock;
pub mod predicates;
pub mod processor;
pub mod protocol;
pub mod storage;
pub mod supervisor;
pub mod table;
pub mod types;
