//! The state of a rollup node, level by level, with contracts proved by Verus.
//!
//! A [`store::Store`] holds one table per kind of record: the blueprint, the block and the
//! context hash of each level, the transactions of the blocks, the markers that await
//! confirmation, and the ledgers of the scheduled upgrades. Each record type carries the
//! operations on its table, and each operation states in its contract what it returns and how
//! it changes the store, over the tables as maps and sequences (see [`store::StoreView`]).
//!
//! [`ledger`] installs one level in all tables at once, or in none, and takes the store back
//! to an earlier level. [`laws`] holds what follows for the store as a whole.
//! [`server`] answers named queries on a store.

pub mod block;
pub mod block_storage_mode;
pub mod blueprint;
pub mod bytes;
pub mod context_hash;
pub mod delayed_transaction;
pub mod error;
pub mod hash_index;
pub mod irmin_chunk;
pub mod kernel_upgrade;
pub mod l1l2_finalized_level;
pub mod l1l2_level_relationship;
pub mod laws;
pub mod ledger;
pub mod level_map;
pub mod metadata;
pub mod migration;
pub mod model;
pub mod pending_confirmation;
pub mod rows;
pub mod sequencer_upgrade;
pub mod series;
pub mod server;
pub mod store;
pub mod transaction;
pub mod upgrade;
