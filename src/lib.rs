//! Decision and bookkeeping core of a light-client wallet synchroniser that
//! works from BIP157/158 compact block filters.
//!
//! The network connections and the wallet database live outside this crate;
//! what it holds is the logic that runs between them: the chain of filter
//! headers and the checks of filters against it, the store of matched full
//! blocks, which filters call for a block download, how the bundles of
//! filters are handed out and retired, when a header snapshot replaces the
//! live chain, what a transaction changes in the wallet, and how sync
//! progress is accounted.

pub mod blockchain;
pub mod bundles;
pub mod error;
pub mod filter_chain;
pub mod full_blocks;
pub mod matching;
pub mod progress;
pub mod reconcile;
pub mod work;

pub use error::CompactFiltersError;
pub use matching::{download_decision, filter_count_ok, on_match};
pub use reconcile::{next_last_index, process_tx, txs_to_drop, OutputView, PreviousOutput, ScriptType, TxEffect, TxView};
pub use bundles::{BundleState, BundleTracker};
pub use progress::{filters_progress, headers_progress, sync_costs, SyncCosts};
pub use blockchain::{is_snapshot_name, snapshots_to_recover, BitcoinPeerConfig, Capability, CompactFiltersBlockchain, CompactFiltersBlockchainConfig};
pub use filter_chain::FilterHeaderChain;
pub use full_blocks::{buried_height, check_full_block, FullBlockStore, StoredBlock, BURIED_CONFIRMATIONS};
pub use work::should_apply_snapshot;
