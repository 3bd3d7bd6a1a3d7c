//! Consensus-critical core of a gas-metered, content-addressed virtual
//! machine: the milligas quantity type with saturating arithmetic, the
//! per-network-version price schedule, a gas accounting ledger, a sparse
//! array-mapped trie with a structural diff, key hashing for the hash
//! trie, and bounds-checked actor memory access.

pub mod amt;
pub mod gas;
pub mod hash;
pub mod memory;
pub mod price_list;
pub mod prices;
pub mod wasm_gas;
