pub mod block;
pub mod block_txs;
pub mod chain;
pub mod codec;
pub mod commit;
pub mod error;
pub mod header_map;
pub mod keyed;
pub mod miner;
pub mod orphan_pool;
mod shrink;
pub mod store;
pub mod syscall;
pub mod tx_cache;
pub mod types;
pub mod contextual;
pub mod verify_queue;
