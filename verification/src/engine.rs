//! The shard interface, and what an engine has to know of a model.
//!
//! A shard is a contiguous range of transformer layers plus the KV cache for
//! that range. The interface is deliberately six calls wide so that swapping
//! the engine underneath it stays a contained decision.

pub mod abi;
pub mod error;
pub mod facts;
pub mod gguf;
pub mod inventory;
pub mod shard;
pub mod wire;

pub use abi::{Activation, KvDtype, Payload, Shard, ShardSpec, ShardStats, WireDtype};
pub use error::Error;
pub use facts::ModelFacts;
pub use inventory::ModelInventory;
pub use shard::CandleShard;
