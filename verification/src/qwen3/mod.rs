//! The Qwen3 transformer.

pub mod config;
pub mod decode_batch;
pub mod fitting;
pub mod forward;
pub mod generation;
pub mod kv_cache;
pub mod launches;
pub mod layers;
pub mod load;
pub mod model;
pub mod network;
pub mod operands;
pub mod passes;
pub mod sequences;

pub use config::Qwen3Config;
pub use kv_cache::{KvCache, LayerCache};
pub use model::Qwen3Model;
