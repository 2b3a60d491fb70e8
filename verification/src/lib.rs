//! Planning core of a Transformer inference engine for Apple Silicon.

pub mod chat;
pub mod cli;
pub mod command_batch;
pub mod error;
pub mod flash_tuning;
pub mod gemv_dispatch;
pub mod gpu;
pub mod halves;
pub mod json;
pub mod kernels;
pub mod ops;
pub mod planner;
pub mod qwen3;
pub mod sampling;
pub mod server;
pub mod shader;
pub mod source;
pub mod text;
pub mod tokenizer;
pub mod tuning;
pub mod weights;
