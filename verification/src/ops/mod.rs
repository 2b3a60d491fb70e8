//! Kernel launches: which kernel runs, over which grid, with which parameters.

pub mod attention;
pub mod elementwise;
pub mod fused;
pub mod gemm;
pub mod gemv;
pub mod kv;
pub mod norm;
pub mod rope;
pub mod sampling;
pub mod support;
pub mod threads;
pub mod values;

pub use attention::{AttentionConfig, AttentionKind};
pub use rope::QkNormRopeCacheConfig;
