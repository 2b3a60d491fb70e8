//! Rotary position embedding, alone and fused with the query and key norms.

use crate::error::{GpuError, KernelError};
use crate::gpu::command::{self, Binding, Params, Size};
use crate::gpu::recorder::{self, BatchModel, Recorder, Step};
use crate::gpu::tensor::{DType, Tensor, TensorModel};
use crate::ops::support;
use vstd::prelude::*;

verus! {

/// Where the tokens go in the cache. The rotation base and the norm epsilon
/// are the bits of single-precision numbers.
#[derive(Clone, Copy, Debug, PartialEq, Eq, Structural)]
pub struct QkNormRopeCacheConfig {
    pub offset: usize,
    pub theta: u32,
    pub epsilon: u32,
}

/// One thread for each pair of each head of each token.
pub open spec fn rope_step(
    batch: BatchModel,
    input: TensorModel,
    offset: usize,
    theta: u32,
) -> Result<Step, KernelError> {
    if input.dtype != DType::F16 {
        Err(KernelError::Gpu(GpuError::ExpectedF16))
    } else if input.shape.len() != 3 {
        Err(KernelError::RopeRank)
    } else {
        let tokens = input.shape[0];
        let heads = input.shape[1];
        let head_dim = input.shape[2];
        if head_dim % 2 != 0 {
            Err(KernelError::RopeOddHeadDim)
        } else {
            match recorder::allocation_error(input.shape, DType::F16) {
                Some(error) => Err(KernelError::Gpu(error)),
                None => if !support::fits_u32(tokens as int) || !support::fits_u32(heads as int)
                    || !support::fits_u32(head_dim as int) || !support::fits_u32(offset as int) {
                    Err(KernelError::U32Overflow)
                } else {
                    let out = batch.fresh(0, input.shape, DType::F16);
                    Ok(
                        Step {
                            issued: 1,
                            outputs: seq![out],
                            commands: seq![
                                support::launch(
                                    "rope_f16"@,
                                    seq![input.operand(), out.operand()],
                                    Params::Rope {
                                        tokens: tokens as u32,
                                        heads: heads as u32,
                                        head_dim: head_dim as u32,
                                        offset: offset as u32,
                                        theta,
                                    },
                                    Size { width: head_dim / 2, height: heads, depth: tokens },
                                    support::line(support::min(head_dim as int / 2, 32)),
                                ),
                            ],
                        },
                    )
                },
            }
        }
    }
}

/// Whether the shapes of a query and key transform belong together.
pub open spec fn qk_shapes_agree(
    query: TensorModel,
    key: TensorModel,
    query_weight: TensorModel,
    key_weight: TensorModel,
    key_cache: TensorModel,
) -> bool {
    &&& query.shape[0] == key.shape[0]
    &&& query.shape[2] == key.shape[2]
    &&& key.shape[1] == key_cache.shape[1]
    &&& query.shape[2] == key_cache.shape[2]
    &&& query_weight.shape == seq![query.shape[2]]
    &&& key_weight.shape == seq![query.shape[2]]
}

/// Normalises and rotates queries and keys, and stores the keys in the cache.
/// A group of 32 threads serves one head of one token.
pub open spec fn qk_norm_rope_cache_step(
    batch: BatchModel,
    query: TensorModel,
    key: TensorModel,
    query_weight: TensorModel,
    key_weight: TensorModel,
    key_cache: TensorModel,
    config: QkNormRopeCacheConfig,
) -> Result<Step, KernelError> {
    if query.dtype != DType::F16 || key.dtype != DType::F16 || query_weight.dtype != DType::F16
        || key_weight.dtype != DType::F16 || key_cache.dtype != DType::F16 {
        Err(KernelError::Gpu(GpuError::ExpectedF16))
    } else if query.shape.len() != 3 {
        Err(KernelError::QueryRank)
    } else if key.shape.len() != 3 {
        Err(KernelError::KeyRank)
    } else if key_cache.shape.len() != 3 {
        Err(KernelError::KeyCacheRank)
    } else if !qk_shapes_agree(query, key, query_weight, key_weight, key_cache) {
        Err(KernelError::QkTransformShape)
    } else {
        let tokens = query.shape[0];
        let query_heads = query.shape[1];
        let kv_heads = key.shape[1];
        let head_dim = query.shape[2];
        let capacity = key_cache.shape[0];
        if head_dim % 2 != 0 || config.offset + tokens > capacity {
            Err(KernelError::QkTransformOffset)
        } else {
            match recorder::allocation_error(query.shape, DType::F16) {
                Some(error) => Err(KernelError::Gpu(error)),
                None => if !support::fits_u32(tokens as int) || !support::fits_u32(
                    query_heads as int,
                ) || !support::fits_u32(kv_heads as int) || !support::fits_u32(head_dim as int)
                    || !support::fits_u32(config.offset as int) || !support::fits_u32(
                    capacity as int,
                ) {
                    Err(KernelError::U32Overflow)
                } else if !support::fits_usize(query_heads + kv_heads) || !support::fits_usize(
                    tokens * (query_heads + kv_heads),
                ) || !support::fits_usize(tokens * (query_heads + kv_heads) * 32) {
                    Err(KernelError::DispatchOverflow)
                } else {
                    let out = batch.fresh(0, query.shape, DType::F16);
                    Ok(
                        Step {
                            issued: 1,
                            outputs: seq![out],
                            commands: seq![
                                support::launch(
                                    "qk_norm_rope_cache_f16"@,
                                    seq![
                                        query.operand(),
                                        key.operand(),
                                        query_weight.operand(),
                                        key_weight.operand(),
                                        out.operand(),
                                        key_cache.operand(),
                                    ],
                                    Params::QkTransform {
                                        tokens: tokens as u32,
                                        query_heads: query_heads as u32,
                                        kv_heads: kv_heads as u32,
                                        head_dim: head_dim as u32,
                                        offset: config.offset as u32,
                                        theta: config.theta,
                                        cache_capacity: capacity as u32,
                                        epsilon: config.epsilon,
                                    },
                                    support::line(tokens * (query_heads + kv_heads) * 32),
                                    support::line(32),
                                ),
                            ],
                        },
                    )
                },
            }
        }
    }
}

impl Recorder {
    /// Rotates each head by the position of its token.
    pub fn rope(&mut self, input: &Tensor, offset: usize, theta: u32) -> (result: Result<
        Tensor,
        KernelError,
    >)
        requires
            old(self).wf(),
            old(self).holds(*input),
        ensures
            final(self).wf(),
            recorder::took1(*old(self), *final(self), result),
            support::outcome1(
                old(self)@,
                final(self)@,
                result,
                rope_step(old(self)@, input@, offset, theta),
            ),
    {
        support::require_f16(input)?;
        let (tokens, heads, head_dim) = match support::shape3(input) {
            Some(shape) => shape,
            None => return Err(KernelError::RopeRank),
        };
        if head_dim % 2 != 0 {
            return Err(KernelError::RopeOddHeadDim);
        }
        Self::check_empty(input.shape(), DType::F16)?;
        let params = Params::Rope {
            tokens: support::to_u32(tokens)?,
            heads: support::to_u32(heads)?,
            head_dim: support::to_u32(head_dim)?,
            offset: support::to_u32(offset)?,
            theta,
        };
        let out = self.fresh(input.shape(), DType::F16);
        let bindings: Vec<Binding> = vec![input.binding(), out.binding()];
        let grid = command::size(head_dim / 2, heads, tokens);
        let threadgroup = command::size(support::smaller(head_dim / 2, 32), 1, 1);
        proof {
            assert(command::operands(bindings@) =~= seq![input@.operand(), out@.operand()]);
            support::lemma_with_one(
                self@,
                support::launch(
                    "rope_f16"@,
                    command::operands(bindings@),
                    params,
                    grid,
                    threadgroup,
                ),
            );
        }
        match self.launch("rope_f16", bindings, params, grid, threadgroup) {
            Ok(()) => Ok(out),
            Err(error) => {
                self.release(out);
                Err(error)
            },
        }
    }

    /// Normalises and rotates queries and keys, and stores the keys.
    pub fn qk_norm_rope_cache(
        &mut self,
        query: &Tensor,
        key: &Tensor,
        query_weight: &Tensor,
        key_weight: &Tensor,
        key_cache: &Tensor,
        config: QkNormRopeCacheConfig,
    ) -> (result: Result<Tensor, KernelError>)
        requires
            old(self).wf(),
            old(self).holds(*query),
            old(self).holds(*key),
            old(self).holds(*query_weight),
            old(self).holds(*key_weight),
            old(self).holds(*key_cache),
        ensures
            final(self).wf(),
            recorder::took1(*old(self), *final(self), result),
            support::outcome1(
                old(self)@,
                final(self)@,
                result,
                qk_norm_rope_cache_step(
                    old(self)@,
                    query@,
                    key@,
                    query_weight@,
                    key_weight@,
                    key_cache@,
                    config,
                ),
            ),
    {
        support::require_f16(query)?;
        support::require_f16(key)?;
        support::require_f16(query_weight)?;
        support::require_f16(key_weight)?;
        support::require_f16(key_cache)?;
        let (tokens, query_heads, head_dim) = match support::shape3(query) {
            Some(shape) => shape,
            None => return Err(KernelError::QueryRank),
        };
        let (key_tokens, kv_heads, key_dim) = match support::shape3(key) {
            Some(shape) => shape,
            None => return Err(KernelError::KeyRank),
        };
        let (capacity, cache_heads, cache_dim) = match support::shape3(key_cache) {
            Some(shape) => shape,
            None => return Err(KernelError::KeyCacheRank),
        };
        if tokens != key_tokens || head_dim != key_dim || kv_heads != cache_heads || head_dim
            != cache_dim || !support::is_vector(query_weight, head_dim) || !support::is_vector(
            key_weight,
            head_dim,
        ) {
            return Err(KernelError::QkTransformShape);
        }
        if head_dim % 2 != 0 || tokens > capacity || config.offset > capacity - tokens {
            return Err(KernelError::QkTransformOffset);
        }
        Self::check_empty(query.shape(), DType::F16)?;
        let params = Params::QkTransform {
            tokens: support::to_u32(tokens)?,
            query_heads: support::to_u32(query_heads)?,
            kv_heads: support::to_u32(kv_heads)?,
            head_dim: support::to_u32(head_dim)?,
            offset: support::to_u32(config.offset)?,
            theta: config.theta,
            cache_capacity: support::to_u32(capacity)?,
            epsilon: config.epsilon,
        };
        let heads = support::checked_add(query_heads, kv_heads)?;
        let groups = support::checked_mul(tokens, heads)?;
        let threads = support::checked_mul(groups, 32)?;
        let out = self.fresh(query.shape(), DType::F16);
        let bindings: Vec<Binding> = vec![
            query.binding(),
            key.binding(),
            query_weight.binding(),
            key_weight.binding(),
            out.binding(),
            key_cache.binding(),
        ];
        let grid = command::size(threads, 1, 1);
        let threadgroup = command::size(32, 1, 1);
        proof {
            assert(command::operands(bindings@) =~= seq![
                query@.operand(),
                key@.operand(),
                query_weight@.operand(),
                key_weight@.operand(),
                out@.operand(),
                key_cache@.operand(),
            ]);
            support::lemma_with_one(
                self@,
                support::launch(
                    "qk_norm_rope_cache_f16"@,
                    command::operands(bindings@),
                    params,
                    grid,
                    threadgroup,
                ),
            );
        }
        match self.launch("qk_norm_rope_cache_f16", bindings, params, grid, threadgroup) {
            Ok(()) => Ok(out),
            Err(error) => {
                self.release(out);
                Err(error)
            },
        }
    }
}

} // verus!
