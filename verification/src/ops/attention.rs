//! Attention over cached keys and values.

use crate::error::{GpuError, KernelError};
use crate::gpu::command::{self, Binding, Params, Size};
use crate::gpu::recorder::{self, BatchModel, Recorder, Step};
use crate::gpu::tensor::{DType, Tensor, TensorModel};
use crate::kernels::KernelBatch;
use crate::ops::gemm::{self, Tiling};
use crate::ops::support;
use crate::tuning::{self, TuningModel};
use vstd::prelude::*;

verus! {

#[derive(Clone, Copy, Debug, PartialEq, Eq, Structural)]
pub enum AttentionKind {
    Reference,
    Tiled,
    FlashPrefill,
    DecodeSplitKv,
    FlashDecode,
}

#[derive(Clone, Copy, Debug, PartialEq, Eq, Structural)]
pub struct AttentionConfig {
    pub query_heads: usize,
    pub kv_heads: usize,
    pub head_dim: usize,
    pub causal: bool,
    pub query_offset: usize,
}

/// How flash decode splits the keys: `block` keys for each group of `threads`
/// threads, whose partial results groups of `reduce_threads` threads join.
#[derive(Clone, Copy, Debug, PartialEq, Eq, Structural)]
pub struct FlashSplit {
    pub block: usize,
    pub threads: usize,
    pub reduce_threads: usize,
    /// Whether 128 threads have a partial kernel of their own.
    pub narrow_kernel: bool,
}

impl FlashSplit {
    pub open spec fn partial_kernel(self) -> Seq<char> {
        if self.narrow_kernel && self.threads == 128 {
            "attention_flash_decode_partial_128_f16"@
        } else {
            "attention_flash_decode_partial_f16"@
        }
    }
}

/// A power of two up to 256.
pub open spec fn tiled_head_dim(head_dim: usize) -> bool {
    head_dim == 1 || head_dim == 2 || head_dim == 4 || head_dim == 8 || head_dim == 16 || head_dim
        == 32 || head_dim == 64 || head_dim == 128 || head_dim == 256
}

/// Whether the tensors have the dimensions of the configuration.
pub open spec fn attention_shapes_agree(
    query: TensorModel,
    key: TensorModel,
    value: TensorModel,
    config: AttentionConfig,
) -> bool {
    &&& query.shape[1] == config.query_heads
    &&& query.shape[2] == config.head_dim
    &&& key.shape[1] == config.kv_heads
    &&& key.shape[2] == config.head_dim
    &&& value.shape == key.shape
}

/// Why attention of this kind is refused before any memory is taken.
pub open spec fn attention_refusal(
    query: TensorModel,
    key: TensorModel,
    value: TensorModel,
    config: AttentionConfig,
    kind: AttentionKind,
    split: FlashSplit,
) -> Option<KernelError> {
    if query.dtype != DType::F16 || key.dtype != DType::F16 || value.dtype != DType::F16 {
        Some(KernelError::Gpu(GpuError::ExpectedF16))
    } else if query.shape.len() != 3 {
        Some(KernelError::QueryRank)
    } else if key.shape.len() != 3 {
        Some(KernelError::KeyRank)
    } else if value.shape.len() != 3 {
        Some(KernelError::ValueRank)
    } else if !attention_shapes_agree(query, key, value, config) {
        Some(KernelError::AttentionShape)
    } else if config.query_heads as int % config.kv_heads as int != 0 {
        Some(KernelError::AttentionHeadRatio)
    } else if kind != AttentionKind::Reference && !tiled_head_dim(config.head_dim) {
        Some(KernelError::TiledAttentionHeadDim)
    } else if kind == AttentionKind::FlashDecode && !tuning::supported_block_keys(split.block) {
        Some(KernelError::FlashDecodeBlockSize)
    } else if kind == AttentionKind::FlashDecode && !tuning::supported_threads(split.threads) {
        Some(KernelError::FlashDecodeThreads)
    } else {
        match recorder::allocation_error(query.shape, DType::F16) {
            Some(error) => Some(KernelError::Gpu(error)),
            None => if !support::fits_u32(query.shape[0] as int) || !support::fits_u32(
                config.query_heads as int,
            ) || !support::fits_u32(config.kv_heads as int) || !support::fits_u32(
                config.head_dim as int,
            ) || !support::fits_u32(config.query_offset as int) || !support::fits_u32(
                key.shape[0] as int,
            ) {
                Some(KernelError::U32Overflow)
            } else if (kind == AttentionKind::DecodeSplitKv || kind == AttentionKind::FlashDecode)
                && query.shape[0] != 1 {
                Some(KernelError::DecodeAttentionTokens)
            } else {
                None
            },
        }
    }
}

/// The constants of an attention kernel.
pub open spec fn attention_params(
    query: TensorModel,
    key: TensorModel,
    config: AttentionConfig,
    block: usize,
) -> Params {
    Params::Attention {
        tokens: query.shape[0] as u32,
        q_heads: config.query_heads as u32,
        kv_heads: config.kv_heads as u32,
        head_dim: config.head_dim as u32,
        causal: if config.causal {
            1
        } else {
            0
        },
        query_offset: config.query_offset as u32,
        kv_length: key.shape[0] as u32,
        padding: block as u32,
    }
}

/// The kernel and grid of every kind but flash decode. Decode and tiled
/// attention give each head of each token a group, flash prefill gives 32
/// tokens of a head a group, and the reference gives each output a thread.
pub open spec fn attention_tiling(kind: AttentionKind, tokens: int, config: AttentionConfig) -> Tiling {
    let groups = config.query_heads * tokens;
    match kind {
        AttentionKind::Reference => Tiling {
            kernel: "attention_reference_f16"@,
            grid: Size {
                width: config.head_dim,
                height: config.query_heads,
                depth: tokens as usize,
            },
            threadgroup: support::line(support::min(config.head_dim as int, 256)),
            fits: true,
        },
        AttentionKind::DecodeSplitKv => gemm::line_tiling("attention_decode_f16"@, groups, 256),
        AttentionKind::Tiled => gemm::line_tiling("attention_tiled_f16"@, groups, 32),
        _ => Tiling {
            kernel: "attention_flash_prefill_f16"@,
            grid: Size {
                width: (support::ceil_div(tokens, 32) * 128) as usize,
                height: config.query_heads,
                depth: 1,
            },
            threadgroup: support::line(128),
            fits: support::fits_usize(support::ceil_div(tokens, 32) * 128),
        },
    }
}

/// Keys that a single query token may attend to.
pub open spec fn available_keys(kv_length: usize, config: AttentionConfig) -> int {
    if config.causal {
        support::min(kv_length as int, config.query_offset + 1)
    } else {
        kv_length as int
    }
}

/// Flash decode: one launch for the partial results of each block of keys of
/// each key head, one that joins them for each query head.
pub open spec fn flash_decode_step(
    batch: BatchModel,
    query: TensorModel,
    key: TensorModel,
    value: TensorModel,
    config: AttentionConfig,
    split: FlashSplit,
) -> Result<Step, KernelError> {
    let blocks = support::ceil_div(available_keys(key.shape[0], config), split.block as int);
    let partial_shape = seq![
        config.kv_heads,
        blocks as usize,
        2usize,
        (config.head_dim + 2) as usize,
    ];
    let groups = config.kv_heads * blocks;
    let params = attention_params(query, key, config, split.block);
    if config.query_heads as int / config.kv_heads as int != 2 {
        Err(KernelError::FlashDecodeHeadRatio)
    } else {
        match recorder::allocation_error(partial_shape, DType::F32) {
            Some(error) => Err(KernelError::Gpu(error)),
            None => if !support::fits_usize(groups * split.threads) || !support::fits_usize(
                config.query_heads * split.reduce_threads,
            ) {
                Err(KernelError::DispatchOverflow)
            } else {
                let out = batch.fresh(0, query.shape, DType::F16);
                let partial = batch.fresh(1, partial_shape, DType::F32);
                Ok(
                    Step {
                        issued: 2,
                        outputs: seq![out],
                        commands: seq![
                            support::launch(
                                split.partial_kernel(),
                                seq![
                                    query.operand(),
                                    key.operand(),
                                    value.operand(),
                                    partial.operand(),
                                ],
                                params,
                                support::line(groups * split.threads),
                                support::line(split.threads as int),
                            ),
                            support::launch(
                                "attention_flash_decode_reduce_f16"@,
                                seq![partial.operand(), out.operand()],
                                params,
                                support::line(config.query_heads * split.reduce_threads),
                                support::line(split.reduce_threads as int),
                            ),
                        ],
                    },
                )
            },
        }
    }
}

/// Attention of a kind, with the split that flash decode would use.
pub open spec fn attention_step(
    batch: BatchModel,
    query: TensorModel,
    key: TensorModel,
    value: TensorModel,
    config: AttentionConfig,
    kind: AttentionKind,
    split: FlashSplit,
) -> Result<Step, KernelError> {
    match attention_refusal(query, key, value, config, kind, split) {
        Some(error) => Err(error),
        None => if kind == AttentionKind::FlashDecode {
            flash_decode_step(batch, query, key, value, config, split)
        } else {
            let tiling = attention_tiling(kind, query.shape[0] as int, config);
            let out = batch.fresh(0, query.shape, DType::F16);
            if !tiling.fits {
                Err(KernelError::DispatchOverflow)
            } else {
                Ok(
                    Step {
                        issued: 1,
                        outputs: seq![out],
                        commands: seq![
                            support::launch(
                                tiling.kernel,
                                seq![
                                    query.operand(),
                                    key.operand(),
                                    value.operand(),
                                    out.operand(),
                                ],
                                attention_params(query, key, config, 0),
                                tiling.grid,
                                tiling.threadgroup,
                            ),
                        ],
                    },
                )
            }
        },
    }
}

fn check_attention(
    query: &Tensor,
    key: &Tensor,
    value: &Tensor,
    config: AttentionConfig,
    kind: AttentionKind,
    split: FlashSplit,
) -> (result: Result<Params, KernelError>)
    ensures
        match result {
            Ok(params) => {
                &&& attention_refusal(query@, key@, value@, config, kind, split) is None
                &&& params == attention_params(
                    query@,
                    key@,
                    config,
                    if kind == AttentionKind::FlashDecode {
                        split.block
                    } else {
                        0
                    },
                )
                &&& query@.shape[0] > 0
                &&& key@.shape[0] > 0
                &&& config.kv_heads > 0
                &&& config.query_heads > 0
            },
            Err(error) => attention_refusal(query@, key@, value@, config, kind, split) == Some(
                error,
            ),
        },
{
    support::require_f16(query)?;
    support::require_f16(key)?;
    support::require_f16(value)?;
    let (tokens, query_heads, query_dim) = match support::shape3(query) {
        Some(shape) => shape,
        None => return Err(KernelError::QueryRank),
    };
    let (kv_length, key_heads, key_dim) = match support::shape3(key) {
        Some(shape) => shape,
        None => return Err(KernelError::KeyRank),
    };
    let (value_length, value_heads, value_dim) = match support::shape3(value) {
        Some(shape) => shape,
        None => return Err(KernelError::ValueRank),
    };
    proof {
        assert(key@.shape[0] == kv_length && key@.shape[1] == key_heads && key@.shape[2] == key_dim);
        assert(value@.shape[0] == value_length && value@.shape[1] == value_heads && value@.shape[2]
            == value_dim);
        if value_length == kv_length && value_heads == key_heads && value_dim == key_dim {
            assert(value@.shape =~= key@.shape);
        }
    }
    if query_heads != config.query_heads || query_dim != config.head_dim || key_heads
        != config.kv_heads || key_dim != config.head_dim || value_length != kv_length || value_heads
        != key_heads || value_dim != key_dim {
        return Err(KernelError::AttentionShape);
    }
    if config.query_heads % config.kv_heads != 0 {
        return Err(KernelError::AttentionHeadRatio);
    }
    let head_dim: usize = config.head_dim;
    let tiled = head_dim == 1 || head_dim == 2 || head_dim == 4 || head_dim == 8 || head_dim == 16
        || head_dim == 32 || head_dim == 64 || head_dim == 128 || head_dim == 256;
    if kind != AttentionKind::Reference && !tiled {
        return Err(KernelError::TiledAttentionHeadDim);
    }
    let flash = kind == AttentionKind::FlashDecode;
    let block: usize = if flash {
        split.block
    } else {
        0
    };
    if flash && !(block == 32 || block == 64 || block == 128 || block == 256) {
        return Err(KernelError::FlashDecodeBlockSize);
    }
    if flash && !(split.threads == 128 || split.threads == 256) {
        return Err(KernelError::FlashDecodeThreads);
    }
    Recorder::check_empty(query.shape(), DType::F16)?;
    let params = Params::Attention {
        tokens: support::to_u32(tokens)?,
        q_heads: support::to_u32(config.query_heads)?,
        kv_heads: support::to_u32(config.kv_heads)?,
        head_dim: support::to_u32(config.head_dim)?,
        causal: if config.causal {
            1
        } else {
            0
        },
        query_offset: support::to_u32(config.query_offset)?,
        kv_length: support::to_u32(kv_length)?,
        padding: support::to_u32(block)?,
    };
    if (kind == AttentionKind::DecodeSplitKv || flash) && tokens != 1 {
        return Err(KernelError::DecodeAttentionTokens);
    }
    Ok(params)
}

fn choose_attention(kind: AttentionKind, tokens: usize, config: AttentionConfig) -> (result: Result<
    gemm::Launching,
    KernelError,
>)
    requires
        kind != AttentionKind::FlashDecode,
    ensures
        gemm::is_choice(result, attention_tiling(kind, tokens as int, config)),
{
    match kind {
        AttentionKind::Reference => Ok(
            gemm::Launching {
                kernel: "attention_reference_f16",
                grid: command::size(config.head_dim, config.query_heads, tokens),
                threadgroup: command::size(support::smaller(config.head_dim, 256), 1, 1),
            },
        ),
        AttentionKind::DecodeSplitKv => gemm::rectangle(
            "attention_decode_f16",
            config.query_heads,
            tokens,
            256,
        ),
        AttentionKind::Tiled => gemm::rectangle(
            "attention_tiled_f16",
            config.query_heads,
            tokens,
            32,
        ),
        _ => {
            let width = support::checked_mul(support::div_ceil(tokens, 32), 128)?;
            Ok(
                gemm::Launching {
                    kernel: "attention_flash_prefill_f16",
                    grid: command::size(width, config.query_heads, 1),
                    threadgroup: command::size(128, 1, 1),
                },
            )
        },
    }
}

impl Recorder {
    fn flash_decode(
        &mut self,
        query: &Tensor,
        key: &Tensor,
        value: &Tensor,
        config: AttentionConfig,
        split: FlashSplit,
        params: Params,
    ) -> (result: Result<Tensor, KernelError>)
        requires
            old(self).wf(),
            old(self).holds(*query),
            old(self).holds(*key),
            old(self).holds(*value),
            attention_refusal(
                query@,
                key@,
                value@,
                config,
                AttentionKind::FlashDecode,
                split,
            ) is None,
            params == attention_params(query@, key@, config, split.block),
            key@.shape[0] > 0,
            config.kv_heads > 0,
        ensures
            final(self).wf(),
            recorder::took1(*old(self), *final(self), result),
            support::outcome1(
                old(self)@,
                final(self)@,
                result,
                flash_decode_step(old(self)@, query@, key@, value@, config, split),
            ),
    {
        if config.query_heads / config.kv_heads != 2 {
            return Err(KernelError::FlashDecodeHeadRatio);
        }
        let kv_length: usize = key.shape()[0];
        let available: usize = if config.causal && config.query_offset < kv_length {
            config.query_offset + 1
        } else {
            kv_length
        };
        if available == 0 {
            return Err(KernelError::FlashDecodeEmpty);
        }
        let blocks: usize = support::div_ceil(available, split.block);
        let partial_width: usize = match config.head_dim.checked_add(2) {
            Some(width) => width,
            None => return Err(KernelError::FlashDecodePartialOverflow),
        };
        let partial_shape: Vec<usize> = vec![config.kv_heads, blocks, 2, partial_width];
        proof {
            assert(partial_shape@ =~= seq![
                config.kv_heads,
                blocks,
                2usize,
                (config.head_dim + 2) as usize,
            ]);
            assert(0 <= config.kv_heads * blocks <= config.kv_heads * blocks * split.threads)
                by (nonlinear_arith)
                requires
                    split.threads >= 1,
            ;
        }
        Self::check_empty(partial_shape.as_slice(), DType::F32)?;
        let groups = support::checked_mul(config.kv_heads, blocks)?;
        let partial_threads = support::checked_mul(groups, split.threads)?;
        let reduce_threads = support::checked_mul(config.query_heads, split.reduce_threads)?;
        let out = self.fresh(query.shape(), DType::F16);
        let partial = self.fresh(partial_shape.as_slice(), DType::F32);
        let kernel = if split.narrow_kernel && split.threads == 128 {
            "attention_flash_decode_partial_128_f16"
        } else {
            "attention_flash_decode_partial_f16"
        };
        let first: Vec<Binding> = vec![
            query.binding(),
            key.binding(),
            value.binding(),
            partial.binding(),
        ];
        let second: Vec<Binding> = vec![partial.binding(), out.binding()];
        let first_grid = command::size(partial_threads, 1, 1);
        let first_group = command::size(split.threads, 1, 1);
        let second_grid = command::size(reduce_threads, 1, 1);
        let second_group = command::size(split.reduce_threads, 1, 1);
        proof {
            assert(command::operands(first@) =~= seq![
                query@.operand(),
                key@.operand(),
                value@.operand(),
                partial@.operand(),
            ]);
            assert(command::operands(second@) =~= seq![partial@.operand(), out@.operand()]);
            support::lemma_with_two(
                self@,
                support::launch(
                    kernel@,
                    command::operands(first@),
                    params,
                    first_grid,
                    first_group,
                ),
                support::launch(
                    "attention_flash_decode_reduce_f16"@,
                    command::operands(second@),
                    params,
                    second_grid,
                    second_group,
                ),
            );
        }
        let mut result = self.launch(kernel, first, params, first_grid, first_group);
        if result.is_ok() {
            result = self.launch(
                "attention_flash_decode_reduce_f16",
                second,
                params,
                second_grid,
                second_group,
            );
        }
        self.release(partial);
        match result {
            Ok(()) => Ok(out),
            Err(error) => {
                self.release(out);
                Err(error)
            },
        }
    }

    /// Attention of a kind, with the split that flash decode would use.
    pub(crate) fn attention_with_split(
        &mut self,
        query: &Tensor,
        key: &Tensor,
        value: &Tensor,
        config: AttentionConfig,
        kind: AttentionKind,
        split: FlashSplit,
    ) -> (result: Result<Tensor, KernelError>)
        requires
            old(self).wf(),
            old(self).holds(*query),
            old(self).holds(*key),
            old(self).holds(*value),
        ensures
            final(self).wf(),
            recorder::took1(*old(self), *final(self), result),
            support::outcome1(
                old(self)@,
                final(self)@,
                result,
                attention_step(old(self)@, query@, key@, value@, config, kind, split),
            ),
    {
        let params = check_attention(query, key, value, config, kind, split)?;
        if kind == AttentionKind::FlashDecode {
            return self.flash_decode(query, key, value, config, split, params);
        }
        let tokens: usize = query.shape()[0];
        let choice = choose_attention(kind, tokens, config)?;
        let out = self.fresh(query.shape(), DType::F16);
        let bindings: Vec<Binding> = vec![
            query.binding(),
            key.binding(),
            value.binding(),
            out.binding(),
        ];
        proof {
            assert(command::operands(bindings@) =~= seq![
                query@.operand(),
                key@.operand(),
                value@.operand(),
                out@.operand(),
            ]);
            support::lemma_with_one(
                self@,
                support::launch(
                    choice.kernel@,
                    command::operands(bindings@),
                    params,
                    choice.grid,
                    choice.threadgroup,
                ),
            );
        }
        match self.launch(choice.kernel, bindings, params, choice.grid, choice.threadgroup) {
            Ok(()) => Ok(out),
            Err(error) => {
                self.release(out);
                Err(error)
            },
        }
    }
}

/// The kind that a batch launches: flash decode is built for heads of 128.
pub open spec fn launched_kind(kind: AttentionKind, config: AttentionConfig) -> AttentionKind {
    if kind == AttentionKind::FlashDecode && config.head_dim != 128 {
        AttentionKind::DecodeSplitKv
    } else {
        kind
    }
}

/// The flash decode split of a batch: the block that was asked for, or the one
/// that the tuning has for this many keys.
pub open spec fn batch_split(
    tuning: TuningModel,
    flash_block: Option<usize>,
    kv_length: usize,
) -> FlashSplit {
    FlashSplit {
        block: match flash_block {
            Some(block) => block,
            None => tuning.selection.flash_decode_configuration(kv_length).0,
        },
        threads: 128,
        reduce_threads: 128,
        narrow_kernel: false,
    }
}

impl<'kernels> KernelBatch<'kernels> {
    /// Attention of a kind.
    pub fn attention(
        &mut self,
        query: &Tensor,
        key: &Tensor,
        value: &Tensor,
        config: AttentionConfig,
        kind: AttentionKind,
    ) -> (result: Result<Tensor, KernelError>)
        requires
            old(self).wf(),
            old(self).recorder.holds(*query),
            old(self).recorder.holds(*key),
            old(self).recorder.holds(*value),
        ensures
            final(self).wf(),
            recorder::took1(old(self).recorder, final(self).recorder, result),
            final(self).tuning == old(self).tuning,
            support::outcome1(
                old(self)@,
                final(self)@,
                result,
                attention_step(
                    old(self)@,
                    query@,
                    key@,
                    value@,
                    config,
                    launched_kind(kind, config),
                    batch_split(old(self).tuning@, None, key@.shape[0]),
                ),
            ),
    {
        self.attention_with_flash_block(query, key, value, config, kind, None)
    }

    /// Flash decode with a given number of keys to a block.
    pub fn attention_flash_decode_with_block(
        &mut self,
        query: &Tensor,
        key: &Tensor,
        value: &Tensor,
        config: AttentionConfig,
        block_keys: usize,
    ) -> (result: Result<Tensor, KernelError>)
        requires
            old(self).wf(),
            old(self).recorder.holds(*query),
            old(self).recorder.holds(*key),
            old(self).recorder.holds(*value),
        ensures
            final(self).wf(),
            recorder::took1(old(self).recorder, final(self).recorder, result),
            final(self).tuning == old(self).tuning,
            support::outcome1(
                old(self)@,
                final(self)@,
                result,
                attention_step(
                    old(self)@,
                    query@,
                    key@,
                    value@,
                    config,
                    launched_kind(AttentionKind::FlashDecode, config),
                    batch_split(old(self).tuning@, Some(block_keys), key@.shape[0]),
                ),
            ),
    {
        self.attention_with_flash_block(
            query,
            key,
            value,
            config,
            AttentionKind::FlashDecode,
            Some(block_keys),
        )
    }

    fn attention_with_flash_block(
        &mut self,
        query: &Tensor,
        key: &Tensor,
        value: &Tensor,
        config: AttentionConfig,
        kind: AttentionKind,
        flash_block: Option<usize>,
    ) -> (result: Result<Tensor, KernelError>)
        requires
            old(self).wf(),
            old(self).recorder.holds(*query),
            old(self).recorder.holds(*key),
            old(self).recorder.holds(*value),
        ensures
            final(self).wf(),
            recorder::took1(old(self).recorder, final(self).recorder, result),
            final(self).tuning == old(self).tuning,
            support::outcome1(
                old(self)@,
                final(self)@,
                result,
                attention_step(
                    old(self)@,
                    query@,
                    key@,
                    value@,
                    config,
                    launched_kind(kind, config),
                    batch_split(old(self).tuning@, flash_block, key@.shape[0]),
                ),
            ),
    {
        let kind = if kind == AttentionKind::FlashDecode && config.head_dim != 128 {
            AttentionKind::DecodeSplitKv
        } else {
            kind
        };
        let block: usize = match flash_block {
            Some(block) => block,
            None => {
                let kv_length: usize = key.shape()[0];
                self.tuning.flash_decode_configuration_for_length(kv_length).0
            },
        };
        let split = FlashSplit { block, threads: 128, reduce_threads: 128, narrow_kernel: false };
        self.recorder.attention_with_split(query, key, value, config, kind, split)
    }
}

/// Flash decode with heads of another size than 128 is split KV decode: the
/// block that was asked for plays no part, and more than one query is refused.
pub proof fn flash_decode_of_other_heads_is_split_decode(
    batch: BatchModel,
    query: TensorModel,
    key: TensorModel,
    value: TensorModel,
    config: AttentionConfig,
    split: FlashSplit,
    other: FlashSplit,
)
    requires
        config.head_dim != 128,
    ensures
        ({
            let kind = launched_kind(AttentionKind::FlashDecode, config);
            let step = attention_step(batch, query, key, value, config, kind, split);
            &&& step == attention_step(
                batch,
                query,
                key,
                value,
                config,
                launched_kind(AttentionKind::DecodeSplitKv, config),
                other,
            )
            &&& query.shape.len() > 0 && query.shape[0] > 1 ==> step is Err
        }),
{
}

} // verus!
