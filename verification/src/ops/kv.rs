//! Copies into caches and matrices.

use crate::error::{GpuError, KernelError};
use crate::gpu::command::{self, Binding, Params};
use crate::gpu::recorder::{self, Recorder, Step};
use crate::gpu::tensor::{DType, Tensor, TensorModel};
use crate::ops::support;
use vstd::prelude::*;

verus! {

/// One thread for each element that is copied to entry `offset` and beyond.
pub open spec fn copy_step(
    source: TensorModel,
    target: TensorModel,
    tokens: usize,
    offset: usize,
    stride: int,
) -> Result<Step, KernelError> {
    if !support::fits_u32(tokens as int) || !support::fits_u32(offset as int) || !support::fits_u32(
        stride,
    ) {
        Err(KernelError::U32Overflow)
    } else {
        Ok(
            Step {
                issued: 0,
                outputs: seq![],
                commands: seq![
                    support::launch(
                        "copy_kv_f16"@,
                        seq![source.operand(), target.operand()],
                        Params::Copy {
                            tokens: tokens as u32,
                            offset: offset as u32,
                            stride: stride as u32,
                        },
                        support::line(source.len() as int),
                        support::line(support::min(source.len() as int, 256)),
                    ),
                ],
            },
        )
    }
}

pub open spec fn copy_into_cache_step(
    source: TensorModel,
    cache: TensorModel,
    offset: usize,
) -> Result<Step, KernelError> {
    if source.dtype != DType::F16 || cache.dtype != DType::F16 {
        Err(KernelError::Gpu(GpuError::ExpectedF16))
    } else if source.shape.len() != 3 {
        Err(KernelError::KvSourceRank)
    } else if cache.shape.len() != 3 {
        Err(KernelError::KvCacheRank)
    } else if source.shape[1] != cache.shape[1] || source.shape[2] != cache.shape[2] {
        Err(KernelError::KvShape)
    } else if offset + source.shape[0] > cache.shape[0] {
        Err(KernelError::KvCapacity)
    } else {
        copy_step(source, cache, source.shape[0], offset, source.shape[1] * source.shape[2])
    }
}

pub open spec fn copy_row_step(
    source: TensorModel,
    destination: TensorModel,
    row: usize,
) -> Result<Step, KernelError> {
    if source.dtype != DType::F16 || destination.dtype != DType::F16 {
        Err(KernelError::Gpu(GpuError::ExpectedF16))
    } else if source.shape.len() != 2 {
        Err(KernelError::CopyRowSourceRank)
    } else if destination.shape.len() != 2 {
        Err(KernelError::CopyRowDestinationRank)
    } else if source.shape[0] != 1 || source.shape[1] != destination.shape[1] || row
        >= destination.shape[0] {
        Err(KernelError::CopyRowShape)
    } else {
        copy_step(source, destination, 1, row, source.shape[1] as int)
    }
}

impl Recorder {
    fn copy_entries(
        &mut self,
        source: &Tensor,
        target: &Tensor,
        tokens: usize,
        offset: usize,
        stride: usize,
    ) -> (result: Result<(), KernelError>)
        requires
            old(self).wf(),
            old(self).holds(*source),
            old(self).holds(*target),
        ensures
            final(self).wf(),
            recorder::kept(*old(self), *final(self)),
            support::outcome0(
                old(self)@,
                final(self)@,
                result,
                copy_step(source@, target@, tokens, offset, stride as int),
            ),
    {
        let params = Params::Copy {
            tokens: support::to_u32(tokens)?,
            offset: support::to_u32(offset)?,
            stride: support::to_u32(stride)?,
        };
        let length: usize = source.len();
        let bindings: Vec<Binding> = vec![source.binding(), target.binding()];
        let grid = command::size(length, 1, 1);
        let threadgroup = command::size(support::smaller(length, 256), 1, 1);
        proof {
            assert(command::operands(bindings@) =~= seq![source@.operand(), target@.operand()]);
            support::lemma_with_one(
                self@.after_issue(0),
                support::launch(
                    "copy_kv_f16"@,
                    command::operands(bindings@),
                    params,
                    grid,
                    threadgroup,
                ),
            );
        }
        self.launch("copy_kv_f16", bindings, params, grid, threadgroup)
    }

    /// Copies keys or values into the cache entries from `offset` on.
    pub fn copy_into_cache(&mut self, source: &Tensor, cache: &Tensor, offset: usize) -> (result:
        Result<(), KernelError>)
        requires
            old(self).wf(),
            old(self).holds(*source),
            old(self).holds(*cache),
        ensures
            final(self).wf(),
            recorder::kept(*old(self), *final(self)),
            support::outcome0(
                old(self)@,
                final(self)@,
                result,
                copy_into_cache_step(source@, cache@, offset),
            ),
    {
        support::require_f16(source)?;
        support::require_f16(cache)?;
        let (tokens, heads, head_dim) = match support::shape3(source) {
            Some(shape) => shape,
            None => return Err(KernelError::KvSourceRank),
        };
        let (capacity, cache_heads, cache_dim) = match support::shape3(cache) {
            Some(shape) => shape,
            None => return Err(KernelError::KvCacheRank),
        };
        if heads != cache_heads || head_dim != cache_dim {
            return Err(KernelError::KvShape);
        }
        if tokens > capacity || offset > capacity - tokens {
            return Err(KernelError::KvCapacity);
        }
        proof {
            let length: usize = source@.len() as usize;
            assert(0 <= heads * head_dim <= source@.len()) by (nonlinear_arith)
                requires
                    source@.len() == tokens * heads * head_dim,
                    tokens > 0,
            ;
            assert(source@.len() <= source@.byte_len()) by (nonlinear_arith)
                requires
                    source@.byte_len() == source@.len() * source@.dtype.spec_size() as nat,
                    source@.dtype.spec_size() >= 1,
            ;
        }
        let stride: usize = heads * head_dim;
        self.copy_entries(source, cache, tokens, offset, stride)
    }

    /// Copies a matrix of one row over a row of another matrix.
    pub fn copy_row(&mut self, source: &Tensor, destination: &Tensor, row: usize) -> (result:
        Result<(), KernelError>)
        requires
            old(self).wf(),
            old(self).holds(*source),
            old(self).holds(*destination),
        ensures
            final(self).wf(),
            recorder::kept(*old(self), *final(self)),
            support::outcome0(
                old(self)@,
                final(self)@,
                result,
                copy_row_step(source@, destination@, row),
            ),
    {
        support::require_f16(source)?;
        support::require_f16(destination)?;
        let (rows, width) = match support::matrix_shape(source) {
            Ok(shape) => shape,
            Err(_) => return Err(KernelError::CopyRowSourceRank),
        };
        let (destination_rows, destination_width) = match support::matrix_shape(destination) {
            Ok(shape) => shape,
            Err(_) => return Err(KernelError::CopyRowDestinationRank),
        };
        if rows != 1 || width != destination_width || row >= destination_rows {
            return Err(KernelError::CopyRowShape);
        }
        self.copy_entries(source, destination, 1, row, width)
    }
}

} // verus!
