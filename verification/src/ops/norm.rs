//! Root mean square normalisation.

use crate::error::{GpuError, KernelError};
use crate::gpu::command::{self, Binding, Params};
use crate::gpu::recorder::{self, BatchModel, Recorder, Step};
use crate::gpu::tensor::{self, DType, Tensor, TensorModel};
use crate::ops::support;
use vstd::prelude::*;

verus! {

/// The rows of a tensor whose last dimension is the width.
pub open spec fn row_count(input: TensorModel) -> int {
    input.len() as int / input.shape.last() as int
}

/// Threads for eight rows to a group of 256.
pub open spec fn norm_grid(rows: int) -> int {
    support::ceil_div(rows, 8) * 256
}

pub open spec fn rms_norm_step(
    batch: BatchModel,
    input: TensorModel,
    weight: TensorModel,
    epsilon: u32,
) -> Result<Step, KernelError> {
    let width = input.shape.last();
    let rows = row_count(input);
    if input.dtype != DType::F16 || weight.dtype != DType::F16 {
        Err(KernelError::Gpu(GpuError::ExpectedF16))
    } else if weight.shape != seq![width] {
        Err(KernelError::RmsNormWeight)
    } else {
        match recorder::allocation_error(input.shape, DType::F16) {
            Some(error) => Err(KernelError::Gpu(error)),
            None => if !support::fits_u32(rows) || !support::fits_u32(width as int) {
                Err(KernelError::U32Overflow)
            } else if !support::fits_usize(norm_grid(rows)) {
                Err(KernelError::DispatchOverflow)
            } else {
                let out = batch.fresh(0, input.shape, DType::F16);
                Ok(
                    Step {
                        issued: 1,
                        outputs: seq![out],
                        commands: seq![
                            support::launch(
                                "rms_norm_f16"@,
                                seq![input.operand(), weight.operand(), out.operand()],
                                Params::Norm { rows: rows as u32, width: width as u32, epsilon },
                                support::line(norm_grid(rows)),
                                support::line(256),
                            ),
                        ],
                    },
                )
            },
        }
    }
}

/// The sum of two tensors and its normalisation, in one launch.
pub open spec fn add_rms_norm_step(
    batch: BatchModel,
    left: TensorModel,
    right: TensorModel,
    weight: TensorModel,
    epsilon: u32,
) -> Result<Step, KernelError> {
    let width = left.shape.last();
    let rows = row_count(left);
    if left.dtype != DType::F16 || right.dtype != DType::F16 || weight.dtype != DType::F16 {
        Err(KernelError::Gpu(GpuError::ExpectedF16))
    } else if left.shape != right.shape {
        Err(KernelError::ShapeMismatch)
    } else if weight.shape != seq![width] {
        Err(KernelError::AddRmsNormWeight)
    } else {
        match recorder::allocation_error(left.shape, DType::F16) {
            Some(error) => Err(KernelError::Gpu(error)),
            None => if !support::fits_u32(rows) || !support::fits_u32(width as int) {
                Err(KernelError::U32Overflow)
            } else if !support::fits_usize(norm_grid(rows)) {
                Err(KernelError::DispatchOverflow)
            } else {
                let residual = batch.fresh(0, left.shape, DType::F16);
                let normalized = batch.fresh(1, left.shape, DType::F16);
                Ok(
                    Step {
                        issued: 2,
                        outputs: seq![residual, normalized],
                        commands: seq![
                            support::launch(
                                "add_rms_norm_f16"@,
                                seq![
                                    left.operand(),
                                    right.operand(),
                                    weight.operand(),
                                    residual.operand(),
                                    normalized.operand(),
                                ],
                                Params::Norm { rows: rows as u32, width: width as u32, epsilon },
                                support::line(norm_grid(rows)),
                                support::line(256),
                            ),
                        ],
                    },
                )
            },
        }
    }
}

/// The last dimension and the number of rows of that width.
fn rows_and_width(input: &Tensor) -> (out: (usize, usize))
    ensures
        out.0 == row_count(input@),
        out.1 == input@.shape.last(),
        out.1 > 0,
{
    let shape = input.shape();
    let width: usize = shape[shape.len() - 1];
    let length: usize = input.len();
    (length / width, width)
}

impl Recorder {
    /// Normalises each row and scales it by the weight.
    pub fn rms_norm(&mut self, input: &Tensor, weight: &Tensor, epsilon: u32) -> (result: Result<
        Tensor,
        KernelError,
    >)
        requires
            old(self).wf(),
            old(self).holds(*input),
            old(self).holds(*weight),
        ensures
            final(self).wf(),
            recorder::took1(*old(self), *final(self), result),
            support::outcome1(
                old(self)@,
                final(self)@,
                result,
                rms_norm_step(old(self)@, input@, weight@, epsilon),
            ),
    {
        support::require_f16(input)?;
        support::require_f16(weight)?;
        let (rows, width) = rows_and_width(input);
        if !support::is_vector(weight, width) {
            return Err(KernelError::RmsNormWeight);
        }
        Self::check_empty(input.shape(), DType::F16)?;
        let params = Params::Norm {
            rows: support::to_u32(rows)?,
            width: support::to_u32(width)?,
            epsilon,
        };
        let threads = support::checked_mul(support::div_ceil(rows, 8), 256)?;
        let out = self.fresh(input.shape(), DType::F16);
        let bindings: Vec<Binding> = vec![input.binding(), weight.binding(), out.binding()];
        let grid = command::size(threads, 1, 1);
        let threadgroup = command::size(256, 1, 1);
        proof {
            assert(command::operands(bindings@) =~= seq![
                input@.operand(),
                weight@.operand(),
                out@.operand(),
            ]);
            support::lemma_with_one(
                self@,
                support::launch(
                    "rms_norm_f16"@,
                    command::operands(bindings@),
                    params,
                    grid,
                    threadgroup,
                ),
            );
        }
        match self.launch("rms_norm_f16", bindings, params, grid, threadgroup) {
            Ok(()) => Ok(out),
            Err(error) => {
                self.release(out);
                Err(error)
            },
        }
    }

    /// Adds a residual and normalises the sum; yields both.
    pub fn add_rms_norm(
        &mut self,
        left: &Tensor,
        right: &Tensor,
        weight: &Tensor,
        epsilon: u32,
    ) -> (result: Result<(Tensor, Tensor), KernelError>)
        requires
            old(self).wf(),
            old(self).holds(*left),
            old(self).holds(*right),
            old(self).holds(*weight),
        ensures
            final(self).wf(),
            recorder::took2(*old(self), *final(self), result),
            support::outcome2(
                old(self)@,
                final(self)@,
                result,
                add_rms_norm_step(old(self)@, left@, right@, weight@, epsilon),
            ),
    {
        support::require_f16(left)?;
        support::require_f16(right)?;
        support::require_f16(weight)?;
        support::require_same_shape(left, right)?;
        let (rows, width) = rows_and_width(left);
        if !support::is_vector(weight, width) {
            return Err(KernelError::AddRmsNormWeight);
        }
        Self::check_empty(left.shape(), DType::F16)?;
        let params = Params::Norm {
            rows: support::to_u32(rows)?,
            width: support::to_u32(width)?,
            epsilon,
        };
        let threads = support::checked_mul(support::div_ceil(rows, 8), 256)?;
        let residual = self.fresh(left.shape(), DType::F16);
        let normalized = self.fresh(left.shape(), DType::F16);
        let bindings: Vec<Binding> = vec![
            left.binding(),
            right.binding(),
            weight.binding(),
            residual.binding(),
            normalized.binding(),
        ];
        let grid = command::size(threads, 1, 1);
        let threadgroup = command::size(256, 1, 1);
        proof {
            assert(command::operands(bindings@) =~= seq![
                left@.operand(),
                right@.operand(),
                weight@.operand(),
                residual@.operand(),
                normalized@.operand(),
            ]);
            support::lemma_with_one(
                self@,
                support::launch(
                    "add_rms_norm_f16"@,
                    command::operands(bindings@),
                    params,
                    grid,
                    threadgroup,
                ),
            );
        }
        match self.launch("add_rms_norm_f16", bindings, params, grid, threadgroup) {
            Ok(()) => Ok((residual, normalized)),
            Err(error) => {
                self.release(residual);
                self.release(normalized);
                Err(error)
            },
        }
    }
}

} // verus!
