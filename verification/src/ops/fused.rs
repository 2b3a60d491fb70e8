//! Normalisation fused with the projections of a single row.

use crate::error::{GpuError, KernelError};
use crate::gpu::command::{self, Binding, Params};
use crate::gpu::recorder::{self, BatchModel, Recorder, Step};
use crate::gpu::tensor::{DType, Tensor, TensorModel};
use crate::kernels::KernelBatch;
use crate::ops::gemm::{self, Tiling};
use crate::ops::support;
use crate::tuning::TuningModel;
use vstd::prelude::*;

verus! {

/// Simdgroups of 32 threads in a group of a fused kernel.
pub open spec fn simdgroups(rows: int) -> int {
    if rows == 1 {
        8
    } else {
        4
    }
}

pub open spec fn fused_tiling(kernel: Seq<char>, outputs: int, rows: int) -> Tiling {
    gemm::line_tiling(
        kernel,
        support::ceil_div(outputs, rows * simdgroups(rows)),
        simdgroups(rows) * 32,
    )
}

pub open spec fn rms3_kernel(rows: int) -> Seq<char> {
    if rows == 1 {
        "matvec3_rms_r1_f16"@
    } else if rows == 4 {
        "matvec3_rms_r4_f16"@
    } else if rows == 8 {
        "matvec3_rms_r8_f16"@
    } else {
        "matvec3_rms_f16"@
    }
}

pub open spec fn add_rms2_kernel(rows: int) -> Seq<char> {
    if rows == 1 {
        "matvec2_add_rms_r1_f16"@
    } else if rows == 4 {
        "matvec2_add_rms_r4_f16"@
    } else if rows == 8 {
        "matvec2_add_rms_r8_f16"@
    } else {
        "matvec2_add_rms_f16"@
    }
}

/// Rows that the fused kernels take on this device.
pub open spec fn fused_rows(tuning: TuningModel, widths: Seq<usize>, k: usize) -> int {
    if tuning.is_m4_pro() {
        tuning.fused_norm_matvec_rows(widths, k) as int
    } else {
        2
    }
}

/// Why a row cannot be normalised and projected three ways.
pub open spec fn rms3_refusal(
    input: TensorModel,
    norm_weight: TensorModel,
    weight0: TensorModel,
    weight1: TensorModel,
    weight2: TensorModel,
) -> Option<KernelError> {
    if input.dtype != DType::F16 || norm_weight.dtype != DType::F16 || weight0.dtype != DType::F16
        || weight1.dtype != DType::F16 || weight2.dtype != DType::F16 {
        Some(KernelError::Gpu(GpuError::ExpectedF16))
    } else if input.shape.len() != 2 || weight0.shape.len() != 2 || weight1.shape.len() != 2
        || weight2.shape.len() != 2 {
        Some(KernelError::ExpectedMatrix)
    } else {
        let width = input.shape[1];
        if input.shape[0] != 1 || width % 256 != 0 || norm_weight.shape != seq![width]
            || weight0.shape[1] != width || weight1.shape[1] != width || weight2.shape[1] != width {
            Some(KernelError::RmsNormMatmul3Shape)
        } else {
            None
        }
    }
}

pub open spec fn rms_norm_matmul3_step(
    batch: BatchModel,
    input: TensorModel,
    norm_weight: TensorModel,
    weight0: TensorModel,
    weight1: TensorModel,
    weight2: TensorModel,
    epsilon: u32,
    rows: int,
) -> Result<Step, KernelError> {
    let width = input.shape[1];
    let n0 = weight0.shape[0];
    let n1 = weight1.shape[0];
    let n2 = weight2.shape[0];
    let outputs = support::max(support::max(n0 as int, n1 as int), n2 as int);
    let tiling = fused_tiling(rms3_kernel(rows), outputs, rows);
    match rms3_refusal(input, norm_weight, weight0, weight1, weight2) {
        Some(error) => Err(error),
        None => match recorder::allocation_error(seq![1usize, n0], DType::F16) {
            Some(error) => Err(KernelError::Gpu(error)),
            None => match recorder::allocation_error(seq![1usize, n1], DType::F16) {
                Some(error) => Err(KernelError::Gpu(error)),
                None => match recorder::allocation_error(seq![1usize, n2], DType::F16) {
                    Some(error) => Err(KernelError::Gpu(error)),
                    None => if !support::fits_u32(n0 as int) || !support::fits_u32(n1 as int)
                        || !support::fits_u32(n2 as int) || !support::fits_u32(width as int) {
                        Err(KernelError::U32Overflow)
                    } else if !tiling.fits {
                        Err(KernelError::DispatchOverflow)
                    } else {
                        let out0 = batch.fresh(0, seq![1usize, n0], DType::F16);
                        let out1 = batch.fresh(1, seq![1usize, n1], DType::F16);
                        let out2 = batch.fresh(2, seq![1usize, n2], DType::F16);
                        Ok(
                            Step {
                                issued: 3,
                                outputs: seq![out0, out1, out2],
                                commands: seq![
                                    support::launch(
                                        tiling.kernel,
                                        seq![
                                            input.operand(),
                                            norm_weight.operand(),
                                            weight0.operand(),
                                            weight1.operand(),
                                            weight2.operand(),
                                            out0.operand(),
                                            out1.operand(),
                                            out2.operand(),
                                        ],
                                        Params::NormMultiMatrix {
                                            n0: n0 as u32,
                                            n1: n1 as u32,
                                            n2: n2 as u32,
                                            k: width as u32,
                                            epsilon,
                                        },
                                        tiling.grid,
                                        tiling.threadgroup,
                                    ),
                                ],
                            },
                        )
                    },
                },
            },
        },
    }
}

/// Why a row cannot be added, normalised and projected two ways.
pub open spec fn add_rms2_refusal(
    left: TensorModel,
    right: TensorModel,
    norm_weight: TensorModel,
    weight0: TensorModel,
    weight1: TensorModel,
) -> Option<KernelError> {
    if left.dtype != DType::F16 || right.dtype != DType::F16 || norm_weight.dtype != DType::F16
        || weight0.dtype != DType::F16 || weight1.dtype != DType::F16 {
        Some(KernelError::Gpu(GpuError::ExpectedF16))
    } else if left.shape != right.shape {
        Some(KernelError::ShapeMismatch)
    } else if left.shape.len() != 2 || weight0.shape.len() != 2 || weight1.shape.len() != 2 {
        Some(KernelError::ExpectedMatrix)
    } else {
        let width = left.shape[1];
        if left.shape[0] != 1 || width % 256 != 0 || norm_weight.shape != seq![width]
            || weight0.shape[1] != width || weight1.shape[1] != width {
            Some(KernelError::AddRmsNormMatmul2Shape)
        } else {
            None
        }
    }
}

/// Yields the sum and the two projections of its normalisation.
pub open spec fn add_rms_norm_matmul2_step(
    batch: BatchModel,
    left: TensorModel,
    right: TensorModel,
    norm_weight: TensorModel,
    weight0: TensorModel,
    weight1: TensorModel,
    epsilon: u32,
    rows: int,
) -> Result<Step, KernelError> {
    let width = left.shape[1];
    let n0 = weight0.shape[0];
    let n1 = weight1.shape[0];
    let tiling = fused_tiling(add_rms2_kernel(rows), support::max(n0 as int, n1 as int), rows);
    match add_rms2_refusal(left, right, norm_weight, weight0, weight1) {
        Some(error) => Err(error),
        None => match recorder::allocation_error(seq![1usize, width], DType::F16) {
            Some(error) => Err(KernelError::Gpu(error)),
            None => match recorder::allocation_error(seq![1usize, n0], DType::F16) {
                Some(error) => Err(KernelError::Gpu(error)),
                None => match recorder::allocation_error(seq![1usize, n1], DType::F16) {
                    Some(error) => Err(KernelError::Gpu(error)),
                    None => if !support::fits_u32(n0 as int) || !support::fits_u32(n1 as int)
                        || !support::fits_u32(width as int) {
                        Err(KernelError::U32Overflow)
                    } else if !tiling.fits {
                        Err(KernelError::DispatchOverflow)
                    } else {
                        let residual = batch.fresh(0, seq![1usize, width], DType::F16);
                        let out0 = batch.fresh(1, seq![1usize, n0], DType::F16);
                        let out1 = batch.fresh(2, seq![1usize, n1], DType::F16);
                        Ok(
                            Step {
                                issued: 3,
                                outputs: seq![residual, out0, out1],
                                commands: seq![
                                    support::launch(
                                        tiling.kernel,
                                        seq![
                                            left.operand(),
                                            right.operand(),
                                            norm_weight.operand(),
                                            weight0.operand(),
                                            weight1.operand(),
                                            residual.operand(),
                                            out0.operand(),
                                            out1.operand(),
                                        ],
                                        Params::NormMultiMatrix {
                                            n0: n0 as u32,
                                            n1: n1 as u32,
                                            n2: 0,
                                            k: width as u32,
                                            epsilon,
                                        },
                                        tiling.grid,
                                        tiling.threadgroup,
                                    ),
                                ],
                            },
                        )
                    },
                },
            },
        },
    }
}

fn choose_fused(kernel: &'static str, outputs: usize, rows: usize) -> (result: Result<
    gemm::Launching,
    KernelError,
>)
    requires
        0 < rows <= 8,
    ensures
        gemm::is_choice(result, fused_tiling(kernel@, outputs as int, rows as int)),
{
    let groups: usize = if rows == 1 {
        8
    } else {
        4
    };
    gemm::line(kernel, support::div_ceil(outputs, rows * groups), groups * 32)
}

fn check_rms3(
    input: &Tensor,
    norm_weight: &Tensor,
    weight0: &Tensor,
    weight1: &Tensor,
    weight2: &Tensor,
) -> (result: Result<(usize, usize, usize, usize), KernelError>)
    ensures
        match result {
            Ok((width, n0, n1, n2)) => {
                &&& rms3_refusal(input@, norm_weight@, weight0@, weight1@, weight2@) is None
                &&& input@.shape[1] == width
                &&& weight0@.shape[0] == n0
                &&& weight1@.shape[0] == n1
                &&& weight2@.shape[0] == n2
            },
            Err(error) => rms3_refusal(input@, norm_weight@, weight0@, weight1@, weight2@) == Some(
                error,
            ),
        },
{
    support::require_f16(input)?;
    support::require_f16(norm_weight)?;
    support::require_f16(weight0)?;
    support::require_f16(weight1)?;
    support::require_f16(weight2)?;
    let (rows, width) = support::matrix_shape(input)?;
    let (n0, k0) = support::matrix_shape(weight0)?;
    let (n1, k1) = support::matrix_shape(weight1)?;
    let (n2, k2) = support::matrix_shape(weight2)?;
    if rows != 1 || width % 256 != 0 || !support::is_vector(norm_weight, width) || k0 != width || k1
        != width || k2 != width {
        return Err(KernelError::RmsNormMatmul3Shape);
    }
    Ok((width, n0, n1, n2))
}

fn check_add_rms2(
    left: &Tensor,
    right: &Tensor,
    norm_weight: &Tensor,
    weight0: &Tensor,
    weight1: &Tensor,
) -> (result: Result<(usize, usize, usize), KernelError>)
    ensures
        match result {
            Ok((width, n0, n1)) => {
                &&& add_rms2_refusal(left@, right@, norm_weight@, weight0@, weight1@) is None
                &&& left@.shape[1] == width
                &&& weight0@.shape[0] == n0
                &&& weight1@.shape[0] == n1
            },
            Err(error) => add_rms2_refusal(left@, right@, norm_weight@, weight0@, weight1@) == Some(
                error,
            ),
        },
{
    support::require_f16(left)?;
    support::require_f16(right)?;
    support::require_f16(norm_weight)?;
    support::require_f16(weight0)?;
    support::require_f16(weight1)?;
    support::require_same_shape(left, right)?;
    let (rows, width) = support::matrix_shape(left)?;
    let (n0, k0) = support::matrix_shape(weight0)?;
    let (n1, k1) = support::matrix_shape(weight1)?;
    if rows != 1 || width % 256 != 0 || !support::is_vector(norm_weight, width) || k0 != width || k1
        != width {
        return Err(KernelError::AddRmsNormMatmul2Shape);
    }
    Ok((width, n0, n1))
}

impl Recorder {
    /// The three projections of a normalised row, with `rows` rows for each
    /// simdgroup.
    pub(crate) fn rms_norm_matvec3(
        &mut self,
        input: &Tensor,
        norm_weight: &Tensor,
        weight0: &Tensor,
        weight1: &Tensor,
        weight2: &Tensor,
        epsilon: u32,
        rows: usize,
    ) -> (result: Result<(Tensor, Tensor, Tensor), KernelError>)
        requires
            old(self).wf(),
            old(self).holds(*input),
            old(self).holds(*norm_weight),
            old(self).holds(*weight0),
            old(self).holds(*weight1),
            old(self).holds(*weight2),
            0 < rows <= 8,
        ensures
            final(self).wf(),
            recorder::took3(*old(self), *final(self), result),
            support::outcome3(
                old(self)@,
                final(self)@,
                result,
                rms_norm_matmul3_step(
                    old(self)@,
                    input@,
                    norm_weight@,
                    weight0@,
                    weight1@,
                    weight2@,
                    epsilon,
                    rows as int,
                ),
            ),
    {
        let (width, n0, n1, n2) = check_rms3(input, norm_weight, weight0, weight1, weight2)?;
        let shape0: Vec<usize> = vec![1, n0];
        let shape1: Vec<usize> = vec![1, n1];
        let shape2: Vec<usize> = vec![1, n2];
        assert(shape0@ =~= seq![1usize, n0]);
        assert(shape1@ =~= seq![1usize, n1]);
        assert(shape2@ =~= seq![1usize, n2]);
        Self::check_empty(shape0.as_slice(), DType::F16)?;
        Self::check_empty(shape1.as_slice(), DType::F16)?;
        Self::check_empty(shape2.as_slice(), DType::F16)?;
        let params = Params::NormMultiMatrix {
            n0: support::to_u32(n0)?,
            n1: support::to_u32(n1)?,
            n2: support::to_u32(n2)?,
            k: support::to_u32(width)?,
            epsilon,
        };
        let kernel = match rows {
            1 => "matvec3_rms_r1_f16",
            4 => "matvec3_rms_r4_f16",
            8 => "matvec3_rms_r8_f16",
            _ => "matvec3_rms_f16",
        };
        let outputs: usize = support::larger(support::larger(n0, n1), n2);
        let choice = choose_fused(kernel, outputs, rows)?;
        let out0 = self.fresh(shape0.as_slice(), DType::F16);
        let out1 = self.fresh(shape1.as_slice(), DType::F16);
        let out2 = self.fresh(shape2.as_slice(), DType::F16);
        let bindings: Vec<Binding> = vec![
            input.binding(),
            norm_weight.binding(),
            weight0.binding(),
            weight1.binding(),
            weight2.binding(),
            out0.binding(),
            out1.binding(),
            out2.binding(),
        ];
        proof {
            assert(command::operands(bindings@) =~= seq![
                input@.operand(),
                norm_weight@.operand(),
                weight0@.operand(),
                weight1@.operand(),
                weight2@.operand(),
                out0@.operand(),
                out1@.operand(),
                out2@.operand(),
            ]);
            support::lemma_with_one(
                self@,
                support::launch(
                    choice.kernel@,
                    command::operands(bindings@),
                    params,
                    choice.grid,
                    choice.threadgroup,
                ),
            );
        }
        match self.launch(choice.kernel, bindings, params, choice.grid, choice.threadgroup) {
            Ok(()) => Ok((out0, out1, out2)),
            Err(error) => {
                self.release(out0);
                self.release(out1);
                self.release(out2);
                Err(error)
            },
        }
    }

    /// The sum of two rows and the two projections of its normalisation, with
    /// `rows` rows for each simdgroup.
    pub(crate) fn add_rms_norm_matvec2(
        &mut self,
        left: &Tensor,
        right: &Tensor,
        norm_weight: &Tensor,
        weight0: &Tensor,
        weight1: &Tensor,
        epsilon: u32,
        rows: usize,
    ) -> (result: Result<(Tensor, Tensor, Tensor), KernelError>)
        requires
            old(self).wf(),
            old(self).holds(*left),
            old(self).holds(*right),
            old(self).holds(*norm_weight),
            old(self).holds(*weight0),
            old(self).holds(*weight1),
            0 < rows <= 8,
        ensures
            final(self).wf(),
            recorder::took3(*old(self), *final(self), result),
            support::outcome3(
                old(self)@,
                final(self)@,
                result,
                add_rms_norm_matmul2_step(
                    old(self)@,
                    left@,
                    right@,
                    norm_weight@,
                    weight0@,
                    weight1@,
                    epsilon,
                    rows as int,
                ),
            ),
    {
        let (width, n0, n1) = check_add_rms2(left, right, norm_weight, weight0, weight1)?;
        let shape: Vec<usize> = vec![1, width];
        let shape0: Vec<usize> = vec![1, n0];
        let shape1: Vec<usize> = vec![1, n1];
        assert(shape@ =~= seq![1usize, width]);
        assert(shape0@ =~= seq![1usize, n0]);
        assert(shape1@ =~= seq![1usize, n1]);
        Self::check_empty(shape.as_slice(), DType::F16)?;
        Self::check_empty(shape0.as_slice(), DType::F16)?;
        Self::check_empty(shape1.as_slice(), DType::F16)?;
        let params = Params::NormMultiMatrix {
            n0: support::to_u32(n0)?,
            n1: support::to_u32(n1)?,
            n2: 0,
            k: support::to_u32(width)?,
            epsilon,
        };
        let kernel = match rows {
            1 => "matvec2_add_rms_r1_f16",
            4 => "matvec2_add_rms_r4_f16",
            8 => "matvec2_add_rms_r8_f16",
            _ => "matvec2_add_rms_f16",
        };
        let choice = choose_fused(kernel, support::larger(n0, n1), rows)?;
        let residual = self.fresh(shape.as_slice(), DType::F16);
        let out0 = self.fresh(shape0.as_slice(), DType::F16);
        let out1 = self.fresh(shape1.as_slice(), DType::F16);
        let bindings: Vec<Binding> = vec![
            left.binding(),
            right.binding(),
            norm_weight.binding(),
            weight0.binding(),
            weight1.binding(),
            residual.binding(),
            out0.binding(),
            out1.binding(),
        ];
        proof {
            assert(command::operands(bindings@) =~= seq![
                left@.operand(),
                right@.operand(),
                norm_weight@.operand(),
                weight0@.operand(),
                weight1@.operand(),
                residual@.operand(),
                out0@.operand(),
                out1@.operand(),
            ]);
            support::lemma_with_one(
                self@,
                support::launch(
                    choice.kernel@,
                    command::operands(bindings@),
                    params,
                    choice.grid,
                    choice.threadgroup,
                ),
            );
        }
        match self.launch(choice.kernel, bindings, params, choice.grid, choice.threadgroup) {
            Ok(()) => Ok((residual, out0, out1)),
            Err(error) => {
                self.release(residual);
                self.release(out0);
                self.release(out1);
                Err(error)
            },
        }
    }
}

impl<'kernels> KernelBatch<'kernels> {
    fn fused_norm_rows(&self, widths: [usize; 3], k: usize) -> (rows: usize)
        ensures
            rows == fused_rows(self.tuning@, widths@, k),
            0 < rows <= 2,
    {
        if self.tuning.is_m4_pro() {
            self.tuning.fused_norm_matvec_rows_for_shape(widths, k)
        } else {
            2
        }
    }

    /// Normalises a row and projects it three ways.
    pub fn rms_norm_matmul3(
        &mut self,
        input: &Tensor,
        norm_weight: &Tensor,
        weight0: &Tensor,
        weight1: &Tensor,
        weight2: &Tensor,
        epsilon: u32,
    ) -> (result: Result<(Tensor, Tensor, Tensor), KernelError>)
        requires
            old(self).wf(),
            old(self).recorder.holds(*input),
            old(self).recorder.holds(*norm_weight),
            old(self).recorder.holds(*weight0),
            old(self).recorder.holds(*weight1),
            old(self).recorder.holds(*weight2),
        ensures
            final(self).wf(),
            recorder::took3(old(self).recorder, final(self).recorder, result),
            final(self).tuning == old(self).tuning,
            support::outcome3(
                old(self)@,
                final(self)@,
                result,
                rms_norm_matmul3_step(
                    old(self)@,
                    input@,
                    norm_weight@,
                    weight0@,
                    weight1@,
                    weight2@,
                    epsilon,
                    fused_rows(
                        old(self).tuning@,
                        seq![weight0@.shape[0], weight1@.shape[0], weight2@.shape[0]],
                        input@.shape[1],
                    ),
                ),
            ),
    {
        let (width, n0, n1, n2) = check_rms3(input, norm_weight, weight0, weight1, weight2)?;
        let widths = [n0, n1, n2];
        assert(widths@ =~= seq![n0, n1, n2]);
        let rows: usize = self.fused_norm_rows(widths, width);
        self.recorder.rms_norm_matvec3(
            input,
            norm_weight,
            weight0,
            weight1,
            weight2,
            epsilon,
            rows,
        )
    }

    /// Adds two rows, normalises the sum and projects it two ways.
    pub fn add_rms_norm_matmul2(
        &mut self,
        left: &Tensor,
        right: &Tensor,
        norm_weight: &Tensor,
        weight0: &Tensor,
        weight1: &Tensor,
        epsilon: u32,
    ) -> (result: Result<(Tensor, Tensor, Tensor), KernelError>)
        requires
            old(self).wf(),
            old(self).recorder.holds(*left),
            old(self).recorder.holds(*right),
            old(self).recorder.holds(*norm_weight),
            old(self).recorder.holds(*weight0),
            old(self).recorder.holds(*weight1),
        ensures
            final(self).wf(),
            recorder::took3(old(self).recorder, final(self).recorder, result),
            final(self).tuning == old(self).tuning,
            support::outcome3(
                old(self)@,
                final(self)@,
                result,
                add_rms_norm_matmul2_step(
                    old(self)@,
                    left@,
                    right@,
                    norm_weight@,
                    weight0@,
                    weight1@,
                    epsilon,
                    fused_rows(
                        old(self).tuning@,
                        seq![weight0@.shape[0], weight1@.shape[0], 0usize],
                        left@.shape[1],
                    ),
                ),
            ),
    {
        let (width, n0, n1) = check_add_rms2(left, right, norm_weight, weight0, weight1)?;
        let widths = [n0, n1, 0];
        assert(widths@ =~= seq![n0, n1, 0usize]);
        let rows: usize = self.fused_norm_rows(widths, width);
        self.recorder.add_rms_norm_matvec2(
            left,
            right,
            norm_weight,
            weight0,
            weight1,
            epsilon,
            rows,
        )
    }
}

} // verus!
