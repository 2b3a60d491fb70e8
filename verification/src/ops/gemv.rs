//! Several products of one input in one launch.

use crate::error::{GpuError, KernelError};
use crate::gpu::command::{self, Binding, Params};
use crate::gpu::recorder::{self, BatchModel, Recorder, Step};
use crate::gpu::tensor::{DType, Tensor, TensorModel};
use crate::kernels::KernelBatch;
use crate::ops::gemm::{self, Tiling};
use crate::ops::support::{self, Outcome};
use crate::tuning::TuningModel;
use vstd::prelude::*;

verus! {

/// Why an input cannot be multiplied with each of the weights at once.
pub open spec fn multi_refusal(
    input: TensorModel,
    weights: Seq<TensorModel>,
    inner: KernelError,
) -> Option<KernelError> {
    if input.shape.len() != 2 || exists|i: int|
        0 <= i < weights.len() && (#[trigger] weights[i]).shape.len() != 2 {
        Some(KernelError::ExpectedMatrix)
    } else if input.dtype != DType::F16 || exists|i: int|
        0 <= i < weights.len() && (#[trigger] weights[i]).dtype != DType::F16 {
        Some(KernelError::Gpu(GpuError::ExpectedF16))
    } else if exists|i: int|
        0 <= i < weights.len() && (#[trigger] weights[i]).shape[1] != input.shape[1] {
        Some(inner)
    } else {
        None
    }
}

/// Groups of 128 threads with `rows` rows in each of four simdgroups, or of
/// 256 threads with 32 rows.
pub open spec fn multi_tiling(kernel: Seq<char>, outputs: int, rows: int) -> Tiling {
    if rows == 0 {
        gemm::line_tiling(kernel, support::ceil_div(outputs, 32), 256)
    } else {
        gemm::line_tiling(kernel, support::ceil_div(outputs, rows * 4), 128)
    }
}

pub open spec fn matvec2_kernel(rows: int) -> Seq<char> {
    if rows == 2 {
        "matvec2_tuned_f16"@
    } else if rows == 4 {
        "matvec2_tuned4_f16"@
    } else if rows == 8 {
        "matvec2_tuned8_f16"@
    } else {
        "matvec2_f16"@
    }
}

pub open spec fn matvec3_kernel(rows: int) -> Seq<char> {
    if rows == 2 {
        "matvec3_tuned_f16"@
    } else if rows == 4 {
        "matvec3_tuned4_f16"@
    } else if rows == 8 {
        "matvec3_tuned8_f16"@
    } else {
        "matvec3_f16"@
    }
}

/// Two products of one row by one launch.
pub open spec fn matvec2_step(
    batch: BatchModel,
    input: TensorModel,
    weight0: TensorModel,
    weight1: TensorModel,
    rows: int,
) -> Result<Step, KernelError> {
    let n0 = weight0.shape[0];
    let n1 = weight1.shape[0];
    let k = input.shape[1];
    let tiling = multi_tiling(matvec2_kernel(rows), support::max(n0 as int, n1 as int), rows);
    match recorder::allocation_error(seq![1usize, n0], DType::F16) {
        Some(error) => Err(KernelError::Gpu(error)),
        None => match recorder::allocation_error(seq![1usize, n1], DType::F16) {
            Some(error) => Err(KernelError::Gpu(error)),
            None => if !support::fits_u32(n0 as int) || !support::fits_u32(n1 as int)
                || !support::fits_u32(k as int) {
                Err(KernelError::U32Overflow)
            } else if !tiling.fits {
                Err(KernelError::DispatchOverflow)
            } else {
                let out0 = batch.fresh(0, seq![1usize, n0], DType::F16);
                let out1 = batch.fresh(1, seq![1usize, n1], DType::F16);
                Ok(
                    Step {
                        issued: 2,
                        outputs: seq![out0, out1],
                        commands: seq![
                            support::launch(
                                tiling.kernel,
                                seq![
                                    input.operand(),
                                    weight0.operand(),
                                    weight1.operand(),
                                    out0.operand(),
                                    out1.operand(),
                                ],
                                Params::MultiMatrix {
                                    n0: n0 as u32,
                                    n1: n1 as u32,
                                    n2: 0,
                                    k: k as u32,
                                },
                                tiling.grid,
                                tiling.threadgroup,
                            ),
                        ],
                    },
                )
            },
        },
    }
}

/// Three products of one row by one launch.
pub open spec fn matvec3_step(
    batch: BatchModel,
    input: TensorModel,
    weight0: TensorModel,
    weight1: TensorModel,
    weight2: TensorModel,
    rows: int,
) -> Result<Step, KernelError> {
    let n0 = weight0.shape[0];
    let n1 = weight1.shape[0];
    let n2 = weight2.shape[0];
    let k = input.shape[1];
    let outputs = support::max(support::max(n0 as int, n1 as int), n2 as int);
    let tiling = multi_tiling(matvec3_kernel(rows), outputs, rows);
    match recorder::allocation_error(seq![1usize, n0], DType::F16) {
        Some(error) => Err(KernelError::Gpu(error)),
        None => match recorder::allocation_error(seq![1usize, n1], DType::F16) {
            Some(error) => Err(KernelError::Gpu(error)),
            None => match recorder::allocation_error(seq![1usize, n2], DType::F16) {
                Some(error) => Err(KernelError::Gpu(error)),
                None => if !support::fits_u32(n0 as int) || !support::fits_u32(n1 as int)
                    || !support::fits_u32(n2 as int) || !support::fits_u32(k as int) {
                    Err(KernelError::U32Overflow)
                } else if !tiling.fits {
                    Err(KernelError::DispatchOverflow)
                } else {
                    let out0 = batch.fresh(0, seq![1usize, n0], DType::F16);
                    let out1 = batch.fresh(1, seq![1usize, n1], DType::F16);
                    let out2 = batch.fresh(2, seq![1usize, n2], DType::F16);
                    Ok(
                        Step {
                            issued: 3,
                            outputs: seq![out0, out1, out2],
                            commands: seq![
                                support::launch(
                                    tiling.kernel,
                                    seq![
                                        input.operand(),
                                        weight0.operand(),
                                        weight1.operand(),
                                        weight2.operand(),
                                        out0.operand(),
                                        out1.operand(),
                                        out2.operand(),
                                    ],
                                    Params::MultiMatrix {
                                        n0: n0 as u32,
                                        n1: n1 as u32,
                                        n2: n2 as u32,
                                        k: k as u32,
                                    },
                                    tiling.grid,
                                    tiling.threadgroup,
                                ),
                            ],
                        },
                    )
                },
            },
        },
    }
}

/// Rows that the fused products take on this device.
pub open spec fn tuned_rows(tuning: TuningModel, k: usize) -> int {
    if k % 256 == 0 && tuning.is_m4_pro() {
        2
    } else {
        0
    }
}

/// Two products, one after the other.
pub open spec fn products2(
    batch: BatchModel,
    tuning: TuningModel,
    input: TensorModel,
    weight0: TensorModel,
    weight1: TensorModel,
) -> Outcome {
    let (batch, first) = batch.run(gemm::matmul_step(batch, tuning, input, weight0));
    match first {
        Err(error) => (batch, Err(error)),
        Ok(first) => {
            let (batch, second) = batch.run(
                gemm::matmul_step(batch, tuning, input, weight1),
            );
            match second {
                Err(error) => (batch, Err(error)),
                Ok(second) => (batch, Ok(seq![first[0], second[0]])),
            }
        },
    }
}

/// Three products, one after the other.
pub open spec fn products3(
    batch: BatchModel,
    tuning: TuningModel,
    input: TensorModel,
    weight0: TensorModel,
    weight1: TensorModel,
    weight2: TensorModel,
) -> Outcome {
    let (batch, first) = batch.run(gemm::matmul_step(batch, tuning, input, weight0));
    match first {
        Err(error) => (batch, Err(error)),
        Ok(first) => {
            let (batch, second) = batch.run(
                gemm::matmul_step(batch, tuning, input, weight1),
            );
            match second {
                Err(error) => (batch, Err(error)),
                Ok(second) => {
                    let (batch, third) = batch.run(
                        gemm::matmul_step(batch, tuning, input, weight2),
                    );
                    match third {
                        Err(error) => (batch, Err(error)),
                        Ok(third) => (batch, Ok(seq![first[0], second[0], third[0]])),
                    }
                },
            }
        },
    }
}

/// Two products: by one launch for a single row, else one after the other.
pub open spec fn matmul2_outcome(
    batch: BatchModel,
    tuning: TuningModel,
    input: TensorModel,
    weight0: TensorModel,
    weight1: TensorModel,
) -> Outcome {
    match multi_refusal(input, seq![weight0, weight1], KernelError::Matmul2InnerDimension) {
        Some(error) => (batch, Err(error)),
        None => if input.shape[0] == 1 {
            batch.run(matvec2_step(batch, input, weight0, weight1, tuned_rows(tuning, input.shape[1])))
        } else {
            products2(batch, tuning, input, weight0, weight1)
        },
    }
}

/// Three products: by one launch for a single row, else one after the other.
pub open spec fn matmul3_outcome(
    batch: BatchModel,
    tuning: TuningModel,
    input: TensorModel,
    weight0: TensorModel,
    weight1: TensorModel,
    weight2: TensorModel,
) -> Outcome {
    match multi_refusal(
        input,
        seq![weight0, weight1, weight2],
        KernelError::Matmul3InnerDimension,
    ) {
        Some(error) => (batch, Err(error)),
        None => if input.shape[0] == 1 {
            batch.run(
                matvec3_step(
                    batch,
                    input,
                    weight0,
                    weight1,
                    weight2,
                    tuned_rows(tuning, input.shape[1]),
                ),
            )
        } else {
            products3(batch, tuning, input, weight0, weight1, weight2)
        },
    }
}

pub(crate) fn check_matmul2(input: &Tensor, weight0: &Tensor, weight1: &Tensor) -> (result: Result<
    (usize, usize),
    KernelError,
>)
    ensures
        match result {
            Ok((m, k)) => {
                &&& multi_refusal(
                    input@,
                    seq![weight0@, weight1@],
                    KernelError::Matmul2InnerDimension,
                ) is None
                &&& input@.shape == seq![m, k]
            },
            Err(error) => multi_refusal(
                input@,
                seq![weight0@, weight1@],
                KernelError::Matmul2InnerDimension,
            ) == Some(error),
        },
{
    proof {
        let weights = seq![weight0@, weight1@];
        assert(weights[0] == weight0@ && weights[1] == weight1@);
    }
    let (m, k) = support::matrix_shape(input)?;
    let (_, k0) = support::matrix_shape(weight0)?;
    let (_, k1) = support::matrix_shape(weight1)?;
    support::require_f16(input)?;
    support::require_f16(weight0)?;
    support::require_f16(weight1)?;
    if k != k0 || k != k1 {
        return Err(KernelError::Matmul2InnerDimension);
    }
    Ok((m, k))
}

pub(crate) fn check_matmul3(
    input: &Tensor,
    weight0: &Tensor,
    weight1: &Tensor,
    weight2: &Tensor,
) -> (result: Result<(usize, usize), KernelError>)
    ensures
        match result {
            Ok((m, k)) => {
                &&& multi_refusal(
                    input@,
                    seq![weight0@, weight1@, weight2@],
                    KernelError::Matmul3InnerDimension,
                ) is None
                &&& input@.shape == seq![m, k]
            },
            Err(error) => multi_refusal(
                input@,
                seq![weight0@, weight1@, weight2@],
                KernelError::Matmul3InnerDimension,
            ) == Some(error),
        },
{
    proof {
        let weights = seq![weight0@, weight1@, weight2@];
        assert(weights[0] == weight0@ && weights[1] == weight1@ && weights[2] == weight2@);
    }
    let (m, k) = support::matrix_shape(input)?;
    let (_, k0) = support::matrix_shape(weight0)?;
    let (_, k1) = support::matrix_shape(weight1)?;
    let (_, k2) = support::matrix_shape(weight2)?;
    support::require_f16(input)?;
    support::require_f16(weight0)?;
    support::require_f16(weight1)?;
    support::require_f16(weight2)?;
    if k != k0 || k != k1 || k != k2 {
        return Err(KernelError::Matmul3InnerDimension);
    }
    Ok((m, k))
}

fn choose_multi(kernel: &'static str, outputs: usize, rows: usize) -> (result: Result<
    gemm::Launching,
    KernelError,
>)
    requires
        rows <= 255,
    ensures
        gemm::is_choice(result, multi_tiling(kernel@, outputs as int, rows as int)),
{
    if rows == 0 {
        gemm::line(kernel, support::div_ceil(outputs, 32), 256)
    } else {
        gemm::line(kernel, support::div_ceil(outputs, rows * 4), 128)
    }
}

impl Recorder {
    /// Two products of a single row that was checked.
    pub(crate) fn matvec2(
        &mut self,
        input: &Tensor,
        weight0: &Tensor,
        weight1: &Tensor,
        rows: usize,
    ) -> (result: Result<(Tensor, Tensor), KernelError>)
        requires
            old(self).wf(),
            old(self).holds(*input),
            old(self).holds(*weight0),
            old(self).holds(*weight1),
            rows <= 255,
            multi_refusal(
                input@,
                seq![weight0@, weight1@],
                KernelError::Matmul2InnerDimension,
            ) is None,
        ensures
            final(self).wf(),
            recorder::took2(*old(self), *final(self), result),
            support::outcome2(
                old(self)@,
                final(self)@,
                result,
                matvec2_step(old(self)@, input@, weight0@, weight1@, rows as int),
            ),
    {
        proof {
            let weights = seq![weight0@, weight1@];
            assert(weights[0] == weight0@ && weights[1] == weight1@);
        }
        let (_, k) = support::matrix_shape(input)?;
        let (n0, _) = support::matrix_shape(weight0)?;
        let (n1, _) = support::matrix_shape(weight1)?;
        let shape0: Vec<usize> = vec![1, n0];
        let shape1: Vec<usize> = vec![1, n1];
        assert(shape0@ =~= seq![1usize, n0]);
        assert(shape1@ =~= seq![1usize, n1]);
        Self::check_empty(shape0.as_slice(), DType::F16)?;
        Self::check_empty(shape1.as_slice(), DType::F16)?;
        let params = Params::MultiMatrix {
            n0: support::to_u32(n0)?,
            n1: support::to_u32(n1)?,
            n2: 0,
            k: support::to_u32(k)?,
        };
        let kernel = match rows {
            2 => "matvec2_tuned_f16",
            4 => "matvec2_tuned4_f16",
            8 => "matvec2_tuned8_f16",
            _ => "matvec2_f16",
        };
        let choice = choose_multi(kernel, support::larger(n0, n1), rows)?;
        let out0 = self.fresh(shape0.as_slice(), DType::F16);
        let out1 = self.fresh(shape1.as_slice(), DType::F16);
        let bindings: Vec<Binding> = vec![
            input.binding(),
            weight0.binding(),
            weight1.binding(),
            out0.binding(),
            out1.binding(),
        ];
        proof {
            assert(command::operands(bindings@) =~= seq![
                input@.operand(),
                weight0@.operand(),
                weight1@.operand(),
                out0@.operand(),
                out1@.operand(),
            ]);
            support::lemma_with_one(
                self@,
                support::launch(
                    choice.kernel@,
                    command::operands(bindings@),
                    params,
                    choice.grid,
                    choice.threadgroup,
                ),
            );
        }
        match self.launch(choice.kernel, bindings, params, choice.grid, choice.threadgroup) {
            Ok(()) => Ok((out0, out1)),
            Err(error) => {
                self.release(out0);
                self.release(out1);
                Err(error)
            },
        }
    }

    /// Three products of a single row that was checked.
    pub(crate) fn matvec3(
        &mut self,
        input: &Tensor,
        weight0: &Tensor,
        weight1: &Tensor,
        weight2: &Tensor,
        rows: usize,
    ) -> (result: Result<(Tensor, Tensor, Tensor), KernelError>)
        requires
            old(self).wf(),
            old(self).holds(*input),
            old(self).holds(*weight0),
            old(self).holds(*weight1),
            old(self).holds(*weight2),
            rows <= 255,
            multi_refusal(
                input@,
                seq![weight0@, weight1@, weight2@],
                KernelError::Matmul3InnerDimension,
            ) is None,
        ensures
            final(self).wf(),
            recorder::took3(*old(self), *final(self), result),
            support::outcome3(
                old(self)@,
                final(self)@,
                result,
                matvec3_step(old(self)@, input@, weight0@, weight1@, weight2@, rows as int),
            ),
    {
        proof {
            let weights = seq![weight0@, weight1@, weight2@];
            assert(weights[0] == weight0@ && weights[1] == weight1@ && weights[2] == weight2@);
        }
        let (_, k) = support::matrix_shape(input)?;
        let (n0, _) = support::matrix_shape(weight0)?;
        let (n1, _) = support::matrix_shape(weight1)?;
        let (n2, _) = support::matrix_shape(weight2)?;
        let shape0: Vec<usize> = vec![1, n0];
        let shape1: Vec<usize> = vec![1, n1];
        let shape2: Vec<usize> = vec![1, n2];
        assert(shape0@ =~= seq![1usize, n0]);
        assert(shape1@ =~= seq![1usize, n1]);
        assert(shape2@ =~= seq![1usize, n2]);
        Self::check_empty(shape0.as_slice(), DType::F16)?;
        Self::check_empty(shape1.as_slice(), DType::F16)?;
        Self::check_empty(shape2.as_slice(), DType::F16)?;
        let params = Params::MultiMatrix {
            n0: support::to_u32(n0)?,
            n1: support::to_u32(n1)?,
            n2: support::to_u32(n2)?,
            k: support::to_u32(k)?,
        };
        let kernel = match rows {
            2 => "matvec3_tuned_f16",
            4 => "matvec3_tuned4_f16",
            8 => "matvec3_tuned8_f16",
            _ => "matvec3_f16",
        };
        let outputs: usize = support::larger(support::larger(n0, n1), n2);
        let choice = choose_multi(kernel, outputs, rows)?;
        let out0 = self.fresh(shape0.as_slice(), DType::F16);
        let out1 = self.fresh(shape1.as_slice(), DType::F16);
        let out2 = self.fresh(shape2.as_slice(), DType::F16);
        let bindings: Vec<Binding> = vec![
            input.binding(),
            weight0.binding(),
            weight1.binding(),
            weight2.binding(),
            out0.binding(),
            out1.binding(),
            out2.binding(),
        ];
        proof {
            assert(command::operands(bindings@) =~= seq![
                input@.operand(),
                weight0@.operand(),
                weight1@.operand(),
                weight2@.operand(),
                out0@.operand(),
                out1@.operand(),
                out2@.operand(),
            ]);
            support::lemma_with_one(
                self@,
                support::launch(
                    choice.kernel@,
                    command::operands(bindings@),
                    params,
                    choice.grid,
                    choice.threadgroup,
                ),
            );
        }
        match self.launch(choice.kernel, bindings, params, choice.grid, choice.threadgroup) {
            Ok(()) => Ok((out0, out1, out2)),
            Err(error) => {
                self.release(out0);
                self.release(out1);
                self.release(out2);
                Err(error)
            },
        }
    }
}

impl<'kernels> KernelBatch<'kernels> {
    fn multi_rows(&self, k: usize) -> (rows: usize)
        ensures
            rows == tuned_rows(self.tuning@, k),
            rows <= 2,
    {
        if k % 256 == 0 && self.tuning.is_m4_pro() {
            2
        } else {
            0
        }
    }

    /// The products with two weights, by a launch or more for each.
    pub fn products2(&mut self, input: &Tensor, weight0: &Tensor, weight1: &Tensor) -> (result:
        Result<(Tensor, Tensor), KernelError>)
        requires
            old(self).wf(),
            old(self).recorder.holds(*input),
            old(self).recorder.holds(*weight0),
            old(self).recorder.holds(*weight1),
        ensures
            final(self).wf(),
            recorder::took2(old(self).recorder, final(self).recorder, result),
            final(self).tuning == old(self).tuning,
            support::came_out2(
                final(self)@,
                result,
                products2(old(self)@, old(self).tuning@, input@, weight0@, weight1@),
            ),
    {
        let out0 = self.matmul(input, weight0)?;
        match self.matmul(input, weight1) {
            Ok(out1) => Ok((out0, out1)),
            Err(error) => {
                self.release(out0);
                Err(error)
            },
        }
    }

    /// The products with three weights, by a launch or more for each.
    pub fn products3(
        &mut self,
        input: &Tensor,
        weight0: &Tensor,
        weight1: &Tensor,
        weight2: &Tensor,
    ) -> (result: Result<(Tensor, Tensor, Tensor), KernelError>)
        requires
            old(self).wf(),
            old(self).recorder.holds(*input),
            old(self).recorder.holds(*weight0),
            old(self).recorder.holds(*weight1),
            old(self).recorder.holds(*weight2),
        ensures
            final(self).wf(),
            recorder::took3(old(self).recorder, final(self).recorder, result),
            final(self).tuning == old(self).tuning,
            support::came_out3(
                final(self)@,
                result,
                products3(old(self)@, old(self).tuning@, input@, weight0@, weight1@, weight2@),
            ),
    {
        let out0 = self.matmul(input, weight0)?;
        let out1 = match self.matmul(input, weight1) {
            Ok(out1) => out1,
            Err(error) => {
                self.release(out0);
                return Err(error);
            },
        };
        match self.matmul(input, weight2) {
            Ok(out2) => Ok((out0, out1, out2)),
            Err(error) => {
                self.release(out0);
                self.release(out1);
                Err(error)
            },
        }
    }

    /// The products of `input` with the transposes of two weights.
    pub fn matmul2(&mut self, input: &Tensor, weight0: &Tensor, weight1: &Tensor) -> (result:
        Result<(Tensor, Tensor), KernelError>)
        requires
            old(self).wf(),
            old(self).recorder.holds(*input),
            old(self).recorder.holds(*weight0),
            old(self).recorder.holds(*weight1),
        ensures
            final(self).wf(),
            recorder::took2(old(self).recorder, final(self).recorder, result),
            final(self).tuning == old(self).tuning,
            support::came_out2(
                final(self)@,
                result,
                matmul2_outcome(old(self)@, old(self).tuning@, input@, weight0@, weight1@),
            ),
    {
        let (m, k) = check_matmul2(input, weight0, weight1)?;
        if m != 1 {
            return self.products2(input, weight0, weight1);
        }
        let rows: usize = self.multi_rows(k);
        self.recorder.matvec2(input, weight0, weight1, rows)
    }

    /// The products of `input` with the transposes of three weights.
    pub fn matmul3(
        &mut self,
        input: &Tensor,
        weight0: &Tensor,
        weight1: &Tensor,
        weight2: &Tensor,
    ) -> (result: Result<(Tensor, Tensor, Tensor), KernelError>)
        requires
            old(self).wf(),
            old(self).recorder.holds(*input),
            old(self).recorder.holds(*weight0),
            old(self).recorder.holds(*weight1),
            old(self).recorder.holds(*weight2),
        ensures
            final(self).wf(),
            recorder::took3(old(self).recorder, final(self).recorder, result),
            final(self).tuning == old(self).tuning,
            support::came_out3(
                final(self)@,
                result,
                matmul3_outcome(
                    old(self)@,
                    old(self).tuning@,
                    input@,
                    weight0@,
                    weight1@,
                    weight2@,
                ),
            ),
    {
        let (m, k) = check_matmul3(input, weight0, weight1, weight2)?;
        if m != 1 {
            return self.products3(input, weight0, weight1, weight2);
        }
        let rows: usize = self.multi_rows(k);
        self.recorder.matvec3(input, weight0, weight1, weight2, rows)
    }
}

} // verus!
