//! Products of a matrix with the transpose of a weight.

use crate::error::{GpuError, KernelError};
use crate::gpu::command::{self, Binding, Params, Size};
use crate::gpu::recorder::{self, BatchModel, Recorder, Step};
use crate::gpu::tensor::{DType, Tensor, TensorModel};
use crate::kernels::KernelBatch;
use crate::ops::support;
use crate::tuning::{self, TuningModel};
use vstd::prelude::*;

verus! {

/// A kernel with its grid, and whether the grid fits in machine numbers.
#[verifier::ext_equal]
pub struct Tiling {
    pub kernel: Seq<char>,
    pub grid: Size,
    pub threadgroup: Size,
    pub fits: bool,
}

/// A chosen kernel with its grid.
pub struct Launching {
    pub kernel: &'static str,
    pub grid: Size,
    pub threadgroup: Size,
}

pub open spec fn is_choice(result: Result<Launching, KernelError>, tiling: Tiling) -> bool {
    match result {
        Ok(choice) => {
            &&& tiling.fits
            &&& choice.kernel@ == tiling.kernel
            &&& choice.grid == tiling.grid
            &&& choice.threadgroup == tiling.threadgroup
        },
        Err(error) => !tiling.fits && error == KernelError::DispatchOverflow,
    }
}

/// A line of `groups` groups of `threads` threads.
pub open spec fn line_tiling(kernel: Seq<char>, groups: int, threads: int) -> Tiling {
    Tiling {
        kernel,
        grid: support::line(groups * threads),
        threadgroup: support::line(threads),
        fits: support::fits_usize(groups * threads),
    }
}

/// One thread for each output, in squares of 16 by 16.
pub open spec fn square_tiling(m: int, n: int) -> Tiling {
    Tiling {
        kernel: "matmul_f16"@,
        grid: Size {
            width: support::round_to(n, 16) as usize,
            height: support::round_to(m, 16) as usize,
            depth: 1,
        },
        threadgroup: Size { width: 16, height: 16, depth: 1 },
        fits: support::fits_usize(n + 15) && support::fits_usize(m + 15),
    }
}

/// Threads in a group of a matrix-vector kernel.
pub open spec fn matvec_threads(rows: int) -> int {
    if rows == 0 || rows == 1 {
        256
    } else {
        128
    }
}

/// Outputs of a group of a matrix-vector kernel.
pub open spec fn matvec_outputs(rows: int) -> int {
    if rows == 0 {
        32
    } else if rows == 1 {
        8
    } else {
        rows * 4
    }
}

/// How the product of an `m` by `k` matrix with the transpose of an `n` by `k`
/// weight is spread over the device.
pub open spec fn matmul_tiling(tuning: TuningModel, m: usize, n: usize, k: usize) -> Tiling {
    let m4 = tuning.is_m4_pro();
    let tileable = n % 32 == 0 && k % 32 == 0 && n >= 256 && k >= 256;
    if m == 1 {
        let vocabulary = n >= 65_536;
        let rows = if m4 && k % 256 == 0 {
            tuning.matvec_rows(n, k, vocabulary) as int
        } else {
            0
        };
        line_tiling(
            if rows == 1 {
                "matvec_one_row_f16"@
            } else if rows == 2 && vocabulary {
                "matvec_vocab_f16"@
            } else if rows == 2 {
                "matvec_tuned2_f16"@
            } else if rows == 4 {
                "matvec_tuned_f16"@
            } else {
                "matvec_f16"@
            },
            support::ceil_div(n as int, matvec_outputs(rows)),
            matvec_threads(rows),
        )
    } else if m4 && m < 128 && tileable {
        line_tiling("matmul_skinny_f16"@, n as int / 32 * support::ceil_div(m as int, 8), 128)
    } else if m4 && m >= 128 && tileable {
        line_tiling("matmul_simd_db_f16"@, n as int / 32 * support::ceil_div(m as int, 32), 128)
    } else {
        square_tiling(m as int, n as int)
    }
}

/// Why two tensors cannot be multiplied.
pub open spec fn matmul_refusal(input: TensorModel, weight: TensorModel) -> Option<KernelError> {
    if input.dtype != DType::F16 || weight.dtype != DType::F16 {
        Some(KernelError::Gpu(GpuError::ExpectedF16))
    } else if input.shape.len() != 2 || weight.shape.len() != 2 {
        Some(KernelError::ExpectedMatrix)
    } else if input.shape[1] != weight.shape[1] {
        Some(KernelError::MatmulInnerDimension)
    } else {
        match recorder::allocation_error(seq![input.shape[0], weight.shape[0]], DType::F16) {
            Some(error) => Some(KernelError::Gpu(error)),
            None => if !support::fits_u32(input.shape[0] as int) || !support::fits_u32(
                weight.shape[0] as int,
            ) || !support::fits_u32(input.shape[1] as int) {
                Some(KernelError::U32Overflow)
            } else {
                None
            },
        }
    }
}

/// The product by one kernel.
pub open spec fn matmul_once_step(
    batch: BatchModel,
    input: TensorModel,
    weight: TensorModel,
    tiling: Tiling,
) -> Result<Step, KernelError> {
    let m = input.shape[0];
    let n = weight.shape[0];
    let k = input.shape[1];
    let out = batch.fresh(0, seq![m, n], DType::F16);
    if !tiling.fits {
        Err(KernelError::DispatchOverflow)
    } else {
        Ok(
            Step {
                issued: 1,
                outputs: seq![out],
                commands: seq![
                    support::launch(
                        tiling.kernel,
                        seq![input.operand(), weight.operand(), out.operand()],
                        Params::Matrix { m: m as u32, n: n as u32, k: k as u32, padding: 0 },
                        tiling.grid,
                        tiling.threadgroup,
                    ),
                ],
            },
        )
    }
}

pub open spec fn matmul_step(
    batch: BatchModel,
    tuning: TuningModel,
    input: TensorModel,
    weight: TensorModel,
) -> Result<Step, KernelError> {
    match matmul_refusal(input, weight) {
        Some(error) => Err(error),
        None => matmul_once_step(
            batch,
            input,
            weight,
            matmul_tiling(tuning, input.shape[0], weight.shape[0], input.shape[1]),
        ),
    }
}

/// A line of groups, if it fits.
pub(crate) fn line(kernel: &'static str, groups: usize, threads: usize) -> (result: Result<
    Launching,
    KernelError,
>)
    ensures
        is_choice(result, line_tiling(kernel@, groups as int, threads as int)),
{
    let width = support::checked_mul(groups, threads)?;
    Ok(
        Launching {
            kernel,
            grid: command::size(width, 1, 1),
            threadgroup: command::size(threads, 1, 1),
        },
    )
}

/// A line of groups that stand for a rectangle, if it fits.
pub(crate) fn rectangle(
    kernel: &'static str,
    columns: usize,
    rows: usize,
    threads: usize,
) -> (result: Result<Launching, KernelError>)
    requires
        threads > 0,
    ensures
        is_choice(result, line_tiling(kernel@, columns * rows, threads as int)),
{
    proof {
        assert(0 <= columns * rows <= columns * rows * threads) by (nonlinear_arith)
            requires
                threads > 0,
                columns >= 0,
                rows >= 0,
        ;
    }
    let groups = support::checked_mul(columns, rows)?;
    line(kernel, groups, threads)
}

pub(crate) fn square(m: usize, n: usize) -> (result: Result<Launching, KernelError>)
    ensures
        is_choice(result, square_tiling(m as int, n as int)),
{
    let width = support::round_up(n, 16)?;
    let height = support::round_up(m, 16)?;
    Ok(
        Launching {
            kernel: "matmul_f16",
            grid: command::size(width, height, 1),
            threadgroup: command::size(16, 16, 1),
        },
    )
}

/// The dimensions of a product that is not refused.
pub(crate) fn check_matmul(input: &Tensor, weight: &Tensor) -> (result: Result<
    (usize, usize, usize),
    KernelError,
>)
    ensures
        match result {
            Ok((m, n, k)) => {
                &&& matmul_refusal(input@, weight@) is None
                &&& input@.shape == seq![m, k]
                &&& weight@.shape == seq![n, k]
                &&& m > 0
                &&& n > 0
                &&& k > 0
                &&& m * k * 2 <= usize::MAX
                &&& n * k * 2 <= usize::MAX
                &&& m * n * 2 <= usize::MAX
            },
            Err(error) => matmul_refusal(input@, weight@) == Some(error),
        },
{
    support::require_f16(input)?;
    support::require_f16(weight)?;
    let (m, k) = support::matrix_shape(input)?;
    let (n, weight_k) = support::matrix_shape(weight)?;
    if k != weight_k {
        return Err(KernelError::MatmulInnerDimension);
    }
    let shape: Vec<usize> = vec![m, n];
    assert(shape@ =~= seq![m, n]);
    Recorder::check_empty(shape.as_slice(), DType::F16)?;
    support::to_u32(m)?;
    support::to_u32(n)?;
    support::to_u32(k)?;
    proof {
        crate::gpu::tensor::lemma_elements_two(m, n);
    }
    Ok((m, n, k))
}

impl Recorder {
    /// Records a product that was checked.
    pub(crate) fn matmul_once(
        &mut self,
        input: &Tensor,
        weight: &Tensor,
        choice: Launching,
        tiling: Ghost<Tiling>,
    ) -> (result: Result<Tensor, KernelError>)
        requires
            old(self).wf(),
            old(self).holds(*input),
            old(self).holds(*weight),
            matmul_refusal(input@, weight@) is None,
            is_choice(Ok(choice), tiling@),
        ensures
            final(self).wf(),
            recorder::took1(*old(self), *final(self), result),
            support::outcome1(
                old(self)@,
                final(self)@,
                result,
                matmul_once_step(old(self)@, input@, weight@, tiling@),
            ),
    {
        let (m, k) = support::matrix_shape(input)?;
        let (n, _) = support::matrix_shape(weight)?;
        let shape: Vec<usize> = vec![m, n];
        assert(shape@ =~= seq![m, n]);
        let params = Params::Matrix { m: m as u32, n: n as u32, k: k as u32, padding: 0 };
        let out = self.fresh(shape.as_slice(), DType::F16);
        let bindings: Vec<Binding> = vec![input.binding(), weight.binding(), out.binding()];
        proof {
            assert(command::operands(bindings@) =~= seq![
                input@.operand(),
                weight@.operand(),
                out@.operand(),
            ]);
            support::lemma_with_one(
                self@,
                support::launch(
                    choice.kernel@,
                    command::operands(bindings@),
                    params,
                    choice.grid,
                    choice.threadgroup,
                ),
            );
        }
        match self.launch(choice.kernel, bindings, params, choice.grid, choice.threadgroup) {
            Ok(()) => Ok(out),
            Err(error) => {
                self.release(out);
                Err(error)
            },
        }
    }
}

impl<'kernels> KernelBatch<'kernels> {
    fn choose_matmul(&self, m: usize, n: usize, k: usize) -> (result: Result<
        Launching,
        KernelError,
    >)
        requires
            m > 0,
            n > 0,
        ensures
            is_choice(result, matmul_tiling(self.tuning@, m, n, k)),
    {
        let m4 = self.tuning.is_m4_pro();
        let tileable = n % 32 == 0 && k % 32 == 0 && n >= 256 && k >= 256;
        if m == 1 {
            let vocabulary = n >= 65_536;
            let rows: usize = if m4 && k % 256 == 0 {
                self.tuning.matvec_rows_for_shape(n, k, vocabulary)
            } else {
                0
            };
            assert(rows <= 4);
            let threads: usize = if rows == 1 || rows == 0 {
                256
            } else {
                128
            };
            let outputs: usize = if rows == 1 {
                8
            } else if rows != 0 {
                rows * 4
            } else {
                32
            };
            let groups: usize = support::div_ceil(n, outputs);
            let kernel = match rows {
                1 => "matvec_one_row_f16",
                2 => if vocabulary {
                    "matvec_vocab_f16"
                } else {
                    "matvec_tuned2_f16"
                },
                4 => "matvec_tuned_f16",
                _ => "matvec_f16",
            };
            line(kernel, groups, threads)
        } else if m4 && m < 128 && tileable {
            rectangle("matmul_skinny_f16", n / 32, support::div_ceil(m, 8), 128)
        } else if m4 && m >= 128 && tileable {
            rectangle("matmul_simd_db_f16", n / 32, support::div_ceil(m, 32), 128)
        } else {
            square(m, n)
        }
    }

    /// The product of `input` with the transpose of `weight`.
    pub fn matmul(&mut self, input: &Tensor, weight: &Tensor) -> (result: Result<
        Tensor,
        KernelError,
    >)
        requires
            old(self).wf(),
            old(self).recorder.holds(*input),
            old(self).recorder.holds(*weight),
        ensures
            final(self).wf(),
            recorder::took1(old(self).recorder, final(self).recorder, result),
            final(self).tuning == old(self).tuning,
            support::outcome1(
                old(self)@,
                final(self)@,
                result,
                matmul_step(old(self)@, old(self).tuning@, input@, weight@),
            ),
    {
        let (m, n, k) = check_matmul(input, weight)?;
        let choice = self.choose_matmul(m, n, k)?;
        let tiling = Ghost(matmul_tiling(self.tuning@, m, n, k));
        self.recorder.matmul_once(input, weight, choice, tiling)
    }
}

} // verus!
