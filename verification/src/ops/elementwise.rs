//! Element by element operations and the embedding lookup.

use crate::error::{GpuError, KernelError};
use crate::gpu::command::{self, Binding, Params, Size};
use crate::gpu::recorder::{self, BatchModel, Recorder, Step};
use crate::gpu::tensor::{DType, Tensor, TensorModel};
use crate::ops::support;
use vstd::prelude::*;

verus! {

/// A kernel with one thread for each element of two tensors of one shape.
pub open spec fn pairwise_step(
    batch: BatchModel,
    kernel: Seq<char>,
    left: TensorModel,
    right: TensorModel,
) -> Result<Step, KernelError> {
    if left.dtype != DType::F16 || right.dtype != DType::F16 {
        Err(KernelError::Gpu(GpuError::ExpectedF16))
    } else if left.shape != right.shape {
        Err(KernelError::ShapeMismatch)
    } else {
        match recorder::allocation_error(left.shape, DType::F16) {
            Some(error) => Err(KernelError::Gpu(error)),
            None => if !support::fits_u32(left.len() as int) {
                Err(KernelError::U32Overflow)
            } else {
                let out = batch.fresh(0, left.shape, DType::F16);
                Ok(
                    Step {
                        issued: 1,
                        outputs: seq![out],
                        commands: seq![
                            support::launch(
                                kernel,
                                seq![left.operand(), right.operand(), out.operand()],
                                Params::Count { count: left.len() as u32 },
                                support::line(left.len() as int),
                                support::line(support::min(left.len() as int, 256)),
                            ),
                        ],
                    },
                )
            },
        }
    }
}

/// One thread for each column of each token. Token numbers are looked up as
/// rows of the table.
pub open spec fn embedding_step(
    batch: BatchModel,
    tokens: TensorModel,
    table: TensorModel,
) -> Result<Step, KernelError> {
    if tokens.dtype != DType::U32 || tokens.shape.len() != 1 {
        Err(KernelError::TokensShape)
    } else if table.dtype != DType::F16 {
        Err(KernelError::Gpu(GpuError::ExpectedF16))
    } else if table.shape.len() != 2 {
        Err(KernelError::ExpectedMatrix)
    } else {
        let count = tokens.shape[0];
        let width = table.shape[1];
        match recorder::allocation_error(seq![count, width], DType::F16) {
            Some(error) => Err(KernelError::Gpu(error)),
            None => if !support::fits_u32(count as int) || !support::fits_u32(width as int) {
                Err(KernelError::U32Overflow)
            } else {
                let out = batch.fresh(0, seq![count, width], DType::F16);
                Ok(
                    Step {
                        issued: 1,
                        outputs: seq![out],
                        commands: seq![
                            support::launch(
                                "embedding_f16"@,
                                seq![tokens.operand(), table.operand(), out.operand()],
                                Params::Embedding { tokens: count as u32, width: width as u32 },
                                Size { width, height: count, depth: 1 },
                                support::line(support::min(width as int, 256)),
                            ),
                        ],
                    },
                )
            },
        }
    }
}

impl Recorder {
    fn pairwise(&mut self, kernel: &'static str, left: &Tensor, right: &Tensor) -> (result: Result<
        Tensor,
        KernelError,
    >)
        requires
            old(self).wf(),
            old(self).holds(*left),
            old(self).holds(*right),
        ensures
            final(self).wf(),
            recorder::took1(*old(self), *final(self), result),
            support::outcome1(
                old(self)@,
                final(self)@,
                result,
                pairwise_step(old(self)@, kernel@, left@, right@),
            ),
    {
        support::require_f16(left)?;
        support::require_f16(right)?;
        support::require_same_shape(left, right)?;
        Self::check_empty(left.shape(), DType::F16)?;
        let length: usize = left.len();
        let count = support::to_u32(length)?;
        let out = self.fresh(left.shape(), DType::F16);
        let bindings: Vec<Binding> = vec![left.binding(), right.binding(), out.binding()];
        let params = Params::Count { count };
        let grid = command::size(length, 1, 1);
        let threadgroup = command::size(support::smaller(length, 256), 1, 1);
        proof {
            assert(command::operands(bindings@) =~= seq![
                left@.operand(),
                right@.operand(),
                out@.operand(),
            ]);
            support::lemma_with_one(
                self@,
                support::launch(
                    kernel@,
                    command::operands(bindings@),
                    params,
                    grid,
                    threadgroup,
                ),
            );
        }
        match self.launch(kernel, bindings, params, grid, threadgroup) {
            Ok(()) => Ok(out),
            Err(error) => {
                self.release(out);
                Err(error)
            },
        }
    }

    /// The elementwise sum.
    pub fn add(&mut self, left: &Tensor, right: &Tensor) -> (result: Result<Tensor, KernelError>)
        requires
            old(self).wf(),
            old(self).holds(*left),
            old(self).holds(*right),
        ensures
            final(self).wf(),
            recorder::took1(*old(self), *final(self), result),
            support::outcome1(
                old(self)@,
                final(self)@,
                result,
                pairwise_step(old(self)@, "add_f16"@, left@, right@),
            ),
    {
        self.pairwise("add_f16", left, right)
    }

    /// The gated activation.
    pub fn swiglu(&mut self, gate: &Tensor, up: &Tensor) -> (result: Result<Tensor, KernelError>)
        requires
            old(self).wf(),
            old(self).holds(*gate),
            old(self).holds(*up),
        ensures
            final(self).wf(),
            recorder::took1(*old(self), *final(self), result),
            support::outcome1(
                old(self)@,
                final(self)@,
                result,
                pairwise_step(old(self)@, "swiglu_f16"@, gate@, up@),
            ),
    {
        self.pairwise("swiglu_f16", gate, up)
    }

    /// The table rows of the tokens.
    pub fn embedding(&mut self, tokens: &Tensor, table: &Tensor) -> (result: Result<
        Tensor,
        KernelError,
    >)
        requires
            old(self).wf(),
            old(self).holds(*tokens),
            old(self).holds(*table),
        ensures
            final(self).wf(),
            recorder::took1(*old(self), *final(self), result),
            support::outcome1(
                old(self)@,
                final(self)@,
                result,
                embedding_step(old(self)@, tokens@, table@),
            ),
    {
        if tokens.expect_u32().is_err() || tokens.shape().len() != 1 {
            return Err(KernelError::TokensShape);
        }
        support::require_f16(table)?;
        let (_, width) = support::matrix_shape(table)?;
        let count: usize = tokens.shape()[0];
        let shape: Vec<usize> = vec![count, width];
        assert(shape@ =~= seq![count, width]);
        Self::check_empty(shape.as_slice(), DType::F16)?;
        let params = Params::Embedding {
            tokens: support::to_u32(count)?,
            width: support::to_u32(width)?,
        };
        let out = self.fresh(shape.as_slice(), DType::F16);
        let bindings: Vec<Binding> = vec![tokens.binding(), table.binding(), out.binding()];
        let grid = command::size(width, count, 1);
        let threadgroup = command::size(support::smaller(width, 256), 1, 1);
        proof {
            assert(command::operands(bindings@) =~= seq![
                tokens@.operand(),
                table@.operand(),
                out@.operand(),
            ]);
            support::lemma_with_one(
                self@,
                support::launch(
                    "embedding_f16"@,
                    command::operands(bindings@),
                    params,
                    grid,
                    threadgroup,
                ),
            );
        }
        match self.launch("embedding_f16", bindings, params, grid, threadgroup) {
            Ok(()) => Ok(out),
            Err(error) => {
                self.release(out);
                Err(error)
            },
        }
    }
}

} // verus!
