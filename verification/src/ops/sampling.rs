//! The index of the largest logit.

use crate::error::{GpuError, KernelError};
use crate::gpu::command::{self, Binding, Params};
use crate::gpu::recorder::{self, BatchModel, Recorder, Step};
use crate::gpu::tensor::{self, DType, Tensor, TensorModel};
use crate::ops::support;
use vstd::prelude::*;

verus! {

/// Each group of 256 threads reduces 2048 logits to one candidate; one more
/// group reduces the candidates.
pub open spec fn argmax_step(
    batch: BatchModel,
    logits: TensorModel,
    output: TensorModel,
) -> Result<Step, KernelError> {
    if logits.dtype != DType::F16 {
        Err(KernelError::Gpu(GpuError::ExpectedF16))
    } else if logits.shape.len() != 1 {
        Err(KernelError::ArgmaxLogitsShape)
    } else if output.dtype != DType::U32 || output.shape != seq![1usize] {
        Err(KernelError::ArgmaxOutputShape)
    } else if !support::fits_u32(logits.len() as int) {
        Err(KernelError::U32Overflow)
    } else {
        let groups = support::ceil_div(logits.len() as int, 2048) as usize;
        let values = batch.fresh(0, seq![groups], DType::F32);
        let indices = batch.fresh(1, seq![groups], DType::U32);
        Ok(
            Step {
                issued: 2,
                outputs: seq![],
                commands: seq![
                    support::launch(
                        "argmax_f16_partial"@,
                        seq![logits.operand(), values.operand(), indices.operand()],
                        Params::Count { count: logits.len() as u32 },
                        support::line(groups * 256),
                        support::line(256),
                    ),
                    support::launch(
                        "argmax_f16_reduce"@,
                        seq![values.operand(), indices.operand(), output.operand()],
                        Params::Count { count: groups as u32 },
                        support::line(256),
                        support::line(256),
                    ),
                ],
            },
        )
    }
}

impl Recorder {
    /// Writes the index of the largest logit to `output`.
    pub fn argmax(&mut self, logits: &Tensor, output: &Tensor) -> (result: Result<(), KernelError>)
        requires
            old(self).wf(),
            old(self).holds(*logits),
            old(self).holds(*output),
        ensures
            final(self).wf(),
            recorder::kept(*old(self), *final(self)),
            support::outcome0(
                old(self)@,
                final(self)@,
                result,
                argmax_step(old(self)@, logits@, output@),
            ),
    {
        support::require_f16(logits)?;
        if logits.shape().len() != 1 || logits.is_empty() {
            return Err(KernelError::ArgmaxLogitsShape);
        }
        if output.expect_u32().is_err() || !support::is_vector(output, 1) {
            return Err(KernelError::ArgmaxOutputShape);
        }
        let length: usize = logits.len();
        let count = support::to_u32(length)?;
        let groups: usize = support::div_ceil(length, 2048);
        let shape: Vec<usize> = vec![groups];
        proof {
            assert(shape@ =~= seq![groups]);
            tensor::lemma_elements_one(groups);
            assert(recorder::allocation_error(shape@, DType::F32) is None);
            assert(recorder::allocation_error(shape@, DType::U32) is None);
        }
        let values = self.fresh(shape.as_slice(), DType::F32);
        let indices = self.fresh(shape.as_slice(), DType::U32);
        let first: Vec<Binding> = vec![logits.binding(), values.binding(), indices.binding()];
        let second: Vec<Binding> = vec![values.binding(), indices.binding(), output.binding()];
        let partial = Params::Count { count };
        let reduce = Params::Count { count: groups as u32 };
        let line = command::size(groups * 256, 1, 1);
        let group = command::size(256, 1, 1);
        proof {
            assert(command::operands(first@) =~= seq![
                logits@.operand(),
                values@.operand(),
                indices@.operand(),
            ]);
            assert(command::operands(second@) =~= seq![
                values@.operand(),
                indices@.operand(),
                output@.operand(),
            ]);
            support::lemma_with_two(
                self@,
                support::launch(
                    "argmax_f16_partial"@,
                    command::operands(first@),
                    partial,
                    line,
                    group,
                ),
                support::launch(
                    "argmax_f16_reduce"@,
                    command::operands(second@),
                    reduce,
                    group,
                    group,
                ),
            );
        }
        let mut result = self.launch("argmax_f16_partial", first, partial, line, group);
        if result.is_ok() {
            result = self.launch("argmax_f16_reduce", second, reduce, group, group);
        }
        self.release(values);
        self.release(indices);
        result
    }
}

} // verus!
