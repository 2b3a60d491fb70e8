//! Checks and arithmetic that the operations share.

use crate::error::{GpuError, KernelError};
use crate::gpu::command::{Binding, CommandModel, Operand, Params, Size};
use crate::gpu::recorder::{self, BatchModel, Recorder, Step};
use crate::gpu::tensor::{self, DType, Tensor, TensorModel};
use vstd::prelude::*;

verus! {

pub open spec fn fits_u32(value: int) -> bool {
    0 <= value <= u32::MAX
}

pub open spec fn fits_usize(value: int) -> bool {
    0 <= value <= usize::MAX
}

pub open spec fn ceil_div(value: int, divisor: int) -> int {
    (value + divisor - 1) / divisor
}

pub open spec fn round_to(value: int, multiple: int) -> int {
    (value + multiple - 1) / multiple * multiple
}

pub open spec fn min(left: int, right: int) -> int {
    if left <= right {
        left
    } else {
        right
    }
}

pub open spec fn max(left: int, right: int) -> int {
    if left >= right {
        left
    } else {
        right
    }
}

/// A line of threads in groups of `threads`.
pub open spec fn line(width: int) -> Size {
    Size { width: width as usize, height: 1, depth: 1 }
}

pub open spec fn launch(
    kernel: Seq<char>,
    operands: Seq<Operand>,
    params: Params,
    grid: Size,
    threadgroup: Size,
) -> CommandModel {
    CommandModel::Dispatch { kernel, operands, params, grid, threadgroup }
}

/// The batch after an operation, with the tensors that it yields or the reason
/// why it failed.
pub type Outcome = (BatchModel, Result<Seq<TensorModel>, KernelError>);

/// Whether an operation that yields nothing came out so.
pub open spec fn came_out0(
    after: BatchModel,
    result: Result<(), KernelError>,
    expected: Outcome,
) -> bool {
    &&& after == expected.0
    &&& match (result, expected.1) {
        (Ok(()), Ok(outputs)) => outputs.len() == 0,
        (Err(error), Err(expected)) => error == expected,
        _ => false,
    }
}

/// Whether an operation that yields one tensor came out so.
pub open spec fn came_out1(
    after: BatchModel,
    result: Result<Tensor, KernelError>,
    expected: Outcome,
) -> bool {
    &&& after == expected.0
    &&& match (result, expected.1) {
        (Ok(tensor), Ok(outputs)) => outputs.len() == 1 && tensor@ == outputs[0],
        (Err(error), Err(expected)) => error == expected,
        _ => false,
    }
}

/// Whether an operation that yields two tensors came out so.
pub open spec fn came_out2(
    after: BatchModel,
    result: Result<(Tensor, Tensor), KernelError>,
    expected: Outcome,
) -> bool {
    &&& after == expected.0
    &&& match (result, expected.1) {
        (Ok((first, second)), Ok(outputs)) => outputs.len() == 2 && first@ == outputs[0] && second@
            == outputs[1],
        (Err(error), Err(expected)) => error == expected,
        _ => false,
    }
}

/// Whether an operation that yields three tensors came out so.
pub open spec fn came_out3(
    after: BatchModel,
    result: Result<(Tensor, Tensor, Tensor), KernelError>,
    expected: Outcome,
) -> bool {
    &&& after == expected.0
    &&& match (result, expected.1) {
        (Ok((first, second, third)), Ok(outputs)) => outputs.len() == 3 && first@ == outputs[0]
            && second@ == outputs[1] && third@ == outputs[2],
        (Err(error), Err(expected)) => error == expected,
        _ => false,
    }
}

pub open spec fn outcome0(
    before: BatchModel,
    after: BatchModel,
    result: Result<(), KernelError>,
    step: Result<Step, KernelError>,
) -> bool {
    came_out0(after, result, before.run(step))
}

pub open spec fn outcome1(
    before: BatchModel,
    after: BatchModel,
    result: Result<Tensor, KernelError>,
    step: Result<Step, KernelError>,
) -> bool {
    came_out1(after, result, before.run(step))
}

pub open spec fn outcome2(
    before: BatchModel,
    after: BatchModel,
    result: Result<(Tensor, Tensor), KernelError>,
    step: Result<Step, KernelError>,
) -> bool {
    came_out2(after, result, before.run(step))
}

pub open spec fn outcome3(
    before: BatchModel,
    after: BatchModel,
    result: Result<(Tensor, Tensor, Tensor), KernelError>,
    step: Result<Step, KernelError>,
) -> bool {
    came_out3(after, result, before.run(step))
}

pub proof fn lemma_with_one(batch: BatchModel, command: CommandModel)
    ensures
        batch.with_all(seq![command]) == if batch.accepts(command) {
            (batch.with(command), true)
        } else {
            (batch, false)
        },
{
    reveal_with_fuel(BatchModel::with_all, 2);
    assert(seq![command].drop_first() =~= Seq::empty());
}

pub proof fn lemma_with_two(batch: BatchModel, first: CommandModel, second: CommandModel)
    ensures
        batch.with_all(seq![first, second]) == if !batch.accepts(first) {
            (batch, false)
        } else if !batch.with(first).accepts(second) {
            (batch.with(first), false)
        } else {
            (batch.with(first).with(second), true)
        },
{
    assert(seq![first, second].drop_first() =~= seq![second]);
    lemma_with_one(batch.with(first), second);
}

pub fn require_f16(tensor: &Tensor) -> (result: Result<(), KernelError>)
    ensures
        result == if tensor@.dtype == DType::F16 {
            Ok::<(), KernelError>(())
        } else {
            Err(KernelError::Gpu(GpuError::ExpectedF16))
        },
{
    match tensor.expect_f16() {
        Ok(()) => Ok(()),
        Err(error) => Err(KernelError::Gpu(error)),
    }
}

pub fn require_same_shape(left: &Tensor, right: &Tensor) -> (result: Result<(), KernelError>)
    ensures
        result == if left@.shape == right@.shape {
            Ok::<(), KernelError>(())
        } else {
            Err(KernelError::ShapeMismatch)
        },
{
    if tensor::same_shape(left.shape(), right.shape()) {
        Ok(())
    } else {
        Err(KernelError::ShapeMismatch)
    }
}

/// The rows and columns of a matrix.
pub fn matrix_shape(tensor: &Tensor) -> (result: Result<(usize, usize), KernelError>)
    ensures
        match result {
            Ok((rows, columns)) => {
                &&& tensor@.shape == seq![rows, columns]
                &&& rows > 0
                &&& columns > 0
                &&& rows * columns == tensor@.len()
                &&& tensor@.valid()
            },
            Err(error) => tensor@.shape.len() != 2 && error == KernelError::ExpectedMatrix,
        },
{
    let shape = tensor.shape();
    if shape.len() == 2 {
        proof {
            assert(shape@ =~= seq![shape@[0], shape@[1]]);
            tensor::lemma_elements_two(shape@[0], shape@[1]);
        }
        Ok((shape[0], shape[1]))
    } else {
        Err(KernelError::ExpectedMatrix)
    }
}

/// The dimensions of a tensor of rank three.
pub fn shape3(tensor: &Tensor) -> (shape: Option<(usize, usize, usize)>)
    ensures
        match shape {
            Some((a, b, c)) => {
                &&& tensor@.shape == seq![a, b, c]
                &&& a > 0
                &&& b > 0
                &&& c > 0
                &&& a * b * c == tensor@.len()
                &&& tensor@.valid()
            },
            None => tensor@.shape.len() != 3,
        },
{
    let shape = tensor.shape();
    if shape.len() == 3 {
        proof {
            assert(shape@ =~= seq![shape@[0], shape@[1], shape@[2]]);
            tensor::lemma_elements_three(shape@[0], shape@[1], shape@[2]);
        }
        Some((shape[0], shape[1], shape[2]))
    } else {
        None
    }
}

/// Whether a tensor is a vector of this length.
pub fn is_vector(tensor: &Tensor, length: usize) -> (answer: bool)
    ensures
        answer == (tensor@.shape == seq![length]),
{
    let shape = tensor.shape();
    if shape.len() == 1 && shape[0] == length {
        assert(shape@ =~= seq![length]);
        true
    } else {
        assert(shape@ != seq![length]) by {
            if shape@ == seq![length] {
                assert(shape@[0] == length);
            }
        }
        false
    }
}

pub fn to_u32(value: usize) -> (result: Result<u32, KernelError>)
    ensures
        result == if fits_u32(value as int) {
            Ok::<u32, KernelError>(value as u32)
        } else {
            Err(KernelError::U32Overflow)
        },
{
    if value <= u32::MAX as usize {
        Ok(value as u32)
    } else {
        Err(KernelError::U32Overflow)
    }
}

pub fn checked_mul(left: usize, right: usize) -> (result: Result<usize, KernelError>)
    ensures
        result == if fits_usize(left * right) {
            Ok::<usize, KernelError>((left * right) as usize)
        } else {
            Err(KernelError::DispatchOverflow)
        },
{
    proof {
        assert(left * right >= 0) by (nonlinear_arith)
            requires
                left >= 0,
                right >= 0,
        ;
    }
    match left.checked_mul(right) {
        Some(product) => Ok(product),
        None => Err(KernelError::DispatchOverflow),
    }
}

pub fn checked_add(left: usize, right: usize) -> (result: Result<usize, KernelError>)
    ensures
        result == if fits_usize(left + right) {
            Ok::<usize, KernelError>((left + right) as usize)
        } else {
            Err(KernelError::DispatchOverflow)
        },
{
    match left.checked_add(right) {
        Some(sum) => Ok(sum),
        None => Err(KernelError::DispatchOverflow),
    }
}

pub fn round_up(value: usize, multiple: usize) -> (result: Result<usize, KernelError>)
    requires
        multiple > 0,
    ensures
        result == if fits_usize(value + multiple - 1) {
            Ok::<usize, KernelError>(round_to(value as int, multiple as int) as usize)
        } else {
            Err(KernelError::DispatchOverflow)
        },
        result matches Ok(rounded) ==> rounded == round_to(value as int, multiple as int),
{
    match value.checked_add(multiple - 1) {
        Some(padded) => {
            proof {
                lemma_floor(padded as int, multiple as int);
            }
            Ok(padded / multiple * multiple)
        },
        None => Err(KernelError::DispatchOverflow),
    }
}

proof fn lemma_floor(value: int, divisor: int)
    requires
        value >= 0,
        divisor > 0,
    ensures
        0 <= value / divisor * divisor <= value,
{
    vstd::arithmetic::div_mod::lemma_fundamental_div_mod(value, divisor);
    vstd::arithmetic::div_mod::lemma_mod_bound(value, divisor);
    vstd::arithmetic::div_mod::lemma_div_pos_is_pos(value, divisor);
    assert(divisor * (value / divisor) == value / divisor * divisor) by (nonlinear_arith);
    assert(0 <= value / divisor * divisor) by (nonlinear_arith)
        requires
            0 <= value / divisor,
            divisor > 0,
    ;
}

/// How many groups of `divisor` hold `value` items.
pub fn div_ceil(value: usize, divisor: usize) -> (groups: usize)
    requires
        divisor > 0,
    ensures
        groups == ceil_div(value as int, divisor as int),
        groups <= value,
{
    let whole: usize = value / divisor;
    let left_over: usize = value % divisor;
    proof {
        vstd::arithmetic::div_mod::lemma_fundamental_div_mod(value as int, divisor as int);
        assert(divisor as int * (value as int / divisor as int) == whole * divisor)
            by (nonlinear_arith)
            requires
                whole == value as int / divisor as int,
        ;
        if left_over == 0 {
            vstd::arithmetic::div_mod::lemma_fundamental_div_mod_converse(
                value + divisor - 1,
                divisor as int,
                whole as int,
                divisor - 1,
            );
            assert(whole <= value) by (nonlinear_arith)
                requires
                    value == whole * divisor,
                    divisor > 0,
            ;
        } else {
            assert((whole + 1) * divisor == whole * divisor + divisor) by (nonlinear_arith);
            vstd::arithmetic::div_mod::lemma_fundamental_div_mod_converse(
                value + divisor - 1,
                divisor as int,
                whole + 1,
                left_over - 1,
            );
            assert(whole + 1 <= value) by (nonlinear_arith)
                requires
                    value == whole * divisor + left_over,
                    divisor > 0,
                    left_over > 0,
            ;
        }
    }
    if left_over == 0 {
        whole
    } else {
        whole + 1
    }
}

pub fn smaller(left: usize, right: usize) -> (out: usize)
    ensures
        out == min(left as int, right as int),
{
    if left <= right {
        left
    } else {
        right
    }
}

pub fn larger(left: usize, right: usize) -> (out: usize)
    ensures
        out == max(left as int, right as int),
{
    if left >= right {
        left
    } else {
        right
    }
}

/// A group count that is rounded up reaches every item.
pub proof fn groups_reach_every_item(value: int, divisor: int)
    requires
        value >= 0,
        divisor > 0,
    ensures
        ceil_div(value, divisor) * divisor >= value,
        ceil_div(value, divisor) * divisor < value + divisor,
{
    let padded = value + divisor - 1;
    vstd::arithmetic::div_mod::lemma_fundamental_div_mod(padded, divisor);
    vstd::arithmetic::div_mod::lemma_mod_bound(padded, divisor);
    assert(divisor * (padded / divisor) == padded / divisor * divisor) by (nonlinear_arith);
}

impl Recorder {
    /// Refuses a shape for which no scratch tensor can be had.
    pub(crate) fn check_empty(shape: &[usize], dtype: DType) -> (result: Result<(), KernelError>)
        ensures
            match recorder::allocation_error(shape@, dtype) {
                Some(error) => result == Err::<(), KernelError>(KernelError::Gpu(error)),
                None => result is Ok,
            },
    {
        match recorder::check_allocation(shape, dtype) {
            Ok(_) => Ok(()),
            Err(error) => Err(KernelError::Gpu(error)),
        }
    }

    /// A scratch tensor of a shape that was checked.
    pub(crate) fn fresh(&mut self, shape: &[usize], dtype: DType) -> (tensor: Tensor)
        requires
            old(self).wf(),
            recorder::allocation_error(shape@, dtype) is None,
        ensures
            final(self).wf(),
            tensor@ == old(self)@.fresh(0, shape@, dtype),
            final(self)@ == old(self)@.after_issue(1),
            recorder::took(*old(self), *final(self), tensor),
    {
        match self.empty(shape, dtype) {
            Ok(tensor) => tensor,
            Err(_) => vstd::pervasive::unreached(),
        }
    }

    pub(crate) fn launch(
        &mut self,
        kernel: &'static str,
        bindings: Vec<Binding>,
        params: Params,
        grid: Size,
        threadgroup: Size,
    ) -> (result: Result<(), KernelError>)
        requires
            old(self).wf(),
            forall|i: int|
                0 <= i < bindings@.len() ==> old(self).keeps((#[trigger] bindings@[i]).storage),
        ensures
            final(self).wf(),
            recorder::kept(*old(self), *final(self)),
            if old(self)@.has_room(1) {
                &&& result is Ok
                &&& final(self)@ == old(self)@.with(
                    launch(
                        kernel@,
                        crate::gpu::command::operands(bindings@),
                        params,
                        grid,
                        threadgroup,
                    ),
                )
            } else {
                &&& result == Err::<(), KernelError>(
                    KernelError::Gpu(GpuError::TooManyProfiledDispatches),
                )
                &&& final(self)@ == old(self)@
            },
    {
        match self.dispatch(kernel, bindings, params, grid, threadgroup) {
            Ok(()) => Ok(()),
            Err(error) => Err(KernelError::Gpu(error)),
        }
    }
}

} // verus!
