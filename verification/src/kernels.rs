//! The kernels of a device and the batches that launch them.

use crate::error::{GpuError, KernelError};
use crate::gpu::recorder::{self, BatchModel, Recorder};
use crate::gpu::tensor::{DType, Tensor};
use crate::ops::{elementwise, kv, norm, rope, sampling, support, QkNormRopeCacheConfig};
use crate::tuning::Tuning;
use vstd::prelude::*;

verus! {

/// A batch whose kernels are chosen by the tuning of the device.
pub struct KernelBatch<'kernels> {
    pub recorder: Recorder,
    pub tuning: &'kernels Tuning,
}

impl<'kernels> View for KernelBatch<'kernels> {
    type V = BatchModel;

    open spec fn view(&self) -> BatchModel {
        self.recorder@
    }
}

impl<'kernels> KernelBatch<'kernels> {
    pub open spec fn wf(self) -> bool {
        self.recorder.wf()
    }

    pub fn new(recorder: Recorder, tuning: &'kernels Tuning) -> (batch: KernelBatch<'kernels>)
        requires
            recorder.wf(),
        ensures
            batch.wf(),
            batch@ == recorder@,
            batch.tuning == tuning,
    {
        KernelBatch { recorder, tuning }
    }

    /// A scratch tensor with undefined contents.
    pub fn empty(&mut self, shape: &[usize], dtype: DType) -> (result: Result<Tensor, GpuError>)
        requires
            old(self).wf(),
        ensures
            final(self).wf(),
            final(self).tuning == old(self).tuning,
            match recorder::allocation_error(shape@, dtype) {
                Some(error) => {
                    &&& result == Err::<Tensor, GpuError>(error)
                    &&& final(self)@ == old(self)@
                    &&& recorder::kept(old(self).recorder, final(self).recorder)
                },
                None => {
                    &&& result is Ok
                    &&& result->Ok_0@ == old(self)@.fresh(0, shape@, dtype)
                    &&& final(self)@ == old(self)@.after_issue(1)
                    &&& recorder::took(old(self).recorder, final(self).recorder, result->Ok_0)
                },
            },
    {
        self.recorder.empty(shape, dtype)
    }

    /// Gives back the scratch memory of a tensor that no later command uses.
    pub fn release(&mut self, tensor: Tensor)
        requires
            old(self).wf(),
            old(self).recorder.holds(tensor),
        ensures
            final(self).wf(),
            final(self).tuning == old(self).tuning,
            final(self)@ == old(self)@,
            recorder::gave_back(old(self).recorder, final(self).recorder, tensor),
    {
        self.recorder.release(tensor)
    }

    /// The elementwise sum.
    pub fn add(&mut self, left: &Tensor, right: &Tensor) -> (result: Result<Tensor, KernelError>)
        requires
            old(self).wf(),
            old(self).recorder.holds(*left),
            old(self).recorder.holds(*right),
        ensures
            final(self).wf(),
            recorder::took1(old(self).recorder, final(self).recorder, result),
            final(self).tuning == old(self).tuning,
            support::outcome1(
                old(self)@,
                final(self)@,
                result,
                elementwise::pairwise_step(old(self)@, "add_f16"@, left@, right@),
            ),
    {
        self.recorder.add(left, right)
    }

    /// The gated activation.
    pub fn swiglu(&mut self, gate: &Tensor, up: &Tensor) -> (result: Result<Tensor, KernelError>)
        requires
            old(self).wf(),
            old(self).recorder.holds(*gate),
            old(self).recorder.holds(*up),
        ensures
            final(self).wf(),
            recorder::took1(old(self).recorder, final(self).recorder, result),
            final(self).tuning == old(self).tuning,
            support::outcome1(
                old(self)@,
                final(self)@,
                result,
                elementwise::pairwise_step(old(self)@, "swiglu_f16"@, gate@, up@),
            ),
    {
        self.recorder.swiglu(gate, up)
    }

    /// The table rows of the tokens.
    pub fn embedding(
        &mut self,
        tokens: &Tensor,
        table: &Tensor,
    ) -> (result: Result<Tensor, KernelError>)
        requires
            old(self).wf(),
            old(self).recorder.holds(*tokens),
            old(self).recorder.holds(*table),
        ensures
            final(self).wf(),
            recorder::took1(old(self).recorder, final(self).recorder, result),
            final(self).tuning == old(self).tuning,
            support::outcome1(
                old(self)@,
                final(self)@,
                result,
                elementwise::embedding_step(old(self)@, tokens@, table@),
            ),
    {
        self.recorder.embedding(tokens, table)
    }

    /// Normalises each row and scales it by the weight.
    pub fn rms_norm(
        &mut self,
        input: &Tensor,
        weight: &Tensor,
        epsilon: u32,
    ) -> (result: Result<Tensor, KernelError>)
        requires
            old(self).wf(),
            old(self).recorder.holds(*input),
            old(self).recorder.holds(*weight),
        ensures
            final(self).wf(),
            recorder::took1(old(self).recorder, final(self).recorder, result),
            final(self).tuning == old(self).tuning,
            support::outcome1(
                old(self)@,
                final(self)@,
                result,
                norm::rms_norm_step(old(self)@, input@, weight@, epsilon),
            ),
    {
        self.recorder.rms_norm(input, weight, epsilon)
    }

    /// Adds a residual and normalises the sum; yields both.
    pub fn add_rms_norm(
        &mut self,
        left: &Tensor,
        right: &Tensor,
        weight: &Tensor,
        epsilon: u32,
    ) -> (result: Result<(Tensor, Tensor), KernelError>)
        requires
            old(self).wf(),
            old(self).recorder.holds(*left),
            old(self).recorder.holds(*right),
            old(self).recorder.holds(*weight),
        ensures
            final(self).wf(),
            recorder::took2(old(self).recorder, final(self).recorder, result),
            final(self).tuning == old(self).tuning,
            support::outcome2(
                old(self)@,
                final(self)@,
                result,
                norm::add_rms_norm_step(old(self)@, left@, right@, weight@, epsilon),
            ),
    {
        self.recorder.add_rms_norm(left, right, weight, epsilon)
    }

    /// Rotates each head by the position of its token.
    pub fn rope(
        &mut self,
        input: &Tensor,
        offset: usize,
        theta: u32,
    ) -> (result: Result<Tensor, KernelError>)
        requires
            old(self).wf(),
            old(self).recorder.holds(*input),
        ensures
            final(self).wf(),
            recorder::took1(old(self).recorder, final(self).recorder, result),
            final(self).tuning == old(self).tuning,
            support::outcome1(
                old(self)@,
                final(self)@,
                result,
                rope::rope_step(old(self)@, input@, offset, theta),
            ),
    {
        self.recorder.rope(input, offset, theta)
    }

    /// Normalises and rotates queries and keys, and stores the keys.
    pub fn qk_norm_rope_cache(
        &mut self,
        query: &Tensor,
        key: &Tensor,
        query_weight: &Tensor,
        key_weight: &Tensor,
        key_cache: &Tensor,
        config: QkNormRopeCacheConfig,
    ) -> (result: Result<Tensor, KernelError>)
        requires
            old(self).wf(),
            old(self).recorder.holds(*query),
            old(self).recorder.holds(*key),
            old(self).recorder.holds(*query_weight),
            old(self).recorder.holds(*key_weight),
            old(self).recorder.holds(*key_cache),
        ensures
            final(self).wf(),
            recorder::took1(old(self).recorder, final(self).recorder, result),
            final(self).tuning == old(self).tuning,
            support::outcome1(
                old(self)@,
                final(self)@,
                result,
                rope::qk_norm_rope_cache_step(
                    old(self)@,
                    query@,
                    key@,
                    query_weight@,
                    key_weight@,
                    key_cache@,
                    config,
                ),
            ),
    {
        self.recorder.qk_norm_rope_cache(query, key, query_weight, key_weight, key_cache, config)
    }

    /// Copies keys or values into the cache entries from `offset` on.
    pub fn copy_into_cache(
        &mut self,
        source: &Tensor,
        cache: &Tensor,
        offset: usize,
    ) -> (result: Result<(), KernelError>)
        requires
            old(self).wf(),
            old(self).recorder.holds(*source),
            old(self).recorder.holds(*cache),
        ensures
            final(self).wf(),
            recorder::kept(old(self).recorder, final(self).recorder),
            final(self).tuning == old(self).tuning,
            support::outcome0(
                old(self)@,
                final(self)@,
                result,
                kv::copy_into_cache_step(source@, cache@, offset),
            ),
    {
        self.recorder.copy_into_cache(source, cache, offset)
    }

    /// Copies a matrix of one row over a row of another matrix.
    pub fn copy_row(
        &mut self,
        source: &Tensor,
        destination: &Tensor,
        row: usize,
    ) -> (result: Result<(), KernelError>)
        requires
            old(self).wf(),
            old(self).recorder.holds(*source),
            old(self).recorder.holds(*destination),
        ensures
            final(self).wf(),
            recorder::kept(old(self).recorder, final(self).recorder),
            final(self).tuning == old(self).tuning,
            support::outcome0(
                old(self)@,
                final(self)@,
                result,
                kv::copy_row_step(source@, destination@, row),
            ),
    {
        self.recorder.copy_row(source, destination, row)
    }

    /// Writes the index of the largest logit to `output`.
    pub fn argmax(&mut self, logits: &Tensor, output: &Tensor) -> (result: Result<(), KernelError>)
        requires
            old(self).wf(),
            old(self).recorder.holds(*logits),
            old(self).recorder.holds(*output),
        ensures
            final(self).wf(),
            recorder::kept(old(self).recorder, final(self).recorder),
            final(self).tuning == old(self).tuning,
            support::outcome0(
                old(self)@,
                final(self)@,
                result,
                sampling::argmax_step(old(self)@, logits@, output@),
            ),
    {
        self.recorder.argmax(logits, output)
    }
}

} // verus!
