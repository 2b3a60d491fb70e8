//! Prefill and decode passes over host tokens.

use crate::error::{GpuError, ModelError};
use crate::gpu::memory::{self, DeviceMemory, MemoryModel};
use crate::gpu::profiling::DispatchStats;
use crate::gpu::recorder::{self, BatchModel, Recorder};
use crate::gpu::tensor::{self, DType, Tensor, TensorModel};
use crate::kernels::KernelBatch;
use crate::ops::elementwise;
use crate::ops::support;
use crate::qwen3::forward::{self, Run};
use crate::qwen3::kv_cache::{self, KvCache, KvCacheModel, LayerCache, LayerCacheModel};
use crate::qwen3::model::{NetModel, Qwen3Model};
use vstd::prelude::*;

verus! {

/// The view of an optional tensor.
pub open spec fn view_of(tensor: Option<&Tensor>) -> Option<TensorModel> {
    match tensor {
        Some(tensor) => Some(tensor@),
        None => None,
    }
}

/// The tensor that `count` tokens come in, as buffer number `buffer`.
pub open spec fn token_tensor(buffer: nat, count: nat) -> TensorModel {
    memory::whole_buffer(buffer as usize, seq![count as usize], DType::U32)
}

/// The memory after tokens got a buffer with them in it, if they can have one.
pub open spec fn with_tokens(memory: MemoryModel, tokens: Seq<u32>) -> MemoryModel {
    if memory::buffer_error(seq![tokens.len() as usize], DType::U32) is None {
        memory.with_words(token_tensor(memory.lens.len(), tokens.len()).capacity, tokens)
    } else {
        memory
    }
}

/// A forward pass over `count` host tokens, with the buffer for them.
pub open spec fn tokens_run(
    net: NetModel,
    batch: BatchModel,
    buffer: nat,
    count: nat,
    cache: KvCacheModel,
    argmax_output: Option<TensorModel>,
) -> Run {
    match memory::buffer_error(seq![count as usize], DType::U32) {
        Some(error) => (batch, Err(ModelError::Gpu(error))),
        None => forward::forward_run(net, batch, token_tensor(buffer, count), cache, argmax_output),
    }
}

/// Whether a pass yields the token tensor and the logits of a run.
pub open spec fn passed(
    after: BatchModel,
    result: Result<(Tensor, Tensor), ModelError>,
    input: TensorModel,
    run: Run,
) -> bool {
    &&& after == run.0
    &&& match (result, run.1) {
        (Ok((tokens, logits)), Ok(outputs)) => tokens@ == input && outputs.len() == 1 && logits@
            == outputs[0],
        (Err(error), Err(expected)) => error == expected,
        _ => false,
    }
}

/// A recorder before and after a pass that yields a tensor of the device and a
/// scratch tensor: on success only the latter is taken, and else nothing.
pub open spec fn yielded(
    before: Recorder,
    after: Recorder,
    result: Result<(Tensor, Tensor), ModelError>,
) -> bool {
    match result {
        Ok((_, output)) => recorder::took(before, after, output),
        Err(_) => recorder::kept(before, after),
    }
}

/// What becomes of a batch, a cache and the memory when a prompt starts a
/// sequence, and what it yields. No tokens change nothing; any others make the
/// cache forget what it held, even if their pass is refused.
pub open spec fn prefilled(
    net: NetModel,
    before: (BatchModel, KvCacheModel, MemoryModel),
    after: (BatchModel, KvCacheModel, MemoryModel),
    tokens: Seq<u32>,
    argmax_output: Option<TensorModel>,
    result: Result<(Tensor, Tensor), ModelError>,
) -> bool {
    let (batch, cache, memory) = before;
    let buffer = memory.lens.len();
    let emptied = KvCacheModel { filled: 0, ..cache };
    if tokens.len() == 0 {
        &&& result == Err::<(Tensor, Tensor), ModelError>(ModelError::EmptyPrefill)
        &&& after == before
    } else {
        &&& passed(
            after.0,
            result,
            token_tensor(buffer, tokens.len()),
            tokens_run(net, batch, buffer, tokens.len(), emptied, argmax_output),
        )
        &&& after.1 == if result is Ok {
            forward::advanced(emptied, tokens.len() as usize)
        } else {
            emptied
        }
        &&& after.2 == with_tokens(memory, tokens)
    }
}

impl Qwen3Model {
    /// A forward pass over host tokens; yields the tensor that takes them, and
    /// the logits.
    fn forward_tokens(
        &self,
        memory: &mut DeviceMemory,
        batch: &mut KernelBatch<'_>,
        tokens: &[u32],
        cache: &mut KvCache,
        argmax_output: Option<&Tensor>,
    ) -> (result: Result<(Tensor, Tensor), ModelError>)
        requires
            self@.wf(),
            old(batch).wf(),
            self@.on_device(),
            argmax_output matches Some(output) ==> old(batch).recorder.holds(*output),
            old(batch).tuning@ == self@.tuning,
        ensures
            final(batch).wf(),
            yielded(old(batch).recorder, final(batch).recorder, result),
            final(batch).tuning == old(batch).tuning,
            passed(
                final(batch)@,
                result,
                token_tensor(old(memory).lens@.len(), tokens@.len()),
                tokens_run(
                    self@,
                    old(batch)@,
                    old(memory).lens@.len(),
                    tokens@.len(),
                    old(cache)@,
                    view_of(argmax_output),
                ),
            ),
            final(cache)@ == if result is Ok {
                forward::advanced(old(cache)@, tokens@.len() as usize)
            } else {
                old(cache)@
            },
            final(memory)@ == with_tokens(old(memory)@, tokens@),
    {
        let count: usize = tokens.len();
        let shape: Vec<usize> = vec![count];
        proof {
            assert(shape@ =~= seq![count]);
            tensor::lemma_elements_one(count);
        }
        let input = match memory.tensor_u32(tokens, shape.as_slice()) {
            Ok(input) => input,
            Err(error) => return Err(ModelError::Gpu(error)),
        };
        let logits = self.forward_async(batch, &input, cache, argmax_output)?;
        Ok((input, logits))
    }

    /// Forgets the cache and runs a prompt.
    fn start_sequence(
        &self,
        memory: &mut DeviceMemory,
        batch: &mut KernelBatch<'_>,
        tokens: &[u32],
        cache: &mut KvCache,
        argmax_output: Option<&Tensor>,
    ) -> (result: Result<(Tensor, Tensor), ModelError>)
        requires
            self@.wf(),
            old(batch).wf(),
            self@.on_device(),
            argmax_output matches Some(output) ==> old(batch).recorder.holds(*output),
            old(batch).tuning@ == self@.tuning,
        ensures
            final(batch).wf(),
            yielded(old(batch).recorder, final(batch).recorder, result),
            final(batch).tuning == old(batch).tuning,
            prefilled(
                self@,
                (old(batch)@, old(cache)@, old(memory)@),
                (final(batch)@, final(cache)@, final(memory)@),
                tokens@,
                view_of(argmax_output),
                result,
            ),
    {
        if tokens.len() == 0 {
            return Err(ModelError::EmptyPrefill);
        }
        cache.reset();
        self.forward_tokens(memory, batch, tokens, cache, argmax_output)
    }

    /// Starts a sequence: forgets the cache and runs the prompt. Yields the
    /// tensor that takes the tokens, and the logits.
    pub fn prefill(
        &self,
        memory: &mut DeviceMemory,
        batch: &mut KernelBatch<'_>,
        tokens: &[u32],
        cache: &mut KvCache,
    ) -> (result: Result<(Tensor, Tensor), ModelError>)
        requires
            self@.wf(),
            old(batch).wf(),
            self@.on_device(),
            old(batch).tuning@ == self@.tuning,
        ensures
            final(batch).wf(),
            yielded(old(batch).recorder, final(batch).recorder, result),
            final(batch).tuning == old(batch).tuning,
            prefilled(
                self@,
                (old(batch)@, old(cache)@, old(memory)@),
                (final(batch)@, final(cache)@, final(memory)@),
                tokens@,
                None,
                result,
            ),
    {
        self.start_sequence(memory, batch, tokens, cache, None)
    }

    /// Starts a sequence, and writes the token that follows the prompt to
    /// `output`.
    pub fn prefill_argmax(
        &self,
        memory: &mut DeviceMemory,
        batch: &mut KernelBatch<'_>,
        tokens: &[u32],
        cache: &mut KvCache,
        output: &Tensor,
    ) -> (result: Result<(Tensor, Tensor), ModelError>)
        requires
            self@.wf(),
            old(batch).wf(),
            self@.on_device(),
            old(batch).recorder.holds(*output),
            old(batch).tuning@ == self@.tuning,
        ensures
            final(batch).wf(),
            yielded(old(batch).recorder, final(batch).recorder, result),
            final(batch).tuning == old(batch).tuning,
            prefilled(
                self@,
                (old(batch)@, old(cache)@, old(memory)@),
                (final(batch)@, final(cache)@, final(memory)@),
                tokens@,
                Some(output@),
                result,
            ),
    {
        self.start_sequence(memory, batch, tokens, cache, Some(output))
    }

    /// Continues a sequence by one token.
    pub fn decode(
        &self,
        memory: &mut DeviceMemory,
        batch: &mut KernelBatch<'_>,
        token: u32,
        cache: &mut KvCache,
    ) -> (result: Result<(Tensor, Tensor), ModelError>)
        requires
            self@.wf(),
            old(batch).wf(),
            self@.on_device(),
            old(batch).tuning@ == self@.tuning,
        ensures
            final(batch).wf(),
            yielded(old(batch).recorder, final(batch).recorder, result),
            final(batch).tuning == old(batch).tuning,
            passed(
                final(batch)@,
                result,
                token_tensor(old(memory).lens@.len(), 1),
                tokens_run(self@, old(batch)@, old(memory).lens@.len(), 1, old(cache)@, None),
            ),
            final(cache)@ == if result is Ok {
                forward::advanced(old(cache)@, 1)
            } else {
                old(cache)@
            },
            final(memory)@ == with_tokens(old(memory)@, seq![token]),
    {
        let tokens: Vec<u32> = vec![token];
        assert(tokens@ =~= seq![token]);
        self.forward_tokens(memory, batch, tokens.as_slice(), cache, None)
    }

    /// Continues a sequence by a token that is on the device already, and
    /// writes the next token to `output`.
    pub fn decode_argmax(
        &self,
        batch: &mut KernelBatch<'_>,
        token: &Tensor,
        cache: &mut KvCache,
        output: &Tensor,
    ) -> (result: Result<Tensor, ModelError>)
        requires
            self@.wf(),
            old(batch).wf(),
            self@.on_device(),
            old(batch).recorder.holds(*token),
            old(batch).recorder.holds(*output),
            old(batch).tuning@ == self@.tuning,
        ensures
            final(batch).wf(),
            recorder::took1(old(batch).recorder, final(batch).recorder, result),
            final(batch).tuning == old(batch).tuning,
            token@.shape != seq![1usize] || token@.dtype != DType::U32 ==> {
                &&& result == Err::<Tensor, ModelError>(ModelError::DecodeTokenShape)
                &&& final(batch)@ == old(batch)@
                &&& final(cache)@ == old(cache)@
            },
            token@.shape == seq![1usize] && token@.dtype == DType::U32 ==> {
                &&& forward::went1(
                    final(batch)@,
                    result,
                    forward::forward_run(
                        self@,
                        old(batch)@,
                        token@,
                        old(cache)@,
                        Some(output@),
                    ),
                )
                &&& final(cache)@ == if result is Ok {
                    forward::advanced(old(cache)@, 1)
                } else {
                    old(cache)@
                }
            },
    {
        if !support::is_vector(token, 1) || token.expect_u32().is_err() {
            return Err(ModelError::DecodeTokenShape);
        }
        self.forward_async(batch, token, cache, Some(output))
    }

    /// Records the first layer alone over a prompt; yields the tensor that takes
    /// the tokens, and the output of the layer.
    pub fn run_first_block(
        &self,
        memory: &mut DeviceMemory,
        batch: &mut KernelBatch<'_>,
        tokens: &[u32],
    ) -> (result: Result<(Tensor, Tensor), ModelError>)
        requires
            self@.wf(),
            old(batch).wf(),
            self@.on_device(),
            old(batch).tuning@ == self@.tuning,
        ensures
            final(batch).wf(),
            yielded(old(batch).recorder, final(batch).recorder, result),
            final(batch).tuning == old(batch).tuning,
            passed(
                final(batch)@,
                result,
                token_tensor(old(memory).lens@.len(), tokens@.len()),
                first_block_run(self@, old(batch)@, old(memory).lens@.len(), tokens@.len()),
            ),
            final(memory)@ == first_block_memory(self@, old(batch)@, old(memory)@, tokens@),
    {
        let count: usize = tokens.len();
        if count == 0 {
            return Err(ModelError::EmptyBlock);
        }
        let shape: Vec<usize> = vec![count];
        let cache_shape: Vec<usize> = vec![
            count,
            self.config.num_key_value_heads,
            self.config.head_dim,
        ];
        proof {
            assert(shape@ =~= seq![count]);
            assert(cache_shape@ =~= kv_cache::cache_shape(self.config, count));
            tensor::lemma_elements_one(count);
        }
        let input = match memory.tensor_u32(tokens, shape.as_slice()) {
            Ok(input) => input,
            Err(error) => return Err(ModelError::Gpu(error)),
        };
        let hidden = match batch.embedding(&input, &self.embedding) {
            Ok(hidden) => hidden,
            Err(error) => return Err(ModelError::Kernel(error)),
        };
        let key = match memory.empty(cache_shape.as_slice(), DType::F16) {
            Ok(key) => key,
            Err(error) => {
                batch.release(hidden);
                return Err(ModelError::Gpu(error));
            },
        };
        let value = match memory.empty(cache_shape.as_slice(), DType::F16) {
            Ok(value) => value,
            Err(error) => {
                batch.release(hidden);
                return Err(ModelError::Gpu(error));
            },
        };
        if self.layers.len() == 0 {
            batch.release(hidden);
            return Err(ModelError::NoLayer);
        }
        let cache = LayerCache { key, value };
        assert(self@.layers[0] == self.layers@[0]@);
        assert(self@.layers[0].on_device());
        let output = self.forward_layer(batch, hidden, &self.layers[0], &cache, 0, count)?;
        Ok((input, output))
    }
}

/// The first layer over `count` tokens, with two new buffers for its cache.
pub open spec fn first_block_run(net: NetModel, batch: BatchModel, buffer: nat, count: nat) -> Run {
    let shape = kv_cache::cache_shape(net.config, count as usize);
    if count == 0 {
        (batch, Err(ModelError::EmptyBlock))
    } else {
        match memory::buffer_error(seq![count as usize], DType::U32) {
            Some(error) => (batch, Err(ModelError::Gpu(error))),
            None => {
                let (batch, hidden) = batch.run(
                    elementwise::embedding_step(batch, token_tensor(buffer, count), net.embedding),
                );
                match hidden {
                    Err(error) => (batch, Err(ModelError::Kernel(error))),
                    Ok(hidden) => match memory::buffer_error(shape, DType::F16) {
                        Some(error) => (batch, Err(ModelError::Gpu(error))),
                        None => if net.layers.len() == 0 {
                            (batch, Err(ModelError::NoLayer))
                        } else {
                            forward::layer_run(
                                net,
                                batch,
                                hidden[0],
                                net.layers[0],
                                LayerCacheModel {
                                    key: memory::whole_buffer(
                                        (buffer + 1) as usize,
                                        shape,
                                        DType::F16,
                                    ),
                                    value: memory::whole_buffer(
                                        (buffer + 2) as usize,
                                        shape,
                                        DType::F16,
                                    ),
                                },
                                0,
                                count as usize,
                            )
                        },
                    },
                }
            },
        }
    }
}

/// The memory after the first layer ran alone: a buffer for its tokens, and two
/// for its cache.
pub open spec fn first_block_memory(
    net: NetModel,
    batch: BatchModel,
    memory: MemoryModel,
    tokens: Seq<u32>,
) -> MemoryModel {
    let count = tokens.len();
    let shape = kv_cache::cache_shape(net.config, count as usize);
    if count == 0 || memory::buffer_error(seq![count as usize], DType::U32) is Some {
        memory
    } else if batch.run(
        elementwise::embedding_step(batch, token_tensor(memory.lens.len(), count), net.embedding),
    ).1 is Err || memory::buffer_error(shape, DType::F16) is Some {
        with_tokens(memory, tokens)
    } else {
        let bytes = memory::whole_buffer(0, shape, DType::F16).capacity;
        with_tokens(memory, tokens).with_buffer(bytes).with_buffer(bytes)
    }
}

/// Ends a pass that was submitted when the cache held `previous` tokens. If the
/// device failed, the tokens of the pass are forgotten.
pub fn settle_forward(
    cache: &mut KvCache,
    previous: usize,
    waited: Result<DispatchStats, GpuError>,
) -> (result: Result<DispatchStats, ModelError>)
    requires
        previous <= old(cache)@.filled,
    ensures
        match waited {
            Ok(stats) => {
                &&& result == Ok::<DispatchStats, ModelError>(stats)
                &&& final(cache)@ == old(cache)@
            },
            Err(error) => {
                &&& result == Err::<DispatchStats, ModelError>(ModelError::Gpu(error))
                &&& final(cache)@ == (KvCacheModel { filled: previous, ..old(cache)@ })
            },
        },
{
    match waited {
        Ok(stats) => Ok(stats),
        Err(error) => {
            cache.truncate(previous);
            Err(ModelError::Gpu(error))
        },
    }
}

/// Ends a batch that decoded one token for each sequence. If the device failed,
/// every sequence forgets its token.
pub fn settle_batch(caches: &mut Vec<KvCache>, waited: Result<DispatchStats, GpuError>) -> (result:
    Result<DispatchStats, ModelError>)
    requires
        forall|i: int| 0 <= i < old(caches)@.len() ==> (#[trigger] old(caches)@[i])@.filled > 0,
    ensures
        final(caches)@.len() == old(caches)@.len(),
        match waited {
            Ok(stats) => {
                &&& result == Ok::<DispatchStats, ModelError>(stats)
                &&& final(caches)@ == old(caches)@
            },
            Err(error) => {
                &&& result == Err::<DispatchStats, ModelError>(ModelError::Gpu(error))
                &&& forall|i: int|
                    0 <= i < old(caches)@.len() ==> (#[trigger] final(caches)@[i])@ == (
                    KvCacheModel {
                        filled: (old(caches)@[i]@.filled - 1) as usize,
                        ..old(caches)@[i]@
                    })
            },
        },
{
    let error = match waited {
        Ok(stats) => return Ok(stats),
        Err(error) => error,
    };
    let mut i: usize = 0;
    while i < caches.len()
        invariant
            i <= caches@.len(),
            caches@.len() == old(caches)@.len(),
            forall|j: int|
                0 <= j < old(caches)@.len() ==> (#[trigger] old(caches)@[j])@.filled > 0,
            forall|j: int|
                0 <= j < i ==> (#[trigger] caches@[j])@ == (KvCacheModel {
                    filled: (old(caches)@[j]@.filled - 1) as usize,
                    ..old(caches)@[j]@
                }),
            forall|j: int| i <= j < caches@.len() ==> (#[trigger] caches@[j]) == old(caches)@[j],
        decreases caches.len() - i,
    {
        assert(old(caches)@[i as int]@.filled > 0);
        let previous: usize = caches[i].len() - 1;
        caches[i].truncate(previous);
        i += 1;
    }
    Err(ModelError::Gpu(error))
}

/// The tokens that a pass was given are what is written to the buffer that it
/// reads them from, and they fill it to the end.
pub proof fn a_pass_reads_the_tokens_that_it_was_given(memory: MemoryModel, tokens: Seq<u32>)
    requires
        memory::buffer_error(seq![tokens.len() as usize], DType::U32) is None,
        tokens.len() <= usize::MAX,
    ensures
        ({
            let after = with_tokens(memory, tokens);
            let input = token_tensor(memory.lens.len(), tokens.len());
            let buffer = memory.lens.len() as usize;
            &&& input.place == (tensor::Place::Device { buffer })
            &&& input.offset == 0
            &&& after.words == memory.words.push((buffer, tokens))
            &&& after.lens == memory.lens.push(input.capacity)
            &&& input.capacity == 4 * tokens.len()
        }),
{
    tensor::lemma_elements_one(tokens.len() as usize);
}

/// A batch that the device fails leaves every sequence as it was before.
pub proof fn a_failed_batch_counts_nothing(cache: KvCacheModel)
    requires
        cache.reserved(1) is Some,
    ensures
        ({
            let counted = forward::advanced(cache, 1);
            (KvCacheModel { filled: (counted.filled - 1) as usize, ..counted }) == cache
        }),
{
}

/// A prompt starts over: what the cache held before has no part in it. On caches that
/// differ only by how much of them is filled, the same prompt records the same commands,
/// yields the same tensors or the same refusal, and leaves the same cache, with the
/// tokens of the prompt in it and no others.
pub proof fn a_prompt_starts_over(
    net: NetModel,
    batch: BatchModel,
    left: KvCacheModel,
    right: KvCacheModel,
    memory: MemoryModel,
    after_left: (BatchModel, KvCacheModel, MemoryModel),
    after_right: (BatchModel, KvCacheModel, MemoryModel),
    tokens: Seq<u32>,
    argmax_output: Option<TensorModel>,
    result_left: Result<(Tensor, Tensor), ModelError>,
    result_right: Result<(Tensor, Tensor), ModelError>,
)
    requires
        tokens.len() > 0,
        tokens.len() <= usize::MAX,
        left.layers == right.layers,
        left.capacity == right.capacity,
        prefilled(
            net,
            (batch, left, memory),
            after_left,
            tokens,
            argmax_output,
            result_left,
        ),
        prefilled(
            net,
            (batch, right, memory),
            after_right,
            tokens,
            argmax_output,
            result_right,
        ),
    ensures
        after_left.0 == after_right.0,
        after_left.1 == after_right.1,
        after_left.2 == after_right.2,
        result_left is Ok <==> result_right is Ok,
        result_left is Ok ==> {
            &&& result_left->Ok_0.0@ == result_right->Ok_0.0@
            &&& result_left->Ok_0.1@ == result_right->Ok_0.1@
            &&& after_left.1.filled == tokens.len()
            &&& after_left.1.layers == left.layers
        },
        result_left is Err ==> after_left.1.filled == 0,
{
    assert((KvCacheModel { filled: 0, ..left }) == (KvCacheModel { filled: 0, ..right }));
}

/// A pass that succeeds fills one entry of the cache for each of its tokens, behind
/// those that were filled, and never more than the cache holds.
pub proof fn a_pass_fills_an_entry_for_each_token(
    net: NetModel,
    batch: BatchModel,
    tokens: TensorModel,
    cache: KvCacheModel,
    argmax_output: Option<TensorModel>,
)
    requires
        forward::forward_run(net, batch, tokens, cache, argmax_output).1 is Ok,
    ensures
        forward::advanced(cache, tokens.shape[0]).filled == cache.filled + tokens.shape[0],
        forward::advanced(cache, tokens.shape[0]).filled <= cache.capacity,
        forward::advanced(cache, tokens.shape[0]).layers == cache.layers,
        forward::advanced(cache, tokens.shape[0]).capacity == cache.capacity,
{
}

} // verus!
