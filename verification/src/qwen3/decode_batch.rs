//! One token for each of several sequences in one batch.

use crate::error::{GpuError, ModelError};
use crate::gpu::memory::{self, DeviceMemory};
use crate::gpu::recorder::{self, BatchModel};
use crate::gpu::tensor::{DType, Tensor, TensorModel};
use crate::kernels::KernelBatch;
use crate::ops::{elementwise, gemm, kv, norm};
use crate::qwen3::forward::{self, Run};
use crate::qwen3::kv_cache::{KvCache, KvCacheModel};
use crate::qwen3::layers::{LayerModel, LayerWeights};
use crate::qwen3::model::{NetModel, Qwen3Model};
use crate::qwen3::passes;
use vstd::prelude::*;

verus! {

pub open spec fn cache_views(caches: Seq<KvCache>) -> Seq<KvCacheModel> {
    caches.map_values(|cache: KvCache| cache@)
}

/// Why tokens cannot be decoded together: each needs a cache that holds a
/// sequence and has room for one token more.
pub open spec fn decode_refusal(tokens: nat, caches: Seq<KvCacheModel>) -> Option<ModelError> {
    if tokens == 0 || tokens != caches.len() {
        Some(ModelError::DecodeBatchMismatch)
    } else if exists|i: int|
        0 <= i < caches.len() && ((#[trigger] caches[i]).filled == 0 || caches[i].reserved(
            1,
        ) is None) {
        Some(ModelError::CacheCapacity)
    } else {
        None
    }
}

/// The heads of one row of a projection.
pub open spec fn row_heads(
    projection: TensorModel,
    row: usize,
    heads: usize,
    head_dim: usize,
) -> Result<TensorModel, GpuError> {
    match projection.row_at(row) {
        Err(error) => Err(error),
        Ok(view) => view.reshaped(forward::heads_shape(1, heads, head_dim)),
    }
}

/// Attention of one sequence, copied to its row.
pub open spec fn row_run(
    net: NetModel,
    batch: BatchModel,
    query: TensorModel,
    key: TensorModel,
    value: TensorModel,
    layer: LayerModel,
    cache: KvCacheModel,
    index: int,
    rows: TensorModel,
    row: usize,
) -> Run {
    let heads = net.config.num_attention_heads;
    let kv_heads = net.config.num_key_value_heads;
    let head_dim = net.config.head_dim;
    if index >= cache.layers.len() {
        (batch, Err(ModelError::MissingCacheLayer))
    } else {
        match (
            row_heads(query, row, heads, head_dim),
            row_heads(key, row, kv_heads, head_dim),
            row_heads(value, row, kv_heads, head_dim),
        ) {
            (Err(error), _, _) => (batch, Err(ModelError::Gpu(error))),
            (Ok(_), Err(error), _) => (batch, Err(ModelError::Gpu(error))),
            (Ok(_), Ok(_), Err(error)) => (batch, Err(ModelError::Gpu(error))),
            (Ok(query), Ok(key), Ok(value)) => {
                let (batch, attended) = forward::heads_run(
                    net,
                    batch,
                    query,
                    key,
                    value,
                    layer,
                    cache.layers[index],
                    cache.filled,
                    (cache.filled + 1) as usize,
                    1,
                );
                match attended {
                    Err(error) => (batch, Err(error)),
                    Ok(attended) => match attended[0].reshaped(
                        seq![1usize, net.config.spec_query_width() as usize],
                    ) {
                        Err(error) => (batch, Err(ModelError::Gpu(error))),
                        Ok(joined) => {
                            let (batch, copied) = batch.run(kv::copy_row_step(joined, rows, row));
                            match copied {
                                Err(error) => (batch, Err(ModelError::Kernel(error))),
                                Ok(_) => (batch, Ok(Seq::empty())),
                            }
                        },
                    },
                }
            },
        }
    }
}

/// Attention of the sequences from `row` on.
pub open spec fn rows_run(
    net: NetModel,
    batch: BatchModel,
    query: TensorModel,
    key: TensorModel,
    value: TensorModel,
    layer: LayerModel,
    caches: Seq<KvCacheModel>,
    index: int,
    rows: TensorModel,
    row: int,
) -> Run
    decreases caches.len() - row,
{
    if row >= caches.len() {
        (batch, Ok(Seq::empty()))
    } else {
        let (batch, done) = row_run(
            net,
            batch,
            query,
            key,
            value,
            layer,
            caches[row],
            index,
            rows,
            row as usize,
        );
        match done {
            Err(error) => (batch, Err(error)),
            Ok(_) => rows_run(
                net,
                batch,
                query,
                key,
                value,
                layer,
                caches,
                index,
                rows,
                row + 1,
            ),
        }
    }
}

/// A layer over one token of each sequence.
#[verifier::opaque]
pub open spec fn batch_layer_run(
    net: NetModel,
    batch: BatchModel,
    hidden: TensorModel,
    caches: Seq<KvCacheModel>,
    index: int,
) -> Run {
    let layer = net.layers[index];
    let shape = seq![caches.len() as usize, net.config.spec_query_width() as usize];
    let (batch, qkv) = forward::norm_project_run(net, batch, hidden, layer);
    match qkv {
        Err(error) => (batch, Err(error)),
        Ok(qkv) => match recorder::allocation_error(shape, DType::F16) {
            Some(error) => (batch, Err(ModelError::Gpu(error))),
            None => {
                let rows = batch.fresh(0, shape, DType::F16);
                let (batch, done) = rows_run(
                    net,
                    batch.after_issue(1),
                    qkv[0],
                    qkv[1],
                    qkv[2],
                    layer,
                    caches,
                    index,
                    rows,
                    0,
                );
                match done {
                    Err(error) => (batch, Err(error)),
                    Ok(_) => {
                        let (batch, attended) = batch.run(
                            gemm::matmul_step(batch, net.tuning, rows, layer.output),
                        );
                        match attended {
                            Err(error) => (batch, Err(ModelError::Kernel(error))),
                            Ok(attended) => forward::feed_forward_run(
                                net,
                                batch,
                                hidden,
                                attended[0],
                                layer,
                                false,
                            ),
                        }
                    },
                }
            },
        },
    }
}

/// The layers from `index` on.
pub open spec fn batch_layers_run(
    net: NetModel,
    batch: BatchModel,
    hidden: TensorModel,
    caches: Seq<KvCacheModel>,
    index: int,
) -> Run
    decreases net.layers.len() - index,
{
    if index >= net.layers.len() {
        (batch, Ok(seq![hidden]))
    } else {
        let (batch, next) = batch_layer_run(net, batch, hidden, caches, index);
        match next {
            Err(error) => (batch, Err(error)),
            Ok(next) => batch_layers_run(net, batch, next[0], caches, index + 1),
        }
    }
}

/// The logits of every sequence.
pub open spec fn batch_logits_run(net: NetModel, batch: BatchModel, hidden: TensorModel) -> Run {
    let (batch, normalized) = batch.run(
        norm::rms_norm_step(batch, hidden, net.final_norm, net.config.rms_norm_eps),
    );
    match normalized {
        Err(error) => (batch, Err(ModelError::Kernel(error))),
        Ok(normalized) => forward::lift(
            batch.run(gemm::matmul_step(batch, net.tuning, normalized[0], net.lm_head)),
        ),
    }
}

/// Decoding of one token for each sequence, once the tokens are in a tensor.
pub open spec fn decode_batch_run(
    net: NetModel,
    batch: BatchModel,
    input: TensorModel,
    caches: Seq<KvCacheModel>,
) -> Run {
    let (batch, hidden) = batch.run(elementwise::embedding_step(batch, input, net.embedding));
    match hidden {
        Err(error) => (batch, Err(ModelError::Kernel(error))),
        Ok(hidden) => {
            let (batch, hidden) = batch_layers_run(net, batch, hidden[0], caches, 0);
            match hidden {
                Err(error) => (batch, Err(error)),
                Ok(hidden) => batch_logits_run(net, batch, hidden[0]),
            }
        },
    }
}

/// A sequence in a batch goes through what it goes through alone: from its row of
/// the projections on, the launches are those of a single decoding on its cache,
/// and so are the refusals. Behind them, its attended row is copied to the rows of
/// the batch.
pub proof fn a_sequence_attends_as_it_does_alone(
    net: NetModel,
    batch: BatchModel,
    query: TensorModel,
    key: TensorModel,
    value: TensorModel,
    layer: LayerModel,
    cache: KvCacheModel,
    index: int,
    rows: TensorModel,
    row: usize,
)
    requires
        0 <= index < cache.layers.len(),
        query.row_at(row) is Ok,
        key.row_at(row) is Ok,
        value.row_at(row) is Ok,
    ensures
        ({
            let together = row_run(
                net,
                batch,
                query,
                key,
                value,
                layer,
                cache,
                index,
                rows,
                row,
            );
            let alone = forward::attention_run(
                net,
                batch,
                query.row_at(row)->Ok_0,
                key.row_at(row)->Ok_0,
                value.row_at(row)->Ok_0,
                layer,
                cache.layers[index],
                cache.filled,
                (cache.filled + 1) as usize,
                1,
            );
            match alone.1 {
                Err(error) => together == alone,
                Ok(heads) => match heads[0].reshaped(
                    seq![1usize, net.config.spec_query_width() as usize],
                ) {
                    Err(error) => together.0 == alone.0,
                    Ok(joined) => together.0 == alone.0.run(kv::copy_row_step(joined, rows, row)).0,
                },
            }
        }),
{
    reveal(forward::attention_run);
}

/// Whether a part that yields nothing went so.
pub open spec fn went0(after: BatchModel, result: Result<(), ModelError>, run: Run) -> bool {
    &&& after == run.0
    &&& match (result, run.1) {
        (Ok(()), Ok(outputs)) => outputs.len() == 0,
        (Err(error), Err(expected)) => error == expected,
        _ => false,
    }
}

impl Qwen3Model {
    fn row_of(projection: &Tensor, row: usize, heads: usize, head_dim: usize) -> (result: Result<
        Tensor,
        ModelError,
    >)
        ensures
            match (result, row_heads(projection@, row, heads, head_dim)) {
                (Ok(tensor), Ok(model)) => tensor@ == model && tensor.stored()
                    == projection.stored(),
                (Err(error), Err(expected)) => error == ModelError::Gpu(expected),
                _ => false,
            },
    {
        let shape: Vec<usize> = vec![1, heads, head_dim];
        assert(shape@ =~= forward::heads_shape(1, heads, head_dim));
        let view = match projection.row(row) {
            Ok(view) => view,
            Err(error) => return Err(ModelError::Gpu(error)),
        };
        match view.reshape(shape.as_slice()) {
            Ok(heads) => Ok(heads),
            Err(error) => Err(ModelError::Gpu(error)),
        }
    }

    fn decode_row(
        &self,
        batch: &mut KernelBatch<'_>,
        query: &Tensor,
        key: &Tensor,
        value: &Tensor,
        layer: &LayerWeights,
        cache: &KvCache,
        index: usize,
        rows: &Tensor,
        row: usize,
    ) -> (result: Result<(), ModelError>)
        requires
            self@.wf(),
            old(batch).wf(),
            old(batch).recorder.holds(*query),
            old(batch).recorder.holds(*key),
            old(batch).recorder.holds(*value),
            old(batch).recorder.holds(*rows),
            layer@.on_device(),
            old(batch).tuning@ == self@.tuning,
            cache@.reserved(1) is Some,
        ensures
            final(batch).wf(),
            recorder::kept(old(batch).recorder, final(batch).recorder),
            final(batch).tuning == old(batch).tuning,
            went0(
                final(batch)@,
                result,
                row_run(
                    self@,
                    old(batch)@,
                    query@,
                    key@,
                    value@,
                    layer@,
                    cache@,
                    index as int,
                    rows@,
                    row,
                ),
            ),
    {
        let layer_cache = match cache.layer(index) {
            Ok(layer_cache) => layer_cache,
            Err(error) => return Err(error),
        };
        let offset: usize = cache.len();
        let heads: usize = self.config.num_attention_heads;
        let kv_heads: usize = self.config.num_key_value_heads;
        let head_dim: usize = self.config.head_dim;
        let query_row = Self::row_of(query, row, heads, head_dim)?;
        let key_row = Self::row_of(key, row, kv_heads, head_dim)?;
        let value_row = Self::row_of(value, row, kv_heads, head_dim)?;
        let attended = self.heads(
            batch,
            &query_row,
            &key_row,
            &value_row,
            layer,
            layer_cache,
            offset,
            offset + 1,
            1,
        )?;
        let joined_shape: Vec<usize> = vec![1, self.config.query_width()];
        assert(joined_shape@ =~= seq![1usize, self.config.spec_query_width() as usize]);
        let copied = match attended.reshape(joined_shape.as_slice()) {
            Ok(joined) => match batch.copy_row(&joined, rows, row) {
                Ok(()) => Ok(()),
                Err(error) => Err(ModelError::Kernel(error)),
            },
            Err(error) => Err(ModelError::Gpu(error)),
        };
        batch.release(attended);
        copied
    }

    fn decode_rows(
        &self,
        batch: &mut KernelBatch<'_>,
        query: &Tensor,
        key: &Tensor,
        value: &Tensor,
        layer: &LayerWeights,
        caches: &Vec<KvCache>,
        index: usize,
        rows: &Tensor,
    ) -> (result: Result<(), ModelError>)
        requires
            self@.wf(),
            old(batch).wf(),
            old(batch).recorder.holds(*query),
            old(batch).recorder.holds(*key),
            old(batch).recorder.holds(*value),
            old(batch).recorder.holds(*rows),
            layer@.on_device(),
            old(batch).tuning@ == self@.tuning,
            forall|i: int|
                0 <= i < caches@.len() ==> (#[trigger] caches@[i])@.reserved(1) is Some,
        ensures
            final(batch).wf(),
            recorder::kept(old(batch).recorder, final(batch).recorder),
            final(batch).tuning == old(batch).tuning,
            went0(
                final(batch)@,
                result,
                rows_run(
                    self@,
                    old(batch)@,
                    query@,
                    key@,
                    value@,
                    layer@,
                    cache_views(caches@),
                    index as int,
                    rows@,
                    0,
                ),
            ),
    {
        let ghost net = self@;
        let ghost expected = rows_run(
            net,
            batch@,
            query@,
            key@,
            value@,
            layer@,
            cache_views(caches@),
            index as int,
            rows@,
            0,
        );
        let mut row: usize = 0;
        while row < caches.len()
            invariant
                row <= caches@.len(),
                net == self@,
                net.wf(),
                batch.wf(),
                batch.tuning == old(batch).tuning,
                batch.tuning@ == net.tuning,
                recorder::kept(old(batch).recorder, batch.recorder),
                old(batch).recorder.holds(*query),
                old(batch).recorder.holds(*key),
                old(batch).recorder.holds(*value),
                old(batch).recorder.holds(*rows),
                layer@.on_device(),
                forall|i: int|
                    0 <= i < caches@.len() ==> (#[trigger] caches@[i])@.reserved(1) is Some,
                expected == rows_run(
                    net,
                    old(batch)@,
                    query@,
                    key@,
                    value@,
                    layer@,
                    cache_views(caches@),
                    index as int,
                    rows@,
                    0,
                ),
                expected == rows_run(
                    net,
                    batch@,
                    query@,
                    key@,
                    value@,
                    layer@,
                    cache_views(caches@),
                    index as int,
                    rows@,
                    row as int,
                ),
            decreases caches.len() - row,
        {
            assert(cache_views(caches@)[row as int] == caches@[row as int]@);
            self.decode_row(batch, query, key, value, layer, &caches[row], index, rows, row)?;
            row += 1;
        }
        Ok(())
    }

    /// The attended rows of every sequence, in a tensor of their own.
    fn attended_rows(
        &self,
        batch: &mut KernelBatch<'_>,
        query: &Tensor,
        key: &Tensor,
        value: &Tensor,
        layer: &LayerWeights,
        caches: &Vec<KvCache>,
        index: usize,
    ) -> (result: Result<Tensor, ModelError>)
        requires
            self@.wf(),
            old(batch).wf(),
            old(batch).recorder.holds(*query),
            old(batch).recorder.holds(*key),
            old(batch).recorder.holds(*value),
            layer@.on_device(),
            old(batch).tuning@ == self@.tuning,
            forall|i: int|
                0 <= i < caches@.len() ==> (#[trigger] caches@[i])@.reserved(1) is Some,
        ensures
            final(batch).wf(),
            recorder::took1(old(batch).recorder, final(batch).recorder, result),
            final(batch).tuning == old(batch).tuning,
            ({
                let shape = seq![
                    caches@.len() as usize,
                    self.config.spec_query_width() as usize,
                ];
                match recorder::allocation_error(shape, DType::F16) {
                    Some(error) => {
                        &&& result == Err::<Tensor, ModelError>(ModelError::Gpu(error))
                        &&& final(batch)@ == old(batch)@
                    },
                    None => {
                        let rows = old(batch)@.fresh(0, shape, DType::F16);
                        let run = rows_run(
                            self@,
                            old(batch)@.after_issue(1),
                            query@,
                            key@,
                            value@,
                            layer@,
                            cache_views(caches@),
                            index as int,
                            rows,
                            0,
                        );
                        &&& final(batch)@ == run.0
                        &&& match (result, run.1) {
                            (Ok(tensor), Ok(_)) => tensor@ == rows,
                            (Err(error), Err(expected)) => error == expected,
                            _ => false,
                        }
                    },
                }
            }),
    {
        let shape: Vec<usize> = vec![caches.len(), self.config.query_width()];
        proof {
            assert(shape@ =~= seq![
                caches@.len() as usize,
                self.config.spec_query_width() as usize,
            ]);
        }
        let rows = match batch.empty(shape.as_slice(), DType::F16) {
            Ok(rows) => rows,
            Err(error) => return Err(ModelError::Gpu(error)),
        };
        match self.decode_rows(batch, query, key, value, layer, caches, index, &rows) {
            Ok(()) => Ok(rows),
            Err(error) => {
                batch.release(rows);
                Err(error)
            },
        }
    }

    #[verifier::rlimit(60)]
    fn decode_layer(
        &self,
        batch: &mut KernelBatch<'_>,
        hidden: Tensor,
        caches: &Vec<KvCache>,
        index: usize,
    ) -> (result: Result<Tensor, ModelError>)
        requires
            self@.wf(),
            old(batch).wf(),
            old(batch).recorder.holds(hidden),
            self@.on_device(),
            old(batch).tuning@ == self@.tuning,
            index < self.layers@.len(),
            forall|i: int|
                0 <= i < caches@.len() ==> (#[trigger] caches@[i])@.reserved(1) is Some,
        ensures
            final(batch).wf(),
            recorder::replaced(old(batch).recorder, final(batch).recorder, hidden, result),
            final(batch).tuning == old(batch).tuning,
            forward::went1(
                final(batch)@,
                result,
                batch_layer_run(
                    self@,
                    old(batch)@,
                    hidden@,
                    cache_views(caches@),
                    index as int,
                ),
            ),
    {
        reveal(batch_layer_run);
        let layer = &self.layers[index];
        assert(self@.layers[index as int] == layer@);
        assert(layer@.on_device());
        let (query, key, value) = match self.norm_project(batch, &hidden, layer) {
            Ok(parts) => parts,
            Err(error) => {
                batch.release(hidden);
                return Err(error);
            },
        };
        let rows = self.attended_rows(batch, &query, &key, &value, layer, caches, index);
        batch.release(query);
        batch.release(key);
        batch.release(value);
        let rows = match rows {
            Ok(rows) => rows,
            Err(error) => {
                batch.release(hidden);
                return Err(error);
            },
        };
        let attended = batch.matmul(&rows, &layer.attention.output);
        batch.release(rows);
        let attended = match attended {
            Ok(attended) => attended,
            Err(error) => {
                batch.release(hidden);
                return Err(ModelError::Kernel(error));
            },
        };
        let output = self.feed_forward(batch, &hidden, &attended, layer, false);
        batch.release(attended);
        batch.release(hidden);
        output
    }

    /// The logits of every sequence. The scratch of everything else is free again.
    fn batch_logits(&self, batch: &mut KernelBatch<'_>, hidden: Tensor) -> (result: Result<
        Tensor,
        ModelError,
    >)
        requires
            old(batch).wf(),
            old(batch).recorder.holds(hidden),
            self@.on_device(),
            old(batch).tuning@ == self@.tuning,
        ensures
            final(batch).wf(),
            recorder::replaced(old(batch).recorder, final(batch).recorder, hidden, result),
            final(batch).tuning == old(batch).tuning,
            forward::went1(
                final(batch)@,
                result,
                batch_logits_run(self@, old(batch)@, hidden@),
            ),
    {
        let normalized = match batch.rms_norm(&hidden, &self.final_norm, self.config.rms_norm_eps) {
            Ok(normalized) => normalized,
            Err(error) => {
                batch.release(hidden);
                return Err(ModelError::Kernel(error));
            },
        };
        let logits = batch.matmul(&normalized, &self.lm_head);
        batch.release(normalized);
        batch.release(hidden);
        match logits {
            Ok(logits) => Ok(logits),
            Err(error) => Err(ModelError::Kernel(error)),
        }
    }

    /// Records one token for each sequence and counts it in every cache. Yields
    /// the tensor that takes the tokens, and the logits. A failure leaves the
    /// caches as they were.
    #[verifier::rlimit(60)]
    pub fn decode_batch(
        &self,
        memory: &mut DeviceMemory,
        batch: &mut KernelBatch<'_>,
        tokens: &[u32],
        caches: &mut Vec<KvCache>,
    ) -> (result: Result<(Tensor, Tensor), ModelError>)
        requires
            self@.wf(),
            old(batch).wf(),
            self@.on_device(),
            old(batch).tuning@ == self@.tuning,
        ensures
            final(batch).wf(),
            passes::yielded(old(batch).recorder, final(batch).recorder, result),
            final(memory)@ == if decode_refusal(
                tokens@.len(),
                cache_views(old(caches)@),
            ) is Some {
                old(memory)@
            } else {
                passes::with_tokens(old(memory)@, tokens@)
            },
            final(batch).tuning == old(batch).tuning,
            result is Err ==> cache_views(final(caches)@) == cache_views(old(caches)@),
            result is Ok ==> cache_views(final(caches)@) == cache_views(old(caches)@).map_values(
                |cache: KvCacheModel| forward::advanced(cache, 1),
            ),
            match decode_refusal(tokens@.len(), cache_views(old(caches)@)) {
                Some(error) => {
                    &&& result == Err::<(Tensor, Tensor), ModelError>(error)
                    &&& final(batch)@ == old(batch)@
                },
                None => match memory::buffer_error(seq![tokens@.len() as usize], DType::U32) {
                    Some(error) => {
                        &&& result == Err::<(Tensor, Tensor), ModelError>(ModelError::Gpu(error))
                        &&& final(batch)@ == old(batch)@
                    },
                    None => {
                        let input = memory::whole_buffer(
                            old(memory).lens@.len() as usize,
                            seq![tokens@.len() as usize],
                            DType::U32,
                        );
                        let run = decode_batch_run(
                            self@,
                            old(batch)@,
                            input,
                            cache_views(old(caches)@),
                        );
                        &&& final(batch)@ == run.0
                        &&& match (result, run.1) {
                            (Ok((tensor, logits)), Ok(outputs)) => tensor@ == input && outputs.len()
                                == 1 && logits@ == outputs[0],
                            (Err(error), Err(expected)) => error == expected,
                            _ => false,
                        }
                    },
                },
            },
    {
        let count: usize = tokens.len();
        if count == 0 || count != caches.len() {
            return Err(ModelError::DecodeBatchMismatch);
        }
        let ghost views = cache_views(caches@);
        let mut i: usize = 0;
        while i < caches.len()
            invariant
                i <= caches@.len(),
                caches@ == old(caches)@,
                views == cache_views(caches@),
                batch.wf(),
                batch@ == old(batch)@,
                recorder::kept(old(batch).recorder, batch.recorder),
                memory@ == old(memory)@,
                batch.tuning == old(batch).tuning,
                tokens@.len() == count,
                count == caches@.len(),
                count > 0,
                forall|j: int|
                    0 <= j < i ==> (#[trigger] views[j]).filled > 0 && views[j].reserved(1) is Some,
            decreases caches.len() - i,
        {
            assert(views[i as int] == caches@[i as int]@);
            if caches[i].is_empty() {
                return Err(ModelError::CacheCapacity);
            }
            match caches[i].reserve(1) {
                Ok(_) => {},
                Err(error) => return Err(error),
            }
            i += 1;
        }
        assert forall|j: int| 0 <= j < caches@.len() implies (#[trigger] caches@[j])@.reserved(
            1,
        ) is Some by {
            assert(views[j] == caches@[j]@);
        }
        let shape: Vec<usize> = vec![count];
        proof {
            assert(shape@ =~= seq![count]);
            crate::gpu::tensor::lemma_elements_one(count);
        }
        let input = match memory.tensor_u32(tokens, shape.as_slice()) {
            Ok(input) => input,
            Err(error) => return Err(ModelError::Gpu(error)),
        };
        let mut hidden = match batch.embedding(&input, &self.embedding) {
            Ok(hidden) => hidden,
            Err(error) => return Err(ModelError::Kernel(error)),
        };
        let ghost net = self@;
        let ghost start = batch@;
        let ghost first = hidden@;
        let ghost expected = batch_layers_run(net, start, first, views, 0);
        let ghost whole = decode_batch_run(net, old(batch)@, input@, views);
        let mut index: usize = 0;
        while index < self.layers.len()
            invariant
                index <= self.layers@.len(),
                net == self@,
                net.wf(),
                net.layers.len() == self.layers@.len(),
                caches@ == old(caches)@,
                views == cache_views(caches@),
                tokens@.len() == count,
                decode_refusal(tokens@.len(), views) is None,
                memory::buffer_error(seq![count], DType::U32) is None,
                input@ == memory::whole_buffer(
                    old(memory).lens@.len() as usize,
                    seq![count],
                    DType::U32,
                ),
                forall|j: int|
                    0 <= j < caches@.len() ==> (#[trigger] caches@[j])@.reserved(1) is Some,
                batch.wf(),
                batch.tuning == old(batch).tuning,
                batch.tuning@ == net.tuning,
                net.on_device(),
                recorder::took(old(batch).recorder, batch.recorder, hidden),
                batch.recorder.holds(hidden),
                memory@ == passes::with_tokens(old(memory)@, tokens@),
                expected == batch_layers_run(net, batch@, hidden@, views, index as int),
                whole == decode_batch_run(net, old(batch)@, input@, views),
                expected.1 is Err ==> whole.0 == expected.0 && whole.1 is Err && whole.1->Err_0
                    == expected.1->Err_0,
            decreases self.layers.len() - index,
        {
            hidden = self.decode_layer(batch, hidden, &*caches, index)?;
            index += 1;
        }
        assert(expected.1 == Ok::<Seq<TensorModel>, ModelError>(seq![hidden@]));
        let logits = self.batch_logits(batch, hidden)?;
        self.count_decoded(caches);
        Ok((input, logits))
    }

    fn count_decoded(&self, caches: &mut Vec<KvCache>)
        requires
            forall|i: int|
                0 <= i < old(caches)@.len() ==> (#[trigger] old(caches)@[i])@.reserved(1) is Some,
        ensures
            cache_views(final(caches)@) == cache_views(old(caches)@).map_values(
                |cache: KvCacheModel| forward::advanced(cache, 1),
            ),
    {
        let mut i: usize = 0;
        while i < caches.len()
            invariant
                i <= caches@.len(),
                caches@.len() == old(caches)@.len(),
                forall|j: int|
                    0 <= j < old(caches)@.len() ==> (#[trigger] old(caches)@[j])@.reserved(
                        1,
                    ) is Some,
                forall|j: int|
                    0 <= j < i ==> (#[trigger] caches@[j])@ == forward::advanced(
                        old(caches)@[j]@,
                        1,
                    ),
                forall|j: int|
                    i <= j < caches@.len() ==> (#[trigger] caches@[j]) == old(caches)@[j],
            decreases caches.len() - i,
        {
            assert(old(caches)@[i as int]@.reserved(1) is Some);
            let _ = caches[i].advance(1);
            i += 1;
        }
        assert(cache_views(caches@) =~= cache_views(old(caches)@).map_values(
            |cache: KvCacheModel| forward::advanced(cache, 1),
        ));
    }
}

} // verus!
