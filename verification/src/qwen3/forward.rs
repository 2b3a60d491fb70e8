//! Forward passes: the launches that turn tokens into logits.

use crate::error::{GpuError, KernelError, ModelError};
use crate::gpu::recorder::{self, BatchModel};
use crate::gpu::tensor::{self, DType, Tensor, TensorModel};
use crate::kernels::KernelBatch;
use crate::ops::support::Outcome;
use crate::ops::{attention, elementwise, fused, gemm, gemv, kv, norm, rope, sampling};
use crate::ops::{AttentionConfig, QkNormRopeCacheConfig};
use crate::planner;
use crate::qwen3::kv_cache::{KvCache, KvCacheModel, LayerCache, LayerCacheModel};
use crate::qwen3::layers::{LayerModel, LayerWeights};
use crate::qwen3::model::{NetModel, Qwen3Model};
use vstd::prelude::*;

verus! {

/// The batch after a part of a forward pass, with the tensors that the part
/// yields or the reason why it failed.
pub type Run = (BatchModel, Result<Seq<TensorModel>, ModelError>);

pub open spec fn lift(outcome: Outcome) -> Run {
    match outcome.1 {
        Ok(outputs) => (outcome.0, Ok(outputs)),
        Err(error) => (outcome.0, Err(ModelError::Kernel(error))),
    }
}

/// Whether a part that yields one tensor went so.
pub open spec fn went1(after: BatchModel, result: Result<Tensor, ModelError>, run: Run) -> bool {
    &&& after == run.0
    &&& match (result, run.1) {
        (Ok(tensor), Ok(outputs)) => outputs.len() == 1 && tensor@ == outputs[0],
        (Err(error), Err(expected)) => error == expected,
        _ => false,
    }
}

/// Whether a part that yields three tensors went so.
pub open spec fn went3(
    after: BatchModel,
    result: Result<(Tensor, Tensor, Tensor), ModelError>,
    run: Run,
) -> bool {
    &&& after == run.0
    &&& match (result, run.1) {
        (Ok((first, second, third)), Ok(outputs)) => outputs.len() == 3 && first@ == outputs[0]
            && second@ == outputs[1] && third@ == outputs[2],
        (Err(error), Err(expected)) => error == expected,
        _ => false,
    }
}

/// Whether a part that yields two tensors went so.
pub open spec fn went2(
    after: BatchModel,
    result: Result<(Tensor, Tensor), ModelError>,
    run: Run,
) -> bool {
    &&& after == run.0
    &&& match (result, run.1) {
        (Ok((first, second)), Ok(outputs)) => outputs.len() == 2 && first@ == outputs[0] && second@
            == outputs[1],
        (Err(error), Err(expected)) => error == expected,
        _ => false,
    }
}

fn kernel<T>(result: Result<T, KernelError>) -> (lifted: Result<T, ModelError>)
    ensures
        lifted == match result {
            Ok(value) => Ok::<T, ModelError>(value),
            Err(error) => Err(ModelError::Kernel(error)),
        },
{
    match result {
        Ok(value) => Ok(value),
        Err(error) => Err(ModelError::Kernel(error)),
    }
}

fn device<T>(result: Result<T, GpuError>) -> (lifted: Result<T, ModelError>)
    ensures
        lifted == match result {
            Ok(value) => Ok::<T, ModelError>(value),
            Err(error) => Err(ModelError::Gpu(error)),
        },
{
    match result {
        Ok(value) => Ok(value),
        Err(error) => Err(ModelError::Gpu(error)),
    }
}

/// The query, key and value projections of a normalised input.
pub open spec fn project_run(
    net: NetModel,
    batch: BatchModel,
    normalized: TensorModel,
    layer: LayerModel,
) -> Run {
    lift(
        if net.plan.fusions.qkv {
            gemv::matmul3_outcome(
                batch,
                net.tuning,
                normalized,
                layer.query,
                layer.key,
                layer.value,
            )
        } else {
            gemv::products3(batch, net.tuning, normalized, layer.query, layer.key, layer.value)
        },
    )
}

/// The input norm and then the projections.
pub open spec fn norm_project_run(
    net: NetModel,
    batch: BatchModel,
    hidden: TensorModel,
    layer: LayerModel,
) -> Run {
    let (batch, normalized) = batch.run(
        norm::rms_norm_step(batch, hidden, layer.input_norm, net.config.rms_norm_eps),
    );
    match normalized {
        Err(error) => (batch, Err(ModelError::Kernel(error))),
        Ok(normalized) => project_run(net, batch, normalized[0], layer),
    }
}

/// The projections of a layer: in one launch for a single token, if the plan
/// fuses the decode norm.
#[verifier::opaque]
pub open spec fn qkv_run(
    net: NetModel,
    batch: BatchModel,
    hidden: TensorModel,
    layer: LayerModel,
) -> Run {
    if hidden.shape[0] == 1 && net.plan.fusions.decode_norm && net.plan.fusions.qkv {
        lift(
            batch.run(
                fused::rms_norm_matmul3_step(
                    batch,
                    hidden,
                    layer.input_norm,
                    layer.query,
                    layer.key,
                    layer.value,
                    net.config.rms_norm_eps,
                    fused::fused_rows(
                        net.tuning,
                        seq![layer.query.shape[0], layer.key.shape[0], layer.value.shape[0]],
                        hidden.shape[1],
                    ),
                ),
            ),
        )
    } else {
        norm_project_run(net, batch, hidden, layer)
    }
}

/// Norms and rotates queries and keys and caches the keys; yields the queries.
pub open spec fn rotate_run(
    net: NetModel,
    batch: BatchModel,
    query: TensorModel,
    key: TensorModel,
    layer: LayerModel,
    key_cache: TensorModel,
    offset: usize,
) -> Run {
    let epsilon = net.config.rms_norm_eps;
    let theta = net.config.rope_theta;
    if net.plan.fusions.qk_rope_cache {
        lift(
            batch.run(
                rope::qk_norm_rope_cache_step(
                    batch,
                    query,
                    key,
                    layer.query_norm,
                    layer.key_norm,
                    key_cache,
                    QkNormRopeCacheConfig { offset, theta, epsilon },
                ),
            ),
        )
    } else {
        let (batch, normed) = batch.run(norm::rms_norm_step(batch, query, layer.query_norm, epsilon));
        match normed {
            Err(error) => (batch, Err(ModelError::Kernel(error))),
            Ok(normed) => {
                let (batch, rotated) = batch.run(rope::rope_step(batch, normed[0], offset, theta));
                match rotated {
                    Err(error) => (batch, Err(ModelError::Kernel(error))),
                    Ok(rotated) => cache_key_run(net, batch, rotated, key, layer, key_cache, offset),
                }
            },
        }
    }
}

/// Norms, rotates and caches the keys; yields the queries that were rotated.
pub open spec fn cache_key_run(
    net: NetModel,
    batch: BatchModel,
    rotated: Seq<TensorModel>,
    key: TensorModel,
    layer: LayerModel,
    key_cache: TensorModel,
    offset: usize,
) -> Run {
    let epsilon = net.config.rms_norm_eps;
    let theta = net.config.rope_theta;
    let (batch, normed) = batch.run(norm::rms_norm_step(batch, key, layer.key_norm, epsilon));
    match normed {
        Err(error) => (batch, Err(ModelError::Kernel(error))),
        Ok(normed) => {
            let (batch, keys) = batch.run(rope::rope_step(batch, normed[0], offset, theta));
            match keys {
                Err(error) => (batch, Err(ModelError::Kernel(error))),
                Ok(keys) => {
                    let (batch, copied) = batch.run(
                        kv::copy_into_cache_step(keys[0], key_cache, offset),
                    );
                    match copied {
                        Err(error) => (batch, Err(ModelError::Kernel(error))),
                        Ok(_) => (batch, Ok(rotated)),
                    }
                },
            }
        },
    }
}

pub open spec fn attention_config(net: NetModel, offset: usize) -> AttentionConfig {
    AttentionConfig {
        query_heads: net.config.num_attention_heads,
        kv_heads: net.config.num_key_value_heads,
        head_dim: net.config.head_dim,
        causal: true,
        query_offset: offset,
    }
}

/// Caches the values and attends to the first `active_length` cache entries.
pub open spec fn attend_run(
    net: NetModel,
    batch: BatchModel,
    query: TensorModel,
    value: TensorModel,
    cache: LayerCacheModel,
    offset: usize,
    active_length: usize,
    tokens: usize,
) -> Run {
    let (batch, copied) = batch.run(kv::copy_into_cache_step(value, cache.value, offset));
    match copied {
        Err(error) => (batch, Err(ModelError::Kernel(error))),
        Ok(_) => match (cache.key.prefixed(active_length), cache.value.prefixed(active_length)) {
            (Err(error), _) => (batch, Err(ModelError::Gpu(error))),
            (Ok(_), Err(error)) => (batch, Err(ModelError::Gpu(error))),
            (Ok(keys), Ok(values)) => lift(
                batch.run(
                    attention::attention_step(
                        batch,
                        query,
                        keys,
                        values,
                        attention_config(net, offset),
                        attention::launched_kind(
                            planner::attention_kind(
                                net.plan.attention,
                                tokens,
                                active_length,
                                net.query_heads_per_kv(),
                            ),
                            attention_config(net, offset),
                        ),
                        attention::batch_split(net.tuning, None, keys.shape[0]),
                    ),
                ),
            ),
        },
    }
}

/// The residual sum and its normalisation.
pub open spec fn residual_run(
    net: NetModel,
    batch: BatchModel,
    hidden: TensorModel,
    attended: TensorModel,
    layer: LayerModel,
) -> Run {
    let epsilon = net.config.rms_norm_eps;
    if net.plan.fusions.add_rms_norm {
        lift(
            batch.run(
                norm::add_rms_norm_step(
                    batch,
                    hidden,
                    attended,
                    layer.post_attention_norm,
                    epsilon,
                ),
            ),
        )
    } else {
        let (batch, residual) = batch.run(
            elementwise::pairwise_step(batch, "add_f16"@, hidden, attended),
        );
        match residual {
            Err(error) => (batch, Err(ModelError::Kernel(error))),
            Ok(residual) => {
                let (batch, normalized) = batch.run(
                    norm::rms_norm_step(batch, residual[0], layer.post_attention_norm, epsilon),
                );
                match normalized {
                    Err(error) => (batch, Err(ModelError::Kernel(error))),
                    Ok(normalized) => (batch, Ok(seq![residual[0], normalized[0]])),
                }
            },
        }
    }
}

/// The residual sum, and both projections into the feed forward network of what
/// it normalises to.
pub open spec fn gate_up_run(
    net: NetModel,
    batch: BatchModel,
    hidden: TensorModel,
    attended: TensorModel,
    layer: LayerModel,
    fused_norm: bool,
) -> Run {
    if fused_norm {
        lift(
            batch.run(
                fused::add_rms_norm_matmul2_step(
                    batch,
                    hidden,
                    attended,
                    layer.post_attention_norm,
                    layer.gate,
                    layer.up,
                    net.config.rms_norm_eps,
                    fused::fused_rows(
                        net.tuning,
                        seq![layer.gate.shape[0], layer.up.shape[0], 0usize],
                        hidden.shape[1],
                    ),
                ),
            ),
        )
    } else {
        let (batch, pair) = residual_run(net, batch, hidden, attended, layer);
        match pair {
            Err(error) => (batch, Err(error)),
            Ok(pair) => {
                let (batch, projected) = if net.plan.fusions.gate_up {
                    gemv::matmul2_outcome(batch, net.tuning, pair[1], layer.gate, layer.up)
                } else {
                    gemv::products2(batch, net.tuning, pair[1], layer.gate, layer.up)
                };
                match projected {
                    Err(error) => (batch, Err(ModelError::Kernel(error))),
                    Ok(projected) => (batch, Ok(seq![pair[0], projected[0], projected[1]])),
                }
            },
        }
    }
}

/// The second half of a layer: residual, gated projection, residual.
#[verifier::opaque]
pub open spec fn feed_forward_run(
    net: NetModel,
    batch: BatchModel,
    hidden: TensorModel,
    attended: TensorModel,
    layer: LayerModel,
    fused_norm: bool,
) -> Run {
    let (batch, parts) = gate_up_run(net, batch, hidden, attended, layer, fused_norm);
    match parts {
        Err(error) => (batch, Err(error)),
        Ok(parts) => {
            let (batch, activated) = batch.run(
                elementwise::pairwise_step(batch, "swiglu_f16"@, parts[1], parts[2]),
            );
            match activated {
                Err(error) => (batch, Err(ModelError::Kernel(error))),
                Ok(activated) => {
                    let (batch, down) = batch.run(
                        gemm::matmul_step(batch, net.tuning, activated[0], layer.down),
                    );
                    match down {
                        Err(error) => (batch, Err(ModelError::Kernel(error))),
                        Ok(down) => lift(
                            batch.run(
                                elementwise::pairwise_step(batch, "add_f16"@, parts[0], down[0]),
                            ),
                        ),
                    }
                },
            }
        },
    }
}

/// The shape of the heads of `tokens` tokens.
pub open spec fn heads_shape(tokens: usize, heads: usize, head_dim: usize) -> Seq<usize> {
    seq![tokens, heads, head_dim]
}

/// From the heads of a layer to its attention output.
pub open spec fn heads_run(
    net: NetModel,
    batch: BatchModel,
    query: TensorModel,
    key: TensorModel,
    value: TensorModel,
    layer: LayerModel,
    cache: LayerCacheModel,
    offset: usize,
    active_length: usize,
    tokens: usize,
) -> Run {
    let (batch, rotated) = rotate_run(net, batch, query, key, layer, cache.key, offset);
    match rotated {
        Err(error) => (batch, Err(error)),
        Ok(rotated) => attend_run(
            net,
            batch,
            rotated[0],
            value,
            cache,
            offset,
            active_length,
            tokens,
        ),
    }
}

/// From the projections of a layer to its attention output.
#[verifier::opaque]
pub open spec fn attention_run(
    net: NetModel,
    batch: BatchModel,
    query: TensorModel,
    key: TensorModel,
    value: TensorModel,
    layer: LayerModel,
    cache: LayerCacheModel,
    offset: usize,
    active_length: usize,
    tokens: usize,
) -> Run {
    let query_shape = heads_shape(tokens, net.config.num_attention_heads, net.config.head_dim);
    let kv_shape = heads_shape(tokens, net.config.num_key_value_heads, net.config.head_dim);
    match (query.reshaped(query_shape), key.reshaped(kv_shape), value.reshaped(kv_shape)) {
        (Err(error), _, _) => (batch, Err(ModelError::Gpu(error))),
        (Ok(_), Err(error), _) => (batch, Err(ModelError::Gpu(error))),
        (Ok(_), Ok(_), Err(error)) => (batch, Err(ModelError::Gpu(error))),
        (Ok(query), Ok(key), Ok(value)) => heads_run(
            net,
            batch,
            query,
            key,
            value,
            layer,
            cache,
            offset,
            active_length,
            tokens,
        ),
    }
}

/// A layer of the transformer.
#[verifier::opaque]
pub open spec fn layer_run(
    net: NetModel,
    batch: BatchModel,
    hidden: TensorModel,
    layer: LayerModel,
    cache: LayerCacheModel,
    offset: usize,
    active_length: usize,
) -> Run {
    let tokens = hidden.shape[0];
    let fusions = net.plan.fusions;
    let (batch, qkv) = qkv_run(net, batch, hidden, layer);
    match qkv {
        Err(error) => (batch, Err(error)),
        Ok(qkv) => {
            let (batch, heads) = attention_run(
                net,
                batch,
                qkv[0],
                qkv[1],
                qkv[2],
                layer,
                cache,
                offset,
                active_length,
                tokens,
            );
            match heads {
                Err(error) => (batch, Err(error)),
                Ok(heads) => match heads[0].reshaped(
                    seq![tokens, net.config.spec_query_width() as usize],
                ) {
                    Err(error) => (batch, Err(ModelError::Gpu(error))),
                    Ok(joined) => {
                        let (batch, attended) = batch.run(
                            gemm::matmul_step(batch, net.tuning, joined, layer.output),
                        );
                        match attended {
                            Err(error) => (batch, Err(ModelError::Kernel(error))),
                            Ok(attended) => feed_forward_run(
                                net,
                                batch,
                                hidden,
                                attended[0],
                                layer,
                                tokens == 1 && fusions.decode_norm && fusions.add_rms_norm
                                    && fusions.gate_up,
                            ),
                        }
                    },
                },
            }
        },
    }
}

impl Qwen3Model {
    fn project(
        &self,
        batch: &mut KernelBatch<'_>,
        normalized: &Tensor,
        layer: &LayerWeights,
    ) -> (result: Result<(Tensor, Tensor, Tensor), ModelError>)
        requires
            old(batch).wf(),
            old(batch).recorder.holds(*normalized),
            layer@.on_device(),
            old(batch).tuning@ == self@.tuning,
        ensures
            final(batch).wf(),
            recorder::took3(old(batch).recorder, final(batch).recorder, result),
            final(batch).tuning == old(batch).tuning,
            went3(final(batch)@, result, project_run(self@, old(batch)@, normalized@, layer@)),
    {
        if self.plan.fusions.qkv {
            kernel(
                batch.matmul3(
                    normalized,
                    &layer.attention.query,
                    &layer.attention.key,
                    &layer.attention.value,
                ),
            )
        } else {
            kernel(
                batch.products3(
                    normalized,
                    &layer.attention.query,
                    &layer.attention.key,
                    &layer.attention.value,
                ),
            )
        }
    }

    pub(crate) fn norm_project(
        &self,
        batch: &mut KernelBatch<'_>,
        hidden: &Tensor,
        layer: &LayerWeights,
    ) -> (result: Result<(Tensor, Tensor, Tensor), ModelError>)
        requires
            old(batch).wf(),
            old(batch).recorder.holds(*hidden),
            layer@.on_device(),
            old(batch).tuning@ == self@.tuning,
        ensures
            final(batch).wf(),
            recorder::took3(old(batch).recorder, final(batch).recorder, result),
            final(batch).tuning == old(batch).tuning,
            went3(final(batch)@, result, norm_project_run(self@, old(batch)@, hidden@, layer@)),
    {
        let normalized = kernel(
            batch.rms_norm(hidden, &layer.input_norm, self.config.rms_norm_eps),
        )?;
        let projected = self.project(batch, &normalized, layer);
        batch.release(normalized);
        projected
    }

    fn qkv(&self, batch: &mut KernelBatch<'_>, hidden: &Tensor, layer: &LayerWeights) -> (result:
        Result<(Tensor, Tensor, Tensor), ModelError>)
        requires
            old(batch).wf(),
            old(batch).recorder.holds(*hidden),
            layer@.on_device(),
            old(batch).tuning@ == self@.tuning,
        ensures
            final(batch).wf(),
            recorder::took3(old(batch).recorder, final(batch).recorder, result),
            final(batch).tuning == old(batch).tuning,
            went3(final(batch)@, result, qkv_run(self@, old(batch)@, hidden@, layer@)),
    {
        reveal(qkv_run);
        let tokens: usize = hidden.shape()[0];
        if tokens == 1 && self.plan.fusions.decode_norm && self.plan.fusions.qkv {
            kernel(
                batch.rms_norm_matmul3(
                    hidden,
                    &layer.input_norm,
                    &layer.attention.query,
                    &layer.attention.key,
                    &layer.attention.value,
                    self.config.rms_norm_eps,
                ),
            )
        } else {
            self.norm_project(batch, hidden, layer)
        }
    }

    fn rotate(
        &self,
        batch: &mut KernelBatch<'_>,
        query: &Tensor,
        key: &Tensor,
        layer: &LayerWeights,
        key_cache: &Tensor,
        offset: usize,
    ) -> (result: Result<Tensor, ModelError>)
        requires
            old(batch).wf(),
            old(batch).recorder.holds(*query),
            old(batch).recorder.holds(*key),
            old(batch).recorder.holds(*key_cache),
            layer@.on_device(),
            old(batch).tuning@ == self@.tuning,
        ensures
            final(batch).wf(),
            recorder::took1(old(batch).recorder, final(batch).recorder, result),
            final(batch).tuning == old(batch).tuning,
            went1(
                final(batch)@,
                result,
                rotate_run(self@, old(batch)@, query@, key@, layer@, key_cache@, offset),
            ),
    {
        let epsilon: u32 = self.config.rms_norm_eps;
        let theta: u32 = self.config.rope_theta;
        if self.plan.fusions.qk_rope_cache {
            kernel(
                batch.qk_norm_rope_cache(
                    query,
                    key,
                    &layer.attention.query_norm,
                    &layer.attention.key_norm,
                    key_cache,
                    QkNormRopeCacheConfig { offset, theta, epsilon },
                ),
            )
        } else {
            let normed = kernel(batch.rms_norm(query, &layer.attention.query_norm, epsilon))?;
            let rotated = kernel(batch.rope(&normed, offset, theta));
            batch.release(normed);
            self.cache_key(batch, rotated?, key, layer, key_cache, offset)
        }
    }

    fn cache_key(
        &self,
        batch: &mut KernelBatch<'_>,
        rotated: Tensor,
        key: &Tensor,
        layer: &LayerWeights,
        key_cache: &Tensor,
        offset: usize,
    ) -> (result: Result<Tensor, ModelError>)
        requires
            old(batch).wf(),
            old(batch).recorder.holds(rotated),
            old(batch).recorder.holds(*key),
            old(batch).recorder.holds(*key_cache),
            layer@.on_device(),
            old(batch).tuning@ == self@.tuning,
        ensures
            final(batch).wf(),
            final(batch)@.pool == old(batch)@.pool,
            match result {
                Ok(tensor) => {
                    &&& tensor.stored() == rotated.stored()
                    &&& recorder::kept(old(batch).recorder, final(batch).recorder)
                },
                Err(_) => final(batch).recorder.leases() =~= recorder::removed(
                    old(batch).recorder,
                    rotated,
                ),
            },
            final(batch).tuning == old(batch).tuning,
            forall|outputs: Seq<TensorModel>|
                outputs.len() == 1 && outputs[0] == rotated@ ==> #[trigger] went1(
                    final(batch)@,
                    result,
                    cache_key_run(self@, old(batch)@, outputs, key@, layer@, key_cache@, offset),
                ),
    {
        let epsilon: u32 = self.config.rms_norm_eps;
        let normed = match kernel(batch.rms_norm(key, &layer.attention.key_norm, epsilon)) {
            Ok(normed) => normed,
            Err(error) => {
                batch.release(rotated);
                return Err(error);
            },
        };
        let keys = kernel(batch.rope(&normed, offset, self.config.rope_theta));
        batch.release(normed);
        let keys = match keys {
            Ok(keys) => keys,
            Err(error) => {
                batch.release(rotated);
                return Err(error);
            },
        };
        let copied = kernel(batch.copy_into_cache(&keys, key_cache, offset));
        batch.release(keys);
        match copied {
            Ok(()) => Ok(rotated),
            Err(error) => {
                batch.release(rotated);
                Err(error)
            },
        }
    }

    fn attend(
        &self,
        batch: &mut KernelBatch<'_>,
        query: &Tensor,
        value: &Tensor,
        cache: &LayerCache,
        offset: usize,
        active_length: usize,
        tokens: usize,
    ) -> (result: Result<Tensor, ModelError>)
        requires
            self@.wf(),
            old(batch).wf(),
            old(batch).recorder.holds(*query),
            old(batch).recorder.holds(*value),
            cache@.on_device(),
            old(batch).tuning@ == self@.tuning,
        ensures
            final(batch).wf(),
            recorder::took1(old(batch).recorder, final(batch).recorder, result),
            final(batch).tuning == old(batch).tuning,
            went1(
                final(batch)@,
                result,
                attend_run(
                    self@,
                    old(batch)@,
                    query@,
                    value@,
                    cache@,
                    offset,
                    active_length,
                    tokens,
                ),
            ),
    {
        kernel(batch.copy_into_cache(value, &cache.value, offset))?;
        let keys = device(cache.key.prefix(active_length))?;
        let values = device(cache.value.prefix(active_length))?;
        let kind = self.plan.attention_for_tokens(
            tokens,
            active_length,
            self.config.num_attention_heads / self.config.num_key_value_heads,
        );
        let config = AttentionConfig {
            query_heads: self.config.num_attention_heads,
            kv_heads: self.config.num_key_value_heads,
            head_dim: self.config.head_dim,
            causal: true,
            query_offset: offset,
        };
        kernel(batch.attention(query, &keys, &values, config, kind))
    }

    fn attention(
        &self,
        batch: &mut KernelBatch<'_>,
        query: &Tensor,
        key: &Tensor,
        value: &Tensor,
        layer: &LayerWeights,
        cache: &LayerCache,
        offset: usize,
        active_length: usize,
        tokens: usize,
    ) -> (result: Result<Tensor, ModelError>)
        requires
            self@.wf(),
            old(batch).wf(),
            old(batch).recorder.holds(*query),
            old(batch).recorder.holds(*key),
            old(batch).recorder.holds(*value),
            layer@.on_device(),
            cache@.on_device(),
            old(batch).tuning@ == self@.tuning,
        ensures
            final(batch).wf(),
            recorder::took1(old(batch).recorder, final(batch).recorder, result),
            final(batch).tuning == old(batch).tuning,
            went1(
                final(batch)@,
                result,
                attention_run(
                    self@,
                    old(batch)@,
                    query@,
                    key@,
                    value@,
                    layer@,
                    cache@,
                    offset,
                    active_length,
                    tokens,
                ),
            ),
    {
        reveal(attention_run);
        let query_shape: Vec<usize> = vec![
            tokens,
            self.config.num_attention_heads,
            self.config.head_dim,
        ];
        let kv_shape: Vec<usize> = vec![
            tokens,
            self.config.num_key_value_heads,
            self.config.head_dim,
        ];
        proof {
            assert(query_shape@ =~= heads_shape(
                tokens,
                self.config.num_attention_heads,
                self.config.head_dim,
            ));
            assert(kv_shape@ =~= heads_shape(
                tokens,
                self.config.num_key_value_heads,
                self.config.head_dim,
            ));
        }
        let query = device(query.reshape(query_shape.as_slice()))?;
        let key = device(key.reshape(kv_shape.as_slice()))?;
        let value = device(value.reshape(kv_shape.as_slice()))?;
        self.heads(
            batch,
            &query,
            &key,
            &value,
            layer,
            cache,
            offset,
            active_length,
            tokens,
        )
    }

    pub(crate) fn heads(
        &self,
        batch: &mut KernelBatch<'_>,
        query: &Tensor,
        key: &Tensor,
        value: &Tensor,
        layer: &LayerWeights,
        cache: &LayerCache,
        offset: usize,
        active_length: usize,
        tokens: usize,
    ) -> (result: Result<Tensor, ModelError>)
        requires
            self@.wf(),
            old(batch).wf(),
            old(batch).recorder.holds(*query),
            old(batch).recorder.holds(*key),
            old(batch).recorder.holds(*value),
            layer@.on_device(),
            cache@.on_device(),
            old(batch).tuning@ == self@.tuning,
        ensures
            final(batch).wf(),
            recorder::took1(old(batch).recorder, final(batch).recorder, result),
            final(batch).tuning == old(batch).tuning,
            went1(
                final(batch)@,
                result,
                heads_run(
                    self@,
                    old(batch)@,
                    query@,
                    key@,
                    value@,
                    layer@,
                    cache@,
                    offset,
                    active_length,
                    tokens,
                ),
            ),
    {
        let rotated = self.rotate(batch, query, key, layer, &cache.key, offset)?;
        let heads = self.attend(batch, &rotated, value, cache, offset, active_length, tokens);
        batch.release(rotated);
        heads
    }

    /// The residual sum, and what it normalises to.
    fn residual(
        &self,
        batch: &mut KernelBatch<'_>,
        hidden: &Tensor,
        attended: &Tensor,
        layer: &LayerWeights,
    ) -> (result: Result<(Tensor, Tensor), ModelError>)
        requires
            old(batch).wf(),
            old(batch).recorder.holds(*hidden),
            old(batch).recorder.holds(*attended),
            layer@.on_device(),
            old(batch).tuning@ == self@.tuning,
        ensures
            final(batch).wf(),
            recorder::took2(old(batch).recorder, final(batch).recorder, result),
            final(batch).tuning == old(batch).tuning,
            went2(
                final(batch)@,
                result,
                residual_run(self@, old(batch)@, hidden@, attended@, layer@),
            ),
    {
        let epsilon: u32 = self.config.rms_norm_eps;
        if self.plan.fusions.add_rms_norm {
            return kernel(
                batch.add_rms_norm(hidden, attended, &layer.post_attention_norm, epsilon),
            );
        }
        let residual = kernel(batch.add(hidden, attended))?;
        match kernel(batch.rms_norm(&residual, &layer.post_attention_norm, epsilon)) {
            Ok(normalized) => Ok((residual, normalized)),
            Err(error) => {
                batch.release(residual);
                Err(error)
            },
        }
    }

    fn gate_up(
        &self,
        batch: &mut KernelBatch<'_>,
        hidden: &Tensor,
        attended: &Tensor,
        layer: &LayerWeights,
        fused_norm: bool,
    ) -> (result: Result<(Tensor, Tensor, Tensor), ModelError>)
        requires
            old(batch).wf(),
            old(batch).recorder.holds(*hidden),
            old(batch).recorder.holds(*attended),
            layer@.on_device(),
            old(batch).tuning@ == self@.tuning,
        ensures
            final(batch).wf(),
            recorder::took3(old(batch).recorder, final(batch).recorder, result),
            final(batch).tuning == old(batch).tuning,
            went3(
                final(batch)@,
                result,
                gate_up_run(self@, old(batch)@, hidden@, attended@, layer@, fused_norm),
            ),
    {
        let epsilon: u32 = self.config.rms_norm_eps;
        if fused_norm {
            return kernel(
                batch.add_rms_norm_matmul2(
                    hidden,
                    attended,
                    &layer.post_attention_norm,
                    &layer.mlp.gate,
                    &layer.mlp.up,
                    epsilon,
                ),
            );
        }
        let (residual, normalized) = self.residual(batch, hidden, attended, layer)?;
        let products = if self.plan.fusions.gate_up {
            kernel(batch.matmul2(&normalized, &layer.mlp.gate, &layer.mlp.up))
        } else {
            kernel(batch.products2(&normalized, &layer.mlp.gate, &layer.mlp.up))
        };
        batch.release(normalized);
        match products {
            Ok((gate, up)) => Ok((residual, gate, up)),
            Err(error) => {
                batch.release(residual);
                Err(error)
            },
        }
    }

    pub(crate) fn feed_forward(
        &self,
        batch: &mut KernelBatch<'_>,
        hidden: &Tensor,
        attended: &Tensor,
        layer: &LayerWeights,
        fused_norm: bool,
    ) -> (result: Result<Tensor, ModelError>)
        requires
            old(batch).wf(),
            old(batch).recorder.holds(*hidden),
            old(batch).recorder.holds(*attended),
            layer@.on_device(),
            old(batch).tuning@ == self@.tuning,
        ensures
            final(batch).wf(),
            recorder::took1(old(batch).recorder, final(batch).recorder, result),
            final(batch).tuning == old(batch).tuning,
            went1(
                final(batch)@,
                result,
                feed_forward_run(self@, old(batch)@, hidden@, attended@, layer@, fused_norm),
            ),
    {
        reveal(feed_forward_run);
        let (residual, gate, up) = self.gate_up(batch, hidden, attended, layer, fused_norm)?;
        let activated = kernel(batch.swiglu(&gate, &up));
        batch.release(gate);
        batch.release(up);
        let activated = match activated {
            Ok(activated) => activated,
            Err(error) => {
                batch.release(residual);
                return Err(error);
            },
        };
        let down = kernel(batch.matmul(&activated, &layer.mlp.down));
        batch.release(activated);
        let down = match down {
            Ok(down) => down,
            Err(error) => {
                batch.release(residual);
                return Err(error);
            },
        };
        let sum = kernel(batch.add(&residual, &down));
        batch.release(residual);
        batch.release(down);
        sum
    }

    /// Records a layer. The scratch of everything but its output is free again.
    #[verifier::rlimit(60)]
    pub fn forward_layer(
        &self,
        batch: &mut KernelBatch<'_>,
        hidden: Tensor,
        layer: &LayerWeights,
        cache: &LayerCache,
        offset: usize,
        active_length: usize,
    ) -> (result: Result<Tensor, ModelError>)
        requires
            self@.wf(),
            old(batch).wf(),
            old(batch).recorder.holds(hidden),
            layer@.on_device(),
            cache@.on_device(),
            old(batch).tuning@ == self@.tuning,
        ensures
            final(batch).wf(),
            recorder::replaced(old(batch).recorder, final(batch).recorder, hidden, result),
            final(batch).tuning == old(batch).tuning,
            went1(
                final(batch)@,
                result,
                layer_run(self@, old(batch)@, hidden@, layer@, cache@, offset, active_length),
            ),
    {
        reveal(layer_run);
        let tokens: usize = hidden.shape()[0];
        let (query, key, value) = match self.qkv(batch, &hidden, layer) {
            Ok(parts) => parts,
            Err(error) => {
                batch.release(hidden);
                return Err(error);
            },
        };
        let heads = self.attention(
            batch,
            &query,
            &key,
            &value,
            layer,
            cache,
            offset,
            active_length,
            tokens,
        );
        batch.release(query);
        batch.release(key);
        batch.release(value);
        let heads = match heads {
            Ok(heads) => heads,
            Err(error) => {
                batch.release(hidden);
                return Err(error);
            },
        };
        let joined_shape: Vec<usize> = vec![tokens, self.config.query_width()];
        assert(joined_shape@ =~= seq![tokens, self.config.spec_query_width() as usize]);
        let attended = match device(heads.reshape(joined_shape.as_slice())) {
            Ok(joined) => kernel(batch.matmul(&joined, &layer.attention.output)),
            Err(error) => Err(error),
        };
        batch.release(heads);
        let attended = match attended {
            Ok(attended) => attended,
            Err(error) => {
                batch.release(hidden);
                return Err(error);
            },
        };
        let fusions = self.plan.fusions;
        let fused_norm = tokens == 1 && fusions.decode_norm && fusions.add_rms_norm
            && fusions.gate_up;
        let output = self.feed_forward(batch, &hidden, &attended, layer, fused_norm);
        batch.release(attended);
        batch.release(hidden);
        output
    }
}

/// The layers from `index` on.
pub open spec fn layers_run(
    net: NetModel,
    batch: BatchModel,
    hidden: TensorModel,
    caches: Seq<LayerCacheModel>,
    offset: usize,
    active_length: usize,
    index: int,
) -> Run
    decreases net.layers.len() - index,
{
    if index >= net.layers.len() {
        (batch, Ok(seq![hidden]))
    } else {
        let (batch, next) = layer_run(
            net,
            batch,
            hidden,
            net.layers[index],
            caches[index],
            offset,
            active_length,
        );
        match next {
            Err(error) => (batch, Err(error)),
            Ok(next) => layers_run(net, batch, next[0], caches, offset, active_length, index + 1),
        }
    }
}

/// The logits of the last token, and their largest index if it is asked for.
pub open spec fn logits_run(
    net: NetModel,
    batch: BatchModel,
    hidden: TensorModel,
    tokens: usize,
    argmax_output: Option<TensorModel>,
) -> Run {
    let (batch, normalized) = batch.run(
        norm::rms_norm_step(batch, hidden, net.final_norm, net.config.rms_norm_eps),
    );
    match normalized {
        Err(error) => (batch, Err(ModelError::Kernel(error))),
        Ok(normalized) => match normalized[0].row_at((tokens - 1) as usize) {
            Err(error) => (batch, Err(ModelError::Gpu(error))),
            Ok(last) => {
                let (batch, logits) = batch.run(
                    gemm::matmul_step(batch, net.tuning, last, net.lm_head),
                );
                match logits {
                    Err(error) => (batch, Err(ModelError::Kernel(error))),
                    Ok(logits) => match argmax_output {
                        None => (batch, Ok(logits)),
                        Some(output) => argmax_run(batch, logits, output),
                    },
                }
            },
        },
    }
}

/// Writes the largest index of the logits; yields the logits.
pub open spec fn argmax_run(batch: BatchModel, logits: Seq<TensorModel>, output: TensorModel) -> Run {
    match logits[0].reshaped(seq![logits[0].len() as usize]) {
        Err(error) => (batch, Err(ModelError::Gpu(error))),
        Ok(vector) => {
            let (batch, written) = batch.run(sampling::argmax_step(batch, vector, output));
            match written {
                Err(error) => (batch, Err(ModelError::Kernel(error))),
                Ok(_) => (batch, Ok(logits)),
            }
        },
    }
}

/// A forward pass over tokens that follow those in the cache.
pub open spec fn forward_run(
    net: NetModel,
    batch: BatchModel,
    tokens: TensorModel,
    cache: KvCacheModel,
    argmax_output: Option<TensorModel>,
) -> Run {
    if tokens.dtype != DType::U32 || tokens.shape.len() != 1 {
        (batch, Err(ModelError::TokensShape))
    } else if cache.layers.len() != net.layers.len() {
        (batch, Err(ModelError::CacheLayerCount))
    } else {
        match cache.reserved(tokens.shape[0]) {
            None => (batch, Err(ModelError::CacheCapacity)),
            Some(requested) => {
                let (batch, hidden) = batch.run(
                    elementwise::embedding_step(batch, tokens, net.embedding),
                );
                match hidden {
                    Err(error) => (batch, Err(ModelError::Kernel(error))),
                    Ok(hidden) => {
                        let (batch, hidden) = layers_run(
                            net,
                            batch,
                            hidden[0],
                            cache.layers,
                            cache.filled,
                            requested,
                            0,
                        );
                        match hidden {
                            Err(error) => (batch, Err(error)),
                            Ok(hidden) => logits_run(
                                net,
                                batch,
                                hidden[0],
                                tokens.shape[0],
                                argmax_output,
                            ),
                        }
                    },
                }
            },
        }
    }
}

/// The cache after so many more tokens.
pub open spec fn advanced(cache: KvCacheModel, tokens: usize) -> KvCacheModel {
    KvCacheModel { filled: (cache.filled + tokens) as usize, ..cache }
}

impl Qwen3Model {
    fn logits(
        &self,
        batch: &mut KernelBatch<'_>,
        hidden: Tensor,
        tokens: usize,
        argmax_output: Option<&Tensor>,
    ) -> (result: Result<Tensor, ModelError>)
        requires
            tokens > 0,
            old(batch).wf(),
            old(batch).recorder.holds(hidden),
            argmax_output matches Some(output) ==> old(batch).recorder.holds(*output) && (
            output@.place is Scratch ==> recorder::leased_apart(hidden, *output)),
            self@.on_device(),
            old(batch).tuning@ == self@.tuning,
        ensures
            final(batch).wf(),
            recorder::replaced(old(batch).recorder, final(batch).recorder, hidden, result),
            final(batch).tuning == old(batch).tuning,
            went1(
                final(batch)@,
                result,
                logits_run(
                    self@,
                    old(batch)@,
                    hidden@,
                    tokens,
                    match argmax_output {
                        Some(output) => Some(output@),
                        None => None,
                    },
                ),
            ),
    {
        let normalized = match kernel(
            batch.rms_norm(&hidden, &self.final_norm, self.config.rms_norm_eps),
        ) {
            Ok(normalized) => normalized,
            Err(error) => {
                batch.release(hidden);
                return Err(error);
            },
        };
        let logits = match device(normalized.row(tokens - 1)) {
            Ok(last) => kernel(batch.matmul(&last, &self.lm_head)),
            Err(error) => Err(error),
        };
        batch.release(normalized);
        batch.release(hidden);
        let logits = logits?;
        match argmax_output {
            Some(output) => {
                let count: usize = logits.len();
                let shape: Vec<usize> = vec![count];
                assert(shape@ =~= seq![logits@.len() as usize]);
                let written = match device(logits.reshape(shape.as_slice())) {
                    Ok(vector) => kernel(batch.argmax(&vector, output)),
                    Err(error) => Err(error),
                };
                match written {
                    Ok(()) => {},
                    Err(error) => {
                        batch.release(logits);
                        return Err(error);
                    },
                }
            },
            None => {},
        }
        Ok(logits)
    }

    /// Records a forward pass over `tokens`, which follow those in the cache,
    /// and counts them. A failure leaves the cache as it was.
    pub fn forward_async(
        &self,
        batch: &mut KernelBatch<'_>,
        tokens: &Tensor,
        cache: &mut KvCache,
        argmax_output: Option<&Tensor>,
    ) -> (result: Result<Tensor, ModelError>)
        requires
            self@.wf(),
            old(batch).wf(),
            old(batch).recorder.holds(*tokens),
            argmax_output matches Some(output) ==> old(batch).recorder.holds(*output),
            self@.on_device(),
            old(batch).tuning@ == self@.tuning,
        ensures
            final(batch).wf(),
            recorder::took1(old(batch).recorder, final(batch).recorder, result),
            final(batch).tuning == old(batch).tuning,
            went1(
                final(batch)@,
                result,
                forward_run(
                    self@,
                    old(batch)@,
                    tokens@,
                    old(cache)@,
                    match argmax_output {
                        Some(output) => Some(output@),
                        None => None,
                    },
                ),
            ),
            final(cache)@ == if result is Ok {
                advanced(old(cache)@, tokens@.shape[0])
            } else {
                old(cache)@
            },
    {
        if tokens.expect_u32().is_err() || tokens.shape().len() != 1 || tokens.is_empty() {
            return Err(ModelError::TokensShape);
        }
        if cache.layer_count() != self.layers.len() {
            return Err(ModelError::CacheLayerCount);
        }
        let count: usize = tokens.shape()[0];
        let requested = cache.reserve(count)?;
        let mut hidden = kernel(batch.embedding(tokens, &self.embedding))?;
        let offset: usize = cache.len();
        let ghost net = self@;
        let ghost start = batch@;
        let ghost first = hidden@;
        let ghost expected = layers_run(
            net,
            start,
            first,
            cache@.layers,
            offset,
            requested,
            0,
        );
        let mut index: usize = 0;
        while index < self.layers.len()
            invariant
                index <= self.layers@.len(),
                net == self@,
                net.wf(),
                net.layers.len() == self.layers@.len(),
                cache@ == old(cache)@,
                cache@.layers.len() == net.layers.len(),
                batch.wf(),
                batch.tuning == old(batch).tuning,
                batch.tuning@ == net.tuning,
                net.on_device(),
                recorder::took(old(batch).recorder, batch.recorder, hidden),
                batch.recorder.holds(hidden),
                expected == layers_run(
                    net,
                    batch@,
                    hidden@,
                    cache@.layers,
                    offset,
                    requested,
                    index as int,
                ),
                expected.1 is Err ==> ({
                    let run = forward_run(
                        net,
                        old(batch)@,
                        tokens@,
                        old(cache)@,
                        match argmax_output {
                            Some(output) => Some(output@),
                            None => None,
                        },
                    );
                    run.0 == expected.0 && run.1 is Err && run.1->Err_0 == expected.1->Err_0
                }),
            decreases self.layers.len() - index,
        {
            let layer_cache = match cache.layer(index) {
                Ok(layer_cache) => layer_cache,
                Err(error) => return Err(error),
            };
            assert(net.layers[index as int] == self.layers@[index as int]@);
            assert(net.layers[index as int].on_device());
            hidden = self.forward_layer(
                batch,
                hidden,
                &self.layers[index],
                layer_cache,
                offset,
                requested,
            )?;
            index += 1;
        }
        assert(expected.1 == Ok::<Seq<TensorModel>, ModelError>(seq![hidden@]));
        let logits = self.logits(batch, hidden, count, argmax_output)?;
        cache.advance(count)?;
        Ok(logits)
    }
}

} // verus!
