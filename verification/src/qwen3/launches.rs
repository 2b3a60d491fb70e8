//! Which kernels a forward pass launches, and that it only adds to its batch.

use crate::error::KernelError;
use crate::gpu::command::CommandModel;
use crate::gpu::recorder::{self, BatchModel, Step};
use crate::gpu::tensor::{DType, TensorModel};
use crate::ops::{attention, elementwise, fused, gemm, gemv, kv, norm, rope, sampling};
use crate::ops::{AttentionConfig, AttentionKind, QkNormRopeCacheConfig};
use crate::planner;
use crate::qwen3::decode_batch;
use crate::qwen3::forward;
use crate::qwen3::kv_cache::{KvCacheModel, LayerCacheModel};
use crate::qwen3::layers::LayerModel;
use crate::qwen3::model::NetModel;
use crate::tuning::TuningModel;
use vstd::prelude::*;

verus! {

/// Whether a kernel projects queries, keys and values at once.
pub open spec fn fused_kernel(kernel: Seq<char>) -> bool {
    kernel.len() >= 7 && kernel.take(7) == "matvec3"@
}

/// Whether a command projects queries, keys and values at once.
pub open spec fn fused_projection(command: CommandModel) -> bool {
    match command {
        CommandModel::Dispatch { kernel, .. } => fused_kernel(kernel),
        CommandModel::Multiply { .. } => false,
    }
}

/// Whether a batch only got commands added, and if `plain`, none of them a
/// fused projection.
pub open spec fn grew(before: BatchModel, after: BatchModel, plain: bool) -> bool {
    &&& before.log.len() <= after.log.len()
    &&& after.log.take(before.log.len() as int) == before.log
    &&& plain ==> forall|i: int|
        before.log.len() <= i < after.log.len() ==> !fused_projection(#[trigger] after.log[i])
}

/// Whether a fused projection is among the commands that a batch got.
pub open spec fn got_fused(before: BatchModel, after: BatchModel) -> bool {
    exists|i: int|
        before.log.len() <= i < after.log.len() && fused_projection(#[trigger] after.log[i])
}

/// Whether a step records no fused projection.
spec fn plain_step(step: Result<Step, KernelError>) -> bool {
    step is Ok ==> forall|i: int|
        0 <= i < step->Ok_0.commands.len() ==> !fused_projection(
            #[trigger] step->Ok_0.commands[i],
        )
}

proof fn lemma_grew_joins(first: BatchModel, second: BatchModel, third: BatchModel, plain: bool)
    requires
        grew(first, second, plain),
        grew(second, third, plain),
    ensures
        grew(first, third, plain),
{
    assert forall|i: int| 0 <= i < second.log.len() implies third.log[i] == second.log[i] by {
        assert(third.log.take(second.log.len() as int)[i] == third.log[i]);
    }
    assert forall|i: int| 0 <= i < first.log.len() implies third.log[i] == first.log[i] by {
        assert(second.log.take(first.log.len() as int)[i] == second.log[i]);
    }
    assert(third.log.take(first.log.len() as int) =~= first.log);
}

proof fn lemma_fused_stays(first: BatchModel, second: BatchModel, third: BatchModel)
    requires
        got_fused(first, second),
        grew(second, third, false),
    ensures
        got_fused(first, third),
{
    let i = choose|i: int|
        first.log.len() <= i < second.log.len() && fused_projection(#[trigger] second.log[i]);
    assert(third.log.take(second.log.len() as int)[i] == third.log[i]);
}

proof fn lemma_fused_later(first: BatchModel, second: BatchModel, third: BatchModel)
    requires
        grew(first, second, false),
        got_fused(second, third),
    ensures
        got_fused(first, third),
{
    let i = choose|i: int|
        second.log.len() <= i < third.log.len() && fused_projection(#[trigger] third.log[i]);
    assert(first.log.len() <= i);
}

proof fn lemma_with_all_grows(batch: BatchModel, commands: Seq<CommandModel>, plain: bool)
    requires
        plain ==> forall|i: int|
            0 <= i < commands.len() ==> !fused_projection(#[trigger] commands[i]),
    ensures
        grew(batch, batch.with_all(commands).0, plain),
        batch.with_all(commands).1 ==> batch.with_all(commands).0.log == batch.log + commands,
    decreases commands.len(),
{
    if commands.len() == 0 {
        assert(batch.log.take(batch.log.len() as int) =~= batch.log);
        assert(batch.log + commands =~= batch.log);
    } else if batch.accepts(commands[0]) {
        let next = batch.with(commands[0]);
        assert(next.log.take(batch.log.len() as int) =~= batch.log);
        assert(grew(batch, next, plain));
        lemma_with_all_grows(next, commands.drop_first(), plain);
        lemma_grew_joins(batch, next, batch.with_all(commands).0, plain);
        assert(next.log + commands.drop_first() =~= batch.log + commands);
    } else {
        assert(batch.log.take(batch.log.len() as int) =~= batch.log);
    }
}

proof fn lemma_run_grows(batch: BatchModel, step: Result<Step, KernelError>, plain: bool)
    requires
        plain ==> plain_step(step),
    ensures
        grew(batch, batch.run(step).0, plain),
        batch.run(step).1 is Ok ==> {
            &&& step is Ok
            &&& batch.run(step).1->Ok_0 == step->Ok_0.outputs
            &&& batch.run(step).0.log == batch.log + step->Ok_0.commands
        },
{
    match step {
        Err(_) => {
            assert(batch.log.take(batch.log.len() as int) =~= batch.log);
        },
        Ok(step) => {
            lemma_with_all_grows(batch.after_issue(step.issued), step.commands, plain);
        },
    }
}

proof fn lemma_same_grows(batch: BatchModel, plain: bool)
    ensures
        grew(batch, batch, plain),
{
    assert(batch.log.take(batch.log.len() as int) =~= batch.log);
}

/// A kernel whose seventh letter is not that of the fused projections.
proof fn lemma_plain_kernel(kernel: Seq<char>)
    requires
        kernel.len() >= 7 ==> kernel[6] != '3',
    ensures
        !fused_kernel(kernel),
{
    reveal_strlit("matvec3");
    if kernel.len() >= 7 {
        assert(kernel.take(7)[6] == kernel[6]);
    }
}

proof fn lemma_plain_matmul(
    batch: BatchModel,
    tuning: TuningModel,
    input: TensorModel,
    weight: TensorModel,
)
    ensures
        plain_step(gemm::matmul_step(batch, tuning, input, weight)),
{
    let tiling = gemm::matmul_tiling(tuning, input.shape[0], weight.shape[0], input.shape[1]);
    reveal_strlit("matvec_one_row_f16");
    reveal_strlit("matvec_vocab_f16");
    reveal_strlit("matvec_tuned2_f16");
    reveal_strlit("matvec_tuned_f16");
    reveal_strlit("matvec_f16");
    reveal_strlit("matmul_skinny_f16");
    reveal_strlit("matmul_simd_db_f16");
    reveal_strlit("matmul_f16");
    lemma_plain_kernel(tiling.kernel);
}

proof fn lemma_plain_matvec2(
    batch: BatchModel,
    input: TensorModel,
    weight0: TensorModel,
    weight1: TensorModel,
    rows: int,
)
    ensures
        plain_step(gemv::matvec2_step(batch, input, weight0, weight1, rows)),
{
    reveal_strlit("matvec2_tuned_f16");
    reveal_strlit("matvec2_tuned4_f16");
    reveal_strlit("matvec2_tuned8_f16");
    reveal_strlit("matvec2_f16");
    lemma_plain_kernel(gemv::matvec2_kernel(rows));
}

proof fn lemma_plain_add_rms2(
    batch: BatchModel,
    left: TensorModel,
    right: TensorModel,
    norm_weight: TensorModel,
    weight0: TensorModel,
    weight1: TensorModel,
    epsilon: u32,
    rows: int,
)
    ensures
        plain_step(
            fused::add_rms_norm_matmul2_step(
                batch,
                left,
                right,
                norm_weight,
                weight0,
                weight1,
                epsilon,
                rows,
            ),
        ),
{
    reveal_strlit("matvec2_add_rms_r1_f16");
    reveal_strlit("matvec2_add_rms_r4_f16");
    reveal_strlit("matvec2_add_rms_r8_f16");
    reveal_strlit("matvec2_add_rms_f16");
    lemma_plain_kernel(fused::add_rms2_kernel(rows));
}

proof fn lemma_plain_norm(
    batch: BatchModel,
    input: TensorModel,
    other: TensorModel,
    weight: TensorModel,
    epsilon: u32,
)
    ensures
        plain_step(norm::rms_norm_step(batch, input, weight, epsilon)),
        plain_step(norm::add_rms_norm_step(batch, input, other, weight, epsilon)),
{
    reveal_strlit("rms_norm_f16");
    reveal_strlit("add_rms_norm_f16");
    lemma_plain_kernel("rms_norm_f16"@);
    lemma_plain_kernel("add_rms_norm_f16"@);
}

proof fn lemma_plain_elementwise(batch: BatchModel, left: TensorModel, right: TensorModel)
    ensures
        plain_step(elementwise::pairwise_step(batch, "add_f16"@, left, right)),
        plain_step(elementwise::pairwise_step(batch, "swiglu_f16"@, left, right)),
        plain_step(elementwise::embedding_step(batch, left, right)),
{
    reveal_strlit("add_f16");
    reveal_strlit("swiglu_f16");
    reveal_strlit("embedding_f16");
    lemma_plain_kernel("add_f16"@);
    lemma_plain_kernel("swiglu_f16"@);
    lemma_plain_kernel("embedding_f16"@);
}

proof fn lemma_plain_rope(batch: BatchModel, input: TensorModel, offset: usize, theta: u32)
    ensures
        plain_step(rope::rope_step(batch, input, offset, theta)),
{
    reveal_strlit("rope_f16");
    lemma_plain_kernel("rope_f16"@);
}

proof fn lemma_plain_rope_cache(
    batch: BatchModel,
    query: TensorModel,
    key: TensorModel,
    query_norm: TensorModel,
    key_norm: TensorModel,
    key_cache: TensorModel,
    config: QkNormRopeCacheConfig,
)
    ensures
        plain_step(
            rope::qk_norm_rope_cache_step(
                batch,
                query,
                key,
                query_norm,
                key_norm,
                key_cache,
                config,
            ),
        ),
{
    reveal_strlit("qk_norm_rope_cache_f16");
    lemma_plain_kernel("qk_norm_rope_cache_f16"@);
}

proof fn lemma_plain_copy(source: TensorModel, cache: TensorModel, offset: usize)
    ensures
        plain_step(kv::copy_into_cache_step(source, cache, offset)),
        plain_step(kv::copy_row_step(source, cache, offset)),
{
    reveal_strlit("copy_kv_f16");
    lemma_plain_kernel("copy_kv_f16"@);
}

proof fn lemma_plain_argmax(batch: BatchModel, logits: TensorModel, output: TensorModel)
    ensures
        plain_step(sampling::argmax_step(batch, logits, output)),
{
    reveal_strlit("argmax_f16_partial");
    reveal_strlit("argmax_f16_reduce");
    lemma_plain_kernel("argmax_f16_partial"@);
    lemma_plain_kernel("argmax_f16_reduce"@);
}

proof fn lemma_plain_attention(
    batch: BatchModel,
    query: TensorModel,
    key: TensorModel,
    value: TensorModel,
    config: AttentionConfig,
    kind: AttentionKind,
    split: attention::FlashSplit,
)
    ensures
        plain_step(attention::attention_step(batch, query, key, value, config, kind, split)),
{
    reveal_strlit("attention_flash_decode_partial_128_f16");
    reveal_strlit("attention_flash_decode_partial_f16");
    reveal_strlit("attention_flash_decode_reduce_f16");
    reveal_strlit("attention_decode_f16");
    reveal_strlit("attention_flash_prefill_f16");
    reveal_strlit("attention_reference_f16");
    reveal_strlit("attention_tiled_f16");
    lemma_plain_kernel(split.partial_kernel());
    lemma_plain_kernel("attention_flash_decode_reduce_f16"@);
    lemma_plain_kernel(attention::attention_tiling(kind, query.shape[0] as int, config).kernel);
}

proof fn lemma_products_grow(
    batch: BatchModel,
    tuning: TuningModel,
    input: TensorModel,
    weight0: TensorModel,
    weight1: TensorModel,
    weight2: TensorModel,
    plain: bool,
)
    ensures
        grew(batch, gemv::products2(batch, tuning, input, weight0, weight1).0, plain),
        grew(batch, gemv::products3(batch, tuning, input, weight0, weight1, weight2).0, plain),
{
    let first = gemm::matmul_step(batch, tuning, input, weight0);
    let batch1 = batch.run(first).0;
    let second = gemm::matmul_step(batch1, tuning, input, weight1);
    let batch2 = batch1.run(second).0;
    let third = gemm::matmul_step(batch2, tuning, input, weight2);
    lemma_plain_matmul(batch, tuning, input, weight0);
    lemma_plain_matmul(batch1, tuning, input, weight1);
    lemma_plain_matmul(batch2, tuning, input, weight2);
    lemma_run_grows(batch, first, plain);
    lemma_run_grows(batch1, second, plain);
    lemma_run_grows(batch2, third, plain);
    lemma_grew_joins(batch, batch1, batch2, plain);
    lemma_grew_joins(batch, batch2, batch2.run(third).0, plain);
}

/// The first letters of the fused projections.
proof fn lemma_fused_kernels(rows: int)
    ensures
        fused_kernel(gemv::matvec3_kernel(rows)),
        fused_kernel(fused::rms3_kernel(rows)),
{
    reveal_strlit("matvec3");
    reveal_strlit("matvec3_tuned_f16");
    reveal_strlit("matvec3_tuned4_f16");
    reveal_strlit("matvec3_tuned8_f16");
    reveal_strlit("matvec3_f16");
    reveal_strlit("matvec3_rms_r1_f16");
    reveal_strlit("matvec3_rms_r4_f16");
    reveal_strlit("matvec3_rms_r8_f16");
    reveal_strlit("matvec3_rms_f16");
    assert(gemv::matvec3_kernel(rows).take(7) =~= "matvec3"@);
    assert(fused::rms3_kernel(rows).take(7) =~= "matvec3"@);
}

proof fn lemma_qkv_grows(
    net: NetModel,
    batch: BatchModel,
    hidden: TensorModel,
    layer: LayerModel,
)
    ensures
        grew(
            batch,
            forward::qkv_run(net, batch, hidden, layer).0,
            !net.plan.fusions.qkv,
        ),
        net.plan.fusions.qkv && hidden.shape[0] == 1 && forward::qkv_run(
            net,
            batch,
            hidden,
            layer,
        ).1 is Ok ==> got_fused(batch, forward::qkv_run(net, batch, hidden, layer).0),
{
    reveal(forward::qkv_run);
    let plain = !net.plan.fusions.qkv;
    let after = forward::qkv_run(net, batch, hidden, layer);
    if hidden.shape[0] == 1 && net.plan.fusions.decode_norm && net.plan.fusions.qkv {
        let rows = fused::fused_rows(
            net.tuning,
            seq![layer.query.shape[0], layer.key.shape[0], layer.value.shape[0]],
            hidden.shape[1],
        );
        let step = fused::rms_norm_matmul3_step(
            batch,
            hidden,
            layer.input_norm,
            layer.query,
            layer.key,
            layer.value,
            net.config.rms_norm_eps,
            rows,
        );
        lemma_run_grows(batch, step, false);
        lemma_fused_kernels(rows);
        if after.1 is Ok {
            assert(after.0.log[batch.log.len() as int] == step->Ok_0.commands[0]);
        }
    } else {
        let first = norm::rms_norm_step(batch, hidden, layer.input_norm, net.config.rms_norm_eps);
        let batch1 = batch.run(first).0;
        lemma_plain_norm(batch, hidden, hidden, layer.input_norm, net.config.rms_norm_eps);
        lemma_run_grows(batch, first, plain);
        if batch.run(first).1 is Ok {
            let normalized = batch.run(first).1->Ok_0[0];
            lemma_project_grows(net, batch1, normalized, layer);
            lemma_grew_joins(batch, batch1, after.0, plain);
            if net.plan.fusions.qkv && hidden.shape[0] == 1 && after.1 is Ok {
                lemma_fused_later(batch, batch1, after.0);
            }
        }
    }
}

proof fn lemma_project_grows(
    net: NetModel,
    batch: BatchModel,
    normalized: TensorModel,
    layer: LayerModel,
)
    ensures
        grew(
            batch,
            forward::project_run(net, batch, normalized, layer).0,
            !net.plan.fusions.qkv,
        ),
        net.plan.fusions.qkv && normalized.shape[0] == 1 && forward::project_run(
            net,
            batch,
            normalized,
            layer,
        ).1 is Ok ==> got_fused(batch, forward::project_run(net, batch, normalized, layer).0),
{
    let plain = !net.plan.fusions.qkv;
    let after = forward::project_run(net, batch, normalized, layer);
    lemma_products_grow(
        batch,
        net.tuning,
        normalized,
        layer.query,
        layer.key,
        layer.value,
        plain,
    );
    lemma_same_grows(batch, plain);
    if net.plan.fusions.qkv && normalized.shape[0] == 1 {
        let rows = gemv::tuned_rows(net.tuning, normalized.shape[1]);
        let step = gemv::matvec3_step(
            batch,
            normalized,
            layer.query,
            layer.key,
            layer.value,
            rows,
        );
        lemma_run_grows(batch, step, false);
        lemma_fused_kernels(rows);
        if after.1 is Ok {
            assert(after.0.log[batch.log.len() as int] == step->Ok_0.commands[0]);
        }
    }
}

proof fn lemma_rotate_grows(
    net: NetModel,
    batch: BatchModel,
    query: TensorModel,
    key: TensorModel,
    layer: LayerModel,
    key_cache: TensorModel,
    offset: usize,
    plain: bool,
)
    ensures
        grew(
            batch,
            forward::rotate_run(net, batch, query, key, layer, key_cache, offset).0,
            plain,
        ),
{
    let epsilon = net.config.rms_norm_eps;
    let theta = net.config.rope_theta;
    if net.plan.fusions.qk_rope_cache {
        let config = QkNormRopeCacheConfig { offset, theta, epsilon };
        let step = rope::qk_norm_rope_cache_step(
            batch,
            query,
            key,
            layer.query_norm,
            layer.key_norm,
            key_cache,
            config,
        );
        lemma_plain_rope_cache(
            batch,
            query,
            key,
            layer.query_norm,
            layer.key_norm,
            key_cache,
            config,
        );
        lemma_run_grows(batch, step, plain);
    } else {
        let first = norm::rms_norm_step(batch, query, layer.query_norm, epsilon);
        let batch1 = batch.run(first).0;
        lemma_plain_norm(batch, query, query, layer.query_norm, epsilon);
        lemma_run_grows(batch, first, plain);
        if batch.run(first).1 is Ok {
            let normed = batch.run(first).1->Ok_0[0];
            let second = rope::rope_step(batch1, normed, offset, theta);
            let batch2 = batch1.run(second).0;
            lemma_plain_rope(batch1, normed, offset, theta);
            lemma_run_grows(batch1, second, plain);
            lemma_grew_joins(batch, batch1, batch2, plain);
            if batch1.run(second).1 is Ok {
                let rotated = batch1.run(second).1->Ok_0;
                let after = forward::cache_key_run(
                    net,
                    batch2,
                    rotated,
                    key,
                    layer,
                    key_cache,
                    offset,
                ).0;
                lemma_cache_key_grows(net, batch2, rotated, key, layer, key_cache, offset, plain);
                lemma_grew_joins(batch, batch2, after, plain);
            }
        }
    }
}

proof fn lemma_cache_key_grows(
    net: NetModel,
    batch: BatchModel,
    rotated: Seq<TensorModel>,
    key: TensorModel,
    layer: LayerModel,
    key_cache: TensorModel,
    offset: usize,
    plain: bool,
)
    ensures
        grew(
            batch,
            forward::cache_key_run(net, batch, rotated, key, layer, key_cache, offset).0,
            plain,
        ),
{
    let epsilon = net.config.rms_norm_eps;
    let theta = net.config.rope_theta;
    let first = norm::rms_norm_step(batch, key, layer.key_norm, epsilon);
    let batch1 = batch.run(first).0;
    lemma_plain_norm(batch, key, key, layer.key_norm, epsilon);
    lemma_run_grows(batch, first, plain);
    if batch.run(first).1 is Ok {
        let normed = batch.run(first).1->Ok_0[0];
        let second = rope::rope_step(batch1, normed, offset, theta);
        let batch2 = batch1.run(second).0;
        lemma_plain_rope(batch1, normed, offset, theta);
        lemma_run_grows(batch1, second, plain);
        lemma_grew_joins(batch, batch1, batch2, plain);
        if batch1.run(second).1 is Ok {
            let keys = batch1.run(second).1->Ok_0[0];
            let third = kv::copy_into_cache_step(keys, key_cache, offset);
            lemma_plain_copy(keys, key_cache, offset);
            lemma_run_grows(batch2, third, plain);
            lemma_grew_joins(batch, batch2, batch2.run(third).0, plain);
        }
    }
}

proof fn lemma_attend_grows(
    net: NetModel,
    batch: BatchModel,
    query: TensorModel,
    value: TensorModel,
    cache: LayerCacheModel,
    offset: usize,
    active_length: usize,
    tokens: usize,
    plain: bool,
)
    ensures
        grew(
            batch,
            forward::attend_run(
                net,
                batch,
                query,
                value,
                cache,
                offset,
                active_length,
                tokens,
            ).0,
            plain,
        ),
{
    let first = kv::copy_into_cache_step(value, cache.value, offset);
    let batch1 = batch.run(first).0;
    lemma_plain_copy(value, cache.value, offset);
    lemma_run_grows(batch, first, plain);
    let keys = cache.key.prefixed(active_length);
    let values = cache.value.prefixed(active_length);
    if batch.run(first).1 is Ok && keys is Ok && values is Ok {
        let config = forward::attention_config(net, offset);
        let kind = attention::launched_kind(
            planner::attention_kind(
                net.plan.attention,
                tokens,
                active_length,
                net.query_heads_per_kv(),
            ),
            config,
        );
        let split = attention::batch_split(net.tuning, None, keys->Ok_0.shape[0]);
        let second = attention::attention_step(
            batch1,
            query,
            keys->Ok_0,
            values->Ok_0,
            config,
            kind,
            split,
        );
        lemma_plain_attention(batch1, query, keys->Ok_0, values->Ok_0, config, kind, split);
        lemma_run_grows(batch1, second, plain);
        lemma_grew_joins(batch, batch1, batch1.run(second).0, plain);
    }
}

proof fn lemma_attention_grows(
    net: NetModel,
    batch: BatchModel,
    query: TensorModel,
    key: TensorModel,
    value: TensorModel,
    layer: LayerModel,
    cache: LayerCacheModel,
    offset: usize,
    active_length: usize,
    tokens: usize,
    plain: bool,
)
    ensures
        grew(
            batch,
            forward::attention_run(
                net,
                batch,
                query,
                key,
                value,
                layer,
                cache,
                offset,
                active_length,
                tokens,
            ).0,
            plain,
        ),
{
    reveal(forward::attention_run);
    lemma_same_grows(batch, plain);
    let query_shape = forward::heads_shape(
        tokens,
        net.config.num_attention_heads,
        net.config.head_dim,
    );
    let kv_shape = forward::heads_shape(
        tokens,
        net.config.num_key_value_heads,
        net.config.head_dim,
    );
    let queries = query.reshaped(query_shape);
    let keys = key.reshaped(kv_shape);
    let values = value.reshaped(kv_shape);
    if queries is Ok && keys is Ok && values is Ok {
        let rotated = forward::rotate_run(
            net,
            batch,
            queries->Ok_0,
            keys->Ok_0,
            layer,
            cache.key,
            offset,
        );
        lemma_rotate_grows(
            net,
            batch,
            queries->Ok_0,
            keys->Ok_0,
            layer,
            cache.key,
            offset,
            plain,
        );
        if rotated.1 is Ok {
            let query = rotated.1->Ok_0[0];
            let after = forward::attend_run(
                net,
                rotated.0,
                query,
                values->Ok_0,
                cache,
                offset,
                active_length,
                tokens,
            ).0;
            lemma_attend_grows(
                net,
                rotated.0,
                query,
                values->Ok_0,
                cache,
                offset,
                active_length,
                tokens,
                plain,
            );
            lemma_grew_joins(batch, rotated.0, after, plain);
        }
    }
}

proof fn lemma_residual_grows(
    net: NetModel,
    batch: BatchModel,
    hidden: TensorModel,
    attended: TensorModel,
    layer: LayerModel,
    plain: bool,
)
    ensures
        grew(batch, forward::residual_run(net, batch, hidden, attended, layer).0, plain),
{
    let epsilon = net.config.rms_norm_eps;
    if net.plan.fusions.add_rms_norm {
        lemma_plain_norm(batch, hidden, attended, layer.post_attention_norm, epsilon);
        lemma_run_grows(
            batch,
            norm::add_rms_norm_step(
                batch,
                hidden,
                attended,
                layer.post_attention_norm,
                epsilon,
            ),
            plain,
        );
    } else {
        let first = elementwise::pairwise_step(batch, "add_f16"@, hidden, attended);
        let batch1 = batch.run(first).0;
        lemma_plain_elementwise(batch, hidden, attended);
        lemma_run_grows(batch, first, plain);
        if batch.run(first).1 is Ok {
            let residual = batch.run(first).1->Ok_0[0];
            let second = norm::rms_norm_step(
                batch1,
                residual,
                layer.post_attention_norm,
                epsilon,
            );
            lemma_plain_norm(batch1, residual, residual, layer.post_attention_norm, epsilon);
            lemma_run_grows(batch1, second, plain);
            lemma_grew_joins(batch, batch1, batch1.run(second).0, plain);
        }
    }
}

proof fn lemma_gate_up_grows(
    net: NetModel,
    batch: BatchModel,
    hidden: TensorModel,
    attended: TensorModel,
    layer: LayerModel,
    fused_norm: bool,
    plain: bool,
)
    ensures
        grew(
            batch,
            forward::gate_up_run(net, batch, hidden, attended, layer, fused_norm).0,
            plain,
        ),
{
    let epsilon = net.config.rms_norm_eps;
    if fused_norm {
        let rows = fused::fused_rows(
            net.tuning,
            seq![layer.gate.shape[0], layer.up.shape[0], 0usize],
            hidden.shape[1],
        );
        let step = fused::add_rms_norm_matmul2_step(
            batch,
            hidden,
            attended,
            layer.post_attention_norm,
            layer.gate,
            layer.up,
            epsilon,
            rows,
        );
        lemma_plain_add_rms2(
            batch,
            hidden,
            attended,
            layer.post_attention_norm,
            layer.gate,
            layer.up,
            epsilon,
            rows,
        );
        lemma_run_grows(batch, step, plain);
    } else {
        let pair = forward::residual_run(net, batch, hidden, attended, layer);
        lemma_residual_grows(net, batch, hidden, attended, layer, plain);
        if pair.1 is Ok {
            let input = pair.1->Ok_0[1];
            let rows = gemv::tuned_rows(net.tuning, input.shape[1]);
            let step = gemv::matvec2_step(pair.0, input, layer.gate, layer.up, rows);
            lemma_same_grows(pair.0, plain);
            lemma_plain_matvec2(pair.0, input, layer.gate, layer.up, rows);
            lemma_run_grows(pair.0, step, plain);
            lemma_products_grow(
                pair.0,
                net.tuning,
                input,
                layer.gate,
                layer.up,
                layer.up,
                plain,
            );
            lemma_grew_joins(
                batch,
                pair.0,
                forward::gate_up_run(net, batch, hidden, attended, layer, fused_norm).0,
                plain,
            );
        }
    }
}

proof fn lemma_feed_forward_grows(
    net: NetModel,
    batch: BatchModel,
    hidden: TensorModel,
    attended: TensorModel,
    layer: LayerModel,
    fused_norm: bool,
    plain: bool,
)
    ensures
        grew(
            batch,
            forward::feed_forward_run(net, batch, hidden, attended, layer, fused_norm).0,
            plain,
        ),
{
    reveal(forward::feed_forward_run);
    let parts = forward::gate_up_run(net, batch, hidden, attended, layer, fused_norm);
    let batch1 = parts.0;
    lemma_gate_up_grows(net, batch, hidden, attended, layer, fused_norm, plain);
    if parts.1 is Ok {
        let parts = parts.1->Ok_0;
        let second = elementwise::pairwise_step(batch1, "swiglu_f16"@, parts[1], parts[2]);
        let batch2 = batch1.run(second).0;
        lemma_plain_elementwise(batch1, parts[1], parts[2]);
        lemma_run_grows(batch1, second, plain);
        lemma_grew_joins(batch, batch1, batch2, plain);
        if batch1.run(second).1 is Ok {
            let activated = batch1.run(second).1->Ok_0[0];
            let third = gemm::matmul_step(batch2, net.tuning, activated, layer.down);
            let batch3 = batch2.run(third).0;
            lemma_plain_matmul(batch2, net.tuning, activated, layer.down);
            lemma_run_grows(batch2, third, plain);
            lemma_grew_joins(batch, batch2, batch3, plain);
            if batch2.run(third).1 is Ok {
                let down = batch2.run(third).1->Ok_0[0];
                let fourth = elementwise::pairwise_step(batch3, "add_f16"@, parts[0], down);
                lemma_plain_elementwise(batch3, parts[0], down);
                lemma_run_grows(batch3, fourth, plain);
                lemma_grew_joins(batch, batch3, batch3.run(fourth).0, plain);
            }
        }
    }
}

proof fn lemma_layer_grows(
    net: NetModel,
    batch: BatchModel,
    hidden: TensorModel,
    layer: LayerModel,
    cache: LayerCacheModel,
    offset: usize,
    active_length: usize,
)
    ensures
        grew(
            batch,
            forward::layer_run(net, batch, hidden, layer, cache, offset, active_length).0,
            !net.plan.fusions.qkv,
        ),
        net.plan.fusions.qkv && hidden.shape[0] == 1 && forward::layer_run(
            net,
            batch,
            hidden,
            layer,
            cache,
            offset,
            active_length,
        ).1 is Ok ==> got_fused(
            batch,
            forward::layer_run(net, batch, hidden, layer, cache, offset, active_length).0,
        ),
{
    reveal(forward::layer_run);
    let plain = !net.plan.fusions.qkv;
    let tokens = hidden.shape[0];
    let fusions = net.plan.fusions;
    let after = forward::layer_run(net, batch, hidden, layer, cache, offset, active_length).0;
    let qkv = forward::qkv_run(net, batch, hidden, layer);
    let batch1 = qkv.0;
    lemma_qkv_grows(net, batch, hidden, layer);
    if qkv.1 is Ok {
        let qkv = qkv.1->Ok_0;
        let heads = forward::attention_run(
            net,
            batch1,
            qkv[0],
            qkv[1],
            qkv[2],
            layer,
            cache,
            offset,
            active_length,
            tokens,
        );
        let batch2 = heads.0;
        lemma_attention_grows(
            net,
            batch1,
            qkv[0],
            qkv[1],
            qkv[2],
            layer,
            cache,
            offset,
            active_length,
            tokens,
            plain,
        );
        if heads.1 is Ok {
            let joined = heads.1->Ok_0[0].reshaped(
                seq![tokens, net.config.spec_query_width() as usize],
            );
            if joined is Ok {
                let step = gemm::matmul_step(batch2, net.tuning, joined->Ok_0, layer.output);
                let batch3 = batch2.run(step).0;
                lemma_plain_matmul(batch2, net.tuning, joined->Ok_0, layer.output);
                lemma_run_grows(batch2, step, plain);
                lemma_grew_joins(batch1, batch2, batch3, plain);
                if batch2.run(step).1 is Ok {
                    lemma_feed_forward_grows(
                        net,
                        batch3,
                        hidden,
                        batch2.run(step).1->Ok_0[0],
                        layer,
                        tokens == 1 && fusions.decode_norm && fusions.add_rms_norm
                            && fusions.gate_up,
                        plain,
                    );
                    lemma_grew_joins(batch1, batch3, after, plain);
                }
            }
        }
        lemma_grew_joins(batch, batch1, after, plain);
        if fusions.qkv && tokens == 1 {
            lemma_fused_stays(batch, batch1, after);
        }
    }
}

proof fn lemma_layers_grow(
    net: NetModel,
    batch: BatchModel,
    hidden: TensorModel,
    caches: Seq<LayerCacheModel>,
    offset: usize,
    active_length: usize,
    index: int,
)
    ensures
        grew(
            batch,
            forward::layers_run(net, batch, hidden, caches, offset, active_length, index).0,
            !net.plan.fusions.qkv,
        ),
        net.plan.fusions.qkv && hidden.shape[0] == 1 && index < net.layers.len()
            && forward::layers_run(
            net,
            batch,
            hidden,
            caches,
            offset,
            active_length,
            index,
        ).1 is Ok ==> got_fused(
            batch,
            forward::layers_run(net, batch, hidden, caches, offset, active_length, index).0,
        ),
    decreases net.layers.len() - index,
{
    let plain = !net.plan.fusions.qkv;
    if index >= net.layers.len() {
        lemma_same_grows(batch, plain);
    } else {
        let next = forward::layer_run(
            net,
            batch,
            hidden,
            net.layers[index],
            caches[index],
            offset,
            active_length,
        );
        lemma_layer_grows(
            net,
            batch,
            hidden,
            net.layers[index],
            caches[index],
            offset,
            active_length,
        );
        if next.1 is Ok {
            let output = next.1->Ok_0[0];
            let after = forward::layers_run(
                net,
                next.0,
                output,
                caches,
                offset,
                active_length,
                index + 1,
            ).0;
            lemma_layers_grow(net, next.0, output, caches, offset, active_length, index + 1);
            lemma_grew_joins(batch, next.0, after, plain);
            if net.plan.fusions.qkv && hidden.shape[0] == 1 {
                lemma_fused_stays(batch, next.0, after);
            }
        }
    }
}

proof fn lemma_logits_grow(
    net: NetModel,
    batch: BatchModel,
    hidden: TensorModel,
    tokens: usize,
    argmax_output: Option<TensorModel>,
    plain: bool,
)
    ensures
        grew(batch, forward::logits_run(net, batch, hidden, tokens, argmax_output).0, plain),
{
    let epsilon = net.config.rms_norm_eps;
    let first = norm::rms_norm_step(batch, hidden, net.final_norm, epsilon);
    let batch1 = batch.run(first).0;
    lemma_plain_norm(batch, hidden, hidden, net.final_norm, epsilon);
    lemma_run_grows(batch, first, plain);
    if batch.run(first).1 is Ok {
        let last = batch.run(first).1->Ok_0[0].row_at((tokens - 1) as usize);
        if last is Ok {
            let second = gemm::matmul_step(batch1, net.tuning, last->Ok_0, net.lm_head);
            let batch2 = batch1.run(second).0;
            lemma_plain_matmul(batch1, net.tuning, last->Ok_0, net.lm_head);
            lemma_run_grows(batch1, second, plain);
            lemma_grew_joins(batch, batch1, batch2, plain);
            if batch1.run(second).1 is Ok && argmax_output is Some {
                let logits = batch1.run(second).1->Ok_0;
                let vector = logits[0].reshaped(seq![logits[0].len() as usize]);
                if vector is Ok {
                    let output = argmax_output->Some_0;
                    let third = sampling::argmax_step(batch2, vector->Ok_0, output);
                    lemma_plain_argmax(batch2, vector->Ok_0, output);
                    lemma_run_grows(batch2, third, plain);
                    lemma_grew_joins(batch, batch2, batch2.run(third).0, plain);
                }
            }
        }
    }
}

/// Whatever comes of a forward pass, the commands that its batch held stay as
/// they are; the pass only adds commands behind them. Without the fusion of the
/// projections no pass launches a fused projection, and with it every pass over
/// one token that succeeds does.
pub proof fn the_qkv_fusion_decides_the_kernels(
    net: NetModel,
    batch: BatchModel,
    tokens: TensorModel,
    cache: KvCacheModel,
    argmax_output: Option<TensorModel>,
)
    ensures
        grew(
            batch,
            forward::forward_run(net, batch, tokens, cache, argmax_output).0,
            !net.plan.fusions.qkv,
        ),
        net.plan.fusions.qkv && tokens.shape[0] == 1 && net.layers.len() > 0
            && forward::forward_run(net, batch, tokens, cache, argmax_output).1 is Ok ==> got_fused(
            batch,
            forward::forward_run(net, batch, tokens, cache, argmax_output).0,
        ),
{
    let plain = !net.plan.fusions.qkv;
    lemma_same_grows(batch, plain);
    let reserved = cache.reserved(tokens.shape[0]);
    let first = elementwise::embedding_step(batch, tokens, net.embedding);
    let batch1 = batch.run(first).0;
    lemma_plain_elementwise(batch, tokens, net.embedding);
    lemma_run_grows(batch, first, plain);
    if batch.run(first).1 is Ok && reserved is Some {
        let hidden = batch.run(first).1->Ok_0[0];
        let layers = forward::layers_run(
            net,
            batch1,
            hidden,
            cache.layers,
            cache.filled,
            reserved->Some_0,
            0,
        );
        lemma_layers_grow(
            net,
            batch1,
            hidden,
            cache.layers,
            cache.filled,
            reserved->Some_0,
            0,
        );
        lemma_grew_joins(batch, batch1, layers.0, plain);
        if layers.1 is Ok {
            let output = layers.1->Ok_0[0];
            let after = forward::logits_run(
                net,
                layers.0,
                output,
                tokens.shape[0],
                argmax_output,
            ).0;
            lemma_logits_grow(net, layers.0, output, tokens.shape[0], argmax_output, plain);
            lemma_grew_joins(batch, layers.0, after, plain);
            if net.plan.fusions.qkv && tokens.shape[0] == 1 && net.layers.len() > 0 {
                lemma_fused_later(batch, batch1, layers.0);
                lemma_fused_stays(batch, layers.0, after);
            }
        }
    }
}

proof fn lemma_row_grows(
    net: NetModel,
    batch: BatchModel,
    query: TensorModel,
    key: TensorModel,
    value: TensorModel,
    layer: LayerModel,
    cache: KvCacheModel,
    index: int,
    rows: TensorModel,
    row: usize,
    plain: bool,
)
    ensures
        grew(
            batch,
            decode_batch::row_run(
                net,
                batch,
                query,
                key,
                value,
                layer,
                cache,
                index,
                rows,
                row,
            ).0,
            plain,
        ),
{
    lemma_same_grows(batch, plain);
    let config = net.config;
    let queries = decode_batch::row_heads(query, row, config.num_attention_heads, config.head_dim);
    let keys = decode_batch::row_heads(key, row, config.num_key_value_heads, config.head_dim);
    let values = decode_batch::row_heads(value, row, config.num_key_value_heads, config.head_dim);
    if index < cache.layers.len() && queries is Ok && keys is Ok && values is Ok {
        let own = cache.layers[index];
        let length = (cache.filled + 1) as usize;
        let rotated = forward::rotate_run(
            net,
            batch,
            queries->Ok_0,
            keys->Ok_0,
            layer,
            own.key,
            cache.filled,
        );
        lemma_rotate_grows(
            net,
            batch,
            queries->Ok_0,
            keys->Ok_0,
            layer,
            own.key,
            cache.filled,
            plain,
        );
        if rotated.1 is Ok {
            let query = rotated.1->Ok_0[0];
            let attended = forward::attend_run(
                net,
                rotated.0,
                query,
                values->Ok_0,
                own,
                cache.filled,
                length,
                1,
            );
            lemma_attend_grows(
                net,
                rotated.0,
                query,
                values->Ok_0,
                own,
                cache.filled,
                length,
                1,
                plain,
            );
            lemma_grew_joins(batch, rotated.0, attended.0, plain);
            if attended.1 is Ok {
                let joined = attended.1->Ok_0[0].reshaped(
                    seq![1usize, config.spec_query_width() as usize],
                );
                if joined is Ok {
                    let step = kv::copy_row_step(joined->Ok_0, rows, row);
                    lemma_plain_copy(joined->Ok_0, rows, row);
                    lemma_run_grows(attended.0, step, plain);
                    lemma_grew_joins(batch, attended.0, attended.0.run(step).0, plain);
                }
            }
        }
    }
}

proof fn lemma_rows_grow(
    net: NetModel,
    batch: BatchModel,
    query: TensorModel,
    key: TensorModel,
    value: TensorModel,
    layer: LayerModel,
    caches: Seq<KvCacheModel>,
    index: int,
    rows: TensorModel,
    row: int,
    plain: bool,
)
    ensures
        grew(
            batch,
            decode_batch::rows_run(
                net,
                batch,
                query,
                key,
                value,
                layer,
                caches,
                index,
                rows,
                row,
            ).0,
            plain,
        ),
    decreases caches.len() - row,
{
    if row >= caches.len() {
        lemma_same_grows(batch, plain);
    } else {
        let done = decode_batch::row_run(
            net,
            batch,
            query,
            key,
            value,
            layer,
            caches[row],
            index,
            rows,
            row as usize,
        );
        lemma_row_grows(
            net,
            batch,
            query,
            key,
            value,
            layer,
            caches[row],
            index,
            rows,
            row as usize,
            plain,
        );
        if done.1 is Ok {
            let after = decode_batch::rows_run(
                net,
                done.0,
                query,
                key,
                value,
                layer,
                caches,
                index,
                rows,
                row + 1,
            ).0;
            lemma_rows_grow(
                net,
                done.0,
                query,
                key,
                value,
                layer,
                caches,
                index,
                rows,
                row + 1,
                plain,
            );
            lemma_grew_joins(batch, done.0, after, plain);
        }
    }
}

proof fn lemma_batch_layer_grows(
    net: NetModel,
    batch: BatchModel,
    hidden: TensorModel,
    caches: Seq<KvCacheModel>,
    index: int,
)
    ensures
        grew(
            batch,
            decode_batch::batch_layer_run(net, batch, hidden, caches, index).0,
            !net.plan.fusions.qkv,
        ),
{
    reveal(decode_batch::batch_layer_run);
    let plain = !net.plan.fusions.qkv;
    let layer = net.layers[index];
    let epsilon = net.config.rms_norm_eps;
    let first = norm::rms_norm_step(batch, hidden, layer.input_norm, epsilon);
    lemma_plain_norm(batch, hidden, hidden, layer.input_norm, epsilon);
    lemma_run_grows(batch, first, plain);
    let batch1 = batch.run(first).0;
    let qkv = forward::norm_project_run(net, batch, hidden, layer);
    if batch.run(first).1 is Ok {
        lemma_project_grows(net, batch1, batch.run(first).1->Ok_0[0], layer);
        lemma_grew_joins(batch, batch1, qkv.0, plain);
    }
    let shape = seq![caches.len() as usize, net.config.spec_query_width() as usize];
    if qkv.1 is Ok && recorder::allocation_error(shape, DType::F16) is None {
        let parts = qkv.1->Ok_0;
        let rows = qkv.0.fresh(0, shape, DType::F16);
        let batch2 = qkv.0.after_issue(1);
        let done = decode_batch::rows_run(
            net,
            batch2,
            parts[0],
            parts[1],
            parts[2],
            layer,
            caches,
            index,
            rows,
            0,
        );
        lemma_rows_grow(
            net,
            batch2,
            parts[0],
            parts[1],
            parts[2],
            layer,
            caches,
            index,
            rows,
            0,
            plain,
        );
        assert(grew(qkv.0, done.0, plain));
        lemma_grew_joins(batch, qkv.0, done.0, plain);
        if done.1 is Ok {
            let step = gemm::matmul_step(done.0, net.tuning, rows, layer.output);
            lemma_plain_matmul(done.0, net.tuning, rows, layer.output);
            lemma_run_grows(done.0, step, plain);
            let batch3 = done.0.run(step).0;
            lemma_grew_joins(batch, done.0, batch3, plain);
            if done.0.run(step).1 is Ok {
                let attended = done.0.run(step).1->Ok_0[0];
                let after = forward::feed_forward_run(
                    net,
                    batch3,
                    hidden,
                    attended,
                    layer,
                    false,
                ).0;
                lemma_feed_forward_grows(net, batch3, hidden, attended, layer, false, plain);
                lemma_grew_joins(batch, batch3, after, plain);
            }
        }
    }
}

proof fn lemma_batch_layers_grow(
    net: NetModel,
    batch: BatchModel,
    hidden: TensorModel,
    caches: Seq<KvCacheModel>,
    index: int,
)
    ensures
        grew(
            batch,
            decode_batch::batch_layers_run(net, batch, hidden, caches, index).0,
            !net.plan.fusions.qkv,
        ),
    decreases net.layers.len() - index,
{
    let plain = !net.plan.fusions.qkv;
    if index >= net.layers.len() {
        lemma_same_grows(batch, plain);
    } else {
        let next = decode_batch::batch_layer_run(net, batch, hidden, caches, index);
        lemma_batch_layer_grows(net, batch, hidden, caches, index);
        if next.1 is Ok {
            let output = next.1->Ok_0[0];
            lemma_batch_layers_grow(net, next.0, output, caches, index + 1);
            lemma_grew_joins(
                batch,
                next.0,
                decode_batch::batch_layers_run(net, next.0, output, caches, index + 1).0,
                plain,
            );
        }
    }
}

/// Decoding a batch of sequences only adds commands, too, and without the
/// fusion of the projections it launches no fused projection.
pub proof fn batches_project_apart_without_the_fusion(
    net: NetModel,
    batch: BatchModel,
    input: TensorModel,
    caches: Seq<KvCacheModel>,
)
    ensures
        grew(
            batch,
            decode_batch::decode_batch_run(net, batch, input, caches).0,
            !net.plan.fusions.qkv,
        ),
{
    let plain = !net.plan.fusions.qkv;
    let epsilon = net.config.rms_norm_eps;
    let first = elementwise::embedding_step(batch, input, net.embedding);
    lemma_plain_elementwise(batch, input, net.embedding);
    lemma_run_grows(batch, first, plain);
    let batch1 = batch.run(first).0;
    if batch.run(first).1 is Ok {
        let hidden = batch.run(first).1->Ok_0[0];
        let layers = decode_batch::batch_layers_run(net, batch1, hidden, caches, 0);
        lemma_batch_layers_grow(net, batch1, hidden, caches, 0);
        lemma_grew_joins(batch, batch1, layers.0, plain);
        if layers.1 is Ok {
            let output = layers.1->Ok_0[0];
            let second = norm::rms_norm_step(layers.0, output, net.final_norm, epsilon);
            lemma_plain_norm(layers.0, output, output, net.final_norm, epsilon);
            lemma_run_grows(layers.0, second, plain);
            let batch2 = layers.0.run(second).0;
            lemma_grew_joins(batch, layers.0, batch2, plain);
            if layers.0.run(second).1 is Ok {
                let normalized = layers.0.run(second).1->Ok_0[0];
                let third = gemm::matmul_step(batch2, net.tuning, normalized, net.lm_head);
                lemma_plain_matmul(batch2, net.tuning, normalized, net.lm_head);
                lemma_run_grows(batch2, third, plain);
                lemma_grew_joins(batch, batch2, batch2.run(third).0, plain);
            }
        }
    }
}

} // verus!
