//! What a pass computes.

use crate::gpu::command::CommandModel;
use crate::gpu::memory;
use crate::gpu::recorder::{self, BatchModel};
use crate::gpu::tensor::{self, DType, Place, TensorModel};
use crate::gpu::values::{self, Content};
use crate::ops::values as results;
use crate::ops::{attention, elementwise, fused, gemm, kv, norm, rope, sampling};
use crate::ops::QkNormRopeCacheConfig;
use crate::planner;
use crate::qwen3::forward::{self, Run};
use crate::qwen3::kv_cache::{self, KvCacheModel, LayerCacheModel};
use crate::qwen3::layers::LayerModel;
use crate::qwen3::model::NetModel;
use crate::qwen3::operands;
use crate::qwen3::passes;
use vstd::prelude::*;

verus! {

/// Rows times the transpose of a weight that lies where a log left it.
pub open spec fn dense(
    log: Seq<CommandModel>,
    input: Content,
    rows: int,
    weight: TensorModel,
) -> Content {
    values::product(
        input,
        values::read(log, weight.operand()),
        rows,
        weight.shape[0] as int,
        weight.shape[1] as int,
    )
}

/// Rows, normalised with a weight that lies where a log left it.
pub open spec fn scaled(
    net: NetModel,
    log: Seq<CommandModel>,
    input: Content,
    rows: int,
    weight: TensorModel,
) -> Content {
    values::normed(
        input,
        values::read(log, weight.operand()),
        rows,
        weight.shape[0] as int,
        net.config.rms_norm_eps,
    )
}

/// Projected heads, normalised and turned by their positions.
pub open spec fn turned(
    net: NetModel,
    log: Seq<CommandModel>,
    projection: Content,
    tokens: int,
    heads: int,
    weight: TensorModel,
    offset: int,
) -> Content {
    values::rotated(
        scaled(net, log, projection, tokens * heads, weight),
        tokens,
        heads,
        net.config.head_dim as int,
        offset,
        net.config.rope_theta,
    )
}

/// The keys of a cache with those of the tokens written over them, normalised and turned.
pub open spec fn with_keys(
    net: NetModel,
    log: Seq<CommandModel>,
    layer: LayerModel,
    cache: LayerCacheModel,
    key: Content,
    tokens: int,
    offset: int,
) -> Content {
    let kv_heads = net.config.num_key_value_heads as int;
    values::written(
        values::read(log, cache.key.operand()),
        turned(net, log, key, tokens, kv_heads, layer.key_norm, offset),
        tokens,
        offset,
        kv_heads * net.config.head_dim,
    )
}

/// The values of a cache with those of the tokens written over them as they are.
pub open spec fn with_values(
    net: NetModel,
    log: Seq<CommandModel>,
    cache: LayerCacheModel,
    value: Content,
    tokens: int,
    offset: int,
) -> Content {
    values::written(
        values::read(log, cache.value.operand()),
        value,
        tokens,
        offset,
        net.config.num_key_value_heads * net.config.head_dim,
    )
}

/// Attention over a cache that got the keys and the values of the tokens.
pub open spec fn attended(
    net: NetModel,
    log: Seq<CommandModel>,
    layer: LayerModel,
    cache: LayerCacheModel,
    query: Content,
    key: Content,
    value: Content,
    tokens: int,
    offset: int,
    length: int,
) -> Content {
    let query_heads = net.config.num_attention_heads as int;
    let kv_heads = net.config.num_key_value_heads as int;
    let head_dim = net.config.head_dim as int;
    Content::Attended {
        query: Box::new(turned(net, log, query, tokens, query_heads, layer.query_norm, offset)),
        keys: Box::new(with_keys(net, log, layer, cache, key, tokens, offset)),
        values: Box::new(with_values(net, log, cache, value, tokens, offset)),
        tokens,
        query_heads,
        kv_heads,
        head_dim,
        causal: true,
        offset,
        length,
    }
}

/// The second half of a layer.
pub open spec fn fed_forward(
    net: NetModel,
    log: Seq<CommandModel>,
    layer: LayerModel,
    hidden: Content,
    attended: Content,
    rows: int,
) -> Content {
    let total = values::sum(hidden, attended);
    let normal = scaled(net, log, total, rows, layer.post_attention_norm);
    let gate = dense(log, normal, rows, layer.gate);
    let up = dense(log, normal, rows, layer.up);
    values::sum(total, dense(log, values::gated(gate, up), rows, layer.down))
}

/// A layer over tokens that follow `offset` others.
pub open spec fn layer_content(
    net: NetModel,
    log: Seq<CommandModel>,
    layer: LayerModel,
    cache: LayerCacheModel,
    hidden: Content,
    tokens: int,
    offset: int,
    length: int,
) -> Content {
    let normal = scaled(net, log, hidden, tokens, layer.input_norm);
    let heads = attended(
        net,
        log,
        layer,
        cache,
        dense(log, normal, tokens, layer.query),
        dense(log, normal, tokens, layer.key),
        dense(log, normal, tokens, layer.value),
        tokens,
        offset,
        length,
    );
    fed_forward(net, log, layer, hidden, dense(log, heads, tokens, layer.output), tokens)
}

/// Whether a cache holds the keys and the values of a layer over tokens that follow
/// `offset` others, each over what it held where a log left it.
pub open spec fn cached(
    net: NetModel,
    log: Seq<CommandModel>,
    after: BatchModel,
    layer: LayerModel,
    cache: LayerCacheModel,
    hidden: Content,
    tokens: int,
    offset: int,
) -> bool {
    let normal = scaled(net, log, hidden, tokens, layer.input_norm);
    &&& values::value(after, cache.key) == with_keys(
        net,
        log,
        layer,
        cache,
        dense(log, normal, tokens, layer.key),
        tokens,
        offset,
    )
    &&& values::value(after, cache.value) == with_values(
        net,
        log,
        cache,
        dense(log, normal, tokens, layer.value),
        tokens,
        offset,
    )
}

/// The first `count` layers.
pub open spec fn layers_content(
    net: NetModel,
    log: Seq<CommandModel>,
    caches: Seq<LayerCacheModel>,
    hidden: Content,
    tokens: int,
    offset: int,
    length: int,
    count: int,
) -> Content
    decreases count,
{
    if count <= 0 {
        hidden
    } else {
        layer_content(
            net,
            log,
            net.layers[count - 1],
            caches[count - 1],
            layers_content(net, log, caches, hidden, tokens, offset, length, count - 1),
            tokens,
            offset,
            length,
        )
    }
}

/// The logits of a pass: the embedding of the tokens goes through the layers and the
/// final norm, and the last of its rows is projected by the head.
pub open spec fn pass_content(
    net: NetModel,
    log: Seq<CommandModel>,
    tokens: TensorModel,
    cache: KvCacheModel,
) -> Content {
    let count = tokens.shape[0] as int;
    let width = net.embedding.shape[1] as int;
    let embedded = Content::Embedded {
        ids: Box::new(values::read(log, tokens.operand())),
        table: Box::new(values::read(log, net.embedding.operand())),
        count,
        width,
    };
    let hidden = layers_content(
        net,
        log,
        cache.layers,
        embedded,
        count,
        cache.filled as int,
        cache.filled + count,
        net.layers.len() as int,
    );
    let normal = scaled(net, log, hidden, count, net.final_norm);
    dense(log, values::part(normal, (count - 1) * width * 2), 1, net.lm_head)
}

/// Whether a batch made a new tensor on the way to another one.
pub open spec fn made(
    before: BatchModel,
    after: BatchModel,
    tensor: TensorModel,
    shape: Seq<usize>,
    content: Content,
) -> bool {
    &&& values::known(after, tensor.place)
    &&& !values::known(before, tensor.place)
    &&& tensor.place is Scratch
    &&& tensor.offset == 0
    &&& tensor.dtype == DType::F16
    &&& tensor.shape == shape
    &&& values::fills(after, tensor, content)
}

pub proof fn lemma_made_moves(
    first: BatchModel,
    before: BatchModel,
    after: BatchModel,
    last: BatchModel,
    targets: Set<Place>,
    more: Set<Place>,
    tensor: TensorModel,
    shape: Seq<usize>,
    content: Content,
)
    requires
        values::kept(first, before, targets),
        values::kept(after, last, more),
        made(before, after, tensor, shape, content),
        !more.contains(tensor.place),
    ensures
        made(first, last, tensor, shape, content),
{
    values::lemma_keeps_filled(after, last, more, tensor, content);
    if values::known(first, tensor.place) {
        values::lemma_still_known(first, before, targets, tensor.place);
    }
}

/// Whether projections of a layer came out.
pub open spec fn projected(
    net: NetModel,
    batch: BatchModel,
    run: Run,
    hidden: TensorModel,
    layer: LayerModel,
) -> bool {
    let rows = hidden.shape[0];
    let normal = scaled(
        net,
        batch.log,
        values::value(batch, hidden),
        rows as int,
        layer.input_norm,
    );
    &&& run.1->Ok_0.len() == 3
    &&& made(
        batch,
        run.0,
        run.1->Ok_0[0],
        seq![rows, layer.query.shape[0]],
        dense(batch.log, normal, rows as int, layer.query),
    )
    &&& made(
        batch,
        run.0,
        run.1->Ok_0[1],
        seq![rows, layer.key.shape[0]],
        dense(batch.log, normal, rows as int, layer.key),
    )
    &&& made(
        batch,
        run.0,
        run.1->Ok_0[2],
        seq![rows, layer.value.shape[0]],
        dense(batch.log, normal, rows as int, layer.value),
    )
    &&& recorder::allocation_error(run.1->Ok_0[0].shape, DType::F16) is None
    &&& recorder::allocation_error(run.1->Ok_0[1].shape, DType::F16) is None
    &&& recorder::allocation_error(run.1->Ok_0[2].shape, DType::F16) is None
    &&& values::kept(batch, run.0, Set::empty())
}

pub proof fn lemma_norm_project(
    net: NetModel,
    batch: BatchModel,
    hidden: TensorModel,
    layer: LayerModel,
)
    requires
        forward::norm_project_run(net, batch, hidden, layer).1 is Ok,
        values::known(batch, hidden.place),
        layer.on_device(),
        hidden.shape.len() == 2,
    ensures
        projected(net, batch, forward::norm_project_run(net, batch, hidden, layer), hidden, layer),
{
    let none = Set::<Place>::empty();
    let run = forward::norm_project_run(net, batch, hidden, layer);
    let step = norm::rms_norm_step(batch, hidden, layer.input_norm, net.config.rms_norm_eps);
    let (batch1, normalized) = batch.run(step);
    results::norm_value(batch, hidden, layer.input_norm, net.config.rms_norm_eps);
    operands::lemma_ran(batch, step);
    assert(hidden.shape =~= seq![hidden.shape[0], hidden.shape[1]]);
    operands::lemma_rows(hidden.shape[0], hidden.shape[1]);
    let input = normalized->Ok_0[0];
    values::lemma_keeps(batch, batch1, none, layer.query);
    values::lemma_keeps(batch, batch1, none, layer.key);
    values::lemma_keeps(batch, batch1, none, layer.value);
    if net.plan.fusions.qkv {
        results::matmul3_value(batch1, net.tuning, input, layer.query, layer.key, layer.value);
    } else {
        results::products3_value(batch1, net.tuning, input, layer.query, layer.key, layer.value);
    }
    values::lemma_kept_joins(batch, batch1, run.0, none);
    if values::known(batch, run.1->Ok_0[0].place) {
        values::lemma_still_known(batch, batch1, none, run.1->Ok_0[0].place);
    }
    if values::known(batch, run.1->Ok_0[1].place) {
        values::lemma_still_known(batch, batch1, none, run.1->Ok_0[1].place);
    }
    if values::known(batch, run.1->Ok_0[2].place) {
        values::lemma_still_known(batch, batch1, none, run.1->Ok_0[2].place);
    }
}

/// The projections of a layer are those of its normalised input, whatever is fused.
pub proof fn lemma_qkv(net: NetModel, batch: BatchModel, hidden: TensorModel, layer: LayerModel)
    requires
        forward::qkv_run(net, batch, hidden, layer).1 is Ok,
        values::known(batch, hidden.place),
        layer.on_device(),
        hidden.shape.len() == 2,
    ensures
        projected(net, batch, forward::qkv_run(net, batch, hidden, layer), hidden, layer),
{
    reveal(forward::qkv_run);
    if hidden.shape[0] == 1 && net.plan.fusions.decode_norm && net.plan.fusions.qkv {
        let rows = fused::fused_rows(
            net.tuning,
            seq![layer.query.shape[0], layer.key.shape[0], layer.value.shape[0]],
            hidden.shape[1],
        );
        results::norm_matmul3_value(
            batch,
            hidden,
            layer.input_norm,
            layer.query,
            layer.key,
            layer.value,
            net.config.rms_norm_eps,
            rows,
        );
    } else {
        lemma_norm_project(net, batch, hidden, layer);
    }
}

proof fn lemma_head_rows(tokens: usize, heads: usize, head_dim: usize)
    requires
        head_dim > 0,
    ensures
        tensor::elements(forward::heads_shape(tokens, heads, head_dim)) as int / head_dim as int
            == tokens * heads,
{
    tensor::lemma_elements_three(tokens, heads, head_dim);
    let rows = tokens * heads;
    vstd::arithmetic::div_mod::lemma_div_multiples_vanish(rows, head_dim as int);
    assert(rows * head_dim == head_dim * rows) by (nonlinear_arith);
}

/// Whether queries came out turned and the keys of the same tokens in the cache.
pub open spec fn turned_and_cached(
    net: NetModel,
    batch: BatchModel,
    run: Run,
    query: TensorModel,
    key: TensorModel,
    layer: LayerModel,
    key_cache: TensorModel,
    tokens: usize,
    offset: usize,
) -> bool {
    let query_heads = net.config.num_attention_heads as int;
    let kv_heads = net.config.num_key_value_heads as int;
    &&& run.1->Ok_0.len() == 1
    &&& made(
        batch,
        run.0,
        run.1->Ok_0[0],
        query.shape,
        turned(
            net,
            batch.log,
            values::value(batch, query),
            tokens as int,
            query_heads,
            layer.query_norm,
            offset as int,
        ),
    )
    &&& values::value(run.0, key_cache) == values::written(
        values::value(batch, key_cache),
        turned(
            net,
            batch.log,
            values::value(batch, key),
            tokens as int,
            kv_heads,
            layer.key_norm,
            offset as int,
        ),
        tokens as int,
        offset as int,
        kv_heads * net.config.head_dim,
    )
    &&& values::kept(batch, run.0, set![key_cache.place])
}

proof fn lemma_cache_key(
    net: NetModel,
    batch: BatchModel,
    rotated: Seq<TensorModel>,
    key: TensorModel,
    layer: LayerModel,
    key_cache: TensorModel,
    tokens: usize,
    offset: usize,
)
    requires
        forward::cache_key_run(net, batch, rotated, key, layer, key_cache, offset).1 is Ok,
        key.shape == forward::heads_shape(
            tokens,
            net.config.num_key_value_heads,
            net.config.head_dim,
        ),
        key_cache.on_device(),
    ensures
        ({
            let run = forward::cache_key_run(net, batch, rotated, key, layer, key_cache, offset);
            let kv_heads = net.config.num_key_value_heads as int;
            &&& run.1->Ok_0 == rotated
            &&& values::value(run.0, key_cache) == values::written(
                values::value(batch, key_cache),
                turned(
                    net,
                    batch.log,
                    values::value(batch, key),
                    tokens as int,
                    kv_heads,
                    layer.key_norm,
                    offset as int,
                ),
                tokens as int,
                offset as int,
                kv_heads * net.config.head_dim,
            )
            &&& values::kept(batch, run.0, set![key_cache.place])
        }),
{
    let none = Set::<Place>::empty();
    let targets = set![key_cache.place];
    let epsilon = net.config.rms_norm_eps;
    let theta = net.config.rope_theta;
    let step = norm::rms_norm_step(batch, key, layer.key_norm, epsilon);
    let (batch1, normed) = batch.run(step);
    operands::lemma_ran(batch, step);
    results::norm_value(batch, key, layer.key_norm, epsilon);
    assert(key.shape[2] > 0);
    lemma_head_rows(tokens, net.config.num_key_value_heads, net.config.head_dim);
    let (batch2, keys) = batch1.run(rope::rope_step(batch1, normed->Ok_0[0], offset, theta));
    results::rope_value(batch1, normed->Ok_0[0], offset, theta);
    let (batch3, copied) = batch2.run(kv::copy_into_cache_step(keys->Ok_0[0], key_cache, offset));
    results::cache_copy_value(batch2, keys->Ok_0[0], key_cache, offset);
    values::lemma_kept_joins(batch, batch1, batch2, none);
    values::lemma_keeps(batch, batch2, none, key_cache);
    values::lemma_kept_wider(batch, batch2, none, targets);
    values::lemma_kept_joins(batch, batch2, batch3, targets);
}

/// Queries and keys are normalised and turned alike, whatever is fused.
pub proof fn lemma_rotate(
    net: NetModel,
    batch: BatchModel,
    query: TensorModel,
    key: TensorModel,
    layer: LayerModel,
    key_cache: TensorModel,
    tokens: usize,
    offset: usize,
)
    requires
        forward::rotate_run(net, batch, query, key, layer, key_cache, offset).1 is Ok,
        query.shape == forward::heads_shape(
            tokens,
            net.config.num_attention_heads,
            net.config.head_dim,
        ),
        key.shape == forward::heads_shape(
            tokens,
            net.config.num_key_value_heads,
            net.config.head_dim,
        ),
        values::known(batch, key.place),
        layer.on_device(),
        key_cache.on_device(),
    ensures
        turned_and_cached(
            net,
            batch,
            forward::rotate_run(net, batch, query, key, layer, key_cache, offset),
            query,
            key,
            layer,
            key_cache,
            tokens,
            offset,
        ),
{
    let none = Set::<Place>::empty();
    let targets = set![key_cache.place];
    let epsilon = net.config.rms_norm_eps;
    let theta = net.config.rope_theta;
    let run = forward::rotate_run(net, batch, query, key, layer, key_cache, offset);
    if net.plan.fusions.qk_rope_cache {
        let config = QkNormRopeCacheConfig { offset, theta, epsilon };
        let step = rope::qk_norm_rope_cache_step(
            batch,
            query,
            key,
            layer.query_norm,
            layer.key_norm,
            key_cache,
            config,
        );
        operands::lemma_ran(batch, step);
        results::qk_transform_value(
            batch,
            query,
            key,
            layer.query_norm,
            layer.key_norm,
            key_cache,
            config,
        );
    } else {
        let step = norm::rms_norm_step(batch, query, layer.query_norm, epsilon);
        let (batch1, normed) = batch.run(step);
        operands::lemma_ran(batch, step);
        results::norm_value(batch, query, layer.query_norm, epsilon);
        assert(query.shape[2] > 0);
        lemma_head_rows(tokens, net.config.num_attention_heads, net.config.head_dim);
        let (batch2, rotated) = batch1.run(rope::rope_step(batch1, normed->Ok_0[0], offset, theta));
        results::rope_value(batch1, normed->Ok_0[0], offset, theta);
        values::lemma_kept_joins(batch, batch1, batch2, none);
        values::lemma_keeps(batch, batch2, none, key_cache);
        values::lemma_keeps(batch, batch2, none, key);
        values::lemma_keeps(batch, batch2, none, layer.key_norm);
        lemma_cache_key(net, batch2, rotated->Ok_0, key, layer, key_cache, tokens, offset);
        values::lemma_kept_wider(batch, batch2, none, targets);
        values::lemma_kept_joins(batch, batch2, run.0, targets);
        values::lemma_kept_wider(batch, batch1, none, targets);
        lemma_made_moves(
            batch,
            batch1,
            batch2,
            run.0,
            none,
            targets,
            rotated->Ok_0[0],
            query.shape,
            turned(
                net,
                batch.log,
                values::value(batch, query),
                tokens as int,
                net.config.num_attention_heads as int,
                layer.query_norm,
                offset as int,
            ),
        );
    }
}

/// The values go to their cache, and the queries attend to the keys of the cache of
/// the keys and to the values of the cache of the values.
pub proof fn lemma_attend(
    net: NetModel,
    batch: BatchModel,
    query: TensorModel,
    value: TensorModel,
    cache: LayerCacheModel,
    offset: usize,
    active_length: usize,
    tokens: usize,
)
    requires
        forward::attend_run(
            net,
            batch,
            query,
            value,
            cache,
            offset,
            active_length,
            tokens,
        ).1 is Ok,
        query.shape.len() == 3,
        query.shape[0] == tokens,
        value.shape == forward::heads_shape(
            tokens,
            net.config.num_key_value_heads,
            net.config.head_dim,
        ),
        values::known(batch, query.place),
        query.place is Scratch,
        cache.on_device(),
        cache.key.place != cache.value.place,
    ensures
        ({
            let run = forward::attend_run(
                net,
                batch,
                query,
                value,
                cache,
                offset,
                active_length,
                tokens,
            );
            let kv_heads = net.config.num_key_value_heads as int;
            &&& run.1->Ok_0.len() == 1
            &&& made(
                batch,
                run.0,
                run.1->Ok_0[0],
                query.shape,
                Content::Attended {
                    query: Box::new(values::value(batch, query)),
                    keys: Box::new(values::value(batch, cache.key)),
                    values: Box::new(
                        values::written(
                            values::value(batch, cache.value),
                            values::value(batch, value),
                            tokens as int,
                            offset as int,
                            kv_heads * net.config.head_dim,
                        ),
                    ),
                    tokens: tokens as int,
                    query_heads: net.config.num_attention_heads as int,
                    kv_heads,
                    head_dim: net.config.head_dim as int,
                    causal: true,
                    offset: offset as int,
                    length: active_length as int,
                },
            )
            &&& values::value(run.0, cache.value) == with_values(
                net,
                batch.log,
                cache,
                values::value(batch, value),
                tokens as int,
                offset as int,
            )
            &&& values::kept(batch, run.0, set![cache.value.place])
        }),
{
    let none = Set::<Place>::empty();
    let targets = set![cache.value.place];
    let step = kv::copy_into_cache_step(value, cache.value, offset);
    let (batch1, copied) = batch.run(step);
    results::cache_copy_value(batch, value, cache.value, offset);
    let keys = cache.key.prefixed(active_length)->Ok_0;
    let weighed = cache.value.prefixed(active_length)->Ok_0;
    let config = forward::attention_config(net, offset);
    let kind = attention::launched_kind(
        planner::attention_kind(
            net.plan.attention,
            tokens,
            active_length,
            net.query_heads_per_kv(),
        ),
        config,
    );
    let split = attention::batch_split(net.tuning, None, keys.shape[0]);
    let last = attention::attention_step(batch1, query, keys, weighed, config, kind, split);
    operands::lemma_ran(batch1, last);
    let batch2 = batch1.run(last).0;
    results::attention_value(batch1, query, keys, weighed, config, kind, split);
    values::lemma_keeps(batch, batch1, targets, query);
    values::lemma_keeps(batch, batch1, targets, cache.key);
    assert(values::value(batch1, keys) == values::value(batch1, cache.key));
    assert(values::value(batch1, weighed) == values::value(batch1, cache.value));
    values::lemma_keeps(batch1, batch2, none, cache.value);
    values::lemma_kept_wider(batch1, batch2, none, targets);
    values::lemma_kept_joins(batch, batch1, batch2, targets);
    let out = batch1.run(last).1->Ok_0[0];
    if values::known(batch, out.place) {
        values::lemma_still_known(batch, batch1, targets, out.place);
    }
    assert(keys.shape[0] == active_length);
}

/// The storage of a layer of a cache.
pub open spec fn cache_places(cache: LayerCacheModel) -> Set<Place> {
    set![cache.key.place, cache.value.place]
}

/// From the heads of tokens to their attention.
pub proof fn lemma_heads(
    net: NetModel,
    batch: BatchModel,
    query: TensorModel,
    key: TensorModel,
    value: TensorModel,
    layer: LayerModel,
    cache: LayerCacheModel,
    offset: usize,
    active_length: usize,
    tokens: usize,
)
    requires
        forward::heads_run(
            net,
            batch,
            query,
            key,
            value,
            layer,
            cache,
            offset,
            active_length,
            tokens,
        ).1 is Ok,
        query.shape == forward::heads_shape(
            tokens,
            net.config.num_attention_heads,
            net.config.head_dim,
        ),
        key.shape == forward::heads_shape(
            tokens,
            net.config.num_key_value_heads,
            net.config.head_dim,
        ),
        value.shape == key.shape,
        values::known(batch, key.place),
        values::known(batch, value.place),
        value.place is Scratch,
        layer.on_device(),
        cache.on_device(),
        cache.key.place != cache.value.place,
    ensures
        ({
            let run = forward::heads_run(
                net,
                batch,
                query,
                key,
                value,
                layer,
                cache,
                offset,
                active_length,
                tokens,
            );
            &&& run.1->Ok_0.len() == 1
            &&& made(
                batch,
                run.0,
                run.1->Ok_0[0],
                query.shape,
                attended(
                    net,
                    batch.log,
                    layer,
                    cache,
                    values::value(batch, query),
                    values::value(batch, key),
                    values::value(batch, value),
                    tokens as int,
                    offset as int,
                    active_length as int,
                ),
            )
            &&& values::value(run.0, cache.key) == with_keys(
                net,
                batch.log,
                layer,
                cache,
                values::value(batch, key),
                tokens as int,
                offset as int,
            )
            &&& values::value(run.0, cache.value) == with_values(
                net,
                batch.log,
                cache,
                values::value(batch, value),
                tokens as int,
                offset as int,
            )
            &&& values::kept(batch, run.0, cache_places(cache))
        }),
{
    let (batch1, rotated) = forward::rotate_run(net, batch, query, key, layer, cache.key, offset);
    lemma_rotate(net, batch, query, key, layer, cache.key, tokens, offset);
    let turned_query = rotated->Ok_0[0];
    let first = set![cache.key.place];
    let second = set![cache.value.place];
    let both = cache_places(cache);
    values::lemma_keeps(batch, batch1, first, value);
    values::lemma_keeps(batch, batch1, first, cache.value);
    lemma_attend(net, batch1, turned_query, value, cache, offset, active_length, tokens);
    let run = forward::attend_run(
        net,
        batch1,
        turned_query,
        value,
        cache,
        offset,
        active_length,
        tokens,
    );
    values::lemma_keeps(batch1, run.0, second, cache.key);
    values::lemma_kept_wider(batch, batch1, first, both);
    values::lemma_kept_wider(batch1, run.0, second, both);
    values::lemma_kept_joins(batch, batch1, run.0, both);
    let out = run.1->Ok_0[0];
    if values::known(batch, out.place) {
        values::lemma_still_known(batch, batch1, first, out.place);
    }
}

/// Whether the residual sum and the two projections of its normalisation came out.
pub open spec fn gate_and_up(
    net: NetModel,
    batch: BatchModel,
    run: Run,
    hidden: TensorModel,
    attended: TensorModel,
    layer: LayerModel,
) -> bool {
    let rows = hidden.shape[0];
    let total = values::sum(values::value(batch, hidden), values::value(batch, attended));
    let normal = scaled(net, batch.log, total, rows as int, layer.post_attention_norm);
    &&& run.1->Ok_0.len() == 3
    &&& made(batch, run.0, run.1->Ok_0[0], hidden.shape, total)
    &&& made(
        batch,
        run.0,
        run.1->Ok_0[1],
        seq![rows, layer.gate.shape[0]],
        dense(batch.log, normal, rows as int, layer.gate),
    )
    &&& made(
        batch,
        run.0,
        run.1->Ok_0[2],
        seq![rows, layer.up.shape[0]],
        dense(batch.log, normal, rows as int, layer.up),
    )
    &&& values::kept(batch, run.0, Set::empty())
}

proof fn lemma_residual(
    net: NetModel,
    batch: BatchModel,
    hidden: TensorModel,
    attended: TensorModel,
    layer: LayerModel,
)
    requires
        forward::residual_run(net, batch, hidden, attended, layer).1 is Ok,
        layer.on_device(),
        hidden.shape.len() == 2,
    ensures
        ({
            let run = forward::residual_run(net, batch, hidden, attended, layer);
            let total = values::sum(values::value(batch, hidden), values::value(batch, attended));
            let rows = hidden.shape[0] as int;
            &&& run.1->Ok_0.len() == 2
            &&& made(batch, run.0, run.1->Ok_0[0], hidden.shape, total)
            &&& made(
                batch,
                run.0,
                run.1->Ok_0[1],
                hidden.shape,
                scaled(net, batch.log, total, rows, layer.post_attention_norm),
            )
            &&& values::kept(batch, run.0, Set::empty())
        }),
{
    let none = Set::<Place>::empty();
    let epsilon = net.config.rms_norm_eps;
    let weight = layer.post_attention_norm;
    assert(hidden.shape =~= seq![hidden.shape[0], hidden.shape[1]]);
    if net.plan.fusions.add_rms_norm {
        let step = norm::add_rms_norm_step(batch, hidden, attended, weight, epsilon);
        operands::lemma_ran(batch, step);
        results::add_norm_value(batch, hidden, attended, weight, epsilon);
        assert(hidden.shape[1] > 0);
        operands::lemma_rows(hidden.shape[0], hidden.shape[1]);
    } else {
        let step = elementwise::pairwise_step(batch, "add_f16"@, hidden, attended);
        let (batch1, residual) = batch.run(step);
        operands::lemma_ran(batch, step);
        results::add_value(batch, hidden, attended);
        let total = values::sum(values::value(batch, hidden), values::value(batch, attended));
        let sum = residual->Ok_0[0];
        let last = norm::rms_norm_step(batch1, sum, weight, epsilon);
        let (batch2, normalized) = batch1.run(last);
        operands::lemma_ran(batch1, last);
        results::norm_value(batch1, sum, weight, epsilon);
        assert(hidden.shape[1] > 0);
        operands::lemma_rows(hidden.shape[0], hidden.shape[1]);
        values::lemma_keeps(batch, batch1, none, weight);
        values::lemma_kept_joins(batch, batch1, batch2, none);
        values::lemma_kept_all(batch, none);
        lemma_made_moves(batch, batch, batch1, batch2, none, none, sum, hidden.shape, total);
        let out = normalized->Ok_0[0];
        if values::known(batch, out.place) {
            values::lemma_still_known(batch, batch1, none, out.place);
        }
    }
}

proof fn lemma_gate_up(
    net: NetModel,
    batch: BatchModel,
    hidden: TensorModel,
    attended: TensorModel,
    layer: LayerModel,
    fused_norm: bool,
)
    requires
        forward::gate_up_run(net, batch, hidden, attended, layer, fused_norm).1 is Ok,
        layer.on_device(),
        hidden.shape.len() == 2,
    ensures
        gate_and_up(
            net,
            batch,
            forward::gate_up_run(net, batch, hidden, attended, layer, fused_norm),
            hidden,
            attended,
            layer,
        ),
{
    let none = Set::<Place>::empty();
    let run = forward::gate_up_run(net, batch, hidden, attended, layer, fused_norm);
    if fused_norm {
        let rows = fused::fused_rows(
            net.tuning,
            seq![layer.gate.shape[0], layer.up.shape[0], 0usize],
            hidden.shape[1],
        );
        results::add_norm_matmul2_value(
            batch,
            hidden,
            attended,
            layer.post_attention_norm,
            layer.gate,
            layer.up,
            net.config.rms_norm_eps,
            rows,
        );
    } else {
        let (batch1, pair) = forward::residual_run(net, batch, hidden, attended, layer);
        lemma_residual(net, batch, hidden, attended, layer);
        let total = values::sum(values::value(batch, hidden), values::value(batch, attended));
        let input = pair->Ok_0[1];
        values::lemma_keeps(batch, batch1, none, layer.gate);
        values::lemma_keeps(batch, batch1, none, layer.up);
        if net.plan.fusions.gate_up {
            results::matmul2_value(batch1, net.tuning, input, layer.gate, layer.up);
        } else {
            results::products2_value(batch1, net.tuning, input, layer.gate, layer.up);
        }
        values::lemma_kept_joins(batch, batch1, run.0, none);
        values::lemma_kept_all(batch, none);
        lemma_made_moves(
            batch,
            batch,
            batch1,
            run.0,
            none,
            none,
            pair->Ok_0[0],
            hidden.shape,
            total,
        );
        let gate = run.1->Ok_0[1];
        let up = run.1->Ok_0[2];
        if values::known(batch, gate.place) {
            values::lemma_still_known(batch, batch1, none, gate.place);
        }
        if values::known(batch, up.place) {
            values::lemma_still_known(batch, batch1, none, up.place);
        }
        assert(values::value(batch1, input) == scaled(
            net,
            batch.log,
            total,
            hidden.shape[0] as int,
            layer.post_attention_norm,
        ));
    }
}

/// The second half of a layer computes the same, whatever is fused.
pub proof fn lemma_feed_forward(
    net: NetModel,
    batch: BatchModel,
    hidden: TensorModel,
    attended: TensorModel,
    layer: LayerModel,
    fused_norm: bool,
)
    requires
        forward::feed_forward_run(net, batch, hidden, attended, layer, fused_norm).1 is Ok,
        layer.on_device(),
        hidden.shape.len() == 2,
    ensures
        ({
            let run = forward::feed_forward_run(net, batch, hidden, attended, layer, fused_norm);
            &&& run.1->Ok_0.len() == 1
            &&& made(
                batch,
                run.0,
                run.1->Ok_0[0],
                hidden.shape,
                fed_forward(
                    net,
                    batch.log,
                    layer,
                    values::value(batch, hidden),
                    values::value(batch, attended),
                    hidden.shape[0] as int,
                ),
            )
            &&& values::kept(batch, run.0, Set::empty())
        }),
{
    reveal(forward::feed_forward_run);
    let none = Set::<Place>::empty();
    let (batch1, parts) = forward::gate_up_run(net, batch, hidden, attended, layer, fused_norm);
    lemma_gate_up(net, batch, hidden, attended, layer, fused_norm);
    let residual = parts->Ok_0[0];
    let gate = parts->Ok_0[1];
    let up = parts->Ok_0[2];
    let (batch2, activated) = batch1.run(
        elementwise::pairwise_step(batch1, "swiglu_f16"@, gate, up),
    );
    results::gated_value(batch1, gate, up);
    let (batch3, down) = batch2.run(
        gemm::matmul_step(batch2, net.tuning, activated->Ok_0[0], layer.down),
    );
    results::matmul_value(batch2, net.tuning, activated->Ok_0[0], layer.down);
    let last = elementwise::pairwise_step(batch3, "add_f16"@, residual, down->Ok_0[0]);
    let batch4 = batch3.run(last).0;
    operands::lemma_ran(batch3, last);
    results::add_value(batch3, residual, down->Ok_0[0]);
    values::lemma_kept_joins(batch1, batch2, batch3, none);
    values::lemma_kept_joins(batch, batch1, batch2, none);
    values::lemma_kept_joins(batch, batch2, batch3, none);
    values::lemma_kept_joins(batch, batch3, batch4, none);
    values::lemma_keeps(batch1, batch3, none, residual);
    values::lemma_keeps(batch, batch2, none, layer.down);
    let out = batch3.run(last).1->Ok_0[0];
    if values::known(batch, out.place) {
        values::lemma_still_known(batch, batch3, none, out.place);
    }
    let total = values::sum(values::value(batch, hidden), values::value(batch, attended));
    assert(values::value(batch1, residual) == total);
    assert(values::value(batch3, down->Ok_0[0]) == dense(
        batch.log,
        values::gated(values::value(batch1, gate), values::value(batch1, up)),
        hidden.shape[0] as int,
        layer.down,
    ));
}

/// A layer computes the same, whatever is fused and whichever kernels run.
pub proof fn lemma_layer(
    net: NetModel,
    batch: BatchModel,
    hidden: TensorModel,
    layer: LayerModel,
    cache: LayerCacheModel,
    offset: usize,
    active_length: usize,
)
    requires
        forward::layer_run(net, batch, hidden, layer, cache, offset, active_length).1 is Ok,
        values::known(batch, hidden.place),
        hidden.place is Scratch,
        hidden.shape.len() == 2,
        layer.on_device(),
        cache.on_device(),
        cache.key.place != cache.value.place,
        clear_of(layer, cache_places(cache)),
    ensures
        ({
            let run = forward::layer_run(net, batch, hidden, layer, cache, offset, active_length);
            &&& run.1->Ok_0.len() == 1
            &&& made(
                batch,
                run.0,
                run.1->Ok_0[0],
                hidden.shape,
                layer_content(
                    net,
                    batch.log,
                    layer,
                    cache,
                    values::value(batch, hidden),
                    hidden.shape[0] as int,
                    offset as int,
                    active_length as int,
                ),
            )
            &&& cached(
                net,
                batch.log,
                run.0,
                layer,
                cache,
                values::value(batch, hidden),
                hidden.shape[0] as int,
                offset as int,
            )
            &&& values::kept(batch, run.0, cache_places(cache))
        }),
{
    reveal(forward::layer_run);
    reveal(forward::attention_run);
    let none = Set::<Place>::empty();
    let both = cache_places(cache);
    let run = forward::layer_run(net, batch, hidden, layer, cache, offset, active_length);
    let fusions = net.plan.fusions;
    let tokens = hidden.shape[0];
    let (batch1, qkv) = forward::qkv_run(net, batch, hidden, layer);
    lemma_qkv(net, batch, hidden, layer);
    let query_shape = forward::heads_shape(
        tokens,
        net.config.num_attention_heads,
        net.config.head_dim,
    );
    let kv_shape = forward::heads_shape(
        tokens,
        net.config.num_key_value_heads,
        net.config.head_dim,
    );
    let query = qkv->Ok_0[0].reshaped(query_shape)->Ok_0;
    let key = qkv->Ok_0[1].reshaped(kv_shape)->Ok_0;
    let value = qkv->Ok_0[2].reshaped(kv_shape)->Ok_0;
    let (batch2, heads) = forward::heads_run(
        net,
        batch1,
        query,
        key,
        value,
        layer,
        cache,
        offset,
        active_length,
        tokens,
    );
    lemma_heads(
        net,
        batch1,
        query,
        key,
        value,
        layer,
        cache,
        offset,
        active_length,
        tokens,
    );
    let joined = heads->Ok_0[0].reshaped(
        seq![tokens, net.config.spec_query_width() as usize],
    )->Ok_0;
    let (batch3, projection) = batch2.run(
        gemm::matmul_step(batch2, net.tuning, joined, layer.output),
    );
    results::matmul_value(batch2, net.tuning, joined, layer.output);
    let fused_norm = tokens == 1 && fusions.decode_norm && fusions.add_rms_norm && fusions.gate_up;
    lemma_feed_forward(net, batch3, hidden, projection->Ok_0[0], layer, fused_norm);
    values::lemma_kept_wider(batch, batch1, none, both);
    values::lemma_kept_wider(batch2, batch3, none, both);
    values::lemma_kept_wider(batch3, run.0, none, both);
    values::lemma_kept_joins(batch, batch1, batch2, both);
    values::lemma_kept_joins(batch, batch2, batch3, both);
    values::lemma_kept_joins(batch, batch3, run.0, both);
    values::lemma_keeps(batch, batch1, none, layer.query_norm);
    values::lemma_keeps(batch, batch1, none, layer.key_norm);
    values::lemma_keeps(batch, batch1, none, cache.key);
    values::lemma_keeps(batch, batch1, none, cache.value);
    values::lemma_keeps(batch, batch2, both, layer.output);
    values::lemma_keeps(batch, batch3, both, layer.post_attention_norm);
    values::lemma_keeps(batch, batch3, both, layer.gate);
    values::lemma_keeps(batch, batch3, both, layer.up);
    values::lemma_keeps(batch, batch3, both, layer.down);
    values::lemma_keeps(batch, batch3, both, hidden);
    values::lemma_kept_joins(batch2, batch3, run.0, none);
    values::lemma_keeps(batch2, run.0, none, cache.key);
    values::lemma_keeps(batch2, run.0, none, cache.value);
    assert(values::value(batch1, query) == values::value(batch1, qkv->Ok_0[0]));
    assert(values::value(batch1, key) == values::value(batch1, qkv->Ok_0[1]));
    assert(values::value(batch1, value) == values::value(batch1, qkv->Ok_0[2]));
    assert(values::value(batch2, joined) == values::value(batch2, heads->Ok_0[0]));
    let out = run.1->Ok_0[0];
    if values::known(batch, out.place) {
        values::lemma_still_known(batch, batch3, both, out.place);
    }
}

/// Whether no weight of a layer lies in some storage.
pub open spec fn clear_of(layer: LayerModel, places: Set<Place>) -> bool {
    &&& !places.contains(layer.input_norm.place)
    &&& !places.contains(layer.post_attention_norm.place)
    &&& !places.contains(layer.query.place)
    &&& !places.contains(layer.key.place)
    &&& !places.contains(layer.value.place)
    &&& !places.contains(layer.output.place)
    &&& !places.contains(layer.query_norm.place)
    &&& !places.contains(layer.key_norm.place)
    &&& !places.contains(layer.gate.place)
    &&& !places.contains(layer.up.place)
    &&& !places.contains(layer.down.place)
}

/// The storage of the first layers of a cache.
pub open spec fn first_places(caches: Seq<LayerCacheModel>, count: int) -> Set<Place> {
    Set::new(
        |place: Place|
            exists|i: int|
                0 <= i < count && i < caches.len() && #[trigger] cache_places(caches[i]).contains(
                    place,
                ),
    )
}

/// The storage of the layers of a cache from `index` on.
pub open spec fn last_places(caches: Seq<LayerCacheModel>, index: int) -> Set<Place> {
    Set::new(
        |place: Place|
            exists|i: int|
                index <= i < caches.len() && #[trigger] cache_places(caches[i]).contains(place),
    )
}

/// Whether the keys and the values of every layer have buffers of their own, which
/// hold no weight.
pub open spec fn own_buffers(net: NetModel, caches: Seq<LayerCacheModel>) -> bool {
    let places = first_places(caches, caches.len() as int);
    &&& forall|i: int| 0 <= i < caches.len() ==> (#[trigger] caches[i]).on_device()
    &&& forall|i: int|
        0 <= i < caches.len() ==> (#[trigger] caches[i]).key.place != caches[i].value.place
    &&& forall|i: int, j: int|
        0 <= i < j < caches.len() ==> (#[trigger] cache_places(caches[i])).disjoint(
            #[trigger] cache_places(caches[j]),
        )
    &&& forall|i: int| 0 <= i < net.layers.len() ==> clear_of(#[trigger] net.layers[i], places)
    &&& !places.contains(net.final_norm.place)
    &&& !places.contains(net.lm_head.place)
}

/// What a layer computes depends on where its weights and its cache were left, and
/// on nothing else that lies in storage.
proof fn lemma_layer_content_kept(
    net: NetModel,
    first: BatchModel,
    batch: BatchModel,
    targets: Set<Place>,
    layer: LayerModel,
    cache: LayerCacheModel,
    hidden: Content,
    tokens: int,
    offset: int,
    length: int,
)
    requires
        values::kept(first, batch, targets),
        layer.on_device(),
        cache.on_device(),
        clear_of(layer, targets),
        !targets.contains(cache.key.place),
        !targets.contains(cache.value.place),
    ensures
        layer_content(net, batch.log, layer, cache, hidden, tokens, offset, length)
            == layer_content(net, first.log, layer, cache, hidden, tokens, offset, length),
        forall|after: BatchModel| #[trigger]
            cached(net, batch.log, after, layer, cache, hidden, tokens, offset) == cached(
                net,
                first.log,
                after,
                layer,
                cache,
                hidden,
                tokens,
                offset,
            ),
{
    values::lemma_keeps(first, batch, targets, layer.input_norm);
    values::lemma_keeps(first, batch, targets, layer.post_attention_norm);
    values::lemma_keeps(first, batch, targets, layer.query);
    values::lemma_keeps(first, batch, targets, layer.key);
    values::lemma_keeps(first, batch, targets, layer.value);
    values::lemma_keeps(first, batch, targets, layer.output);
    values::lemma_keeps(first, batch, targets, layer.query_norm);
    values::lemma_keeps(first, batch, targets, layer.key_norm);
    values::lemma_keeps(first, batch, targets, layer.gate);
    values::lemma_keeps(first, batch, targets, layer.up);
    values::lemma_keeps(first, batch, targets, layer.down);
    values::lemma_keeps(first, batch, targets, cache.key);
    values::lemma_keeps(first, batch, targets, cache.value);
}

proof fn lemma_layers(
    net: NetModel,
    first: BatchModel,
    batch: BatchModel,
    hidden: TensorModel,
    embedded: Content,
    caches: Seq<LayerCacheModel>,
    offset: usize,
    active_length: usize,
    index: int,
)
    requires
        forward::layers_run(net, batch, hidden, caches, offset, active_length, index).1 is Ok,
        0 <= index <= net.layers.len(),
        caches.len() == net.layers.len(),
        values::known(batch, hidden.place),
        hidden.place is Scratch,
        hidden.shape.len() == 2,
        net.on_device(),
        own_buffers(net, caches),
        values::kept(first, batch, first_places(caches, index)),
        values::value(batch, hidden) == layers_content(
            net,
            first.log,
            caches,
            embedded,
            hidden.shape[0] as int,
            offset as int,
            active_length as int,
            index,
        ),
    ensures
        ({
            let run = forward::layers_run(
                net,
                batch,
                hidden,
                caches,
                offset,
                active_length,
                index,
            );
            let out = run.1->Ok_0[0];
            &&& run.1->Ok_0.len() == 1
            &&& values::known(run.0, out.place)
            &&& out.place is Scratch
            &&& out.shape == hidden.shape
            &&& values::value(run.0, out) == layers_content(
                net,
                first.log,
                caches,
                embedded,
                hidden.shape[0] as int,
                offset as int,
                active_length as int,
                net.layers.len() as int,
            )
            &&& values::kept(first, run.0, first_places(caches, caches.len() as int))
            &&& values::kept(batch, run.0, last_places(caches, index))
            &&& forall|i: int|
                index <= i < net.layers.len() ==> #[trigger] cached(
                    net,
                    first.log,
                    run.0,
                    net.layers[i],
                    caches[i],
                    layers_content(
                        net,
                        first.log,
                        caches,
                        embedded,
                        hidden.shape[0] as int,
                        offset as int,
                        active_length as int,
                        i,
                    ),
                    hidden.shape[0] as int,
                    offset as int,
                )
        }),
    decreases net.layers.len() - index,
{
    values::lemma_kept_all(batch, last_places(caches, index));
    if index < net.layers.len() {
        let layer = net.layers[index];
        let cache = caches[index];
        let (next, out) = forward::layer_run(
            net,
            batch,
            hidden,
            layer,
            cache,
            offset,
            active_length,
        );
        let before = first_places(caches, index);
        let after = first_places(caches, index + 1);
        let all = first_places(caches, caches.len() as int);
        assert forall|place: Place| cache_places(cache).contains(place) implies all.contains(
            place,
        ) && after.contains(place) && !before.contains(place) by {
            assert(cache_places(caches[index]).contains(place));
            if before.contains(place) {
                let i = choose|i: int|
                    0 <= i < index && i < caches.len() && #[trigger] cache_places(
                        caches[i],
                    ).contains(place);
                assert(cache_places(caches[i]).disjoint(cache_places(caches[index])));
            }
        }
        assert forall|place: Place| before.contains(place) implies all.contains(place)
            && after.contains(place) by {
            let i = choose|i: int|
                0 <= i < index && i < caches.len() && #[trigger] cache_places(caches[i]).contains(
                    place,
                );
            assert(cache_places(caches[i]).contains(place));
        }
        assert(cache_places(cache).contains(cache.key.place));
        assert(cache_places(cache).contains(cache.value.place));
        assert(clear_of(layer, all));
        lemma_layer(net, batch, hidden, layer, cache, offset, active_length);
        lemma_layer_content_kept(
            net,
            first,
            batch,
            before,
            layer,
            cache,
            values::value(batch, hidden),
            hidden.shape[0] as int,
            offset as int,
            active_length as int,
        );
        values::lemma_kept_wider(first, batch, before, after);
        values::lemma_kept_wider(batch, next, cache_places(cache), after);
        values::lemma_kept_joins(first, batch, next, after);
        assert(values::value(next, out->Ok_0[0]) == layer_content(
            net,
            batch.log,
            layer,
            cache,
            values::value(batch, hidden),
            hidden.shape[0] as int,
            offset as int,
            active_length as int,
        ));
        lemma_layers(
            net,
            first,
            next,
            out->Ok_0[0],
            embedded,
            caches,
            offset,
            active_length,
            index + 1,
        );
        let run = forward::layers_run(net, batch, hidden, caches, offset, active_length, index);
        let later = last_places(caches, index + 1);
        let these = last_places(caches, index);
        assert forall|place: Place| cache_places(cache).contains(place) implies these.contains(
            place,
        ) && !later.contains(place) by {
            assert(cache_places(caches[index]).contains(place));
            if later.contains(place) {
                let i = choose|i: int|
                    index + 1 <= i < caches.len() && #[trigger] cache_places(caches[i]).contains(
                        place,
                    );
                assert(cache_places(caches[index]).disjoint(cache_places(caches[i])));
            }
        }
        assert forall|place: Place| later.contains(place) implies these.contains(place) by {
            let i = choose|i: int|
                index + 1 <= i < caches.len() && #[trigger] cache_places(caches[i]).contains(place);
            assert(cache_places(caches[i]).contains(place));
        }
        values::lemma_kept_wider(batch, next, cache_places(cache), these);
        values::lemma_kept_wider(next, run.0, later, these);
        values::lemma_kept_joins(batch, next, run.0, these);
        values::lemma_keeps(next, run.0, later, cache.key);
        values::lemma_keeps(next, run.0, later, cache.value);
        assert(cached(
            net,
            batch.log,
            next,
            layer,
            cache,
            values::value(batch, hidden),
            hidden.shape[0] as int,
            offset as int,
        ));
        assert(cached(
            net,
            first.log,
            next,
            layer,
            cache,
            values::value(batch, hidden),
            hidden.shape[0] as int,
            offset as int,
        ));
    }
}

/// The logits that a pass over any tokens returns are those of the network, for every
/// plan: whichever launches are fused, and whichever kernels attend or multiply, the
/// recorded commands compute the embedding of the tokens, the layers one after the
/// other over their caches, the final norm and the product of the last row by the
/// head. If the largest index is asked for, it is that of these logits.
pub proof fn a_pass_computes_the_network(
    net: NetModel,
    batch: BatchModel,
    tokens: TensorModel,
    cache: KvCacheModel,
    argmax_output: Option<TensorModel>,
)
    requires
        forward::forward_run(net, batch, tokens, cache, argmax_output).1 is Ok,
        net.on_device(),
        own_buffers(net, cache.layers),
        argmax_output is Some ==> argmax_output->0.on_device(),
    ensures
        ({
            let (after, outputs) = forward::forward_run(net, batch, tokens, cache, argmax_output);
            let logits = pass_content(net, batch.log, tokens, cache);
            &&& outputs->Ok_0.len() == 1
            &&& values::value(after, outputs->Ok_0[0]) == logits
            &&& argmax_output is Some ==> values::value(after, argmax_output->0) == (
            Content::Largest {
                logits: Box::new(logits),
                count: net.lm_head.shape[0] as int,
            })
        }),
{
    let none = Set::<Place>::empty();
    let places = first_places(cache.layers, cache.layers.len() as int);
    let embed = elementwise::embedding_step(batch, tokens, net.embedding);
    operands::lemma_ran(batch, embed);
    let (batch1, hidden) = batch.run(embed);
    results::embedding_value(batch, tokens, net.embedding);
    let requested = cache.reserved(tokens.shape[0])->Some_0;
    let start = hidden->Ok_0[0];
    let embedded = values::value(batch1, start);
    assert(first_places(cache.layers, 0) =~= none);
    lemma_layers(
        net,
        batch,
        batch1,
        start,
        embedded,
        cache.layers,
        cache.filled,
        requested,
        0,
    );
    let (batch2, last) = forward::layers_run(
        net,
        batch1,
        start,
        cache.layers,
        cache.filled,
        requested,
        0,
    );
    values::lemma_keeps(batch, batch2, places, net.final_norm);
    values::lemma_keeps(batch, batch2, places, net.lm_head);
    lemma_logits(net, batch2, last->Ok_0[0], tokens.shape[0], argmax_output);
}

/// The storage that the choice of the largest index writes to.
pub open spec fn written_by(argmax_output: Option<TensorModel>) -> Set<Place> {
    match argmax_output {
        Some(output) => set![output.place],
        None => Set::empty(),
    }
}

/// A pass leaves the keys and the values of its tokens in the caches, behind those of
/// the tokens before them: in every layer, the keys that are projected from its
/// normalised input, normalised and turned by their positions, in the cache of the keys,
/// and the values that are projected from it in the cache of the values.
pub proof fn a_pass_leaves_its_keys_and_values(
    net: NetModel,
    batch: BatchModel,
    tokens: TensorModel,
    cache: KvCacheModel,
    argmax_output: Option<TensorModel>,
    index: int,
)
    requires
        forward::forward_run(net, batch, tokens, cache, argmax_output).1 is Ok,
        net.on_device(),
        own_buffers(net, cache.layers),
        argmax_output is Some ==> argmax_output->0.on_device(),
        0 <= index < net.layers.len(),
        !written_by(argmax_output).contains(cache.layers[index].key.place),
        !written_by(argmax_output).contains(cache.layers[index].value.place),
    ensures
        ({
            let after = forward::forward_run(net, batch, tokens, cache, argmax_output).0;
            let count = tokens.shape[0] as int;
            let layer = net.layers[index];
            let here = cache.layers[index];
            let embedded = Content::Embedded {
                ids: Box::new(values::read(batch.log, tokens.operand())),
                table: Box::new(values::read(batch.log, net.embedding.operand())),
                count,
                width: net.embedding.shape[1] as int,
            };
            let hidden = layers_content(
                net,
                batch.log,
                cache.layers,
                embedded,
                count,
                cache.filled as int,
                cache.filled + count,
                index,
            );
            cached(net, batch.log, after, layer, here, hidden, count, cache.filled as int)
        }),
{
    let none = Set::<Place>::empty();
    let embed = elementwise::embedding_step(batch, tokens, net.embedding);
    operands::lemma_ran(batch, embed);
    let (batch1, hidden) = batch.run(embed);
    results::embedding_value(batch, tokens, net.embedding);
    let requested = cache.reserved(tokens.shape[0])->Some_0;
    let start = hidden->Ok_0[0];
    let embedded = values::value(batch1, start);
    assert(first_places(cache.layers, 0) =~= none);
    lemma_layers(
        net,
        batch,
        batch1,
        start,
        embedded,
        cache.layers,
        cache.filled,
        requested,
        0,
    );
    let (batch2, last) = forward::layers_run(
        net,
        batch1,
        start,
        cache.layers,
        cache.filled,
        requested,
        0,
    );
    lemma_logits(net, batch2, last->Ok_0[0], tokens.shape[0], argmax_output);
    let after = forward::forward_run(net, batch, tokens, cache, argmax_output).0;
    let here = cache.layers[index];
    let targets = written_by(argmax_output);
    assert(here.on_device());
    values::lemma_keeps(batch2, after, targets, here.key);
    values::lemma_keeps(batch2, after, targets, here.value);
    assert(cached(
        net,
        batch.log,
        batch2,
        net.layers[index],
        here,
        layers_content(
            net,
            batch.log,
            cache.layers,
            embedded,
            start.shape[0] as int,
            cache.filled as int,
            requested as int,
            index,
        ),
        start.shape[0] as int,
        cache.filled as int,
    ));
}

/// The final norm and the head over the last row.
pub proof fn lemma_logits(
    net: NetModel,
    batch: BatchModel,
    hidden: TensorModel,
    tokens: usize,
    argmax_output: Option<TensorModel>,
)
    requires
        forward::logits_run(net, batch, hidden, tokens, argmax_output).1 is Ok,
        net.final_norm.on_device(),
        net.lm_head.on_device(),
        hidden.shape.len() == 2,
        hidden.shape[0] == tokens,
        argmax_output is Some ==> argmax_output->0.on_device(),
    ensures
        ({
            let (after, outputs) = forward::logits_run(net, batch, hidden, tokens, argmax_output);
            let normal = scaled(
                net,
                batch.log,
                values::value(batch, hidden),
                tokens as int,
                net.final_norm,
            );
            let logits = dense(
                batch.log,
                values::part(normal, (tokens - 1) * hidden.shape[1] * 2),
                1,
                net.lm_head,
            );
            &&& outputs->Ok_0.len() == 1
            &&& values::value(after, outputs->Ok_0[0]) == logits
            &&& argmax_output is Some ==> values::value(after, argmax_output->0) == (
            Content::Largest {
                logits: Box::new(logits),
                count: net.lm_head.shape[0] as int,
            })
            &&& values::kept(batch, after, written_by(argmax_output))
        }),
{
    let none = Set::<Place>::empty();
    let step = norm::rms_norm_step(batch, hidden, net.final_norm, net.config.rms_norm_eps);
    operands::lemma_ran(batch, step);
    let (batch1, normalized) = batch.run(step);
    results::norm_value(batch, hidden, net.final_norm, net.config.rms_norm_eps);
    assert(hidden.shape =~= seq![tokens, hidden.shape[1]]);
    operands::lemma_rows(tokens, hidden.shape[1]);
    let all = normalized->Ok_0[0];
    operands::lemma_row_place(all, (tokens - 1) as usize);
    let row = all.row_at((tokens - 1) as usize)->Ok_0;
    let normal = scaled(
        net,
        batch.log,
        values::value(batch, hidden),
        tokens as int,
        net.final_norm,
    );
    assert(values::fills(batch1, all, normal));
    assert(values::value(batch1, row) == values::part(
        normal,
        (tokens - 1) * hidden.shape[1] * 2,
    ));
    values::lemma_keeps(batch, batch1, none, net.lm_head);
    let (batch2, logits) = batch1.run(gemm::matmul_step(batch1, net.tuning, row, net.lm_head));
    results::matmul_value(batch1, net.tuning, row, net.lm_head);
    values::lemma_kept_joins(batch, batch1, batch2, none);
    if argmax_output is Some {
        let vector = logits->Ok_0[0].reshaped(seq![logits->Ok_0[0].len() as usize])->Ok_0;
        results::argmax_value(batch2, vector, argmax_output->0);
        let batch3 = batch2.run(sampling::argmax_step(batch2, vector, argmax_output->0)).0;
        let targets = set![argmax_output->0.place];
        values::lemma_kept_wider(batch, batch2, none, targets);
        values::lemma_kept_joins(batch, batch2, batch3, targets);
        values::lemma_keeps(batch2, batch3, targets, logits->Ok_0[0]);
        assert(values::value(batch2, vector) == values::value(batch2, logits->Ok_0[0]));
        tensor::lemma_elements_two(1, net.lm_head.shape[0]);
        tensor::lemma_elements_one(logits->Ok_0[0].len() as usize);
    }
}

/// A cache that is made behind the weights has buffers of its own.
pub proof fn a_new_cache_has_buffers_of_its_own(
    net: NetModel,
    first: int,
    layers: nat,
    shape: Seq<usize>,
)
    requires
        0 <= first,
        first + 2 * layers <= usize::MAX,
        net.on_device(),
        held_below(net, first),
    ensures
        own_buffers(
            net,
            Seq::new(layers, |i: int| kv_cache::fresh_layer(first + 2 * i, shape)),
        ),
{
    let caches = Seq::new(layers, |i: int| kv_cache::fresh_layer(first + 2 * i, shape));
    let places = first_places(caches, caches.len() as int);
    assert forall|place: Place| places.contains(place) implies place is Device && place->buffer
        >= first by {
        let i = choose|i: int|
            0 <= i < caches.len() && i < caches.len() && #[trigger] cache_places(
                caches[i],
            ).contains(place);
        assert(caches[i] == kv_cache::fresh_layer(first + 2 * i, shape));
    }
    assert forall|i: int, j: int| 0 <= i < j < caches.len() implies (#[trigger] cache_places(
        caches[i],
    )).disjoint(#[trigger] cache_places(caches[j])) by {
        assert(caches[i] == kv_cache::fresh_layer(first + 2 * i, shape));
        assert(caches[j] == kv_cache::fresh_layer(first + 2 * j, shape));
    }
    assert forall|i: int| 0 <= i < caches.len() implies (#[trigger] caches[i]).on_device()
        && caches[i].key.place != caches[i].value.place by {
        assert(caches[i] == kv_cache::fresh_layer(first + 2 * i, shape));
    }
    assert forall|i: int| 0 <= i < net.layers.len() implies clear_of(
        #[trigger] net.layers[i],
        places,
    ) by {
        assert(net.layers[i].on_device());
    }
}

/// Whether a tensor lies in a buffer that was handed out before number `first`.
pub open spec fn lies_below(tensor: TensorModel, first: int) -> bool {
    tensor.place is Device && tensor.place->buffer < first
}

/// Whether all weights lie in buffers that were handed out before number `first`.
pub open spec fn held_below(net: NetModel, first: int) -> bool {
    &&& lies_below(net.final_norm, first)
    &&& lies_below(net.lm_head, first)
    &&& forall|i: int|
        0 <= i < net.layers.len() ==> {
            let layer = #[trigger] net.layers[i];
            &&& lies_below(layer.input_norm, first)
            &&& lies_below(layer.post_attention_norm, first)
            &&& lies_below(layer.query, first)
            &&& lies_below(layer.key, first)
            &&& lies_below(layer.value, first)
            &&& lies_below(layer.output, first)
            &&& lies_below(layer.query_norm, first)
            &&& lies_below(layer.key_norm, first)
            &&& lies_below(layer.gate, first)
            &&& lies_below(layer.up, first)
            &&& lies_below(layer.down, first)
        }
}

/// The first block alone computes what the first layer of a pass over the same tokens
/// computes on an empty cache.
pub proof fn the_first_block_computes_the_first_layer(
    net: NetModel,
    batch: BatchModel,
    buffer: nat,
    count: nat,
)
    requires
        passes::first_block_run(net, batch, buffer, count).1 is Ok,
        net.on_device(),
        held_below(net, buffer as int),
        buffer + 2 <= usize::MAX,
        count <= usize::MAX,
    ensures
        ({
            let (after, outputs) = passes::first_block_run(net, batch, buffer, count);
            let shape = kv_cache::cache_shape(net.config, count as usize);
            let caches = seq![
                LayerCacheModel {
                    key: memory::whole_buffer((buffer + 1) as usize, shape, DType::F16),
                    value: memory::whole_buffer((buffer + 2) as usize, shape, DType::F16),
                },
            ];
            let tokens = memory::whole_buffer(buffer as usize, seq![count as usize], DType::U32);
            let embedded = Content::Embedded {
                ids: Box::new(values::read(batch.log, tokens.operand())),
                table: Box::new(values::read(batch.log, net.embedding.operand())),
                count: count as int,
                width: net.embedding.shape[1] as int,
            };
            &&& outputs->Ok_0.len() == 1
            &&& outputs->Ok_0[0].shape == seq![count as usize, net.embedding.shape[1]]
            &&& values::value(after, outputs->Ok_0[0]) == layers_content(
                net,
                batch.log,
                caches,
                embedded,
                count as int,
                0,
                count as int,
                1,
            )
        }),
{
    let none = Set::<Place>::empty();
    let shape = kv_cache::cache_shape(net.config, count as usize);
    let cache = LayerCacheModel {
        key: memory::whole_buffer((buffer + 1) as usize, shape, DType::F16),
        value: memory::whole_buffer((buffer + 2) as usize, shape, DType::F16),
    };
    let tokens = passes::token_tensor(buffer, count);
    let layer = net.layers[0];
    let embed = elementwise::embedding_step(batch, tokens, net.embedding);
    operands::lemma_ran(batch, embed);
    let (batch1, hidden) = batch.run(embed);
    results::embedding_value(batch, tokens, net.embedding);
    let start = hidden->Ok_0[0];
    assert(layer.on_device());
    assert(clear_of(layer, cache_places(cache)));
    lemma_layer(net, batch1, start, layer, cache, 0, count as usize);
    lemma_layer_content_kept(
        net,
        batch,
        batch1,
        none,
        layer,
        cache,
        values::value(batch1, start),
        count as int,
        0,
        count as int,
    );
    reveal_with_fuel(layers_content, 2);
    assert(seq![cache][0] == cache);
}

} // verus!
