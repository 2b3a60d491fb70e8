//! What a batch of sequences computes.

use crate::gpu::command::CommandModel;
use crate::gpu::recorder::{self, BatchModel};
use crate::gpu::tensor::{DType, Place, TensorModel};
use crate::gpu::values::{self, Content};
use crate::ops::values as results;
use crate::ops::{elementwise, gemm, kv, norm};
use crate::qwen3::decode_batch;
use crate::qwen3::forward;
use crate::qwen3::kv_cache::KvCacheModel;
use crate::qwen3::layers::LayerModel;
use crate::qwen3::model::NetModel;
use crate::qwen3::network::{self, cache_places, clear_of};
use crate::qwen3::operands;
use vstd::prelude::*;

verus! {

/// Attention of one sequence of a batch: over its own cache, from its own row of the
/// projections, with rows of two bytes to a number.
pub open spec fn row_content(
    net: NetModel,
    log: Seq<CommandModel>,
    layer: LayerModel,
    cache: KvCacheModel,
    index: int,
    query: Content,
    key: Content,
    value: Content,
    row: int,
) -> Content {
    network::attended(
        net,
        log,
        layer,
        cache.layers[index],
        values::part(query, row * layer.query.shape[0] * 2),
        values::part(key, row * layer.key.shape[0] * 2),
        values::part(value, row * layer.value.shape[0] * 2),
        1,
        cache.filled as int,
        cache.filled + 1,
    )
}

/// The rows of the first sequences, over what the rows held before.
pub open spec fn rows_content(
    net: NetModel,
    log: Seq<CommandModel>,
    layer: LayerModel,
    caches: Seq<KvCacheModel>,
    index: int,
    query: Content,
    key: Content,
    value: Content,
    before: Content,
    count: int,
) -> Content
    decreases count,
{
    if count <= 0 {
        before
    } else {
        values::written(
            rows_content(
                net,
                log,
                layer,
                caches,
                index,
                query,
                key,
                value,
                before,
                count - 1,
            ),
            row_content(
                net,
                log,
                layer,
                caches[count - 1],
                index,
                query,
                key,
                value,
                count - 1,
            ),
            1,
            count - 1,
            net.config.spec_query_width() as usize as int,
        )
    }
}

/// A layer over one token of each sequence.
pub open spec fn batch_layer_content(
    net: NetModel,
    log: Seq<CommandModel>,
    caches: Seq<KvCacheModel>,
    index: int,
    hidden: Content,
    rows: int,
    before: Content,
) -> Content {
    let layer = net.layers[index];
    let normal = network::scaled(net, log, hidden, rows, layer.input_norm);
    let attended = rows_content(
        net,
        log,
        layer,
        caches,
        index,
        network::dense(log, normal, rows, layer.query),
        network::dense(log, normal, rows, layer.key),
        network::dense(log, normal, rows, layer.value),
        before,
        caches.len() as int,
    );
    network::fed_forward(
        net,
        log,
        layer,
        hidden,
        network::dense(log, attended, caches.len() as int, layer.output),
        rows,
    )
}

/// The first layers, where `before` holds what the rows of each layer held.
pub open spec fn batch_layers_content(
    net: NetModel,
    log: Seq<CommandModel>,
    caches: Seq<KvCacheModel>,
    hidden: Content,
    rows: int,
    before: Seq<Content>,
    count: int,
) -> Content
    decreases count,
{
    if count <= 0 {
        hidden
    } else {
        batch_layer_content(
            net,
            log,
            caches,
            count - 1,
            batch_layers_content(net, log, caches, hidden, rows, before, count - 1),
            rows,
            before[count - 1],
        )
    }
}

/// The logits of a batch: as those of a pass, but for every row.
pub open spec fn batch_content(
    net: NetModel,
    log: Seq<CommandModel>,
    input: TensorModel,
    caches: Seq<KvCacheModel>,
    before: Seq<Content>,
) -> Content {
    let rows = input.shape[0] as int;
    let embedded = Content::Embedded {
        ids: Box::new(values::read(log, input.operand())),
        table: Box::new(values::read(log, net.embedding.operand())),
        count: rows,
        width: net.embedding.shape[1] as int,
    };
    let hidden = batch_layers_content(
        net,
        log,
        caches,
        embedded,
        rows,
        before,
        net.layers.len() as int,
    );
    network::dense(log, network::scaled(net, log, hidden, rows, net.final_norm), rows, net.lm_head)
}

/// Whether a projection is there to be read row by row.
pub open spec fn readable(
    batch: BatchModel,
    tensor: TensorModel,
    weight: TensorModel,
    rows: usize,
    content: Content,
) -> bool {
    &&& values::known(batch, tensor.place)
    &&& tensor.place is Scratch
    &&& tensor.offset == 0
    &&& tensor.dtype == DType::F16
    &&& tensor.shape == seq![rows, weight.shape[0]]
    &&& recorder::allocation_error(tensor.shape, DType::F16) is None
    &&& values::fills(batch, tensor, content)
}

proof fn lemma_readable_stays(
    before: BatchModel,
    after: BatchModel,
    targets: Set<Place>,
    tensor: TensorModel,
    weight: TensorModel,
    rows: usize,
    content: Content,
)
    requires
        values::kept(before, after, targets),
        readable(before, tensor, weight, rows, content),
        !targets.contains(tensor.place),
    ensures
        readable(after, tensor, weight, rows, content),
{
    values::lemma_keeps_filled(before, after, targets, tensor, content);
}

proof fn lemma_row_heads(
    batch: BatchModel,
    tensor: TensorModel,
    weight: TensorModel,
    rows: usize,
    content: Content,
    row: usize,
    heads: usize,
    head_dim: usize,
)
    requires
        readable(batch, tensor, weight, rows, content),
        decode_batch::row_heads(tensor, row, heads, head_dim) is Ok,
    ensures
        ({
            let view = decode_batch::row_heads(tensor, row, heads, head_dim)->Ok_0;
            &&& view.place == tensor.place
            &&& view.shape == forward::heads_shape(1, heads, head_dim)
            &&& values::value(batch, view) == values::part(content, row * weight.shape[0] * 2)
        }),
{
    operands::lemma_row_place(tensor, row);
    let view = decode_batch::row_heads(tensor, row, heads, head_dim)->Ok_0;
    assert(values::read(batch.log, view.operand()) == values::part(
        content,
        view.offset - tensor.offset,
    ));
}

/// One sequence attends over its own cache, and its row is written.
pub proof fn lemma_row(
    net: NetModel,
    batch: BatchModel,
    query: TensorModel,
    key: TensorModel,
    value: TensorModel,
    query_content: Content,
    key_content: Content,
    value_content: Content,
    layer: LayerModel,
    cache: KvCacheModel,
    index: int,
    count: usize,
    rows: TensorModel,
    row: usize,
)
    requires
        decode_batch::row_run(
            net,
            batch,
            query,
            key,
            value,
            layer,
            cache,
            index,
            rows,
            row,
        ).1 is Ok,
        0 <= index,
        readable(batch, query, layer.query, count, query_content),
        readable(batch, key, layer.key, count, key_content),
        readable(batch, value, layer.value, count, value_content),
        values::known(batch, rows.place),
        rows.place is Scratch,
        layer.on_device(),
        cache.filled < usize::MAX,
        cache.layers[index].on_device(),
        cache.layers[index].key.place != cache.layers[index].value.place,
    ensures
        ({
            let run = decode_batch::row_run(
                net,
                batch,
                query,
                key,
                value,
                layer,
                cache,
                index,
                rows,
                row,
            );
            &&& index < cache.layers.len()
            &&& values::value(run.0, rows) == values::written(
                values::value(batch, rows),
                row_content(
                    net,
                    batch.log,
                    layer,
                    cache,
                    index,
                    query_content,
                    key_content,
                    value_content,
                    row as int,
                ),
                1,
                row as int,
                net.config.spec_query_width() as usize as int,
            )
            &&& values::kept(
                batch,
                run.0,
                cache_places(cache.layers[index]).insert(rows.place),
            )
        }),
{
    let heads = net.config.num_attention_heads;
    let kv_heads = net.config.num_key_value_heads;
    let head_dim = net.config.head_dim;
    let here = cache.layers[index];
    let query_row = decode_batch::row_heads(query, row, heads, head_dim)->Ok_0;
    let key_row = decode_batch::row_heads(key, row, kv_heads, head_dim)->Ok_0;
    let value_row = decode_batch::row_heads(value, row, kv_heads, head_dim)->Ok_0;
    lemma_row_heads(batch, query, layer.query, count, query_content, row, heads, head_dim);
    lemma_row_heads(batch, key, layer.key, count, key_content, row, kv_heads, head_dim);
    lemma_row_heads(batch, value, layer.value, count, value_content, row, kv_heads, head_dim);
    let (batch1, attended) = forward::heads_run(
        net,
        batch,
        query_row,
        key_row,
        value_row,
        layer,
        here,
        cache.filled,
        (cache.filled + 1) as usize,
        1,
    );
    network::lemma_heads(
        net,
        batch,
        query_row,
        key_row,
        value_row,
        layer,
        here,
        cache.filled,
        (cache.filled + 1) as usize,
        1,
    );
    let out = attended->Ok_0[0];
    let joined = out.reshaped(seq![1usize, net.config.spec_query_width() as usize])->Ok_0;
    assert(values::value(batch1, joined) == values::value(batch1, out));
    let batch2 = batch1.run(kv::copy_row_step(joined, rows, row)).0;
    results::row_copy_value(batch1, joined, rows, row);
    values::lemma_keeps(batch, batch1, cache_places(here), rows);
    let targets = cache_places(here).insert(rows.place);
    values::lemma_kept_wider(batch, batch1, cache_places(here), targets);
    values::lemma_kept_wider(batch1, batch2, set![rows.place], targets);
    values::lemma_kept_joins(batch, batch1, batch2, targets);
}

/// The storage that a batch wrote to before a sequence of a layer.
pub open spec fn written_places(caches: Seq<KvCacheModel>, index: int, row: int) -> Set<Place> {
    Set::new(
        |place: Place|
            exists|s: int, i: int|
                0 <= s < caches.len() && 0 <= i < caches[s].layers.len() && (i < index || (i
                    == index && s < row)) && #[trigger] cache_places(
                    caches[s].layers[i],
                ).contains(place),
    )
}

/// The storage of all caches.
pub open spec fn all_places(caches: Seq<KvCacheModel>) -> Set<Place> {
    Set::new(
        |place: Place|
            exists|s: int, i: int|
                0 <= s < caches.len() && 0 <= i < caches[s].layers.len()
                    && #[trigger] cache_places(caches[s].layers[i]).contains(place),
    )
}

/// Whether the keys and the values of every layer of every sequence have buffers of
/// their own, which hold no weight.
pub open spec fn own_buffers(net: NetModel, caches: Seq<KvCacheModel>) -> bool {
    let places = all_places(caches);
    &&& forall|s: int, i: int|
        0 <= s < caches.len() && 0 <= i < caches[s].layers.len() ==> {
            &&& (#[trigger] caches[s].layers[i]).on_device()
            &&& caches[s].layers[i].key.place != caches[s].layers[i].value.place
        }
    &&& forall|s: int, i: int, t: int, j: int|
        0 <= s < caches.len() && 0 <= i < caches[s].layers.len() && 0 <= t < caches.len() && 0 <= j
            < caches[t].layers.len() && (s != t || i != j) ==> (#[trigger] cache_places(
            caches[s].layers[i],
        )).disjoint(#[trigger] cache_places(caches[t].layers[j]))
    &&& forall|i: int| 0 <= i < net.layers.len() ==> clear_of(#[trigger] net.layers[i], places)
    &&& !places.contains(net.final_norm.place)
    &&& !places.contains(net.lm_head.place)
}

proof fn lemma_places(net: NetModel, caches: Seq<KvCacheModel>, index: int, row: int)
    requires
        own_buffers(net, caches),
        0 <= row < caches.len(),
        0 <= index < caches[row].layers.len(),
    ensures
        ({
            let here = cache_places(caches[row].layers[index]);
            let before = written_places(caches, index, row);
            let after = written_places(caches, index, row + 1);
            &&& here.disjoint(before)
            &&& here.subset_of(after)
            &&& before.subset_of(after)
            &&& before.subset_of(all_places(caches))
            &&& after.subset_of(all_places(caches))
            &&& here.subset_of(all_places(caches))
        }),
{
    let here = cache_places(caches[row].layers[index]);
    let before = written_places(caches, index, row);
    let after = written_places(caches, index, row + 1);
    assert forall|place: Place| before.contains(place) implies !here.contains(place)
        && after.contains(place) && all_places(caches).contains(place) by {
        let (s, i) = choose|s: int, i: int|
            0 <= s < caches.len() && 0 <= i < caches[s].layers.len() && (i < index || (i == index
                && s < row)) && #[trigger] cache_places(caches[s].layers[i]).contains(place);
        assert(cache_places(caches[s].layers[i]).disjoint(here));
    }
    assert forall|place: Place| here.contains(place) implies after.contains(place)
        && all_places(caches).contains(place) by {
        assert(cache_places(caches[row].layers[index]).contains(place));
    }
    assert forall|place: Place| after.contains(place) implies all_places(caches).contains(
        place,
    ) by {
        let (s, i) = choose|s: int, i: int|
            0 <= s < caches.len() && 0 <= i < caches[s].layers.len() && (i < index || (i == index
                && s < row + 1)) && #[trigger] cache_places(caches[s].layers[i]).contains(place);
        assert(cache_places(caches[s].layers[i]).contains(place));
    }
}

proof fn lemma_row_content_kept(
    net: NetModel,
    first: BatchModel,
    batch: BatchModel,
    targets: Set<Place>,
    layer: LayerModel,
    cache: KvCacheModel,
    index: int,
    query: Content,
    key: Content,
    value: Content,
    row: int,
)
    requires
        values::kept(first, batch, targets),
        layer.on_device(),
        cache.layers[index].on_device(),
        clear_of(layer, targets),
        !targets.contains(cache.layers[index].key.place),
        !targets.contains(cache.layers[index].value.place),
    ensures
        row_content(net, batch.log, layer, cache, index, query, key, value, row) == row_content(
            net,
            first.log,
            layer,
            cache,
            index,
            query,
            key,
            value,
            row,
        ),
{
    values::lemma_keeps(first, batch, targets, layer.query_norm);
    values::lemma_keeps(first, batch, targets, layer.key_norm);
    values::lemma_keeps(first, batch, targets, cache.layers[index].key);
    values::lemma_keeps(first, batch, targets, cache.layers[index].value);
}

proof fn lemma_rows(
    net: NetModel,
    first: BatchModel,
    batch: BatchModel,
    query: TensorModel,
    key: TensorModel,
    value: TensorModel,
    query_content: Content,
    key_content: Content,
    value_content: Content,
    layer: LayerModel,
    caches: Seq<KvCacheModel>,
    index: int,
    count: usize,
    rows: TensorModel,
    before: Content,
    row: int,
)
    requires
        decode_batch::rows_run(
            net,
            batch,
            query,
            key,
            value,
            layer,
            caches,
            index,
            rows,
            row,
        ).1 is Ok,
        0 <= index < net.layers.len(),
        0 <= row <= caches.len() <= usize::MAX,
        own_buffers(net, caches),
        layer == net.layers[index],
        layer.on_device(),
        forall|s: int| 0 <= s < caches.len() ==> (#[trigger] caches[s]).filled < usize::MAX,
        readable(batch, query, layer.query, count, query_content),
        readable(batch, key, layer.key, count, key_content),
        readable(batch, value, layer.value, count, value_content),
        values::known(batch, rows.place),
        rows.place is Scratch,
        rows.place != query.place,
        rows.place != key.place,
        rows.place != value.place,
        !values::known(first, rows.place),
        values::kept(first, batch, written_places(caches, index, row)),
        values::value(batch, rows) == rows_content(
            net,
            first.log,
            layer,
            caches,
            index,
            query_content,
            key_content,
            value_content,
            before,
            row,
        ),
    ensures
        ({
            let run = decode_batch::rows_run(
                net,
                batch,
                query,
                key,
                value,
                layer,
                caches,
                index,
                rows,
                row,
            );
            &&& values::known(run.0, rows.place)
            &&& values::kept(first, run.0, written_places(caches, index, caches.len() as int))
            &&& values::value(run.0, rows) == rows_content(
                net,
                first.log,
                layer,
                caches,
                index,
                query_content,
                key_content,
                value_content,
                before,
                caches.len() as int,
            )
        }),
    decreases caches.len() - row,
{
    if row < caches.len() {
        let cache = caches[row];
        assert(index < cache.layers.len());
        lemma_places(net, caches, index, row);
        assert(cache.layers[index].on_device());
        lemma_row(
            net,
            batch,
            query,
            key,
            value,
            query_content,
            key_content,
            value_content,
            layer,
            cache,
            index,
            count,
            rows,
            row as usize,
        );
        let next = decode_batch::row_run(
            net,
            batch,
            query,
            key,
            value,
            layer,
            cache,
            index,
            rows,
            row as usize,
        ).0;
        let here = cache_places(cache.layers[index]);
        let done = written_places(caches, index, row);
        let more = written_places(caches, index, row + 1);
        let targets = here.insert(rows.place);
        assert(here.contains(cache.layers[index].key.place));
        assert(here.contains(cache.layers[index].value.place));
        assert(clear_of(layer, all_places(caches)));
        lemma_row_content_kept(
            net,
            first,
            batch,
            done,
            layer,
            cache,
            index,
            query_content,
            key_content,
            value_content,
            row,
        );
        lemma_readable_stays(batch, next, targets, query, layer.query, count, query_content);
        lemma_readable_stays(batch, next, targets, key, layer.key, count, key_content);
        lemma_readable_stays(batch, next, targets, value, layer.value, count, value_content);
        values::lemma_still_known(batch, next, targets, rows.place);
        let wide = more.insert(rows.place);
        values::lemma_kept_wider(first, batch, done, wide);
        values::lemma_kept_wider(batch, next, targets, wide);
        values::lemma_kept_joins(first, batch, next, wide);
        values::lemma_kept_unnamed(first, next, more, rows.place);
        lemma_rows(
            net,
            first,
            next,
            query,
            key,
            value,
            query_content,
            key_content,
            value_content,
            layer,
            caches,
            index,
            count,
            rows,
            before,
            row + 1,
        );
    }
}

/// A layer over a batch computes the rows of its sequences. Yields what the rows held
/// before.
pub proof fn lemma_batch_layer(
    net: NetModel,
    batch: BatchModel,
    hidden: TensorModel,
    caches: Seq<KvCacheModel>,
    index: int,
) -> (before: Content)
    requires
        decode_batch::batch_layer_run(net, batch, hidden, caches, index).1 is Ok,
        0 <= index < net.layers.len(),
        caches.len() <= usize::MAX,
        own_buffers(net, caches),
        net.layers[index].on_device(),
        forall|s: int| 0 <= s < caches.len() ==> (#[trigger] caches[s]).filled < usize::MAX,
        values::known(batch, hidden.place),
        hidden.place is Scratch,
        hidden.shape.len() == 2,
    ensures
        ({
            let run = decode_batch::batch_layer_run(net, batch, hidden, caches, index);
            let out = run.1->Ok_0[0];
            &&& run.1->Ok_0.len() == 1
            &&& values::known(run.0, out.place)
            &&& out.place is Scratch
            &&& out.shape == hidden.shape
            &&& values::value(run.0, out) == batch_layer_content(
                net,
                batch.log,
                caches,
                index,
                values::value(batch, hidden),
                hidden.shape[0] as int,
                before,
            )
            &&& values::kept(batch, run.0, written_places(caches, index, caches.len() as int))
        }),
{
    reveal(decode_batch::batch_layer_run);
    let none = Set::<Place>::empty();
    let layer = net.layers[index];
    let count = hidden.shape[0];
    let shape = seq![caches.len() as usize, net.config.spec_query_width() as usize];
    let (batch1, qkv) = forward::norm_project_run(net, batch, hidden, layer);
    network::lemma_norm_project(net, batch, hidden, layer);
    let rows = batch1.fresh(0, shape, DType::F16);
    let batch2 = batch1.after_issue(1);
    values::lemma_kept_issue(batch1, 1, none);
    let before = values::value(batch2, rows);
    let normal = network::scaled(
        net,
        batch.log,
        values::value(batch, hidden),
        count as int,
        layer.input_norm,
    );
    let query_content = network::dense(batch.log, normal, count as int, layer.query);
    let key_content = network::dense(batch.log, normal, count as int, layer.key);
    let value_content = network::dense(batch.log, normal, count as int, layer.value);
    let query = qkv->Ok_0[0];
    let key = qkv->Ok_0[1];
    let value = qkv->Ok_0[2];
    lemma_readable_stays(batch1, batch2, none, query, layer.query, count, query_content);
    lemma_readable_stays(batch1, batch2, none, key, layer.key, count, key_content);
    lemma_readable_stays(batch1, batch2, none, value, layer.value, count, value_content);
    values::lemma_kept_joins(batch, batch1, batch2, none);
    values::lemma_kept_wider(batch, batch2, none, written_places(caches, index, 0));
    if values::known(batch, rows.place) {
        values::lemma_still_known(batch, batch1, none, rows.place);
    }
    lemma_rows(
        net,
        batch,
        batch2,
        query,
        key,
        value,
        query_content,
        key_content,
        value_content,
        layer,
        caches,
        index,
        count,
        rows,
        before,
        0,
    );
    let all = written_places(caches, index, caches.len() as int);
    let batch3 = decode_batch::rows_run(
        net,
        batch2,
        query,
        key,
        value,
        layer,
        caches,
        index,
        rows,
        0,
    ).0;
    let (batch4, attended) = batch3.run(gemm::matmul_step(batch3, net.tuning, rows, layer.output));
    results::matmul_value(batch3, net.tuning, rows, layer.output);
    network::lemma_feed_forward(net, batch4, hidden, attended->Ok_0[0], layer, false);
    let run = decode_batch::batch_layer_run(net, batch, hidden, caches, index);
    values::lemma_kept_wider(batch3, batch4, none, all);
    values::lemma_kept_wider(batch4, run.0, none, all);
    values::lemma_kept_joins(batch, batch3, batch4, all);
    values::lemma_kept_joins(batch, batch4, run.0, all);
    assert forall|place: Place| all.contains(place) implies all_places(caches).contains(place)
        && place is Device by {
        let (s, i) = choose|s: int, i: int|
            0 <= s < caches.len() && 0 <= i < caches[s].layers.len() && (i < index || (i == index
                && s < caches.len())) && #[trigger] cache_places(caches[s].layers[i]).contains(
                place,
            );
        assert(cache_places(caches[s].layers[i]).contains(place));
        assert(caches[s].layers[i].on_device());
    }
    assert(clear_of(layer, all_places(caches)));
    values::lemma_keeps(batch, batch3, all, layer.output);
    values::lemma_keeps(batch, batch4, all, layer.post_attention_norm);
    values::lemma_keeps(batch, batch4, all, layer.gate);
    values::lemma_keeps(batch, batch4, all, layer.up);
    values::lemma_keeps(batch, batch4, all, layer.down);
    values::lemma_keeps(batch, batch4, all, hidden);
    before
}

proof fn lemma_rows_content_kept(
    net: NetModel,
    first: BatchModel,
    batch: BatchModel,
    targets: Set<Place>,
    layer: LayerModel,
    caches: Seq<KvCacheModel>,
    index: int,
    query: Content,
    key: Content,
    value: Content,
    before: Content,
    count: int,
)
    requires
        values::kept(first, batch, targets),
        layer.on_device(),
        clear_of(layer, targets),
        count <= caches.len(),
        forall|s: int|
            0 <= s < caches.len() ==> {
                &&& (#[trigger] caches[s]).layers[index].on_device()
                &&& !targets.contains(caches[s].layers[index].key.place)
                &&& !targets.contains(caches[s].layers[index].value.place)
            },
    ensures
        rows_content(net, batch.log, layer, caches, index, query, key, value, before, count)
            == rows_content(net, first.log, layer, caches, index, query, key, value, before, count),
    decreases count,
{
    if count > 0 {
        lemma_rows_content_kept(
            net,
            first,
            batch,
            targets,
            layer,
            caches,
            index,
            query,
            key,
            value,
            before,
            count - 1,
        );
        lemma_row_content_kept(
            net,
            first,
            batch,
            targets,
            layer,
            caches[count - 1],
            index,
            query,
            key,
            value,
            count - 1,
        );
    }
}

proof fn lemma_batch_layer_content_kept(
    net: NetModel,
    first: BatchModel,
    batch: BatchModel,
    targets: Set<Place>,
    caches: Seq<KvCacheModel>,
    index: int,
    hidden: Content,
    rows: int,
    before: Content,
)
    requires
        values::kept(first, batch, targets),
        net.layers[index].on_device(),
        clear_of(net.layers[index], targets),
        forall|s: int|
            0 <= s < caches.len() ==> {
                &&& (#[trigger] caches[s]).layers[index].on_device()
                &&& !targets.contains(caches[s].layers[index].key.place)
                &&& !targets.contains(caches[s].layers[index].value.place)
            },
    ensures
        batch_layer_content(net, batch.log, caches, index, hidden, rows, before)
            == batch_layer_content(net, first.log, caches, index, hidden, rows, before),
{
    let layer = net.layers[index];
    values::lemma_keeps(first, batch, targets, layer.input_norm);
    values::lemma_keeps(first, batch, targets, layer.query);
    values::lemma_keeps(first, batch, targets, layer.key);
    values::lemma_keeps(first, batch, targets, layer.value);
    values::lemma_keeps(first, batch, targets, layer.output);
    values::lemma_keeps(first, batch, targets, layer.post_attention_norm);
    values::lemma_keeps(first, batch, targets, layer.gate);
    values::lemma_keeps(first, batch, targets, layer.up);
    values::lemma_keeps(first, batch, targets, layer.down);
    let normal = network::scaled(net, first.log, hidden, rows, layer.input_norm);
    lemma_rows_content_kept(
        net,
        first,
        batch,
        targets,
        layer,
        caches,
        index,
        network::dense(first.log, normal, rows, layer.query),
        network::dense(first.log, normal, rows, layer.key),
        network::dense(first.log, normal, rows, layer.value),
        before,
        caches.len() as int,
    );
}

proof fn lemma_batch_layers(
    net: NetModel,
    first: BatchModel,
    batch: BatchModel,
    hidden: TensorModel,
    embedded: Content,
    caches: Seq<KvCacheModel>,
    index: int,
    before: Seq<Content>,
) -> (whole: Seq<Content>)
    requires
        decode_batch::batch_layers_run(net, batch, hidden, caches, index).1 is Ok,
        0 <= index <= net.layers.len(),
        before.len() == index,
        caches.len() <= usize::MAX,
        own_buffers(net, caches),
        net.on_device(),
        forall|s: int| 0 <= s < caches.len() ==> (#[trigger] caches[s]).filled < usize::MAX,
        forall|s: int|
            0 <= s < caches.len() ==> (#[trigger] caches[s]).layers.len() == net.layers.len(),
        values::known(batch, hidden.place),
        hidden.place is Scratch,
        hidden.shape.len() == 2,
        values::kept(first, batch, written_places(caches, index, 0)),
        values::value(batch, hidden) == batch_layers_content(
            net,
            first.log,
            caches,
            embedded,
            hidden.shape[0] as int,
            before,
            index,
        ),
    ensures
        ({
            let run = decode_batch::batch_layers_run(net, batch, hidden, caches, index);
            let out = run.1->Ok_0[0];
            &&& run.1->Ok_0.len() == 1
            &&& whole.len() == net.layers.len()
            &&& values::known(run.0, out.place)
            &&& out.place is Scratch
            &&& out.shape == hidden.shape
            &&& values::value(run.0, out) == batch_layers_content(
                net,
                first.log,
                caches,
                embedded,
                hidden.shape[0] as int,
                whole,
                net.layers.len() as int,
            )
            &&& values::kept(first, run.0, all_places(caches))
        }),
    decreases net.layers.len() - index,
{
    let done = written_places(caches, index, 0);
    assert forall|place: Place| done.contains(place) implies all_places(caches).contains(place) by {
        let (s, i) = choose|s: int, i: int|
            0 <= s < caches.len() && 0 <= i < caches[s].layers.len() && (i < index || (i == index
                && s < 0)) && #[trigger] cache_places(caches[s].layers[i]).contains(place);
        assert(cache_places(caches[s].layers[i]).contains(place));
    }
    if index < net.layers.len() {
        let (next, out) = decode_batch::batch_layer_run(net, batch, hidden, caches, index);
        let held = lemma_batch_layer(net, batch, hidden, caches, index);
        assert(clear_of(net.layers[index], all_places(caches)));
        assert forall|s: int| 0 <= s < caches.len() implies {
            &&& (#[trigger] caches[s]).layers[index].on_device()
            &&& !done.contains(caches[s].layers[index].key.place)
            &&& !done.contains(caches[s].layers[index].value.place)
        } by {
            assert(caches[s].layers[index].on_device());
            let here = cache_places(caches[s].layers[index]);
            assert(here.contains(caches[s].layers[index].key.place));
            assert(here.contains(caches[s].layers[index].value.place));
            assert forall|place: Place| here.contains(place) implies !done.contains(place) by {
                if done.contains(place) {
                    let (t, i) = choose|t: int, i: int|
                        0 <= t < caches.len() && 0 <= i < caches[t].layers.len() && (i < index || (i
                            == index && t < 0)) && #[trigger] cache_places(
                            caches[t].layers[i],
                        ).contains(place);
                    assert(cache_places(caches[t].layers[i]).disjoint(here));
                }
            }
        }
        lemma_batch_layer_content_kept(
            net,
            first,
            batch,
            done,
            caches,
            index,
            values::value(batch, hidden),
            hidden.shape[0] as int,
            held,
        );
        let through = written_places(caches, index, caches.len() as int);
        let more = written_places(caches, index + 1, 0);
        assert forall|place: Place| through.contains(place) implies more.contains(place) by {
            let (s, i) = choose|s: int, i: int|
                0 <= s < caches.len() && 0 <= i < caches[s].layers.len() && (i < index || (i
                    == index && s < caches.len())) && #[trigger] cache_places(
                    caches[s].layers[i],
                ).contains(place);
            assert(cache_places(caches[s].layers[i]).contains(place));
        }
        assert forall|place: Place| done.contains(place) implies more.contains(place) by {
            let (s, i) = choose|s: int, i: int|
                0 <= s < caches.len() && 0 <= i < caches[s].layers.len() && (i < index || (i
                    == index && s < 0)) && #[trigger] cache_places(caches[s].layers[i]).contains(
                    place,
                );
            assert(cache_places(caches[s].layers[i]).contains(place));
        }
        values::lemma_kept_wider(first, batch, done, more);
        values::lemma_kept_wider(batch, next, through, more);
        values::lemma_kept_joins(first, batch, next, more);
        let longer = before.push(held);
        lemma_same_before(
            net,
            first.log,
            caches,
            embedded,
            hidden.shape[0] as int,
            before,
            longer,
            index,
        );
        lemma_batch_layers(net, first, next, out->Ok_0[0], embedded, caches, index + 1, longer)
    } else {
        values::lemma_kept_wider(first, batch, done, all_places(caches));
        before
    }
}

proof fn lemma_same_before(
    net: NetModel,
    log: Seq<CommandModel>,
    caches: Seq<KvCacheModel>,
    hidden: Content,
    rows: int,
    left: Seq<Content>,
    right: Seq<Content>,
    count: int,
)
    requires
        count <= left.len() <= right.len(),
        forall|i: int| 0 <= i < left.len() ==> left[i] == right[i],
    ensures
        batch_layers_content(net, log, caches, hidden, rows, left, count)
            == batch_layers_content(net, log, caches, hidden, rows, right, count),
    decreases count,
{
    if count > 0 {
        lemma_same_before(net, log, caches, hidden, rows, left, right, count - 1);
    }
}

/// The logits that a batch returns are those of the network for one token of each
/// sequence: every sequence is projected, normalised and turned in a row of its own,
/// attends over its own cache, and goes through the final norm and the head. What the
/// rows of a layer held before they were written is left open.
pub proof fn a_batch_computes_the_network(
    net: NetModel,
    batch: BatchModel,
    input: TensorModel,
    caches: Seq<KvCacheModel>,
)
    requires
        decode_batch::decode_batch_run(net, batch, input, caches).1 is Ok,
        net.on_device(),
        own_buffers(net, caches),
        caches.len() <= usize::MAX,
        forall|s: int| 0 <= s < caches.len() ==> (#[trigger] caches[s]).filled < usize::MAX,
        forall|s: int|
            0 <= s < caches.len() ==> (#[trigger] caches[s]).layers.len() == net.layers.len(),
    ensures
        ({
            let (after, outputs) = decode_batch::decode_batch_run(net, batch, input, caches);
            &&& outputs->Ok_0.len() == 1
            &&& exists|before: Seq<Content>|
                before.len() == net.layers.len() && values::value(after, outputs->Ok_0[0])
                    == #[trigger] batch_content(net, batch.log, input, caches, before)
        }),
{
    let none = Set::<Place>::empty();
    let places = all_places(caches);
    let embed = elementwise::embedding_step(batch, input, net.embedding);
    operands::lemma_ran(batch, embed);
    let (batch1, hidden) = batch.run(embed);
    results::embedding_value(batch, input, net.embedding);
    let start = hidden->Ok_0[0];
    let embedded = values::value(batch1, start);
    let written = written_places(caches, 0, 0);
    values::lemma_kept_wider(batch, batch1, none, written);
    let before = lemma_batch_layers(
        net,
        batch,
        batch1,
        start,
        embedded,
        caches,
        0,
        Seq::empty(),
    );
    let (batch2, last) = decode_batch::batch_layers_run(net, batch1, start, caches, 0);
    let states = last->Ok_0[0];
    values::lemma_keeps(batch, batch2, places, net.final_norm);
    values::lemma_keeps(batch, batch2, places, net.lm_head);
    let step = norm::rms_norm_step(batch2, states, net.final_norm, net.config.rms_norm_eps);
    operands::lemma_ran(batch2, step);
    let (batch3, normalized) = batch2.run(step);
    results::norm_value(batch2, states, net.final_norm, net.config.rms_norm_eps);
    assert(states.shape =~= seq![input.shape[0], net.embedding.shape[1]]);
    operands::lemma_rows(input.shape[0], net.embedding.shape[1]);
    values::lemma_keeps(batch2, batch3, none, net.lm_head);
    results::matmul_value(batch3, net.tuning, normalized->Ok_0[0], net.lm_head);
    let after = decode_batch::decode_batch_run(net, batch, input, caches);
    assert(values::value(after.0, after.1->Ok_0[0]) == batch_content(
        net,
        batch.log,
        input,
        caches,
        before,
    ));
}

/// A sequence that is decoded alone in a batch goes through a layer as one token of a pass
/// does, over the same cache: the same projections, attention and second half. Between
/// them its attention is copied to the only row of the batch.
pub proof fn one_sequence_computes_as_one_token(
    net: NetModel,
    log: Seq<CommandModel>,
    cache: KvCacheModel,
    index: int,
    hidden: Content,
    before: Content,
)
    ensures
        ({
            let layer = net.layers[index];
            let normal = network::scaled(net, log, hidden, 1, layer.input_norm);
            let attention = network::attended(
                net,
                log,
                layer,
                cache.layers[index],
                network::dense(log, normal, 1, layer.query),
                network::dense(log, normal, 1, layer.key),
                network::dense(log, normal, 1, layer.value),
                1,
                cache.filled as int,
                cache.filled + 1,
            );
            let width = net.config.spec_query_width() as usize as int;
            let copied = values::written(before, attention, 1, 0, width);
            &&& network::layer_content(
                net,
                log,
                layer,
                cache.layers[index],
                hidden,
                1,
                cache.filled as int,
                cache.filled + 1,
            ) == network::fed_forward(
                net,
                log,
                layer,
                hidden,
                network::dense(log, attention, 1, layer.output),
                1,
            )
            &&& batch_layer_content(net, log, seq![cache], index, hidden, 1, before)
                == network::fed_forward(
                net,
                log,
                layer,
                hidden,
                network::dense(log, copied, 1, layer.output),
                1,
            )
        }),
{
    let layer = net.layers[index];
    reveal_with_fuel(rows_content, 2);
    assert(0 * layer.query.shape[0] * 2 == 0) by (nonlinear_arith);
    assert(0 * layer.key.shape[0] * 2 == 0) by (nonlinear_arith);
    assert(0 * layer.value.shape[0] * 2 == 0) by (nonlinear_arith);
    assert(seq![cache][0] == cache);
}

} // verus!
