//! Passes that fit succeed: with weights and caches of the shapes that the
//! configuration asks for, nothing refuses a forward pass but the size of a
//! machine number.

use crate::error::KernelError;
use crate::gpu::command::CommandModel;
use crate::gpu::recorder::{self, BatchModel, Step};
use crate::gpu::scratch;
use crate::gpu::tensor::{self, DType, TensorModel};
use crate::ops::{attention, elementwise, fused, gemm, gemv, kv, norm, rope, sampling, support};
use crate::ops::{AttentionConfig, AttentionKind, QkNormRopeCacheConfig};
use crate::planner;
use crate::qwen3::config::Qwen3Config;
use crate::qwen3::decode_batch;
use crate::qwen3::forward;
use crate::qwen3::kv_cache::{self, KvCacheModel, LayerCacheModel};
use crate::qwen3::layers::{self, LayerModel};
use crate::qwen3::load::{self, LayerPart};
use crate::qwen3::model::NetModel;
use crate::tuning::{self, TuningModel};
use vstd::prelude::*;

verus! {

/// A tensor of half-precision numbers with a shape.
pub open spec fn is_half(tensor: TensorModel, shape: Seq<usize>) -> bool {
    tensor.dtype == DType::F16 && tensor.shape == shape
}

/// So many elements can be counted by a kernel, and their bytes and threads by
/// the host.
pub open spec fn countable(elements: int) -> bool {
    &&& 0 < elements <= u32::MAX
    &&& elements * 512 <= usize::MAX
}

/// The weights of a layer have the shapes that the configuration asks for.
pub open spec fn layer_fits(config: Qwen3Config, layer: LayerModel) -> bool {
    &&& layers::projections_valid(config, layer)
    &&& layer.input_norm.shape == seq![config.hidden_size]
    &&& layer.post_attention_norm.shape == seq![config.hidden_size]
    &&& layer.input_norm.dtype == DType::F16
    &&& layer.post_attention_norm.dtype == DType::F16
    &&& layer.query.dtype == DType::F16
    &&& layer.key.dtype == DType::F16
    &&& layer.value.dtype == DType::F16
    &&& layer.output.dtype == DType::F16
    &&& layer.query_norm.dtype == DType::F16
    &&& layer.key_norm.dtype == DType::F16
    &&& layer.gate.dtype == DType::F16
    &&& layer.up.dtype == DType::F16
    &&& layer.down.dtype == DType::F16
}

/// The weights of a model have the shapes that the configuration asks for, and
/// its plan names kernels that are built for them.
pub open spec fn net_fits(net: NetModel) -> bool {
    let config = net.config;
    &&& net.wf()
    &&& is_half(net.embedding, seq![config.vocab_size, config.hidden_size])
    &&& is_half(net.final_norm, seq![config.hidden_size])
    &&& is_half(net.lm_head, seq![config.vocab_size, config.hidden_size])
    &&& forall|i: int| 0 <= i < net.layers.len() ==> layer_fits(config, #[trigger] net.layers[i])
    &&& net.tuning.selection.valid()
    &&& net.plan.attention == AttentionKind::Reference || attention::tiled_head_dim(config.head_dim)
    &&& net.plan.fusions.decode_norm ==> config.hidden_size % 256 == 0
}

/// A cache of this model.
pub open spec fn cache_fits(config: Qwen3Config, cache: KvCacheModel) -> bool {
    forall|i: int|
        0 <= i < cache.layers.len() ==> layer_cache_fits(
            config,
            cache.capacity,
            #[trigger] cache.layers[i],
        )
}

pub open spec fn layer_cache_fits(
    config: Qwen3Config,
    capacity: usize,
    cache: LayerCacheModel,
) -> bool {
    let shape = seq![capacity, config.num_key_value_heads, config.head_dim];
    is_half(cache.key, shape) && is_half(cache.value, shape)
}

/// What a pass over `tokens` tokens makes can be counted, and so can what a
/// token attends to.
pub open spec fn pass_countable(config: Qwen3Config, tokens: usize, capacity: usize) -> bool {
    &&& countable(tokens * config.hidden_size)
    &&& countable(tokens * config.intermediate_size)
    &&& countable(tokens * config.spec_query_width())
    &&& countable(tokens * config.spec_kv_width())
    &&& countable(config.vocab_size as int)
    &&& capacity <= u32::MAX
    &&& (capacity + 256) * config.num_key_value_heads * (config.head_dim + 2) * 512 <= usize::MAX
}

/// A batch that is not profiled takes every command.
proof fn lemma_takes_all(batch: BatchModel, commands: Seq<CommandModel>)
    requires
        batch.profiled is None,
    ensures
        batch.with_all(commands).1,
        batch.with_all(commands).0.profiled is None,
    decreases commands.len(),
{
    if commands.len() > 0 {
        lemma_takes_all(batch.with(commands[0]), commands.drop_first());
    }
}

/// An operation that is accepted yields its outputs.
proof fn lemma_runs(batch: BatchModel, step: Result<Step, KernelError>)
    requires
        batch.profiled is None,
        step is Ok,
    ensures
        batch.run(step).0.profiled is None,
        batch.run(step).1 is Ok,
        batch.run(step).1->Ok_0 == step->Ok_0.outputs,
{
    lemma_takes_all(batch.after_issue(step->Ok_0.issued), step->Ok_0.commands);
}

/// The factors of a number that can be counted.
proof fn lemma_factors(a: int, b: int)
    requires
        a > 0,
        b > 0,
        countable(a * b),
    ensures
        countable(a),
        countable(b),
        a <= a * b,
        b <= a * b,
{
    assert(a <= a * b && b <= a * b) by (nonlinear_arith)
        requires
            a > 0,
            b > 0,
    ;
}

proof fn lemma_allocates(shape: Seq<usize>)
    requires
        tensor::filled(shape),
        countable(tensor::elements(shape) as int),
    ensures
        recorder::allocation_error(shape, DType::F16) is None,
{
    let bytes = tensor::elements(shape) * DType::F16.spec_size();
    assert(bytes == tensor::elements(shape) * 2);
    assert(bytes <= usize::MAX - 255);
    assert(scratch::allocatable(bytes as usize));
}

proof fn lemma_allocates_matrix(a: usize, b: usize)
    requires
        a > 0,
        b > 0,
        countable(a * b),
    ensures
        recorder::allocation_error(seq![a, b], DType::F16) is None,
        tensor::elements(seq![a, b]) == a * b,
{
    tensor::lemma_elements_two(a, b);
    lemma_allocates(seq![a, b]);
}

proof fn lemma_allocates_heads(a: usize, b: usize, c: usize)
    requires
        a > 0,
        b > 0,
        c > 0,
        countable(a * (b * c)),
    ensures
        recorder::allocation_error(seq![a, b, c], DType::F16) is None,
        tensor::elements(seq![a, b, c]) == a * (b * c),
{
    tensor::lemma_elements_three(a, b, c);
    assert(a * b * c == a * (b * c)) by (nonlinear_arith);
    lemma_allocates(seq![a, b, c]);
}

/// The step is accepted and yields one tensor of this shape.
spec fn yields(step: Result<Step, KernelError>, shape: Seq<usize>) -> bool {
    &&& step is Ok
    &&& step->Ok_0.outputs.len() == 1
    &&& is_half(step->Ok_0.outputs[0], shape)
}

proof fn lemma_embedding(batch: BatchModel, tokens: TensorModel, table: TensorModel, count: usize)
    requires
        tokens.dtype == DType::U32,
        tokens.shape == seq![count],
        count > 0,
        table.dtype == DType::F16,
        table.shape.len() == 2,
        table.shape[1] > 0,
        countable(count * table.shape[1]),
    ensures
        yields(elementwise::embedding_step(batch, tokens, table), seq![count, table.shape[1]]),
{
    lemma_factors(count as int, table.shape[1] as int);
    lemma_allocates_matrix(count, table.shape[1]);
}

proof fn lemma_pairwise(
    batch: BatchModel,
    kernel: Seq<char>,
    left: TensorModel,
    right: TensorModel,
    a: usize,
    b: usize,
)
    requires
        is_half(left, seq![a, b]),
        is_half(right, seq![a, b]),
        a > 0,
        b > 0,
        countable(a * b),
    ensures
        yields(elementwise::pairwise_step(batch, kernel, left, right), seq![a, b]),
{
    lemma_allocates_matrix(a, b);
}

proof fn lemma_rows_of_matrix(input: TensorModel, a: usize, b: usize)
    requires
        input.shape == seq![a, b],
        a > 0,
        b > 0,
    ensures
        norm::row_count(input) == a,
{
    tensor::lemma_elements_two(a, b);
    assert(a * b / b as int == a) by (nonlinear_arith)
        requires
            b > 0,
    ;
}

proof fn lemma_norm(
    batch: BatchModel,
    input: TensorModel,
    weight: TensorModel,
    epsilon: u32,
    a: usize,
    b: usize,
)
    requires
        is_half(input, seq![a, b]),
        is_half(weight, seq![b]),
        a > 0,
        b > 0,
        countable(a * b),
    ensures
        yields(norm::rms_norm_step(batch, input, weight, epsilon), seq![a, b]),
{
    lemma_allocates_matrix(a, b);
    lemma_factors(a as int, b as int);
    lemma_rows_of_matrix(input, a, b);
    assert(input.shape.last() == b);
}

proof fn lemma_add_norm(
    batch: BatchModel,
    left: TensorModel,
    right: TensorModel,
    weight: TensorModel,
    epsilon: u32,
    a: usize,
    b: usize,
)
    requires
        is_half(left, seq![a, b]),
        is_half(right, seq![a, b]),
        is_half(weight, seq![b]),
        a > 0,
        b > 0,
        countable(a * b),
    ensures
        ({
            let step = norm::add_rms_norm_step(batch, left, right, weight, epsilon);
            &&& step is Ok
            &&& step->Ok_0.outputs.len() == 2
            &&& is_half(step->Ok_0.outputs[0], seq![a, b])
            &&& is_half(step->Ok_0.outputs[1], seq![a, b])
        }),
{
    lemma_allocates_matrix(a, b);
    lemma_factors(a as int, b as int);
    lemma_rows_of_matrix(left, a, b);
    assert(left.shape.last() == b);
}

proof fn lemma_norm_heads(
    batch: BatchModel,
    input: TensorModel,
    weight: TensorModel,
    epsilon: u32,
    a: usize,
    b: usize,
    c: usize,
)
    requires
        is_half(input, seq![a, b, c]),
        is_half(weight, seq![c]),
        a > 0,
        b > 0,
        c > 0,
        countable(a * (b * c)),
    ensures
        yields(norm::rms_norm_step(batch, input, weight, epsilon), seq![a, b, c]),
{
    lemma_allocates_heads(a, b, c);
    assert(a * (b * c) == (a * b) * c) by (nonlinear_arith);
    assert(a * b > 0) by (nonlinear_arith)
        requires
            a > 0,
            b > 0,
    ;
    lemma_factors(a * b, c as int);
    assert((a * b) * c / c as int == a * b) by (nonlinear_arith)
        requires
            c > 0,
    ;
    assert(input.shape.last() == c);
    assert(norm::row_count(input) == a * b);
}

proof fn lemma_matmul(
    batch: BatchModel,
    tuning: TuningModel,
    input: TensorModel,
    weight: TensorModel,
    m: usize,
    n: usize,
    k: usize,
)
    requires
        is_half(input, seq![m, k]),
        is_half(weight, seq![n, k]),
        m > 0,
        n > 0,
        k > 0,
        countable(m * n),
        countable(m * k),
    ensures
        yields(gemm::matmul_step(batch, tuning, input, weight), seq![m, n]),
{
    lemma_factors(m as int, n as int);
    lemma_factors(m as int, k as int);
    lemma_allocates_matrix(m, n);
    let tiling = gemm::matmul_tiling(tuning, m, n, k);
    if m == 1 {
        assert(tiling.fits);
    } else {
        let columns = n as int / 32;
        let few = (m as int + 7) / 8;
        let many = (m as int + 31) / 32;
        assert(0 <= columns * few * 128 <= m * n * 512) by (nonlinear_arith)
            requires
                0 <= columns <= n,
                0 <= few <= m,
        ;
        assert(0 <= columns * many * 128 <= m * n * 512) by (nonlinear_arith)
            requires
                0 <= columns <= n,
                0 <= many <= m,
        ;
        assert(tiling.fits);
    }
}

/// An outcome of three tensors of these shapes, from a batch that takes more.
spec fn came3<E>(
    batch: BatchModel,
    result: Result<Seq<TensorModel>, E>,
    first: Seq<usize>,
    second: Seq<usize>,
    third: Seq<usize>,
) -> bool {
    &&& batch.profiled is None
    &&& result is Ok
    &&& result->Ok_0.len() == 3
    &&& is_half(result->Ok_0[0], first)
    &&& is_half(result->Ok_0[1], second)
    &&& is_half(result->Ok_0[2], third)
}

/// An outcome of two tensors of these shapes, from a batch that takes more.
spec fn came2<E>(
    batch: BatchModel,
    result: Result<Seq<TensorModel>, E>,
    first: Seq<usize>,
    second: Seq<usize>,
) -> bool {
    &&& batch.profiled is None
    &&& result is Ok
    &&& result->Ok_0.len() == 2
    &&& is_half(result->Ok_0[0], first)
    &&& is_half(result->Ok_0[1], second)
}

/// An outcome of one tensor of this shape, from a batch that takes more.
spec fn came1<E>(
    batch: BatchModel,
    result: Result<Seq<TensorModel>, E>,
    shape: Seq<usize>,
) -> bool {
    &&& batch.profiled is None
    &&& result is Ok
    &&& result->Ok_0.len() == 1
    &&& is_half(result->Ok_0[0], shape)
}

proof fn lemma_products2(
    batch: BatchModel,
    tuning: TuningModel,
    input: TensorModel,
    weight0: TensorModel,
    weight1: TensorModel,
    m: usize,
    n: usize,
    k: usize,
)
    requires
        batch.profiled is None,
        is_half(input, seq![m, k]),
        is_half(weight0, seq![n, k]),
        is_half(weight1, seq![n, k]),
        m > 0,
        n > 0,
        k > 0,
        countable(m * n),
        countable(m * k),
    ensures
        ({
            let (after, result) = gemv::products2(batch, tuning, input, weight0, weight1);
            came2(after, result, seq![m, n], seq![m, n])
        }),
        ({
            let (after, result) = gemv::matmul2_outcome(batch, tuning, input, weight0, weight1);
            came2(after, result, seq![m, n], seq![m, n])
        }),
{
    let first = gemm::matmul_step(batch, tuning, input, weight0);
    lemma_matmul(batch, tuning, input, weight0, m, n, k);
    lemma_runs(batch, first);
    let batch1 = batch.run(first).0;
    lemma_matmul(batch1, tuning, input, weight1, m, n, k);
    lemma_runs(batch1, gemm::matmul_step(batch1, tuning, input, weight1));
    let weights = seq![weight0, weight1];
    assert(gemv::multi_refusal(input, weights, KernelError::Matmul2InnerDimension) is None);
    if m == 1 {
        lemma_factors(m as int, n as int);
        lemma_factors(m as int, k as int);
        lemma_allocates_matrix(1, n);
        lemma_runs(
            batch,
            gemv::matvec2_step(batch, input, weight0, weight1, gemv::tuned_rows(tuning, k)),
        );
    }
}

proof fn lemma_products3(
    batch: BatchModel,
    tuning: TuningModel,
    input: TensorModel,
    weight0: TensorModel,
    weight1: TensorModel,
    weight2: TensorModel,
    m: usize,
    n0: usize,
    n1: usize,
    k: usize,
)
    requires
        batch.profiled is None,
        is_half(input, seq![m, k]),
        is_half(weight0, seq![n0, k]),
        is_half(weight1, seq![n1, k]),
        is_half(weight2, seq![n1, k]),
        m > 0,
        n0 > 0,
        n1 > 0,
        k > 0,
        countable(m * n0),
        countable(m * n1),
        countable(m * k),
    ensures
        ({
            let (after, result) = gemv::products3(
                batch,
                tuning,
                input,
                weight0,
                weight1,
                weight2,
            );
            came3(after, result, seq![m, n0], seq![m, n1], seq![m, n1])
        }),
        ({
            let (after, result) = gemv::matmul3_outcome(
                batch,
                tuning,
                input,
                weight0,
                weight1,
                weight2,
            );
            came3(after, result, seq![m, n0], seq![m, n1], seq![m, n1])
        }),
{
    let first = gemm::matmul_step(batch, tuning, input, weight0);
    lemma_matmul(batch, tuning, input, weight0, m, n0, k);
    lemma_runs(batch, first);
    let batch1 = batch.run(first).0;
    let second = gemm::matmul_step(batch1, tuning, input, weight1);
    lemma_matmul(batch1, tuning, input, weight1, m, n1, k);
    lemma_runs(batch1, second);
    let batch2 = batch1.run(second).0;
    lemma_matmul(batch2, tuning, input, weight2, m, n1, k);
    lemma_runs(batch2, gemm::matmul_step(batch2, tuning, input, weight2));
    let weights = seq![weight0, weight1, weight2];
    assert(gemv::multi_refusal(input, weights, KernelError::Matmul3InnerDimension) is None);
    if m == 1 {
        lemma_factors(m as int, n0 as int);
        lemma_factors(m as int, n1 as int);
        lemma_factors(m as int, k as int);
        lemma_allocates_matrix(1, n0);
        lemma_allocates_matrix(1, n1);
        lemma_runs(
            batch,
            gemv::matvec3_step(
                batch,
                input,
                weight0,
                weight1,
                weight2,
                gemv::tuned_rows(tuning, k),
            ),
        );
    }
}

/// Fused kernels take one or two rows.
proof fn lemma_fused_rows(tuning: TuningModel, widths: Seq<usize>, k: usize)
    ensures
        fused::fused_rows(tuning, widths, k) == 1 || fused::fused_rows(tuning, widths, k) == 2,
{
}

proof fn lemma_fused_tiling(kernel: Seq<char>, outputs: int, rows: int)
    requires
        rows == 1 || rows == 2,
        countable(outputs),
    ensures
        fused::fused_tiling(kernel, outputs, rows).fits,
{
    assert(rows * fused::simdgroups(rows) == 8) by {
        if rows == 1 {
            assert(1 * fused::simdgroups(1) == 8);
        } else {
            assert(2 * fused::simdgroups(2) == 8);
        }
    }
    let groups = support::ceil_div(outputs, 8);
    assert(groups == (outputs + 7) / 8);
    if rows == 1 {
        assert(fused::fused_tiling(kernel, outputs, rows) == gemm::line_tiling(kernel, groups, 256));
    } else {
        assert(fused::fused_tiling(kernel, outputs, rows) == gemm::line_tiling(kernel, groups, 128));
    }
}

proof fn lemma_norm_products3(
    batch: BatchModel,
    input: TensorModel,
    norm_weight: TensorModel,
    weight0: TensorModel,
    weight1: TensorModel,
    weight2: TensorModel,
    epsilon: u32,
    rows: int,
    n0: usize,
    n1: usize,
    k: usize,
)
    requires
        batch.profiled is None,
        rows == 1 || rows == 2,
        is_half(input, seq![1, k]),
        is_half(norm_weight, seq![k]),
        is_half(weight0, seq![n0, k]),
        is_half(weight1, seq![n1, k]),
        is_half(weight2, seq![n1, k]),
        n0 > 0,
        n1 > 0,
        k % 256 == 0,
        countable(n0 as int),
        countable(n1 as int),
        countable(k as int),
    ensures
        ({
            let (after, result) = batch.run(
                fused::rms_norm_matmul3_step(
                    batch,
                    input,
                    norm_weight,
                    weight0,
                    weight1,
                    weight2,
                    epsilon,
                    rows,
                ),
            );
            came3(after, result, seq![1, n0], seq![1, n1], seq![1, n1])
        }),
{
    lemma_allocates_matrix(1, n0);
    lemma_allocates_matrix(1, n1);
    lemma_fused_tiling(
        fused::rms3_kernel(rows),
        support::max(support::max(n0 as int, n1 as int), n1 as int),
        rows,
    );
    lemma_runs(
        batch,
        fused::rms_norm_matmul3_step(
            batch,
            input,
            norm_weight,
            weight0,
            weight1,
            weight2,
            epsilon,
            rows,
        ),
    );
}

proof fn lemma_add_norm_products2(
    batch: BatchModel,
    left: TensorModel,
    right: TensorModel,
    norm_weight: TensorModel,
    weight0: TensorModel,
    weight1: TensorModel,
    epsilon: u32,
    rows: int,
    n: usize,
    k: usize,
)
    requires
        batch.profiled is None,
        rows == 1 || rows == 2,
        is_half(left, seq![1, k]),
        is_half(right, seq![1, k]),
        is_half(norm_weight, seq![k]),
        is_half(weight0, seq![n, k]),
        is_half(weight1, seq![n, k]),
        n > 0,
        k % 256 == 0,
        countable(n as int),
        countable(k as int),
    ensures
        ({
            let (after, result) = batch.run(
                fused::add_rms_norm_matmul2_step(
                    batch,
                    left,
                    right,
                    norm_weight,
                    weight0,
                    weight1,
                    epsilon,
                    rows,
                ),
            );
            came3(after, result, seq![1, k], seq![1, n], seq![1, n])
        }),
{
    lemma_allocates_matrix(1, n);
    lemma_allocates_matrix(1, k);
    lemma_fused_tiling(fused::add_rms2_kernel(rows), support::max(n as int, n as int), rows);
    lemma_runs(
        batch,
        fused::add_rms_norm_matmul2_step(
            batch,
            left,
            right,
            norm_weight,
            weight0,
            weight1,
            epsilon,
            rows,
        ),
    );
}

proof fn lemma_rope(
    batch: BatchModel,
    input: TensorModel,
    offset: usize,
    theta: u32,
    a: usize,
    b: usize,
    c: usize,
)
    requires
        is_half(input, seq![a, b, c]),
        a > 0,
        b > 0,
        c > 0,
        c % 2 == 0,
        offset <= u32::MAX,
        countable(a * (b * c)),
    ensures
        yields(rope::rope_step(batch, input, offset, theta), seq![a, b, c]),
{
    lemma_allocates_heads(a, b, c);
    assert(b * c > 0) by (nonlinear_arith)
        requires
            b > 0,
            c > 0,
    ;
    lemma_factors(a as int, b * c);
    lemma_factors(b as int, c as int);
}

proof fn lemma_transform(
    batch: BatchModel,
    query: TensorModel,
    key: TensorModel,
    query_weight: TensorModel,
    key_weight: TensorModel,
    key_cache: TensorModel,
    config: QkNormRopeCacheConfig,
    tokens: usize,
    query_heads: usize,
    kv_heads: usize,
    head_dim: usize,
    capacity: usize,
)
    requires
        is_half(query, seq![tokens, query_heads, head_dim]),
        is_half(key, seq![tokens, kv_heads, head_dim]),
        is_half(query_weight, seq![head_dim]),
        is_half(key_weight, seq![head_dim]),
        is_half(key_cache, seq![capacity, kv_heads, head_dim]),
        tokens > 0,
        query_heads > 0,
        kv_heads > 0,
        head_dim > 0,
        head_dim % 2 == 0,
        config.offset + tokens <= capacity <= u32::MAX,
        countable(tokens * (query_heads * head_dim)),
        countable(tokens * (kv_heads * head_dim)),
    ensures
        yields(
            rope::qk_norm_rope_cache_step(
                batch,
                query,
                key,
                query_weight,
                key_weight,
                key_cache,
                config,
            ),
            seq![tokens, query_heads, head_dim],
        ),
{
    lemma_allocates_heads(tokens, query_heads, head_dim);
    lemma_heads_countable(tokens, query_heads, head_dim);
    lemma_heads_countable(tokens, kv_heads, head_dim);
    assert(tokens * (query_heads + kv_heads) == tokens * query_heads + tokens * kv_heads)
        by (nonlinear_arith);
}

/// The dimensions of heads that can be counted.
proof fn lemma_heads_countable(tokens: usize, heads: usize, head_dim: usize)
    requires
        tokens > 0,
        heads > 0,
        head_dim > 0,
        countable(tokens * (heads * head_dim)),
    ensures
        countable(tokens as int),
        countable(heads as int),
        countable(head_dim as int),
        countable(tokens * heads),
        countable(heads * head_dim),
{
    assert(heads * head_dim > 0 && tokens * heads > 0) by (nonlinear_arith)
        requires
            tokens > 0,
            heads > 0,
            head_dim > 0,
    ;
    lemma_factors(tokens as int, heads * head_dim);
    lemma_factors(heads as int, head_dim as int);
    assert(tokens * (heads * head_dim) == (tokens * heads) * head_dim) by (nonlinear_arith);
    lemma_factors(tokens * heads, head_dim as int);
}

/// A copy into a cache is accepted and yields nothing.
proof fn lemma_copy(
    batch: BatchModel,
    source: TensorModel,
    cache: TensorModel,
    offset: usize,
    tokens: usize,
    heads: usize,
    head_dim: usize,
    capacity: usize,
)
    requires
        batch.profiled is None,
        is_half(source, seq![tokens, heads, head_dim]),
        is_half(cache, seq![capacity, heads, head_dim]),
        tokens > 0,
        heads > 0,
        head_dim > 0,
        offset + tokens <= capacity <= u32::MAX,
        countable(tokens * (heads * head_dim)),
    ensures
        batch.run(kv::copy_into_cache_step(source, cache, offset)).0.profiled is None,
        batch.run(kv::copy_into_cache_step(source, cache, offset)).1 is Ok,
{
    lemma_heads_countable(tokens, heads, head_dim);
    lemma_runs(batch, kv::copy_into_cache_step(source, cache, offset));
}

/// The partial results of flash decode have room.
proof fn lemma_partial(kv_heads: usize, blocks: int, head_dim: usize, capacity: usize)
    requires
        kv_heads > 0,
        head_dim > 0,
        0 < blocks <= capacity,
        (capacity + 256) * kv_heads * (head_dim + 2) * 512 <= usize::MAX,
    ensures
        recorder::allocation_error(
            seq![kv_heads, blocks as usize, 2usize, (head_dim + 2) as usize],
            DType::F32,
        ) is None,
        0 <= kv_heads * blocks * 128 <= usize::MAX,
{
    let width = head_dim + 2;
    assert(kv_heads * blocks * width * 512 <= (capacity + 256) * kv_heads * width * 512)
        by (nonlinear_arith)
        requires
            kv_heads > 0,
            width > 0,
            0 < blocks <= capacity,
    ;
    assert(width <= kv_heads * blocks * width && kv_heads * blocks <= kv_heads * blocks * width
        && kv_heads * blocks > 0) by (nonlinear_arith)
        requires
            kv_heads > 0,
            width > 0,
            blocks > 0,
    ;
    let shape = seq![kv_heads, blocks as usize, 2usize, width as usize];
    tensor::lemma_elements_three(kv_heads, blocks as usize, 2);
    assert(shape.drop_last() =~= seq![kv_heads, blocks as usize, 2usize]);
    assert(tensor::elements(shape) == kv_heads * blocks * 2 * width);
    assert(kv_heads * blocks * 2 * width == kv_heads * blocks * width * 2) by (nonlinear_arith);
    assert(tensor::filled(shape));
    let bytes = tensor::elements(shape) * DType::F32.spec_size();
    assert(bytes == kv_heads * blocks * width * 8);
    assert(scratch::allocatable(bytes as usize));
}

proof fn lemma_attention(
    batch: BatchModel,
    query: TensorModel,
    key: TensorModel,
    value: TensorModel,
    config: AttentionConfig,
    kind: AttentionKind,
    split: attention::FlashSplit,
    tokens: usize,
    capacity: usize,
)
    requires
        is_half(query, seq![tokens, config.query_heads, config.head_dim]),
        is_half(key, seq![(config.query_offset + tokens) as usize, config.kv_heads, config.head_dim]),
        is_half(
            value,
            seq![(config.query_offset + tokens) as usize, config.kv_heads, config.head_dim],
        ),
        tokens > 0,
        config.query_heads > 0,
        config.kv_heads > 0,
        config.head_dim > 0,
        config.causal,
        config.query_heads as int % config.kv_heads as int == 0,
        config.query_offset + tokens <= capacity <= u32::MAX,
        kind == AttentionKind::Reference || attention::tiled_head_dim(config.head_dim),
        kind == AttentionKind::DecodeSplitKv || kind == AttentionKind::FlashDecode ==> tokens == 1,
        kind == AttentionKind::FlashDecode ==> config.query_heads as int / config.kv_heads as int
            == 2,
        tuning::supported_block_keys(split.block),
        split.threads == 128,
        split.reduce_threads == 128,
        countable(tokens * (config.query_heads * config.head_dim)),
        countable(tokens * (config.kv_heads * config.head_dim)),
        (capacity + 256) * config.kv_heads * (config.head_dim + 2) * 512 <= usize::MAX,
    ensures
        yields(
            attention::attention_step(batch, query, key, value, config, kind, split),
            seq![tokens, config.query_heads, config.head_dim],
        ),
{
    lemma_allocates_heads(tokens, config.query_heads, config.head_dim);
    lemma_heads_countable(tokens, config.query_heads, config.head_dim);
    lemma_heads_countable(tokens, config.kv_heads, config.head_dim);
    assert(config.query_heads * tokens == tokens * config.query_heads) by (nonlinear_arith);
    assert(attention::attention_refusal(query, key, value, config, kind, split) is None);
    if kind == AttentionKind::FlashDecode {
        let length = key.shape[0];
        let available = attention::available_keys(length, config);
        let blocks = support::ceil_div(available, split.block as int);
        assert(available == length);
        assert(0 < blocks <= capacity);
        lemma_partial(config.kv_heads, blocks, config.head_dim, capacity);
    } else {
        assert(attention::attention_tiling(kind, tokens as int, config).fits);
    }
}

/// The block for any number of keys is one that the kernels are built for.
proof fn lemma_split(tuning: TuningModel, length: usize)
    requires
        tuning.selection.valid(),
    ensures
        tuning::supported_block_keys(attention::batch_split(tuning, None, length).block),
{
    tuning::lemma_first_reaching_supported(tuning.selection.flash_decode_blocks, length);
}

/// A model and a number of tokens that go together.
spec fn ready(net: NetModel, tokens: usize, capacity: usize) -> bool {
    &&& net_fits(net)
    &&& tokens > 0
    &&& pass_countable(net.config, tokens, capacity)
}

/// The widths of a model that is ready.
proof fn lemma_widths(net: NetModel, tokens: usize, capacity: usize)
    requires
        ready(net, tokens, capacity),
    ensures
        ({
            let config = net.config;
            let query_width = config.spec_query_width() as usize;
            let kv_width = config.spec_kv_width() as usize;
            &&& query_width == config.num_attention_heads * config.head_dim
            &&& kv_width == config.num_key_value_heads * config.head_dim
            &&& query_width > 0
            &&& kv_width > 0
            &&& countable(tokens * query_width)
            &&& countable(tokens * kv_width)
            &&& countable(tokens * (config.num_attention_heads * config.head_dim))
            &&& countable(tokens * (config.num_key_value_heads * config.head_dim))
            &&& countable(tokens as int)
            &&& countable(config.hidden_size as int)
            &&& countable(config.intermediate_size as int)
            &&& countable(query_width as int)
            &&& countable(kv_width as int)
        }),
{
    let config = net.config;
    assert(config.num_attention_heads * config.head_dim > 0 && config.num_key_value_heads
        * config.head_dim > 0) by (nonlinear_arith)
        requires
            config.num_attention_heads > 0,
            config.num_key_value_heads > 0,
            config.head_dim > 0,
    ;
    lemma_factors(tokens as int, config.hidden_size as int);
    lemma_factors(tokens as int, config.intermediate_size as int);
    lemma_factors(tokens as int, config.spec_query_width());
    lemma_factors(tokens as int, config.spec_kv_width());
}

proof fn lemma_qkv_run(
    net: NetModel,
    batch: BatchModel,
    hidden: TensorModel,
    layer: LayerModel,
    tokens: usize,
    capacity: usize,
)
    requires
        batch.profiled is None,
        ready(net, tokens, capacity),
        layer_fits(net.config, layer),
        is_half(hidden, seq![tokens, net.config.hidden_size]),
    ensures
        ({
            let query_width = net.config.spec_query_width() as usize;
            let kv_width = net.config.spec_kv_width() as usize;
            let (after, result) = forward::qkv_run(net, batch, hidden, layer);
            came3(
                after,
                result,
                seq![tokens, query_width],
                seq![tokens, kv_width],
                seq![tokens, kv_width],
            )
        }),
{
    reveal(forward::qkv_run);
    lemma_widths(net, tokens, capacity);
    let config = net.config;
    let query_width = config.spec_query_width() as usize;
    let kv_width = config.spec_kv_width() as usize;
    if tokens == 1 && net.plan.fusions.decode_norm && net.plan.fusions.qkv {
        let widths = seq![layer.query.shape[0], layer.key.shape[0], layer.value.shape[0]];
        let rows = fused::fused_rows(net.tuning, widths, hidden.shape[1]);
        lemma_fused_rows(net.tuning, widths, hidden.shape[1]);
        lemma_norm_products3(
            batch,
            hidden,
            layer.input_norm,
            layer.query,
            layer.key,
            layer.value,
            config.rms_norm_eps,
            rows,
            query_width,
            kv_width,
            config.hidden_size,
        );
    } else {
        let first = norm::rms_norm_step(batch, hidden, layer.input_norm, config.rms_norm_eps);
        lemma_norm(
            batch,
            hidden,
            layer.input_norm,
            config.rms_norm_eps,
            tokens,
            config.hidden_size,
        );
        lemma_runs(batch, first);
        lemma_products3(
            batch.run(first).0,
            net.tuning,
            first->Ok_0.outputs[0],
            layer.query,
            layer.key,
            layer.value,
            tokens,
            query_width,
            kv_width,
            config.hidden_size,
        );
    }
}

#[verifier::rlimit(40)]
proof fn lemma_rotate_run(
    net: NetModel,
    batch: BatchModel,
    query: TensorModel,
    key: TensorModel,
    layer: LayerModel,
    key_cache: TensorModel,
    offset: usize,
    tokens: usize,
    capacity: usize,
)
    requires
        batch.profiled is None,
        ready(net, tokens, capacity),
        layer_fits(net.config, layer),
        offset + tokens <= capacity,
        is_half(query, seq![tokens, net.config.num_attention_heads, net.config.head_dim]),
        is_half(key, seq![tokens, net.config.num_key_value_heads, net.config.head_dim]),
        is_half(key_cache, seq![capacity, net.config.num_key_value_heads, net.config.head_dim]),
    ensures
        ({
            let (after, result) = forward::rotate_run(
                net,
                batch,
                query,
                key,
                layer,
                key_cache,
                offset,
            );
            came1(
                after,
                result,
                seq![tokens, net.config.num_attention_heads, net.config.head_dim],
            )
        }),
{
    lemma_widths(net, tokens, capacity);
    let config = net.config;
    let epsilon = config.rms_norm_eps;
    let theta = config.rope_theta;
    let heads = config.num_attention_heads;
    let kv_heads = config.num_key_value_heads;
    if net.plan.fusions.qk_rope_cache {
        let settings = QkNormRopeCacheConfig { offset, theta, epsilon };
        lemma_transform(
            batch,
            query,
            key,
            layer.query_norm,
            layer.key_norm,
            key_cache,
            settings,
            tokens,
            heads,
            kv_heads,
            config.head_dim,
            capacity,
        );
        lemma_runs(
            batch,
            rope::qk_norm_rope_cache_step(
                batch,
                query,
                key,
                layer.query_norm,
                layer.key_norm,
                key_cache,
                settings,
            ),
        );
    } else {
        let first = norm::rms_norm_step(batch, query, layer.query_norm, epsilon);
        lemma_norm_heads(batch, query, layer.query_norm, epsilon, tokens, heads, config.head_dim);
        lemma_runs(batch, first);
        let batch1 = batch.run(first).0;
        let normed = first->Ok_0.outputs[0];
        let second = rope::rope_step(batch1, normed, offset, theta);
        lemma_rope(batch1, normed, offset, theta, tokens, heads, config.head_dim);
        lemma_runs(batch1, second);
        let batch2 = batch1.run(second).0;
        let third = norm::rms_norm_step(batch2, key, layer.key_norm, epsilon);
        lemma_norm_heads(batch2, key, layer.key_norm, epsilon, tokens, kv_heads, config.head_dim);
        lemma_runs(batch2, third);
        let batch3 = batch2.run(third).0;
        let normed_key = third->Ok_0.outputs[0];
        let fourth = rope::rope_step(batch3, normed_key, offset, theta);
        lemma_rope(batch3, normed_key, offset, theta, tokens, kv_heads, config.head_dim);
        lemma_runs(batch3, fourth);
        lemma_copy(
            batch3.run(fourth).0,
            fourth->Ok_0.outputs[0],
            key_cache,
            offset,
            tokens,
            kv_heads,
            config.head_dim,
            capacity,
        );
    }
}

proof fn lemma_attend_run(
    net: NetModel,
    batch: BatchModel,
    query: TensorModel,
    value: TensorModel,
    cache: LayerCacheModel,
    offset: usize,
    tokens: usize,
    capacity: usize,
)
    requires
        batch.profiled is None,
        ready(net, tokens, capacity),
        layer_cache_fits(net.config, capacity, cache),
        offset + tokens <= capacity,
        is_half(query, seq![tokens, net.config.num_attention_heads, net.config.head_dim]),
        is_half(value, seq![tokens, net.config.num_key_value_heads, net.config.head_dim]),
    ensures
        ({
            let (after, result) = forward::attend_run(
                net,
                batch,
                query,
                value,
                cache,
                offset,
                (offset + tokens) as usize,
                tokens,
            );
            came1(
                after,
                result,
                seq![tokens, net.config.num_attention_heads, net.config.head_dim],
            )
        }),
{
    lemma_widths(net, tokens, capacity);
    let config = net.config;
    let length = (offset + tokens) as usize;
    lemma_copy(
        batch,
        value,
        cache.value,
        offset,
        tokens,
        config.num_key_value_heads,
        config.head_dim,
        capacity,
    );
    let batch1 = batch.run(kv::copy_into_cache_step(value, cache.value, offset)).0;
    let keys = cache.key.prefixed(length)->Ok_0;
    let values = cache.value.prefixed(length)->Ok_0;
    let shape = seq![length, config.num_key_value_heads, config.head_dim];
    assert(keys.shape =~= shape);
    assert(values.shape =~= shape);
    let settings = forward::attention_config(net, offset);
    let kind = attention::launched_kind(
        planner::attention_kind(net.plan.attention, tokens, length, net.query_heads_per_kv()),
        settings,
    );
    let split = attention::batch_split(net.tuning, None, keys.shape[0]);
    lemma_split(net.tuning, keys.shape[0]);
    assert(config.num_attention_heads as int / config.num_key_value_heads as int <= usize::MAX)
        by (nonlinear_arith)
        requires
            config.num_attention_heads <= usize::MAX,
            config.num_key_value_heads > 0,
    ;
    lemma_attention(batch1, query, keys, values, settings, kind, split, tokens, capacity);
    lemma_runs(
        batch1,
        attention::attention_step(batch1, query, keys, values, settings, kind, split),
    );
}

/// A matrix of heads side by side is one of heads above each other.
proof fn lemma_split_heads(tensor: TensorModel, tokens: usize, heads: usize, head_dim: usize)
    requires
        tokens > 0,
        heads > 0,
        head_dim > 0,
        countable(tokens * (heads * head_dim)),
        is_half(tensor, seq![tokens, (heads * head_dim) as usize]),
    ensures
        tensor.reshaped(seq![tokens, heads, head_dim]) is Ok,
        is_half(
            tensor.reshaped(seq![tokens, heads, head_dim])->Ok_0,
            seq![tokens, heads, head_dim],
        ),
{
    lemma_heads_countable(tokens, heads, head_dim);
    lemma_allocates_heads(tokens, heads, head_dim);
    tensor::lemma_elements_two(tokens, (heads * head_dim) as usize);
}

/// A matrix of heads above each other is one of heads side by side.
proof fn lemma_join_heads(tensor: TensorModel, tokens: usize, heads: usize, head_dim: usize)
    requires
        tokens > 0,
        heads > 0,
        head_dim > 0,
        countable(tokens * (heads * head_dim)),
        is_half(tensor, seq![tokens, heads, head_dim]),
    ensures
        tensor.reshaped(seq![tokens, (heads * head_dim) as usize]) is Ok,
        is_half(
            tensor.reshaped(seq![tokens, (heads * head_dim) as usize])->Ok_0,
            seq![tokens, (heads * head_dim) as usize],
        ),
{
    lemma_heads_countable(tokens, heads, head_dim);
    lemma_allocates_heads(tokens, heads, head_dim);
    tensor::lemma_elements_two(tokens, (heads * head_dim) as usize);
}

proof fn lemma_attention_run(
    net: NetModel,
    batch: BatchModel,
    query: TensorModel,
    key: TensorModel,
    value: TensorModel,
    layer: LayerModel,
    cache: LayerCacheModel,
    offset: usize,
    tokens: usize,
    capacity: usize,
)
    requires
        batch.profiled is None,
        ready(net, tokens, capacity),
        layer_fits(net.config, layer),
        layer_cache_fits(net.config, capacity, cache),
        offset + tokens <= capacity,
        is_half(query, seq![tokens, net.config.spec_query_width() as usize]),
        is_half(key, seq![tokens, net.config.spec_kv_width() as usize]),
        is_half(value, seq![tokens, net.config.spec_kv_width() as usize]),
    ensures
        ({
            let (after, result) = forward::attention_run(
                net,
                batch,
                query,
                key,
                value,
                layer,
                cache,
                offset,
                (offset + tokens) as usize,
                tokens,
            );
            came1(
                after,
                result,
                seq![tokens, net.config.num_attention_heads, net.config.head_dim],
            )
        }),
{
    reveal(forward::attention_run);
    lemma_widths(net, tokens, capacity);
    let config = net.config;
    let heads = config.num_attention_heads;
    let kv_heads = config.num_key_value_heads;
    let query_shape = forward::heads_shape(tokens, heads, config.head_dim);
    let kv_shape = forward::heads_shape(tokens, kv_heads, config.head_dim);
    lemma_split_heads(query, tokens, heads, config.head_dim);
    lemma_split_heads(key, tokens, kv_heads, config.head_dim);
    lemma_split_heads(value, tokens, kv_heads, config.head_dim);
    let queries = query.reshaped(query_shape)->Ok_0;
    let keys = key.reshaped(kv_shape)->Ok_0;
    let values = value.reshaped(kv_shape)->Ok_0;
    lemma_rotate_run(net, batch, queries, keys, layer, cache.key, offset, tokens, capacity);
    let rotated = forward::rotate_run(net, batch, queries, keys, layer, cache.key, offset);
    lemma_attend_run(
        net,
        rotated.0,
        rotated.1->Ok_0[0],
        values,
        cache,
        offset,
        tokens,
        capacity,
    );
}

#[verifier::rlimit(40)]
proof fn lemma_gate_up_run(
    net: NetModel,
    batch: BatchModel,
    hidden: TensorModel,
    attended: TensorModel,
    layer: LayerModel,
    fused_norm: bool,
    tokens: usize,
    capacity: usize,
)
    requires
        batch.profiled is None,
        ready(net, tokens, capacity),
        layer_fits(net.config, layer),
        is_half(hidden, seq![tokens, net.config.hidden_size]),
        is_half(attended, seq![tokens, net.config.hidden_size]),
        fused_norm ==> tokens == 1 && net.plan.fusions.decode_norm,
    ensures
        ({
            let (after, result) = forward::gate_up_run(
                net,
                batch,
                hidden,
                attended,
                layer,
                fused_norm,
            );
            came3(
                after,
                result,
                seq![tokens, net.config.hidden_size],
                seq![tokens, net.config.intermediate_size],
                seq![tokens, net.config.intermediate_size],
            )
        }),
{
    lemma_widths(net, tokens, capacity);
    let config = net.config;
    let epsilon = config.rms_norm_eps;
    if fused_norm {
        let widths = seq![layer.gate.shape[0], layer.up.shape[0], 0usize];
        let rows = fused::fused_rows(net.tuning, widths, hidden.shape[1]);
        lemma_fused_rows(net.tuning, widths, hidden.shape[1]);
        lemma_add_norm_products2(
            batch,
            hidden,
            attended,
            layer.post_attention_norm,
            layer.gate,
            layer.up,
            epsilon,
            rows,
            config.intermediate_size,
            config.hidden_size,
        );
    } else {
        let pair = forward::residual_run(net, batch, hidden, attended, layer);
        if net.plan.fusions.add_rms_norm {
            lemma_add_norm(
                batch,
                hidden,
                attended,
                layer.post_attention_norm,
                epsilon,
                tokens,
                config.hidden_size,
            );
            lemma_runs(
                batch,
                norm::add_rms_norm_step(
                    batch,
                    hidden,
                    attended,
                    layer.post_attention_norm,
                    epsilon,
                ),
            );
        } else {
            let first = elementwise::pairwise_step(batch, "add_f16"@, hidden, attended);
            lemma_pairwise(batch, "add_f16"@, hidden, attended, tokens, config.hidden_size);
            lemma_runs(batch, first);
            let batch1 = batch.run(first).0;
            let residual = first->Ok_0.outputs[0];
            lemma_norm(
                batch1,
                residual,
                layer.post_attention_norm,
                epsilon,
                tokens,
                config.hidden_size,
            );
            lemma_runs(
                batch1,
                norm::rms_norm_step(batch1, residual, layer.post_attention_norm, epsilon),
            );
        }
        lemma_products2(
            pair.0,
            net.tuning,
            pair.1->Ok_0[1],
            layer.gate,
            layer.up,
            tokens,
            config.intermediate_size,
            config.hidden_size,
        );
    }
}

proof fn lemma_feed_forward_run(
    net: NetModel,
    batch: BatchModel,
    hidden: TensorModel,
    attended: TensorModel,
    layer: LayerModel,
    fused_norm: bool,
    tokens: usize,
    capacity: usize,
)
    requires
        batch.profiled is None,
        ready(net, tokens, capacity),
        layer_fits(net.config, layer),
        is_half(hidden, seq![tokens, net.config.hidden_size]),
        is_half(attended, seq![tokens, net.config.hidden_size]),
        fused_norm ==> tokens == 1 && net.plan.fusions.decode_norm,
    ensures
        ({
            let (after, result) = forward::feed_forward_run(
                net,
                batch,
                hidden,
                attended,
                layer,
                fused_norm,
            );
            came1(after, result, seq![tokens, net.config.hidden_size])
        }),
{
    reveal(forward::feed_forward_run);
    let config = net.config;
    lemma_gate_up_run(net, batch, hidden, attended, layer, fused_norm, tokens, capacity);
    let parts = forward::gate_up_run(net, batch, hidden, attended, layer, fused_norm);
    let batch1 = parts.0;
    let outputs = parts.1->Ok_0;
    let second = elementwise::pairwise_step(batch1, "swiglu_f16"@, outputs[1], outputs[2]);
    lemma_pairwise(
        batch1,
        "swiglu_f16"@,
        outputs[1],
        outputs[2],
        tokens,
        config.intermediate_size,
    );
    lemma_runs(batch1, second);
    let batch2 = batch1.run(second).0;
    let activated = second->Ok_0.outputs[0];
    let third = gemm::matmul_step(batch2, net.tuning, activated, layer.down);
    lemma_matmul(
        batch2,
        net.tuning,
        activated,
        layer.down,
        tokens,
        config.hidden_size,
        config.intermediate_size,
    );
    lemma_runs(batch2, third);
    let batch3 = batch2.run(third).0;
    let down = third->Ok_0.outputs[0];
    lemma_pairwise(batch3, "add_f16"@, outputs[0], down, tokens, config.hidden_size);
    lemma_runs(batch3, elementwise::pairwise_step(batch3, "add_f16"@, outputs[0], down));
}

#[verifier::rlimit(40)]
proof fn lemma_layer_run(
    net: NetModel,
    batch: BatchModel,
    hidden: TensorModel,
    layer: LayerModel,
    cache: LayerCacheModel,
    offset: usize,
    tokens: usize,
    capacity: usize,
)
    requires
        batch.profiled is None,
        ready(net, tokens, capacity),
        layer_fits(net.config, layer),
        layer_cache_fits(net.config, capacity, cache),
        offset + tokens <= capacity,
        is_half(hidden, seq![tokens, net.config.hidden_size]),
    ensures
        ({
            let (after, result) = forward::layer_run(
                net,
                batch,
                hidden,
                layer,
                cache,
                offset,
                (offset + tokens) as usize,
            );
            came1(after, result, seq![tokens, net.config.hidden_size])
        }),
{
    reveal(forward::layer_run);
    lemma_widths(net, tokens, capacity);
    let config = net.config;
    let fusions = net.plan.fusions;
    let query_width = config.spec_query_width() as usize;
    lemma_qkv_run(net, batch, hidden, layer, tokens, capacity);
    let qkv = forward::qkv_run(net, batch, hidden, layer);
    let parts = qkv.1->Ok_0;
    lemma_attention_run(
        net,
        qkv.0,
        parts[0],
        parts[1],
        parts[2],
        layer,
        cache,
        offset,
        tokens,
        capacity,
    );
    let heads = forward::attention_run(
        net,
        qkv.0,
        parts[0],
        parts[1],
        parts[2],
        layer,
        cache,
        offset,
        (offset + tokens) as usize,
        tokens,
    );
    lemma_join_heads(heads.1->Ok_0[0], tokens, config.num_attention_heads, config.head_dim);
    let joined = heads.1->Ok_0[0].reshaped(seq![tokens, query_width])->Ok_0;
    let step = gemm::matmul_step(heads.0, net.tuning, joined, layer.output);
    lemma_matmul(
        heads.0,
        net.tuning,
        joined,
        layer.output,
        tokens,
        config.hidden_size,
        query_width,
    );
    lemma_runs(heads.0, step);
    lemma_feed_forward_run(
        net,
        heads.0.run(step).0,
        hidden,
        step->Ok_0.outputs[0],
        layer,
        tokens == 1 && fusions.decode_norm && fusions.add_rms_norm && fusions.gate_up,
        tokens,
        capacity,
    );
}

proof fn lemma_layers_run(
    net: NetModel,
    batch: BatchModel,
    hidden: TensorModel,
    cache: KvCacheModel,
    tokens: usize,
    index: int,
)
    requires
        batch.profiled is None,
        ready(net, tokens, cache.capacity),
        cache_fits(net.config, cache),
        cache.layers.len() == net.layers.len(),
        cache.filled + tokens <= cache.capacity,
        is_half(hidden, seq![tokens, net.config.hidden_size]),
        index >= 0,
    ensures
        ({
            let (after, result) = forward::layers_run(
                net,
                batch,
                hidden,
                cache.layers,
                cache.filled,
                (cache.filled + tokens) as usize,
                index,
            );
            came1(after, result, seq![tokens, net.config.hidden_size])
        }),
    decreases net.layers.len() - index,
{
    if index < net.layers.len() {
        let length = (cache.filled + tokens) as usize;
        assert(layer_fits(net.config, net.layers[index]));
        assert(layer_cache_fits(net.config, cache.capacity, cache.layers[index]));
        lemma_layer_run(
            net,
            batch,
            hidden,
            net.layers[index],
            cache.layers[index],
            cache.filled,
            tokens,
            cache.capacity,
        );
        let next = forward::layer_run(
            net,
            batch,
            hidden,
            net.layers[index],
            cache.layers[index],
            cache.filled,
            length,
        );
        lemma_layers_run(net, next.0, next.1->Ok_0[0], cache, tokens, index + 1);
    }
}

proof fn lemma_logits_run(
    net: NetModel,
    batch: BatchModel,
    hidden: TensorModel,
    tokens: usize,
    capacity: usize,
    argmax_output: Option<TensorModel>,
)
    requires
        batch.profiled is None,
        ready(net, tokens, capacity),
        is_half(hidden, seq![tokens, net.config.hidden_size]),
        argmax_output matches Some(output) ==> output.dtype == DType::U32 && output.shape
            == seq![1usize],
    ensures
        ({
            let (after, result) = forward::logits_run(net, batch, hidden, tokens, argmax_output);
            came1(after, result, seq![1, net.config.vocab_size])
        }),
{
    lemma_widths(net, tokens, capacity);
    let config = net.config;
    let first = norm::rms_norm_step(batch, hidden, net.final_norm, config.rms_norm_eps);
    lemma_norm(batch, hidden, net.final_norm, config.rms_norm_eps, tokens, config.hidden_size);
    lemma_runs(batch, first);
    let batch1 = batch.run(first).0;
    let last = first->Ok_0.outputs[0].row_at((tokens - 1) as usize)->Ok_0;
    let second = gemm::matmul_step(batch1, net.tuning, last, net.lm_head);
    lemma_matmul(
        batch1,
        net.tuning,
        last,
        net.lm_head,
        1,
        config.vocab_size,
        config.hidden_size,
    );
    lemma_runs(batch1, second);
    if argmax_output is Some {
        let logits = second->Ok_0.outputs[0];
        tensor::lemma_elements_two(1, config.vocab_size);
        tensor::lemma_elements_one(config.vocab_size);
        let shape = seq![logits.len() as usize];
        assert(shape =~= seq![config.vocab_size]);
        let vector = logits.reshaped(shape)->Ok_0;
        let batch2 = batch1.run(second).0;
        lemma_runs(batch2, sampling::argmax_step(batch2, vector, argmax_output->Some_0));
    }
}

/// A pass that fits succeeds: over a model whose weights have the shapes of its
/// configuration, with a cache of that model that has room for the tokens, a
/// batch that is not profiled records a forward pass and yields the logits of
/// the whole vocabulary. What remains to refuse a pass is a size that no kernel
/// or no host number can count.
pub proof fn a_fitting_pass_succeeds(
    net: NetModel,
    batch: BatchModel,
    tokens: TensorModel,
    cache: KvCacheModel,
    argmax_output: Option<TensorModel>,
    count: usize,
)
    requires
        batch.profiled is None,
        net_fits(net),
        cache_fits(net.config, cache),
        cache.layers.len() == net.layers.len(),
        cache.filled + count <= cache.capacity,
        tokens.dtype == DType::U32,
        tokens.shape == seq![count],
        count > 0,
        pass_countable(net.config, count, cache.capacity),
        argmax_output matches Some(output) ==> output.dtype == DType::U32 && output.shape
            == seq![1usize],
    ensures
        ({
            let (after, result) = forward::forward_run(net, batch, tokens, cache, argmax_output);
            &&& result is Ok
            &&& result->Ok_0.len() == 1
            &&& is_half(result->Ok_0[0], seq![1usize, net.config.vocab_size])
            &&& after.profiled is None
        }),
{
    let first = elementwise::embedding_step(batch, tokens, net.embedding);
    lemma_embedding(batch, tokens, net.embedding, count);
    lemma_runs(batch, first);
    let batch1 = batch.run(first).0;
    let hidden = first->Ok_0.outputs[0];
    let length = (cache.filled + count) as usize;
    lemma_layers_run(net, batch1, hidden, cache, count, 0);
    let layers = forward::layers_run(
        net,
        batch1,
        hidden,
        cache.layers,
        cache.filled,
        length,
        0,
    );
    lemma_logits_run(net, layers.0, layers.1->Ok_0[0], count, cache.capacity, argmax_output);
}

/// Layers without a fault have none each.
proof fn lemma_no_layer_error(
    config: Qwen3Config,
    map: Map<Seq<char>, TensorModel>,
    from: nat,
    to: nat,
    at: nat,
)
    requires
        load::layers_error(config, map, from, to) is None,
        from <= at < to,
    ensures
        load::layer_error(config, map, at) is None,
    decreases to - from,
{
    if from < at {
        lemma_no_layer_error(config, map, from + 1, to, at);
    }
}

/// Weights that loading accepts have the shapes of the configuration. Loading
/// looks neither at the norms of the hidden state nor at the plan, so what is
/// needed of those is asked for here.
pub proof fn accepted_weights_fit(
    config: Qwen3Config,
    map: Map<Seq<char>, TensorModel>,
    net: NetModel,
)
    requires
        config.error() is None,
        config.widths_fit(),
        load::weights_error(config, map) is None,
        forall|name: Seq<char>| #[trigger] map.dom().contains(name) ==> map[name].dtype
            == DType::F16,
        forall|i: int|
            0 <= i < config.num_hidden_layers ==> {
                let layer = #[trigger] load::named_layer(map, i as nat);
                &&& layer.input_norm.shape == seq![config.hidden_size]
                &&& layer.post_attention_norm.shape == seq![config.hidden_size]
            },
        net.config == config,
        net.embedding == map["model.embed_tokens.weight"@],
        net.layers == Seq::new(
            config.num_hidden_layers as nat,
            |i: int| load::named_layer(map, i as nat),
        ),
        net.final_norm == map["model.norm.weight"@],
        net.lm_head == load::named_head(config, map),
        net.tuning.selection.valid(),
        net.plan.attention == AttentionKind::Reference || attention::tiled_head_dim(
            config.head_dim,
        ),
        net.plan.fusions.decode_norm ==> config.hidden_size % 256 == 0,
    ensures
        net_fits(net),
{
    assert(map.dom().contains("model.embed_tokens.weight"@));
    assert(map.dom().contains("model.norm.weight"@));
    assert(!config.tie_word_embeddings ==> map.dom().contains("lm_head.weight"@));
    assert forall|i: int| 0 <= i < net.layers.len() implies layer_fits(
        config,
        #[trigger] net.layers[i],
    ) by {
        lemma_no_layer_error(config, map, 0, config.num_hidden_layers as nat, i as nat);
        let layer = load::named_layer(map, i as nat);
        assert(net.layers[i] == layer);
        assert(load::has_projections(map, i as nat));
        assert(load::has_part(map, i as nat, LayerPart::InputNorm));
        assert(load::has_part(map, i as nat, LayerPart::PostAttentionNorm));
    }
}

/// A new cache is one of its model.
pub proof fn a_new_cache_fits(config: Qwen3Config, capacity: usize, first: nat)
    ensures
        cache_fits(
            config,
            KvCacheModel {
                layers: Seq::new(
                    config.num_hidden_layers as nat,
                    |i: int|
                        kv_cache::fresh_layer(
                            first + 2 * i,
                            kv_cache::cache_shape(config, capacity),
                        ),
                ),
                capacity,
                filled: 0,
            },
        ),
{
}

/// A pass over fewer tokens can be counted too.
proof fn lemma_one_token(config: Qwen3Config, tokens: usize, capacity: usize)
    requires
        config.valid(),
        tokens > 0,
        pass_countable(config, tokens, capacity),
    ensures
        pass_countable(config, 1, capacity),
{
    assert(config.spec_query_width() > 0 && config.spec_kv_width() > 0) by (nonlinear_arith)
        requires
            config.num_attention_heads > 0,
            config.num_key_value_heads > 0,
            config.head_dim > 0,
            config.spec_query_width() == config.num_attention_heads * config.head_dim,
            config.spec_kv_width() == config.num_key_value_heads * config.head_dim,
    ;
    lemma_factors(tokens as int, config.hidden_size as int);
    lemma_factors(tokens as int, config.intermediate_size as int);
    lemma_factors(tokens as int, config.spec_query_width());
    lemma_factors(tokens as int, config.spec_kv_width());
}

#[verifier::rlimit(40)]
proof fn lemma_row_run(
    net: NetModel,
    batch: BatchModel,
    query: TensorModel,
    key: TensorModel,
    value: TensorModel,
    layer: LayerModel,
    cache: KvCacheModel,
    index: int,
    rows: TensorModel,
    row: usize,
    count: usize,
)
    requires
        batch.profiled is None,
        net_fits(net),
        layer_fits(net.config, layer),
        cache_fits(net.config, cache),
        pass_countable(net.config, count, cache.capacity),
        cache.filled < cache.capacity,
        0 <= index < cache.layers.len(),
        row < count,
        is_half(query, seq![count, net.config.spec_query_width() as usize]),
        is_half(key, seq![count, net.config.spec_kv_width() as usize]),
        is_half(value, seq![count, net.config.spec_kv_width() as usize]),
        is_half(rows, seq![count, net.config.spec_query_width() as usize]),
    ensures
        ({
            let (after, result) = decode_batch::row_run(
                net,
                batch,
                query,
                key,
                value,
                layer,
                cache,
                index,
                rows,
                row,
            );
            after.profiled is None && result is Ok
        }),
{
    let config = net.config;
    let heads = config.num_attention_heads;
    let kv_heads = config.num_key_value_heads;
    let query_width = config.spec_query_width() as usize;
    lemma_one_token(config, count, cache.capacity);
    lemma_widths(net, count, cache.capacity);
    lemma_widths(net, 1, cache.capacity);
    lemma_split_heads(query.row_at(row)->Ok_0, 1, heads, config.head_dim);
    lemma_split_heads(key.row_at(row)->Ok_0, 1, kv_heads, config.head_dim);
    lemma_split_heads(value.row_at(row)->Ok_0, 1, kv_heads, config.head_dim);
    let queries = decode_batch::row_heads(query, row, heads, config.head_dim)->Ok_0;
    let keys = decode_batch::row_heads(key, row, kv_heads, config.head_dim)->Ok_0;
    let values = decode_batch::row_heads(value, row, kv_heads, config.head_dim)->Ok_0;
    let own = cache.layers[index];
    assert(layer_cache_fits(config, cache.capacity, own));
    lemma_rotate_run(
        net,
        batch,
        queries,
        keys,
        layer,
        own.key,
        cache.filled,
        1,
        cache.capacity,
    );
    let rotated = forward::rotate_run(net, batch, queries, keys, layer, own.key, cache.filled);
    lemma_attend_run(
        net,
        rotated.0,
        rotated.1->Ok_0[0],
        values,
        own,
        cache.filled,
        1,
        cache.capacity,
    );
    let attended = forward::attend_run(
        net,
        rotated.0,
        rotated.1->Ok_0[0],
        values,
        own,
        cache.filled,
        (cache.filled + 1) as usize,
        1,
    );
    lemma_join_heads(attended.1->Ok_0[0], 1, heads, config.head_dim);
    let joined = attended.1->Ok_0[0].reshaped(seq![1usize, query_width])->Ok_0;
    lemma_runs(attended.0, kv::copy_row_step(joined, rows, row));
}

proof fn lemma_rows_run(
    net: NetModel,
    batch: BatchModel,
    query: TensorModel,
    key: TensorModel,
    value: TensorModel,
    layer: LayerModel,
    caches: Seq<KvCacheModel>,
    index: int,
    rows: TensorModel,
    row: int,
)
    requires
        batch.profiled is None,
        net_fits(net),
        layer_fits(net.config, layer),
        forall|i: int| 0 <= i < caches.len() ==> decodes(net, caches.len(), #[trigger] caches[i]),
        0 <= index < net.layers.len(),
        0 <= row,
        caches.len() <= usize::MAX,
        is_half(query, seq![caches.len() as usize, net.config.spec_query_width() as usize]),
        is_half(key, seq![caches.len() as usize, net.config.spec_kv_width() as usize]),
        is_half(value, seq![caches.len() as usize, net.config.spec_kv_width() as usize]),
        is_half(rows, seq![caches.len() as usize, net.config.spec_query_width() as usize]),
    ensures
        ({
            let (after, result) = decode_batch::rows_run(
                net,
                batch,
                query,
                key,
                value,
                layer,
                caches,
                index,
                rows,
                row,
            );
            after.profiled is None && result is Ok
        }),
    decreases caches.len() - row,
{
    if row < caches.len() {
        let count = caches.len() as usize;
        assert(decodes(net, caches.len(), caches[row]));
        lemma_row_run(
            net,
            batch,
            query,
            key,
            value,
            layer,
            caches[row],
            index,
            rows,
            row as usize,
            count,
        );
        let done = decode_batch::row_run(
            net,
            batch,
            query,
            key,
            value,
            layer,
            caches[row],
            index,
            rows,
            row as usize,
        );
        lemma_rows_run(
            net,
            done.0,
            query,
            key,
            value,
            layer,
            caches,
            index,
            rows,
            row + 1,
        );
    }
}

/// A cache that a batch of so many sequences can decode into.
pub open spec fn decodes(net: NetModel, count: nat, cache: KvCacheModel) -> bool {
    &&& cache_fits(net.config, cache)
    &&& cache.layers.len() == net.layers.len()
    &&& cache.filled < cache.capacity
    &&& pass_countable(net.config, count as usize, cache.capacity)
}

#[verifier::rlimit(40)]
proof fn lemma_batch_layers_run(
    net: NetModel,
    batch: BatchModel,
    hidden: TensorModel,
    caches: Seq<KvCacheModel>,
    index: int,
)
    requires
        batch.profiled is None,
        net_fits(net),
        0 < caches.len() <= usize::MAX,
        forall|i: int| 0 <= i < caches.len() ==> decodes(net, caches.len(), #[trigger] caches[i]),
        is_half(hidden, seq![caches.len() as usize, net.config.hidden_size]),
        index >= 0,
    ensures
        ({
            let (after, result) = decode_batch::batch_layers_run(
                net,
                batch,
                hidden,
                caches,
                index,
            );
            came1(after, result, seq![caches.len() as usize, net.config.hidden_size])
        }),
    decreases net.layers.len() - index,
{
    if index < net.layers.len() {
        let config = net.config;
        let count = caches.len() as usize;
        let capacity = caches[0].capacity;
        let layer = net.layers[index];
        let query_width = config.spec_query_width() as usize;
        let kv_width = config.spec_kv_width() as usize;
        assert(decodes(net, caches.len(), caches[0]));
        assert(layer_fits(config, layer));
        lemma_widths(net, count, capacity);
        let first = norm::rms_norm_step(batch, hidden, layer.input_norm, config.rms_norm_eps);
        lemma_norm(
            batch,
            hidden,
            layer.input_norm,
            config.rms_norm_eps,
            count,
            config.hidden_size,
        );
        lemma_runs(batch, first);
        lemma_products3(
            batch.run(first).0,
            net.tuning,
            first->Ok_0.outputs[0],
            layer.query,
            layer.key,
            layer.value,
            count,
            query_width,
            kv_width,
            config.hidden_size,
        );
        let qkv = forward::norm_project_run(net, batch, hidden, layer);
        let parts = qkv.1->Ok_0;
        let shape = seq![count, query_width];
        lemma_allocates_matrix(count, query_width);
        let rows = qkv.0.fresh(0, shape, DType::F16);
        let batch1 = qkv.0.after_issue(1);
        lemma_rows_run(
            net,
            batch1,
            parts[0],
            parts[1],
            parts[2],
            layer,
            caches,
            index,
            rows,
            0,
        );
        let done = decode_batch::rows_run(
            net,
            batch1,
            parts[0],
            parts[1],
            parts[2],
            layer,
            caches,
            index,
            rows,
            0,
        );
        let step = gemm::matmul_step(done.0, net.tuning, rows, layer.output);
        lemma_matmul(
            done.0,
            net.tuning,
            rows,
            layer.output,
            count,
            config.hidden_size,
            query_width,
        );
        lemma_runs(done.0, step);
        lemma_feed_forward_run(
            net,
            done.0.run(step).0,
            hidden,
            step->Ok_0.outputs[0],
            layer,
            false,
            count,
            capacity,
        );
        reveal(decode_batch::batch_layer_run);
        let next = decode_batch::batch_layer_run(net, batch, hidden, caches, index);
        lemma_batch_layers_run(net, next.0, next.1->Ok_0[0], caches, index + 1);
    }
}

/// Decoding a batch that fits succeeds: one token for each of several sequences,
/// with a cache of the model that has room for it, yields a row of logits for
/// each of them.
pub proof fn a_fitting_batch_decodes(
    net: NetModel,
    batch: BatchModel,
    input: TensorModel,
    caches: Seq<KvCacheModel>,
)
    requires
        batch.profiled is None,
        net_fits(net),
        0 < caches.len() <= usize::MAX,
        forall|i: int| 0 <= i < caches.len() ==> decodes(net, caches.len(), #[trigger] caches[i]),
        input.dtype == DType::U32,
        input.shape == seq![caches.len() as usize],
        countable(caches.len() * net.config.vocab_size),
    ensures
        ({
            let (after, result) = decode_batch::decode_batch_run(net, batch, input, caches);
            &&& result is Ok
            &&& result->Ok_0.len() == 1
            &&& is_half(result->Ok_0[0], seq![caches.len() as usize, net.config.vocab_size])
            &&& after.profiled is None
        }),
{
    let config = net.config;
    let count = caches.len() as usize;
    assert(decodes(net, caches.len(), caches[0]));
    let first = elementwise::embedding_step(batch, input, net.embedding);
    lemma_embedding(batch, input, net.embedding, count);
    lemma_runs(batch, first);
    let batch1 = batch.run(first).0;
    let hidden = first->Ok_0.outputs[0];
    lemma_batch_layers_run(net, batch1, hidden, caches, 0);
    let layers = decode_batch::batch_layers_run(net, batch1, hidden, caches, 0);
    let output = layers.1->Ok_0[0];
    let second = norm::rms_norm_step(layers.0, output, net.final_norm, config.rms_norm_eps);
    lemma_norm(layers.0, output, net.final_norm, config.rms_norm_eps, count, config.hidden_size);
    lemma_runs(layers.0, second);
    let batch2 = layers.0.run(second).0;
    let normalized = second->Ok_0.outputs[0];
    lemma_matmul(
        batch2,
        net.tuning,
        normalized,
        net.lm_head,
        count,
        config.vocab_size,
        config.hidden_size,
    );
    lemma_runs(batch2, gemm::matmul_step(batch2, net.tuning, normalized, net.lm_head));
}

} // verus!
