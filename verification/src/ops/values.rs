//! What the operations compute.

use crate::command_batch::{self, MatmulBackend, SettingsModel};
use crate::gpu::recorder::{self, BatchModel};
use crate::gpu::tensor::{self, DType, TensorModel};
use crate::gpu::values::{self, Content};
use crate::ops::attention::FlashSplit;
use crate::ops::{attention, elementwise, fused, gemm, gemv, kv, norm, rope, sampling};
use crate::ops::{AttentionConfig, AttentionKind, QkNormRopeCacheConfig};
use crate::qwen3::operands;
use crate::tuning::TuningModel;
use vstd::prelude::*;

verus! {

/// A norm writes its input, normalised row by row with the weights, to a new
/// tensor, and changes nothing else.
pub proof fn norm_value(batch: BatchModel, input: TensorModel, weight: TensorModel, epsilon: u32)
    requires
        batch.run(norm::rms_norm_step(batch, input, weight, epsilon)).1 is Ok,
    ensures
        ({
            let (after, outputs) = batch.run(norm::rms_norm_step(batch, input, weight, epsilon));
            let out = outputs->Ok_0[0];
            &&& outputs->Ok_0.len() == 1
            &&& out == batch.fresh(0, input.shape, DType::F16)
            &&& values::known(after, out.place)
            &&& values::fills(after, out, values::normed(
                values::value(batch, input),
                values::value(batch, weight),
                norm::row_count(input),
                input.shape.last() as int,
                epsilon,
            ))
            &&& values::kept(batch, after, Set::empty())
        }),
{
    reveal(values::effects);
    let step = norm::rms_norm_step(batch, input, weight, epsilon);
    operands::lemma_ran(batch, step);
    values::lemma_one_command(batch, step, Set::empty());
}

/// The fused sum and norm yield both the sum and its normalisation.
pub proof fn add_norm_value(
    batch: BatchModel,
    left: TensorModel,
    right: TensorModel,
    weight: TensorModel,
    epsilon: u32,
)
    requires
        batch.run(norm::add_rms_norm_step(batch, left, right, weight, epsilon)).1 is Ok,
    ensures
        ({
            let (after, outputs) = batch.run(
                norm::add_rms_norm_step(batch, left, right, weight, epsilon),
            );
            let residual = outputs->Ok_0[0];
            let normalized = outputs->Ok_0[1];
            let total = values::sum(values::value(batch, left), values::value(batch, right));
            &&& outputs->Ok_0.len() == 2
            &&& residual == batch.fresh(0, left.shape, DType::F16)
            &&& normalized == batch.fresh(1, left.shape, DType::F16)
            &&& values::known(after, residual.place)
            &&& values::known(after, normalized.place)
            &&& values::fills(after, residual, total)
            &&& values::fills(after, normalized, values::normed(
                total,
                values::value(batch, weight),
                norm::row_count(left),
                left.shape.last() as int,
                epsilon,
            ))
            &&& values::kept(batch, after, Set::empty())
        }),
{
    reveal(values::effects);
    let step = norm::add_rms_norm_step(batch, left, right, weight, epsilon);
    operands::lemma_ran(batch, step);
    values::lemma_one_command(batch, step, Set::empty());
}

/// The residual addition adds its operands, element by element.
pub proof fn add_value(batch: BatchModel, left: TensorModel, right: TensorModel)
    requires
        batch.run(elementwise::pairwise_step(batch, "add_f16"@, left, right)).1 is Ok,
    ensures
        ({
            let (after, outputs) = batch.run(
                elementwise::pairwise_step(batch, "add_f16"@, left, right),
            );
            let out = outputs->Ok_0[0];
            &&& outputs->Ok_0.len() == 1
            &&& out == batch.fresh(0, left.shape, DType::F16)
            &&& values::known(after, out.place)
            &&& values::fills(after, out, values::sum(
                values::value(batch, left),
                values::value(batch, right),
            ))
            &&& values::kept(batch, after, Set::empty())
        }),
{
    reveal(values::effects);
    let step = elementwise::pairwise_step(batch, "add_f16"@, left, right);
    operands::lemma_ran(batch, step);
    values::lemma_one_command(batch, step, Set::empty());
}

/// The gated activation takes the projection that it activates first.
pub proof fn gated_value(batch: BatchModel, gate: TensorModel, up: TensorModel)
    requires
        batch.run(elementwise::pairwise_step(batch, "swiglu_f16"@, gate, up)).1 is Ok,
    ensures
        ({
            let (after, outputs) = batch.run(
                elementwise::pairwise_step(batch, "swiglu_f16"@, gate, up),
            );
            let out = outputs->Ok_0[0];
            &&& outputs->Ok_0.len() == 1
            &&& out == batch.fresh(0, gate.shape, DType::F16)
            &&& values::known(after, out.place)
            &&& values::fills(after, out, values::gated(
                values::value(batch, gate),
                values::value(batch, up),
            ))
            &&& values::kept(batch, after, Set::empty())
        }),
{
    reveal(values::effects);
    reveal_strlit("add_f16");
    reveal_strlit("swiglu_f16");
    assert("add_f16"@.len() == 7);
    assert("swiglu_f16"@.len() == 10);
    let step = elementwise::pairwise_step(batch, "swiglu_f16"@, gate, up);
    operands::lemma_ran(batch, step);
    values::lemma_one_command(batch, step, Set::empty());
}

/// The embedding yields a row of the table for each token.
pub proof fn embedding_value(batch: BatchModel, tokens: TensorModel, table: TensorModel)
    requires
        batch.run(elementwise::embedding_step(batch, tokens, table)).1 is Ok,
    ensures
        ({
            let (after, outputs) = batch.run(elementwise::embedding_step(batch, tokens, table));
            let out = outputs->Ok_0[0];
            &&& outputs->Ok_0.len() == 1
            &&& out == batch.fresh(0, seq![tokens.shape[0], table.shape[1]], DType::F16)
            &&& values::known(after, out.place)
            &&& values::fills(after, out, (Content::Embedded {
                ids: Box::new(values::value(batch, tokens)),
                table: Box::new(values::value(batch, table)),
                count: tokens.shape[0] as int,
                width: table.shape[1] as int,
            }))
            &&& values::kept(batch, after, Set::empty())
        }),
{
    reveal(values::effects);
    let step = elementwise::embedding_step(batch, tokens, table);
    operands::lemma_ran(batch, step);
    values::lemma_one_command(batch, step, Set::empty());
}

/// A copy into a cache writes the rows over what the cache held, from the entry
/// of the offset on, and changes no other storage.
pub proof fn cache_copy_value(
    batch: BatchModel,
    source: TensorModel,
    cache: TensorModel,
    offset: usize,
)
    requires
        batch.run(kv::copy_into_cache_step(source, cache, offset)).1 is Ok,
    ensures
        ({
            let after = batch.run(kv::copy_into_cache_step(source, cache, offset)).0;
            &&& values::value(after, cache) == values::written(
                values::value(batch, cache),
                values::value(batch, source),
                source.shape[0] as int,
                offset as int,
                source.shape[1] * source.shape[2],
            )
            &&& values::kept(batch, after, set![cache.place])
        }),
{
    reveal(values::effects);
    let step = kv::copy_into_cache_step(source, cache, offset);
    operands::lemma_ran(batch, step);
    values::lemma_one_command(batch, step, set![cache.place]);
    assert(values::value(batch.run(step).0, cache) == values::read_behind(
        batch.log,
        step->Ok_0.commands[0],
        cache.operand(),
    ));
}

/// A row copy writes one row over what the destination held.
pub proof fn row_copy_value(
    batch: BatchModel,
    source: TensorModel,
    destination: TensorModel,
    row: usize,
)
    requires
        batch.run(kv::copy_row_step(source, destination, row)).1 is Ok,
    ensures
        ({
            let after = batch.run(kv::copy_row_step(source, destination, row)).0;
            &&& values::value(after, destination) == values::written(
                values::value(batch, destination),
                values::value(batch, source),
                1,
                row as int,
                source.shape[1] as int,
            )
            &&& values::kept(batch, after, set![destination.place])
        }),
{
    reveal(values::effects);
    let step = kv::copy_row_step(source, destination, row);
    operands::lemma_ran(batch, step);
    values::lemma_one_command(batch, step, set![destination.place]);
    assert(values::value(batch.run(step).0, destination) == values::read_behind(
        batch.log,
        step->Ok_0.commands[0],
        destination.operand(),
    ));
}

/// A product is that of the input by the transpose of the weights.
pub proof fn matmul_value(
    batch: BatchModel,
    tuning: TuningModel,
    input: TensorModel,
    weight: TensorModel,
)
    requires
        batch.run(gemm::matmul_step(batch, tuning, input, weight)).1 is Ok,
    ensures
        ({
            let (after, outputs) = batch.run(gemm::matmul_step(batch, tuning, input, weight));
            let out = outputs->Ok_0[0];
            &&& outputs->Ok_0.len() == 1
            &&& input.shape.len() == 2
            &&& weight.shape.len() == 2
            &&& input.shape[1] == weight.shape[1]
            &&& out == batch.fresh(0, seq![input.shape[0], weight.shape[0]], DType::F16)
            &&& values::known(after, out.place)
            &&& values::fills(after, out, values::product(
                values::value(batch, input),
                values::value(batch, weight),
                input.shape[0] as int,
                weight.shape[0] as int,
                weight.shape[1] as int,
            ))
            &&& values::kept(batch, after, Set::empty())
        }),
{
    reveal(values::effects);
    let step = gemm::matmul_step(batch, tuning, input, weight);
    operands::lemma_ran(batch, step);
    values::lemma_one_command(batch, step, Set::empty());
}

/// Whether a tensor holds the product of an input by a weight.
pub open spec fn is_product(
    before: BatchModel,
    after: BatchModel,
    out: TensorModel,
    input: TensorModel,
    weight: TensorModel,
) -> bool {
    &&& values::known(after, out.place)
    &&& !values::known(before, out.place)
    &&& out.place is Scratch
    &&& out.offset == 0
    &&& out.dtype == DType::F16
    &&& out.shape == seq![input.shape[0], weight.shape[0]]
    &&& recorder::allocation_error(out.shape, DType::F16) is None
    &&& values::fills(after, out, values::product(
        values::value(before, input),
        values::value(before, weight),
        input.shape[0] as int,
        weight.shape[0] as int,
        weight.shape[1] as int,
    ))
}

proof fn lemma_product(
    batch: BatchModel,
    tuning: TuningModel,
    input: TensorModel,
    weight: TensorModel,
)
    requires
        batch.run(gemm::matmul_step(batch, tuning, input, weight)).1 is Ok,
    ensures
        ({
            let (after, outputs) = batch.run(gemm::matmul_step(batch, tuning, input, weight));
            &&& outputs->Ok_0.len() == 1
            &&& is_product(batch, after, outputs->Ok_0[0], input, weight)
            &&& values::kept(batch, after, Set::empty())
        }),
{
    operands::lemma_ran(batch, gemm::matmul_step(batch, tuning, input, weight));
    matmul_value(batch, tuning, input, weight);
}

/// A product of known tensors that came later than another batch is one of that
/// batch too, and stays one while nothing is written over it.
proof fn lemma_product_moves(
    first: BatchModel,
    before: BatchModel,
    after: BatchModel,
    last: BatchModel,
    out: TensorModel,
    input: TensorModel,
    weight: TensorModel,
)
    requires
        values::kept(first, before, Set::empty()),
        values::kept(after, last, Set::empty()),
        values::known(first, input.place),
        values::known(first, weight.place),
        is_product(before, after, out, input, weight),
    ensures
        is_product(first, last, out, input, weight),
{
    values::lemma_keeps(first, before, Set::empty(), input);
    values::lemma_keeps(first, before, Set::empty(), weight);
    values::lemma_keeps_filled(
        after,
        last,
        Set::empty(),
        out,
        values::product(
            values::value(before, input),
            values::value(before, weight),
            input.shape[0] as int,
            weight.shape[0] as int,
            weight.shape[1] as int,
        ),
    );
    if values::known(first, out.place) {
        values::lemma_still_known(first, before, Set::empty(), out.place);
    }
}

/// Two products, one after the other, are those of the input by each weight.
pub proof fn products2_value(
    batch: BatchModel,
    tuning: TuningModel,
    input: TensorModel,
    weight0: TensorModel,
    weight1: TensorModel,
)
    requires
        gemv::products2(batch, tuning, input, weight0, weight1).1 is Ok,
        values::known(batch, input.place),
        values::known(batch, weight0.place),
        values::known(batch, weight1.place),
    ensures
        ({
            let (after, outputs) = gemv::products2(batch, tuning, input, weight0, weight1);
            &&& outputs->Ok_0.len() == 2
            &&& is_product(batch, after, outputs->Ok_0[0], input, weight0)
            &&& is_product(batch, after, outputs->Ok_0[1], input, weight1)
            &&& values::kept(batch, after, Set::empty())
        }),
{
    let (batch1, first) = batch.run(gemm::matmul_step(batch, tuning, input, weight0));
    let (batch2, second) = batch1.run(gemm::matmul_step(batch1, tuning, input, weight1));
    lemma_product(batch, tuning, input, weight0);
    lemma_product(batch1, tuning, input, weight1);
    values::lemma_kept_all(batch, Set::empty());
    values::lemma_kept_all(batch2, Set::empty());
    lemma_product_moves(batch, batch, batch1, batch2, first->Ok_0[0], input, weight0);
    lemma_product_moves(batch, batch1, batch2, batch2, second->Ok_0[0], input, weight1);
    values::lemma_kept_joins(batch, batch1, batch2, Set::empty());
}

/// Three products, one after the other, are those of the input by each weight.
pub proof fn products3_value(
    batch: BatchModel,
    tuning: TuningModel,
    input: TensorModel,
    weight0: TensorModel,
    weight1: TensorModel,
    weight2: TensorModel,
)
    requires
        gemv::products3(batch, tuning, input, weight0, weight1, weight2).1 is Ok,
        values::known(batch, input.place),
        values::known(batch, weight0.place),
        values::known(batch, weight1.place),
        values::known(batch, weight2.place),
    ensures
        ({
            let (after, outputs) = gemv::products3(
                batch,
                tuning,
                input,
                weight0,
                weight1,
                weight2,
            );
            &&& outputs->Ok_0.len() == 3
            &&& is_product(batch, after, outputs->Ok_0[0], input, weight0)
            &&& is_product(batch, after, outputs->Ok_0[1], input, weight1)
            &&& is_product(batch, after, outputs->Ok_0[2], input, weight2)
            &&& values::kept(batch, after, Set::empty())
        }),
{
    let (batch1, first) = batch.run(gemm::matmul_step(batch, tuning, input, weight0));
    let (batch2, second) = batch1.run(gemm::matmul_step(batch1, tuning, input, weight1));
    let (batch3, third) = batch2.run(gemm::matmul_step(batch2, tuning, input, weight2));
    lemma_product(batch, tuning, input, weight0);
    lemma_product(batch1, tuning, input, weight1);
    lemma_product(batch2, tuning, input, weight2);
    values::lemma_kept_all(batch, Set::empty());
    values::lemma_kept_all(batch3, Set::empty());
    values::lemma_kept_joins(batch, batch1, batch2, Set::empty());
    values::lemma_kept_joins(batch1, batch2, batch3, Set::empty());
    lemma_product_moves(batch, batch, batch1, batch3, first->Ok_0[0], input, weight0);
    lemma_product_moves(batch, batch1, batch2, batch3, second->Ok_0[0], input, weight1);
    lemma_product_moves(batch, batch2, batch3, batch3, third->Ok_0[0], input, weight2);
    values::lemma_kept_joins(batch, batch2, batch3, Set::empty());
}

/// One launch computes the products of a row by two weights.
pub proof fn matvec2_value(
    batch: BatchModel,
    input: TensorModel,
    weight0: TensorModel,
    weight1: TensorModel,
    rows: int,
)
    requires
        batch.run(gemv::matvec2_step(batch, input, weight0, weight1, rows)).1 is Ok,
        input.shape[0] == 1,
        weight0.shape[1] == input.shape[1],
        weight1.shape[1] == input.shape[1],
    ensures
        ({
            let (after, outputs) = batch.run(
                gemv::matvec2_step(batch, input, weight0, weight1, rows),
            );
            &&& outputs->Ok_0.len() == 2
            &&& is_product(batch, after, outputs->Ok_0[0], input, weight0)
            &&& is_product(batch, after, outputs->Ok_0[1], input, weight1)
            &&& values::kept(batch, after, Set::empty())
        }),
{
    let step = gemv::matvec2_step(batch, input, weight0, weight1, rows);
    reveal(values::effects);
    operands::lemma_ran(batch, step);
    values::lemma_one_command(batch, step, Set::empty());
}

/// One launch computes the products of a row by three weights.
pub proof fn matvec3_value(
    batch: BatchModel,
    input: TensorModel,
    weight0: TensorModel,
    weight1: TensorModel,
    weight2: TensorModel,
    rows: int,
)
    requires
        batch.run(gemv::matvec3_step(batch, input, weight0, weight1, weight2, rows)).1 is Ok,
        input.shape[0] == 1,
        weight0.shape[1] == input.shape[1],
        weight1.shape[1] == input.shape[1],
        weight2.shape[1] == input.shape[1],
    ensures
        ({
            let (after, outputs) = batch.run(
                gemv::matvec3_step(batch, input, weight0, weight1, weight2, rows),
            );
            &&& outputs->Ok_0.len() == 3
            &&& is_product(batch, after, outputs->Ok_0[0], input, weight0)
            &&& is_product(batch, after, outputs->Ok_0[1], input, weight1)
            &&& is_product(batch, after, outputs->Ok_0[2], input, weight2)
            &&& values::kept(batch, after, Set::empty())
        }),
{
    let step = gemv::matvec3_step(batch, input, weight0, weight1, weight2, rows);
    reveal(values::effects);
    operands::lemma_ran(batch, step);
    values::lemma_one_command(batch, step, Set::empty());
}

/// Two products of one input are the same whether one launch computes them or two.
pub proof fn matmul2_value(
    batch: BatchModel,
    tuning: TuningModel,
    input: TensorModel,
    weight0: TensorModel,
    weight1: TensorModel,
)
    requires
        gemv::matmul2_outcome(batch, tuning, input, weight0, weight1).1 is Ok,
        values::known(batch, input.place),
        values::known(batch, weight0.place),
        values::known(batch, weight1.place),
    ensures
        ({
            let (after, outputs) = gemv::matmul2_outcome(batch, tuning, input, weight0, weight1);
            &&& outputs->Ok_0.len() == 2
            &&& is_product(batch, after, outputs->Ok_0[0], input, weight0)
            &&& is_product(batch, after, outputs->Ok_0[1], input, weight1)
            &&& values::kept(batch, after, Set::empty())
        }),
{
    if input.shape[0] == 1 {
        let weights = seq![weight0, weight1];
        assert(weights[0] == weight0);
        assert(weights[1] == weight1);
        let rows = gemv::tuned_rows(tuning, input.shape[1]);
        matvec2_value(batch, input, weight0, weight1, rows);
    } else {
        products2_value(batch, tuning, input, weight0, weight1);
    }
}

/// Three products of one input are the same whether one launch computes them or
/// three.
pub proof fn matmul3_value(
    batch: BatchModel,
    tuning: TuningModel,
    input: TensorModel,
    weight0: TensorModel,
    weight1: TensorModel,
    weight2: TensorModel,
)
    requires
        gemv::matmul3_outcome(batch, tuning, input, weight0, weight1, weight2).1 is Ok,
        values::known(batch, input.place),
        values::known(batch, weight0.place),
        values::known(batch, weight1.place),
        values::known(batch, weight2.place),
    ensures
        ({
            let (after, outputs) = gemv::matmul3_outcome(
                batch,
                tuning,
                input,
                weight0,
                weight1,
                weight2,
            );
            &&& outputs->Ok_0.len() == 3
            &&& is_product(batch, after, outputs->Ok_0[0], input, weight0)
            &&& is_product(batch, after, outputs->Ok_0[1], input, weight1)
            &&& is_product(batch, after, outputs->Ok_0[2], input, weight2)
            &&& values::kept(batch, after, Set::empty())
        }),
{
    if input.shape[0] == 1 {
        let weights = seq![weight0, weight1, weight2];
        assert(weights[0] == weight0);
        assert(weights[1] == weight1);
        assert(weights[2] == weight2);
        let rows = gemv::tuned_rows(tuning, input.shape[1]);
        matvec3_value(batch, input, weight0, weight1, weight2, rows);
    } else {
        products3_value(batch, tuning, input, weight0, weight1, weight2);
    }
}

/// The fused norm and projections yield the products of the normalised input.
pub proof fn norm_matmul3_value(
    batch: BatchModel,
    input: TensorModel,
    norm_weight: TensorModel,
    weight0: TensorModel,
    weight1: TensorModel,
    weight2: TensorModel,
    epsilon: u32,
    rows: int,
)
    requires
        batch.run(
            fused::rms_norm_matmul3_step(
                batch,
                input,
                norm_weight,
                weight0,
                weight1,
                weight2,
                epsilon,
                rows,
            ),
        ).1 is Ok,
    ensures
        ({
            let (after, outputs) = batch.run(
                fused::rms_norm_matmul3_step(
                    batch,
                    input,
                    norm_weight,
                    weight0,
                    weight1,
                    weight2,
                    epsilon,
                    rows,
                ),
            );
            let normal = values::normed(
                values::value(batch, input),
                values::value(batch, norm_weight),
                1,
                input.shape[1] as int,
                epsilon,
            );
            &&& outputs->Ok_0.len() == 3
            &&& input.shape == seq![1usize, input.shape[1]]
            &&& norm_weight.shape == seq![input.shape[1]]
            &&& holds_product(batch, after, outputs->Ok_0[0], normal, weight0)
            &&& holds_product(batch, after, outputs->Ok_0[1], normal, weight1)
            &&& holds_product(batch, after, outputs->Ok_0[2], normal, weight2)
            &&& values::kept(batch, after, Set::empty())
        }),
{
    let step = fused::rms_norm_matmul3_step(
        batch,
        input,
        norm_weight,
        weight0,
        weight1,
        weight2,
        epsilon,
        rows,
    );
    reveal(values::effects);
    operands::lemma_ran(batch, step);
    assert(input.shape =~= seq![1usize, input.shape[1]]);
    assert(seq![1usize, weight2.shape[0]][1] > 0);
    values::lemma_one_command(batch, step, Set::empty());
}

/// Whether a new tensor of one row holds the product of a content by a weight.
pub open spec fn holds_product(
    before: BatchModel,
    after: BatchModel,
    out: TensorModel,
    input: Content,
    weight: TensorModel,
) -> bool {
    &&& values::known(after, out.place)
    &&& !values::known(before, out.place)
    &&& out.place is Scratch
    &&& out.offset == 0
    &&& out.dtype == DType::F16
    &&& out.shape == seq![1usize, weight.shape[0]]
    &&& recorder::allocation_error(out.shape, DType::F16) is None
    &&& values::fills(after, out, values::product(
        input,
        values::value(before, weight),
        1,
        weight.shape[0] as int,
        weight.shape[1] as int,
    ))
}

/// The fused sum, norm and projections yield the sum and the products of its
/// normalisation.
pub proof fn add_norm_matmul2_value(
    batch: BatchModel,
    left: TensorModel,
    right: TensorModel,
    norm_weight: TensorModel,
    weight0: TensorModel,
    weight1: TensorModel,
    epsilon: u32,
    rows: int,
)
    requires
        batch.run(
            fused::add_rms_norm_matmul2_step(
                batch,
                left,
                right,
                norm_weight,
                weight0,
                weight1,
                epsilon,
                rows,
            ),
        ).1 is Ok,
    ensures
        ({
            let (after, outputs) = batch.run(
                fused::add_rms_norm_matmul2_step(
                    batch,
                    left,
                    right,
                    norm_weight,
                    weight0,
                    weight1,
                    epsilon,
                    rows,
                ),
            );
            let residual = outputs->Ok_0[0];
            let total = values::sum(values::value(batch, left), values::value(batch, right));
            let normal = values::normed(
                total,
                values::value(batch, norm_weight),
                1,
                left.shape[1] as int,
                epsilon,
            );
            &&& outputs->Ok_0.len() == 3
            &&& left.shape == seq![1usize, left.shape[1]]
            &&& norm_weight.shape == seq![left.shape[1]]
            &&& residual == batch.fresh(0, left.shape, DType::F16)
            &&& values::known(after, residual.place)
            &&& values::fills(after, residual, total)
            &&& holds_product(batch, after, outputs->Ok_0[1], normal, weight0)
            &&& holds_product(batch, after, outputs->Ok_0[2], normal, weight1)
            &&& values::kept(batch, after, Set::empty())
        }),
{
    let step = fused::add_rms_norm_matmul2_step(
        batch,
        left,
        right,
        norm_weight,
        weight0,
        weight1,
        epsilon,
        rows,
    );
    reveal(values::effects);
    operands::lemma_ran(batch, step);
    assert(left.shape =~= seq![1usize, left.shape[1]]);
    values::lemma_one_command(batch, step, Set::empty());
}

/// The rotation turns each head by the position of its token.
pub proof fn rope_value(batch: BatchModel, input: TensorModel, offset: usize, theta: u32)
    requires
        batch.run(rope::rope_step(batch, input, offset, theta)).1 is Ok,
    ensures
        ({
            let (after, outputs) = batch.run(rope::rope_step(batch, input, offset, theta));
            let out = outputs->Ok_0[0];
            &&& outputs->Ok_0.len() == 1
            &&& out == batch.fresh(0, input.shape, DType::F16)
            &&& values::known(after, out.place)
            &&& values::fills(after, out, values::rotated(
                values::value(batch, input),
                input.shape[0] as int,
                input.shape[1] as int,
                input.shape[2] as int,
                offset as int,
                theta,
            ))
            &&& values::kept(batch, after, Set::empty())
        }),
{
    reveal(values::effects);
    let step = rope::rope_step(batch, input, offset, theta);
    operands::lemma_ran(batch, step);
    values::lemma_one_command(batch, step, Set::empty());
}

/// The fused transform norms and rotates queries and keys, each with the weights of
/// its own, yields the queries and writes the keys over what the cache held.
pub proof fn qk_transform_value(
    batch: BatchModel,
    query: TensorModel,
    key: TensorModel,
    query_weight: TensorModel,
    key_weight: TensorModel,
    key_cache: TensorModel,
    config: QkNormRopeCacheConfig,
)
    requires
        batch.run(
            rope::qk_norm_rope_cache_step(
                batch,
                query,
                key,
                query_weight,
                key_weight,
                key_cache,
                config,
            ),
        ).1 is Ok,
        key_cache.on_device(),
    ensures
        ({
            let (after, outputs) = batch.run(
                rope::qk_norm_rope_cache_step(
                    batch,
                    query,
                    key,
                    query_weight,
                    key_weight,
                    key_cache,
                    config,
                ),
            );
            let out = outputs->Ok_0[0];
            let tokens = query.shape[0] as int;
            let head_dim = query.shape[2] as int;
            &&& outputs->Ok_0.len() == 1
            &&& out == batch.fresh(0, query.shape, DType::F16)
            &&& values::known(after, out.place)
            &&& values::fills(after, out, values::rotated(
                values::normed(
                    values::value(batch, query),
                    values::value(batch, query_weight),
                    tokens * query.shape[1],
                    head_dim,
                    config.epsilon,
                ),
                tokens,
                query.shape[1] as int,
                head_dim,
                config.offset as int,
                config.theta,
            ))
            &&& values::value(after, key_cache) == values::written(
                values::value(batch, key_cache),
                values::rotated(
                    values::normed(
                        values::value(batch, key),
                        values::value(batch, key_weight),
                        tokens * key.shape[1],
                        head_dim,
                        config.epsilon,
                    ),
                    tokens,
                    key.shape[1] as int,
                    head_dim,
                    config.offset as int,
                    config.theta,
                ),
                tokens,
                config.offset as int,
                key.shape[1] * head_dim,
            )
            &&& values::kept(batch, after, set![key_cache.place])
        }),
{
    reveal(values::effects);
    let step = rope::qk_norm_rope_cache_step(
        batch,
        query,
        key,
        query_weight,
        key_weight,
        key_cache,
        config,
    );
    operands::lemma_ran(batch, step);
    values::lemma_one_command(batch, step, set![key_cache.place]);
    let after = batch.run(step).0;
    let command = step->Ok_0.commands[0];
    assert(values::value(after, key_cache) == values::read_behind(
        batch.log,
        command,
        key_cache.operand(),
    ));
}

/// Attention of every kind computes the same: the queries score the keys that were
/// given, and the scores weigh the values that were given.
pub proof fn attention_value(
    batch: BatchModel,
    query: TensorModel,
    key: TensorModel,
    value: TensorModel,
    config: AttentionConfig,
    kind: AttentionKind,
    split: FlashSplit,
)
    requires
        batch.run(attention::attention_step(batch, query, key, value, config, kind, split)).1 is Ok,
    ensures
        ({
            let (after, outputs) = batch.run(
                attention::attention_step(batch, query, key, value, config, kind, split),
            );
            let out = outputs->Ok_0[0];
            &&& outputs->Ok_0.len() == 1
            &&& out == batch.fresh(0, query.shape, DType::F16)
            &&& values::known(after, out.place)
            &&& values::fills(after, out, (Content::Attended {
                query: Box::new(values::value(batch, query)),
                keys: Box::new(values::value(batch, key)),
                values: Box::new(values::value(batch, value)),
                tokens: query.shape[0] as int,
                query_heads: config.query_heads as int,
                kv_heads: config.kv_heads as int,
                head_dim: config.head_dim as int,
                causal: config.causal,
                offset: config.query_offset as int,
                length: key.shape[0] as int,
            }))
            &&& values::kept(batch, after, Set::empty())
        }),
{
    reveal(values::effects);
    let step = attention::attention_step(batch, query, key, value, config, kind, split);
    operands::lemma_ran(batch, step);
    let after = batch.run(step).0;
    let out = step->Ok_0.outputs[0];
    let first = step->Ok_0.commands[0];
    if kind == AttentionKind::FlashDecode {
        let second = step->Ok_0.commands[1];
        let between = batch.log.push(first);
        let partial = operands::bound(first)[3];
        values::lemma_two_commands(batch, step, Set::empty());
        assert(values::read(between, partial) == values::read_behind(batch.log, first, partial));
        assert(values::value(after, out) == values::read_behind(between, second, out.operand()));
    } else {
        values::lemma_one_command(batch, step, Set::empty());
        assert(values::value(after, out) == values::read_behind(batch.log, first, out.operand()));
    }
}

/// The two launches of the choice write the index of the largest of the logits that
/// were given.
pub proof fn argmax_value(batch: BatchModel, logits: TensorModel, output: TensorModel)
    requires
        batch.run(sampling::argmax_step(batch, logits, output)).1 is Ok,
        output.on_device(),
    ensures
        ({
            let after = batch.run(sampling::argmax_step(batch, logits, output)).0;
            &&& values::value(after, output) == (Content::Largest {
                logits: Box::new(values::value(batch, logits)),
                count: logits.len() as int,
            })
            &&& values::kept(batch, after, set![output.place])
        }),
{
    reveal(values::effects);
    reveal_strlit("add_f16");
    reveal_strlit("swiglu_f16");
    reveal_strlit("argmax_f16_partial");
    reveal_strlit("argmax_f16_reduce");
    assert("add_f16"@.len() == 7);
    assert("swiglu_f16"@.len() == 10);
    assert("argmax_f16_partial"@.len() == 18);
    assert("argmax_f16_reduce"@.len() == 17);
    let step = sampling::argmax_step(batch, logits, output);
    operands::lemma_ran(batch, step);
    let after = batch.run(step).0;
    let first = step->Ok_0.commands[0];
    let second = step->Ok_0.commands[1];
    let between = batch.log.push(first);
    let best = operands::bound(first)[1];
    let index = operands::bound(first)[2];
    values::lemma_two_commands(batch, step, set![output.place]);
    assert(values::read(between, best) == values::read_behind(batch.log, first, best));
    assert(values::read(between, index) == values::read_behind(batch.log, first, index));
    assert(values::value(after, output) == values::read_behind(between, second, output.operand()));
}

/// Whoever multiplies by the settings of a device, the system library, one kernel, or
/// two over slices of the inner dimension, the product is that of the input by the
/// transpose of the weights.
pub proof fn settings_matmul_value(
    batch: BatchModel,
    settings: SettingsModel,
    input: TensorModel,
    weight: TensorModel,
)
    requires
        batch.run(command_batch::settings_matmul_step(batch, settings, input, weight)).1 is Ok,
        input.shape[1] * 2 <= usize::MAX,
    ensures
        ({
            let (after, outputs) = batch.run(
                command_batch::settings_matmul_step(batch, settings, input, weight),
            );
            &&& outputs->Ok_0.len() == 1
            &&& is_product(batch, after, outputs->Ok_0[0], input, weight)
            &&& values::kept(batch, after, Set::empty())
        }),
{
    let step = command_batch::settings_matmul_step(batch, settings, input, weight);
    let k = input.shape[1];
    reveal(values::effects);
    operands::lemma_ran(batch, step);
    let out = step->Ok_0.outputs[0];
    if settings.matmul_backend == MatmulBackend::Mps {
        assert(step->Ok_0.outputs[0].shape == seq![input.shape[0], weight.shape[0]]);
        lemma_row_bytes(out);
        values::lemma_one_command(batch, step, Set::empty());
    } else if input.shape[0] == 1 && settings.splits(k) > 1 {
        let first = step->Ok_0.commands[0];
        let between = batch.log.push(first);
        let partial = operands::bound(first)[2];
        values::lemma_two_commands(batch, step, Set::empty());
        assert(values::read(between, partial) == values::read_behind(batch.log, first, partial));
    } else {
        values::lemma_one_command(batch, step, Set::empty());
    }
}

/// A row of a matrix that was allocated is no longer than the machine can count.
proof fn lemma_row_bytes(matrix: TensorModel)
    requires
        matrix.shape.len() == 2,
        recorder::allocation_error(matrix.shape, DType::F16) is None,
    ensures
        matrix.shape[1] * 2 <= usize::MAX,
{
    let rows = matrix.shape[0];
    let width = matrix.shape[1];
    assert(matrix.shape =~= seq![rows, width]);
    tensor::lemma_elements_two(rows, width);
    assert(rows >= 1);
    assert(width * 2 <= rows * width * 2) by (nonlinear_arith)
        requires
            rows >= 1,
            width >= 0,
    ;
}

/// Two products by the settings of a device are those of the input by each weight,
/// whether one launch computes them or more.
pub proof fn settings_matmul2_value(
    batch: BatchModel,
    settings: SettingsModel,
    input: TensorModel,
    weight0: TensorModel,
    weight1: TensorModel,
)
    requires
        command_batch::settings_matmul2_outcome(
            batch,
            settings,
            input,
            weight0,
            weight1,
        ).1 is Ok,
        input.shape[1] * 2 <= usize::MAX,
        values::known(batch, input.place),
        values::known(batch, weight0.place),
        values::known(batch, weight1.place),
    ensures
        ({
            let (after, outputs) = command_batch::settings_matmul2_outcome(
                batch,
                settings,
                input,
                weight0,
                weight1,
            );
            &&& outputs->Ok_0.len() == 2
            &&& is_product(batch, after, outputs->Ok_0[0], input, weight0)
            &&& is_product(batch, after, outputs->Ok_0[1], input, weight1)
            &&& values::kept(batch, after, Set::empty())
        }),
{
    if input.shape[0] == 1 {
        let weights = seq![weight0, weight1];
        assert(weights[0] == weight0);
        assert(weights[1] == weight1);
        let rows = settings.fused_rows(input.shape[1], settings.rows.fused2);
        matvec2_value(batch, input, weight0, weight1, rows);
    } else {
        let (batch1, first) = batch.run(
            command_batch::settings_matmul_step(batch, settings, input, weight0),
        );
        let (batch2, second) = batch1.run(
            command_batch::settings_matmul_step(batch1, settings, input, weight1),
        );
        settings_matmul_value(batch, settings, input, weight0);
        settings_matmul_value(batch1, settings, input, weight1);
        values::lemma_kept_all(batch, Set::empty());
        values::lemma_kept_all(batch2, Set::empty());
        lemma_product_moves(batch, batch, batch1, batch2, first->Ok_0[0], input, weight0);
        lemma_product_moves(batch, batch1, batch2, batch2, second->Ok_0[0], input, weight1);
        values::lemma_kept_joins(batch, batch1, batch2, Set::empty());
    }
}

/// Three products by the settings of a device are those of the input by each weight,
/// whether one launch computes them or more.
pub proof fn settings_matmul3_value(
    batch: BatchModel,
    settings: SettingsModel,
    input: TensorModel,
    weight0: TensorModel,
    weight1: TensorModel,
    weight2: TensorModel,
)
    requires
        command_batch::settings_matmul3_outcome(
            batch,
            settings,
            input,
            weight0,
            weight1,
            weight2,
        ).1 is Ok,
        input.shape[1] * 2 <= usize::MAX,
        values::known(batch, input.place),
        values::known(batch, weight0.place),
        values::known(batch, weight1.place),
        values::known(batch, weight2.place),
    ensures
        ({
            let (after, outputs) = command_batch::settings_matmul3_outcome(
                batch,
                settings,
                input,
                weight0,
                weight1,
                weight2,
            );
            &&& outputs->Ok_0.len() == 3
            &&& is_product(batch, after, outputs->Ok_0[0], input, weight0)
            &&& is_product(batch, after, outputs->Ok_0[1], input, weight1)
            &&& is_product(batch, after, outputs->Ok_0[2], input, weight2)
            &&& values::kept(batch, after, Set::empty())
        }),
{
    if input.shape[0] == 1 {
        let weights = seq![weight0, weight1, weight2];
        assert(weights[0] == weight0);
        assert(weights[1] == weight1);
        assert(weights[2] == weight2);
        let rows = settings.fused_rows(input.shape[1], settings.rows.fused3);
        matvec3_value(batch, input, weight0, weight1, weight2, rows);
    } else {
        let (batch1, first) = batch.run(
            command_batch::settings_matmul_step(batch, settings, input, weight0),
        );
        let (batch2, second) = batch1.run(
            command_batch::settings_matmul_step(batch1, settings, input, weight1),
        );
        let (batch3, third) = batch2.run(
            command_batch::settings_matmul_step(batch2, settings, input, weight2),
        );
        settings_matmul_value(batch, settings, input, weight0);
        settings_matmul_value(batch1, settings, input, weight1);
        settings_matmul_value(batch2, settings, input, weight2);
        values::lemma_kept_all(batch, Set::empty());
        values::lemma_kept_all(batch3, Set::empty());
        values::lemma_kept_joins(batch, batch1, batch2, Set::empty());
        values::lemma_kept_joins(batch1, batch2, batch3, Set::empty());
        lemma_product_moves(batch, batch, batch1, batch3, first->Ok_0[0], input, weight0);
        lemma_product_moves(batch, batch1, batch2, batch3, second->Ok_0[0], input, weight1);
        lemma_product_moves(batch, batch2, batch3, batch3, third->Ok_0[0], input, weight2);
        values::lemma_kept_joins(batch, batch2, batch3, Set::empty());
    }
}

} // verus!
