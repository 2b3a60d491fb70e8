//! What the last launches of a pass are bound to.

use crate::error::KernelError;
use crate::gpu::command::{CommandModel, Operand, Params};
use crate::gpu::recorder::{self, BatchModel, Step};
use crate::gpu::tensor::{self, DType, TensorModel};
use crate::ops::{attention, elementwise, gemm, norm, sampling};
use crate::ops::attention::FlashSplit;
use crate::ops::{AttentionConfig, AttentionKind};
use crate::qwen3::decode_batch;
use crate::qwen3::forward;
use crate::qwen3::kv_cache::{KvCacheModel, LayerCacheModel};
use crate::qwen3::layers::LayerModel;
use crate::qwen3::model::NetModel;
use vstd::prelude::*;

verus! {

/// The operands of a command, in the order of their slots.
pub open spec fn bound(command: CommandModel) -> Seq<Operand> {
    match command {
        CommandModel::Dispatch { operands, .. } => operands,
        CommandModel::Multiply { left, right, result, .. } => seq![left, right, result],
    }
}

/// The constants of a launch.
pub open spec fn constants(command: CommandModel) -> Option<Params> {
    match command {
        CommandModel::Dispatch { params, .. } => Some(params),
        CommandModel::Multiply { .. } => None,
    }
}

proof fn lemma_with_all(batch: BatchModel, commands: Seq<CommandModel>)
    ensures
        batch.with_all(commands).1 ==> batch.with_all(commands).0.log == batch.log + commands,
        batch.with_all(commands).0.pool == batch.pool,
        batch.with_all(commands).0.issued == batch.issued,
    decreases commands.len(),
{
    if commands.len() == 0 {
        assert(batch.log + commands =~= batch.log);
    } else if batch.accepts(commands[0]) {
        let next = batch.with(commands[0]);
        lemma_with_all(next, commands.drop_first());
        assert(next.log + commands.drop_first() =~= batch.log + commands);
    }
}

/// A step that succeeds leaves its commands behind those of the batch.
pub proof fn lemma_ran(batch: BatchModel, step: Result<Step, KernelError>)
    ensures
        batch.run(step).1 is Ok ==> {
            &&& step is Ok
            &&& batch.run(step).1->Ok_0 == step->Ok_0.outputs
            &&& batch.run(step).0.log == batch.log + step->Ok_0.commands
            &&& batch.run(step).0.pool == batch.pool
            &&& batch.run(step).0.issued == batch.issued + step->Ok_0.issued
        },
{
    if step is Ok {
        lemma_with_all(batch.after_issue(step->Ok_0.issued), step->Ok_0.commands);
    }
}

/// In the launch that scores the keys, slot 0 is the queries, slot 1 the keys and
/// slot 2 the values that the caller gave, whichever kernel is launched. What it
/// writes in slot 3 is the result, or what a second launch turns into the result.
pub proof fn attention_scores_the_keys_and_weighs_the_values(
    batch: BatchModel,
    query: TensorModel,
    key: TensorModel,
    value: TensorModel,
    config: AttentionConfig,
    kind: AttentionKind,
    split: FlashSplit,
)
    requires
        batch.run(attention::attention_step(batch, query, key, value, config, kind, split)).1 is Ok,
    ensures
        ({
            let step = attention::attention_step(batch, query, key, value, config, kind, split);
            let (after, outputs) = batch.run(step);
            let scoring = after.log[batch.log.len() as int];
            let out = outputs->Ok_0[0].operand();
            &&& bound(scoring).len() == 4
            &&& bound(scoring)[0] == query.operand()
            &&& bound(scoring)[1] == key.operand()
            &&& bound(scoring)[2] == value.operand()
            &&& if kind == AttentionKind::FlashDecode {
                let joining = after.log[batch.log.len() as int + 1];
                &&& after.log.len() == batch.log.len() + 2
                &&& bound(joining) == seq![bound(scoring)[3], out]
            } else {
                &&& after.log.len() == batch.log.len() + 1
                &&& bound(scoring)[3] == out
            }
        }),
{
    let step = attention::attention_step(batch, query, key, value, config, kind, split);
    lemma_ran(batch, step);
    let commands = step->Ok_0.commands;
    let log = batch.run(step).0.log;
    assert(log[batch.log.len() as int] == commands[0]);
    if kind == AttentionKind::FlashDecode {
        assert(log[batch.log.len() as int + 1] == commands[1]);
    }
}

proof fn lemma_feed_forward_shape(
    net: NetModel,
    batch: BatchModel,
    hidden: TensorModel,
    attended: TensorModel,
    layer: LayerModel,
    fused_norm: bool,
)
    ensures
        ({
            let run = forward::feed_forward_run(net, batch, hidden, attended, layer, fused_norm);
            run.1 is Ok ==> run.1->Ok_0.len() == 1 && run.1->Ok_0[0].shape == hidden.shape
                && run.1->Ok_0[0].dtype == DType::F16
        }),
{
    reveal(forward::feed_forward_run);
    let run = forward::feed_forward_run(net, batch, hidden, attended, layer, fused_norm);
    let (batch1, parts) = forward::gate_up_run(net, batch, hidden, attended, layer, fused_norm);
    if run.1 is Ok {
        lemma_gate_up_shape(net, batch, hidden, attended, layer, fused_norm);
        let activate = elementwise::pairwise_step(
            batch1,
            "swiglu_f16"@,
            parts->Ok_0[1],
            parts->Ok_0[2],
        );
        let (batch2, activated) = batch1.run(activate);
        let project = gemm::matmul_step(batch2, net.tuning, activated->Ok_0[0], layer.down);
        let (batch3, down) = batch2.run(project);
        lemma_ran(
            batch3,
            elementwise::pairwise_step(batch3, "add_f16"@, parts->Ok_0[0], down->Ok_0[0]),
        );
    }
}

proof fn lemma_gate_up_shape(
    net: NetModel,
    batch: BatchModel,
    hidden: TensorModel,
    attended: TensorModel,
    layer: LayerModel,
    fused_norm: bool,
)
    ensures
        ({
            let run = forward::gate_up_run(net, batch, hidden, attended, layer, fused_norm);
            run.1 is Ok ==> run.1->Ok_0[0].shape == hidden.shape
        }),
{
    let run = forward::gate_up_run(net, batch, hidden, attended, layer, fused_norm);
    if run.1 is Ok {
        if fused_norm {
            lemma_ran(
                batch,
                crate::ops::fused::add_rms_norm_matmul2_step(
                    batch,
                    hidden,
                    attended,
                    layer.post_attention_norm,
                    layer.gate,
                    layer.up,
                    net.config.rms_norm_eps,
                    crate::ops::fused::fused_rows(
                        net.tuning,
                        seq![layer.gate.shape[0], layer.up.shape[0], 0usize],
                        hidden.shape[1],
                    ),
                ),
            );
            assert(hidden.shape =~= seq![1usize, hidden.shape[1]]);
        } else if net.plan.fusions.add_rms_norm {
            lemma_ran(
                batch,
                norm::add_rms_norm_step(
                    batch,
                    hidden,
                    attended,
                    layer.post_attention_norm,
                    net.config.rms_norm_eps,
                ),
            );
        } else {
            lemma_ran(batch, elementwise::pairwise_step(batch, "add_f16"@, hidden, attended));
        }
    }
}

proof fn lemma_layer_shape(
    net: NetModel,
    batch: BatchModel,
    hidden: TensorModel,
    layer: LayerModel,
    cache: LayerCacheModel,
    offset: usize,
    active_length: usize,
)
    ensures
        ({
            let run = forward::layer_run(net, batch, hidden, layer, cache, offset, active_length);
            run.1 is Ok ==> run.1->Ok_0.len() == 1 && run.1->Ok_0[0].shape == hidden.shape
                && run.1->Ok_0[0].dtype == DType::F16
        }),
{
    reveal(forward::layer_run);
    let run = forward::layer_run(net, batch, hidden, layer, cache, offset, active_length);
    if run.1 is Ok {
        let fusions = net.plan.fusions;
        let tokens = hidden.shape[0];
        let (batch1, qkv) = forward::qkv_run(net, batch, hidden, layer);
        let (batch2, heads) = forward::attention_run(
            net,
            batch1,
            qkv->Ok_0[0],
            qkv->Ok_0[1],
            qkv->Ok_0[2],
            layer,
            cache,
            offset,
            active_length,
            tokens,
        );
        let joined = heads->Ok_0[0].reshaped(
            seq![tokens, net.config.spec_query_width() as usize],
        )->Ok_0;
        let (batch3, attended) = batch2.run(
            gemm::matmul_step(batch2, net.tuning, joined, layer.output),
        );
        lemma_feed_forward_shape(
            net,
            batch3,
            hidden,
            attended->Ok_0[0],
            layer,
            tokens == 1 && fusions.decode_norm && fusions.add_rms_norm && fusions.gate_up,
        );
    }
}

/// The layers keep the shape of what goes through them.
pub proof fn lemma_layers_shape(
    net: NetModel,
    batch: BatchModel,
    hidden: TensorModel,
    caches: Seq<LayerCacheModel>,
    offset: usize,
    active_length: usize,
    index: int,
)
    requires
        hidden.dtype == DType::F16,
    ensures
        ({
            let run = forward::layers_run(
                net,
                batch,
                hidden,
                caches,
                offset,
                active_length,
                index,
            );
            run.1 is Ok ==> run.1->Ok_0.len() == 1 && run.1->Ok_0[0].shape == hidden.shape
                && run.1->Ok_0[0].dtype == DType::F16
        }),
    decreases net.layers.len() - index,
{
    if index < net.layers.len() {
        let (next, out) = forward::layer_run(
            net,
            batch,
            hidden,
            net.layers[index],
            caches[index],
            offset,
            active_length,
        );
        if out is Ok {
            lemma_layer_shape(
                net,
                batch,
                hidden,
                net.layers[index],
                caches[index],
                offset,
                active_length,
            );
            lemma_layers_shape(
                net,
                next,
                out->Ok_0[0],
                caches,
                offset,
                active_length,
                index + 1,
            );
        }
    }
}

proof fn lemma_batch_layer_shape(
    net: NetModel,
    batch: BatchModel,
    hidden: TensorModel,
    caches: Seq<KvCacheModel>,
    index: int,
)
    ensures
        ({
            let run = decode_batch::batch_layer_run(net, batch, hidden, caches, index);
            run.1 is Ok ==> run.1->Ok_0.len() == 1 && run.1->Ok_0[0].shape == hidden.shape
                && run.1->Ok_0[0].dtype == DType::F16
        }),
{
    reveal(decode_batch::batch_layer_run);
    let run = decode_batch::batch_layer_run(net, batch, hidden, caches, index);
    if run.1 is Ok {
        let layer = net.layers[index];
        let shape = seq![caches.len() as usize, net.config.spec_query_width() as usize];
        let (batch1, qkv) = forward::norm_project_run(net, batch, hidden, layer);
        let rows = batch1.fresh(0, shape, DType::F16);
        let (batch2, done) = decode_batch::rows_run(
            net,
            batch1.after_issue(1),
            qkv->Ok_0[0],
            qkv->Ok_0[1],
            qkv->Ok_0[2],
            layer,
            caches,
            index,
            rows,
            0,
        );
        let (batch3, attended) = batch2.run(
            gemm::matmul_step(batch2, net.tuning, rows, layer.output),
        );
        lemma_feed_forward_shape(net, batch3, hidden, attended->Ok_0[0], layer, false);
    }
}

/// The layers over a batch keep the shape of what goes through them.
pub proof fn lemma_batch_layers_shape(
    net: NetModel,
    batch: BatchModel,
    hidden: TensorModel,
    caches: Seq<KvCacheModel>,
    index: int,
)
    requires
        hidden.dtype == DType::F16,
    ensures
        ({
            let run = decode_batch::batch_layers_run(net, batch, hidden, caches, index);
            run.1 is Ok ==> run.1->Ok_0.len() == 1 && run.1->Ok_0[0].shape == hidden.shape
                && run.1->Ok_0[0].dtype == DType::F16
        }),
    decreases net.layers.len() - index,
{
    if index < net.layers.len() {
        let (next, out) = decode_batch::batch_layer_run(net, batch, hidden, caches, index);
        if out is Ok {
            lemma_batch_layer_shape(net, batch, hidden, caches, index);
            lemma_batch_layers_shape(net, next, out->Ok_0[0], caches, index + 1);
        }
    }
}

/// The rows of a matrix, as a norm counts them.
pub proof fn lemma_rows(rows: usize, width: usize)
    requires
        width > 0,
    ensures
        tensor::elements(seq![rows, width]) == rows * width,
        tensor::elements(seq![rows, width]) as int / width as int == rows,
{
    tensor::lemma_elements_two(rows, width);
    vstd::arithmetic::div_mod::lemma_div_multiples_vanish(rows as int, width as int);
    assert(rows * width == width * rows) by (nonlinear_arith);
}

/// Where a row of an F16 matrix at the start of its storage lies.
pub proof fn lemma_row_place(matrix: TensorModel, index: usize)
    requires
        matrix.shape.len() == 2,
        matrix.dtype == DType::F16,
        matrix.offset == 0,
        recorder::allocation_error(matrix.shape, DType::F16) is None,
        index < matrix.shape[0],
    ensures
        matrix.row_at(index) is Ok,
        matrix.row_at(index)->Ok_0.place == matrix.place,
        matrix.row_at(index)->Ok_0.shape == seq![1usize, matrix.shape[1]],
        matrix.row_at(index)->Ok_0.dtype == DType::F16,
        matrix.row_at(index)->Ok_0.offset == index * matrix.shape[1] * 2,
{
    let rows = matrix.shape[0];
    let width = matrix.shape[1];
    assert(matrix.shape =~= seq![rows, width]);
    tensor::lemma_elements_two(rows, width);
    assert(0 <= index * width * 2 <= rows * width * 2) by (nonlinear_arith)
        requires
            0 <= index < rows,
            0 <= width,
    ;
}

/// Whether the final norm, a product by the head and, if it is asked for, the
/// choice of the largest index end a log, each bound to what the one before it
/// wrote. The norm covers `rows` rows of `width` numbers of two bytes, and the
/// product takes `taken` of them from row `first` on.
pub open spec fn ends_in_logits(
    net: NetModel,
    log: Seq<CommandModel>,
    rows: int,
    width: int,
    first: int,
    taken: int,
    logits: TensorModel,
    argmax_output: Option<TensorModel>,
) -> bool {
    let end = log.len() - if argmax_output is Some { 2int } else { 0int };
    let normal = log[end - 2];
    let product = log[end - 1];
    &&& end >= 2
    &&& bound(normal).len() == 3
    &&& bound(normal)[1] == net.final_norm.operand()
    &&& constants(normal) matches Some(Params::Norm { rows: norm_rows, width: norm_width, epsilon })
    &&& norm_rows == rows
    &&& norm_width == width
    &&& epsilon == net.config.rms_norm_eps
    &&& bound(product).len() == 3
    &&& bound(product)[0].place == bound(normal)[2].place
    &&& bound(product)[0].offset == bound(normal)[2].offset + first * width * 2
    &&& bound(product)[1] == net.lm_head.operand()
    &&& bound(product)[2] == logits.operand()
    &&& constants(product) matches Some(Params::Matrix { m, n, k, padding })
    &&& m == taken
    &&& n == net.lm_head.shape[0]
    &&& k == width
    &&& argmax_output is Some ==> {
        let partial = log[end];
        let joining = log[end + 1];
        &&& bound(partial).len() == 3
        &&& bound(partial)[0] == logits.operand()
        &&& constants(partial) matches Some(Params::Count { count })
        &&& count == taken * net.lm_head.shape[0]
        &&& bound(joining) == seq![
            bound(partial)[1],
            bound(partial)[2],
            argmax_output->0.operand(),
        ]
    }
}

/// A pass that succeeds gives the logits of its last token: the launch that
/// writes the returned logits reads the last row of what the final norm wrote, which
/// starts as many rows into it as there are tokens before the last, and nothing
/// else. If the largest index is asked for, it is chosen among these logits and
/// written to the tensor that was given.
pub proof fn the_logits_are_those_of_the_last_token(
    net: NetModel,
    batch: BatchModel,
    tokens: TensorModel,
    cache: KvCacheModel,
    argmax_output: Option<TensorModel>,
)
    requires
        forward::forward_run(net, batch, tokens, cache, argmax_output).1 is Ok,
    ensures
        ({
            let (after, outputs) = forward::forward_run(net, batch, tokens, cache, argmax_output);
            &&& outputs->Ok_0.len() == 1
            &&& outputs->Ok_0[0].shape == seq![1usize, net.lm_head.shape[0]]
            &&& ends_in_logits(
                net,
                after.log,
                tokens.shape[0] as int,
                net.embedding.shape[1] as int,
                tokens.shape[0] - 1,
                1,
                outputs->Ok_0[0],
                argmax_output,
            )
        }),
{
    let embed = elementwise::embedding_step(batch, tokens, net.embedding);
    lemma_ran(batch, embed);
    let (batch1, hidden) = batch.run(embed);
    let requested = cache.reserved(tokens.shape[0])->Some_0;
    let (batch2, last) = forward::layers_run(
        net,
        batch1,
        hidden->Ok_0[0],
        cache.layers,
        cache.filled,
        requested,
        0,
    );
    lemma_layers_shape(
        net,
        batch1,
        hidden->Ok_0[0],
        cache.layers,
        cache.filled,
        requested,
        0,
    );
    lemma_logits_end(net, batch2, last->Ok_0[0], tokens.shape[0], argmax_output);
}

proof fn lemma_logits_end(
    net: NetModel,
    batch: BatchModel,
    hidden: TensorModel,
    tokens: usize,
    argmax_output: Option<TensorModel>,
)
    requires
        forward::logits_run(net, batch, hidden, tokens, argmax_output).1 is Ok,
        hidden.shape.len() == 2,
        hidden.shape[0] == tokens,
    ensures
        ({
            let (after, outputs) = forward::logits_run(net, batch, hidden, tokens, argmax_output);
            &&& outputs->Ok_0.len() == 1
            &&& outputs->Ok_0[0].shape == seq![1usize, net.lm_head.shape[0]]
            &&& ends_in_logits(
                net,
                after.log,
                tokens as int,
                hidden.shape[1] as int,
                tokens - 1,
                1,
                outputs->Ok_0[0],
                argmax_output,
            )
        }),
{
    let normal = norm::rms_norm_step(batch, hidden, net.final_norm, net.config.rms_norm_eps);
    lemma_ran(batch, normal);
    let (batch1, normalized) = batch.run(normal);
    assert(hidden.shape =~= seq![tokens, hidden.shape[1]]);
    lemma_rows(tokens, hidden.shape[1]);
    lemma_row_place(normalized->Ok_0[0], (tokens - 1) as usize);
    let row = normalized->Ok_0[0].row_at((tokens - 1) as usize)->Ok_0;
    let product = gemm::matmul_step(batch1, net.tuning, row, net.lm_head);
    lemma_ran(batch1, product);
    let (batch2, logits) = batch1.run(product);
    let base = batch.log.len() as int;
    assert(batch2.log[base] == normal->Ok_0.commands[0]);
    assert(batch2.log[base + 1] == product->Ok_0.commands[0]);
    if argmax_output is Some {
        let vector = logits->Ok_0[0].reshaped(seq![logits->Ok_0[0].len() as usize])->Ok_0;
        let choice = sampling::argmax_step(batch2, vector, argmax_output->0);
        lemma_ran(batch2, choice);
        let log = batch2.run(choice).0.log;
        assert(log[base] == batch2.log[base]);
        assert(log[base + 1] == batch2.log[base + 1]);
        assert(log[base + 2] == choice->Ok_0.commands[0]);
        assert(log[base + 3] == choice->Ok_0.commands[1]);
        tensor::lemma_elements_two(1, net.lm_head.shape[0]);
        tensor::lemma_elements_one(logits->Ok_0[0].len() as usize);
    }
}

/// A batch of sequences that succeeds ends as a pass does: the launch that writes
/// the logits reads the output of the final norm over the last hidden states, here
/// all of its rows, one for each sequence.
pub proof fn the_logits_of_a_batch_are_those_of_its_sequences(
    net: NetModel,
    batch: BatchModel,
    input: TensorModel,
    caches: Seq<KvCacheModel>,
)
    requires
        decode_batch::decode_batch_run(net, batch, input, caches).1 is Ok,
    ensures
        ({
            let (after, outputs) = decode_batch::decode_batch_run(net, batch, input, caches);
            &&& outputs->Ok_0.len() == 1
            &&& outputs->Ok_0[0].shape == seq![input.shape[0], net.lm_head.shape[0]]
            &&& ends_in_logits(
                net,
                after.log,
                input.shape[0] as int,
                net.embedding.shape[1] as int,
                0,
                input.shape[0] as int,
                outputs->Ok_0[0],
                None,
            )
        }),
{
    let embed = elementwise::embedding_step(batch, input, net.embedding);
    lemma_ran(batch, embed);
    let (batch1, hidden) = batch.run(embed);
    let (batch2, last) = decode_batch::batch_layers_run(net, batch1, hidden->Ok_0[0], caches, 0);
    lemma_batch_layers_shape(net, batch1, hidden->Ok_0[0], caches, 0);
    let states = last->Ok_0[0];
    let normal = norm::rms_norm_step(batch2, states, net.final_norm, net.config.rms_norm_eps);
    lemma_ran(batch2, normal);
    let (batch3, normalized) = batch2.run(normal);
    lemma_rows(input.shape[0], net.embedding.shape[1]);
    let product = gemm::matmul_step(batch3, net.tuning, normalized->Ok_0[0], net.lm_head);
    lemma_ran(batch3, product);
    let log = batch3.run(product).0.log;
    let base = batch2.log.len() as int;
    assert(log[base] == normal->Ok_0.commands[0]);
    assert(log[base + 1] == product->Ok_0.commands[0]);
}

/// A command without the scratch that it is bound to: what it launches, on how
/// many threads, and the operands that lie in buffers.
pub open spec fn same_but_for_scratch(left: CommandModel, right: CommandModel) -> bool {
    match (left, right) {
        (
            CommandModel::Dispatch { kernel, operands, params, grid, threadgroup },
            CommandModel::Dispatch {
                kernel: kernel1,
                operands: operands1,
                params: params1,
                grid: grid1,
                threadgroup: threadgroup1,
            },
        ) => {
            &&& kernel == kernel1
            &&& params == params1
            &&& grid == grid1
            &&& threadgroup == threadgroup1
            &&& operands.len() == operands1.len()
            &&& forall|i: int|
                0 <= i < operands.len() ==> (#[trigger] operands[i]) == operands1[i] || (
                operands[i].place is Scratch && operands1[i].place is Scratch && operands[i].offset
                    == operands1[i].offset)
        },
        _ => left == right,
    }
}

/// A batch of one sequence and a pass over one token end with the same two
/// launches: the same kernels with the same constants, on the same grids, bound
/// to the same weights, and to scratch that may differ by its number alone.
pub proof fn one_sequence_ends_as_one_token_does(
    net: NetModel,
    alone: BatchModel,
    tokens: TensorModel,
    cache: KvCacheModel,
    together: BatchModel,
    input: TensorModel,
    caches: Seq<KvCacheModel>,
)
    requires
        tokens.shape == input.shape,
        input.shape == seq![1usize],
        forward::forward_run(net, alone, tokens, cache, None).1 is Ok,
        decode_batch::decode_batch_run(net, together, input, caches).1 is Ok,
    ensures
        ({
            let one = forward::forward_run(net, alone, tokens, cache, None).0.log;
            let batch = decode_batch::decode_batch_run(net, together, input, caches).0.log;
            &&& one.len() >= 2
            &&& batch.len() >= 2
            &&& same_but_for_scratch(one[one.len() - 2], batch[batch.len() - 2])
            &&& same_but_for_scratch(one[one.len() - 1], batch[batch.len() - 1])
        }),
{
    let (alone1, hidden1) = alone.run(elementwise::embedding_step(alone, tokens, net.embedding));
    lemma_ran(alone, elementwise::embedding_step(alone, tokens, net.embedding));
    let requested = cache.reserved(tokens.shape[0])->Some_0;
    let (alone2, last1) = forward::layers_run(
        net,
        alone1,
        hidden1->Ok_0[0],
        cache.layers,
        cache.filled,
        requested,
        0,
    );
    lemma_layers_end_in_scratch(
        net,
        alone1,
        hidden1->Ok_0[0],
        cache.layers,
        cache.filled,
        requested,
        0,
    );
    lemma_layers_shape(
        net,
        alone1,
        hidden1->Ok_0[0],
        cache.layers,
        cache.filled,
        requested,
        0,
    );
    let (together1, hidden2) = together.run(
        elementwise::embedding_step(together, input, net.embedding),
    );
    lemma_ran(together, elementwise::embedding_step(together, input, net.embedding));
    let (together2, last2) = decode_batch::batch_layers_run(
        net,
        together1,
        hidden2->Ok_0[0],
        caches,
        0,
    );
    lemma_batch_layers_end_in_scratch(net, together1, hidden2->Ok_0[0], caches, 0);
    lemma_batch_layers_shape(net, together1, hidden2->Ok_0[0], caches, 0);
    let one = last1->Ok_0[0];
    let other = last2->Ok_0[0];
    assert(one.shape == other.shape);
    let epsilon = net.config.rms_norm_eps;
    let normal1 = norm::rms_norm_step(alone2, one, net.final_norm, epsilon);
    let normal2 = norm::rms_norm_step(together2, other, net.final_norm, epsilon);
    lemma_ran(alone2, normal1);
    lemma_ran(together2, normal2);
    let (alone3, normalized1) = alone2.run(normal1);
    let (together3, normalized2) = together2.run(normal2);
    lemma_row_place(normalized1->Ok_0[0], 0);
    let row = normalized1->Ok_0[0].row_at(0)->Ok_0;
    assert(row.shape =~= normalized2->Ok_0[0].shape);
    let product1 = gemm::matmul_step(alone3, net.tuning, row, net.lm_head);
    let product2 = gemm::matmul_step(together3, net.tuning, normalized2->Ok_0[0], net.lm_head);
    lemma_ran(alone3, product1);
    lemma_ran(together3, product2);
    let log1 = alone3.run(product1).0.log;
    let log2 = together3.run(product2).0.log;
    assert(log1[log1.len() - 2] == normal1->Ok_0.commands[0]);
    assert(log1[log1.len() - 1] == product1->Ok_0.commands[0]);
    assert(log2[log2.len() - 2] == normal2->Ok_0.commands[0]);
    assert(log2[log2.len() - 1] == product2->Ok_0.commands[0]);
}

proof fn lemma_feed_forward_ends_in_scratch(
    net: NetModel,
    batch: BatchModel,
    hidden: TensorModel,
    attended: TensorModel,
    layer: LayerModel,
    fused_norm: bool,
)
    ensures
        ({
            let run = forward::feed_forward_run(net, batch, hidden, attended, layer, fused_norm);
            run.1 is Ok ==> run.1->Ok_0[0].place is Scratch && run.1->Ok_0[0].offset == 0
        }),
{
    reveal(forward::feed_forward_run);
    let run = forward::feed_forward_run(net, batch, hidden, attended, layer, fused_norm);
    let (batch1, parts) = forward::gate_up_run(net, batch, hidden, attended, layer, fused_norm);
    if run.1 is Ok {
        let activate = elementwise::pairwise_step(
            batch1,
            "swiglu_f16"@,
            parts->Ok_0[1],
            parts->Ok_0[2],
        );
        let (batch2, activated) = batch1.run(activate);
        let project = gemm::matmul_step(batch2, net.tuning, activated->Ok_0[0], layer.down);
        let (batch3, down) = batch2.run(project);
        lemma_ran(
            batch3,
            elementwise::pairwise_step(batch3, "add_f16"@, parts->Ok_0[0], down->Ok_0[0]),
        );
    }
}

proof fn lemma_layers_end_in_scratch(
    net: NetModel,
    batch: BatchModel,
    hidden: TensorModel,
    caches: Seq<LayerCacheModel>,
    offset: usize,
    active_length: usize,
    index: int,
)
    requires
        hidden.place is Scratch,
        hidden.offset == 0,
    ensures
        ({
            let run = forward::layers_run(
                net,
                batch,
                hidden,
                caches,
                offset,
                active_length,
                index,
            );
            run.1 is Ok ==> run.1->Ok_0[0].place is Scratch && run.1->Ok_0[0].offset == 0
        }),
    decreases net.layers.len() - index,
{
    if index < net.layers.len() {
        let layer = net.layers[index];
        let cache = caches[index];
        let run = forward::layer_run(net, batch, hidden, layer, cache, offset, active_length);
        if run.1 is Ok {
            reveal(forward::layer_run);
            let fusions = net.plan.fusions;
            let tokens = hidden.shape[0];
            let (batch1, qkv) = forward::qkv_run(net, batch, hidden, layer);
            let (batch2, heads) = forward::attention_run(
                net,
                batch1,
                qkv->Ok_0[0],
                qkv->Ok_0[1],
                qkv->Ok_0[2],
                layer,
                cache,
                offset,
                active_length,
                tokens,
            );
            let joined = heads->Ok_0[0].reshaped(
                seq![tokens, net.config.spec_query_width() as usize],
            )->Ok_0;
            let (batch3, attended) = batch2.run(
                gemm::matmul_step(batch2, net.tuning, joined, layer.output),
            );
            lemma_feed_forward_ends_in_scratch(
                net,
                batch3,
                hidden,
                attended->Ok_0[0],
                layer,
                tokens == 1 && fusions.decode_norm && fusions.add_rms_norm && fusions.gate_up,
            );
            lemma_layers_end_in_scratch(
                net,
                run.0,
                run.1->Ok_0[0],
                caches,
                offset,
                active_length,
                index + 1,
            );
        }
    }
}

proof fn lemma_batch_layers_end_in_scratch(
    net: NetModel,
    batch: BatchModel,
    hidden: TensorModel,
    caches: Seq<KvCacheModel>,
    index: int,
)
    requires
        hidden.place is Scratch,
        hidden.offset == 0,
    ensures
        ({
            let run = decode_batch::batch_layers_run(net, batch, hidden, caches, index);
            run.1 is Ok ==> run.1->Ok_0[0].place is Scratch && run.1->Ok_0[0].offset == 0
        }),
    decreases net.layers.len() - index,
{
    if index < net.layers.len() {
        let run = decode_batch::batch_layer_run(net, batch, hidden, caches, index);
        if run.1 is Ok {
            reveal(decode_batch::batch_layer_run);
            let layer = net.layers[index];
            let shape = seq![caches.len() as usize, net.config.spec_query_width() as usize];
            let (batch1, qkv) = forward::norm_project_run(net, batch, hidden, layer);
            let rows = batch1.fresh(0, shape, DType::F16);
            let (batch2, done) = decode_batch::rows_run(
                net,
                batch1.after_issue(1),
                qkv->Ok_0[0],
                qkv->Ok_0[1],
                qkv->Ok_0[2],
                layer,
                caches,
                index,
                rows,
                0,
            );
            let (batch3, attended) = batch2.run(
                gemm::matmul_step(batch2, net.tuning, rows, layer.output),
            );
            lemma_feed_forward_ends_in_scratch(
                net,
                batch3,
                hidden,
                attended->Ok_0[0],
                layer,
                false,
            );
            lemma_batch_layers_end_in_scratch(net, run.0, run.1->Ok_0[0], caches, index + 1);
        }
    }
}

} // verus!
