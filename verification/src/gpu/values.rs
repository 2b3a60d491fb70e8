//! What the commands of a batch compute.

use crate::error::KernelError;
use crate::gpu::command::{CommandModel, Operand, Params};
use crate::gpu::recorder::{BatchModel, Step};
use crate::gpu::tensor::{Place, TensorModel};
use crate::qwen3::operands;
use vstd::prelude::*;

verus! {

/// What bytes hold, as the computation that they come from.
pub enum Content {
    /// What was there before the first command.
    Stored { at: Operand },
    /// What follows the first `from` bytes.
    Part { of: Box<Content>, from: int },
    /// A row of a table for each token.
    Embedded { ids: Box<Content>, table: Box<Content>, count: int, width: int },
    /// Rows, each scaled by its root mean square and then by the weights.
    Normed { input: Box<Content>, weight: Box<Content>, rows: int, width: int, epsilon: u32 },
    /// `m` rows of `k` numbers times the transpose of `n` rows.
    Product { input: Box<Content>, weight: Box<Content>, m: int, n: int, k: int },
    Sum { left: Box<Content>, right: Box<Content> },
    /// An activated projection, times another one.
    Gated { gate: Box<Content>, up: Box<Content> },
    /// Heads, rotated by their positions from `offset` on.
    Rotated {
        input: Box<Content>,
        tokens: int,
        heads: int,
        head_dim: int,
        offset: int,
        theta: u32,
    },
    /// What was there, with rows written over it from row `offset` on.
    Written { before: Box<Content>, source: Box<Content>, tokens: int, offset: int, stride: int },
    Attended {
        query: Box<Content>,
        keys: Box<Content>,
        values: Box<Content>,
        tokens: int,
        query_heads: int,
        kv_heads: int,
        head_dim: int,
        causal: bool,
        offset: int,
        length: int,
    },
    /// The index of the largest of `count` numbers.
    Largest { logits: Box<Content>, count: int },
    /// What one launch leaves for another to complete.
    Partial { of: Box<Content> },
    Unknown,
}

pub open spec fn part(of: Content, from: int) -> Content {
    if from == 0 {
        of
    } else {
        Content::Part { of: Box::new(of), from }
    }
}

pub open spec fn sum(left: Content, right: Content) -> Content {
    Content::Sum { left: Box::new(left), right: Box::new(right) }
}

pub open spec fn gated(gate: Content, up: Content) -> Content {
    Content::Gated { gate: Box::new(gate), up: Box::new(up) }
}

pub open spec fn normed(input: Content, weight: Content, rows: int, width: int, epsilon: u32) -> Content {
    Content::Normed { input: Box::new(input), weight: Box::new(weight), rows, width, epsilon }
}

pub open spec fn product(input: Content, weight: Content, m: int, n: int, k: int) -> Content {
    Content::Product { input: Box::new(input), weight: Box::new(weight), m, n, k }
}

pub open spec fn rotated(
    input: Content,
    tokens: int,
    heads: int,
    head_dim: int,
    offset: int,
    theta: u32,
) -> Content {
    Content::Rotated { input: Box::new(input), tokens, heads, head_dim, offset, theta }
}

pub open spec fn written(before: Content, rows: Content, tokens: int, offset: int, stride: int) -> Content {
    Content::Written { before: Box::new(before), source: Box::new(rows), tokens, offset, stride }
}

/// What a launch that joins partial results makes of one of them.
pub open spec fn joined(partial: Content) -> Content {
    match partial {
        Content::Partial { of } => *of,
        _ => Content::Unknown,
    }
}

/// What a command writes, and where: each kernel by its constants and by the order
/// of its operands, and the kernels over plain elements by their names.
#[verifier::opaque]
pub open spec fn effects(
    held: spec_fn(Operand) -> Content,
    command: CommandModel,
) -> Seq<(Operand, Content)> {
    match command {
        CommandModel::Multiply {
            left,
            right,
            result,
            m,
            n,
            k,
            left_row_bytes,
            right_row_bytes,
            result_row_bytes,
        } => if left_row_bytes == k * 2 && right_row_bytes == k * 2 && result_row_bytes == n * 2 {
            seq![(result, product(held(left), held(right), m as int, n as int, k as int))]
        } else {
            seq![(result, Content::Unknown)]
        },
        CommandModel::Dispatch { kernel, operands: o, params, .. } => match params {
            Params::Count { count } => if kernel == "add_f16"@ {
                seq![(o[2], sum(held(o[0]), held(o[1])))]
            } else if kernel == "swiglu_f16"@ {
                seq![(o[2], gated(held(o[0]), held(o[1])))]
            } else if kernel == "argmax_f16_partial"@ {
                let largest = Content::Largest {
                    logits: Box::new(held(o[0])),
                    count: count as int,
                };
                seq![
                    (o[1], Content::Partial { of: Box::new(largest) }),
                    (o[2], Content::Partial { of: Box::new(largest) }),
                ]
            } else if held(o[0]) == held(o[1]) {
                seq![(o[2], joined(held(o[0])))]
            } else {
                seq![(o[2], Content::Unknown)]
            },
            Params::Embedding { tokens, width } => seq![
                (
                    o[2],
                    Content::Embedded {
                        ids: Box::new(held(o[0])),
                        table: Box::new(held(o[1])),
                        count: tokens as int,
                        width: width as int,
                    },
                ),
            ],
            Params::Copy { tokens, offset, stride } => seq![
                (
                    o[1],
                    written(
                        held(o[1]),
                        held(o[0]),
                        tokens as int,
                        offset as int,
                        stride as int,
                    ),
                ),
            ],
            Params::Matrix { m, n, k, padding } => if o.len() == 3 {
                let whole = product(held(o[0]), held(o[1]), m as int, n as int, k as int);
                if padding == 0 {
                    seq![(o[2], whole)]
                } else {
                    seq![(o[2], Content::Partial { of: Box::new(whole) })]
                }
            } else {
                seq![(o[1], joined(held(o[0])))]
            },
            Params::Norm { rows, width, epsilon } => if o.len() == 3 {
                seq![
                    (
                        o[2],
                        normed(
                            held(o[0]),
                            held(o[1]),
                            rows as int,
                            width as int,
                            epsilon,
                        ),
                    ),
                ]
            } else {
                let total = sum(held(o[0]), held(o[1]));
                seq![
                    (o[3], total),
                    (o[4], normed(total, held(o[2]), rows as int, width as int, epsilon)),
                ]
            },
            Params::MultiMatrix { n0, n1, n2, k } => {
                let input = held(o[0]);
                if o.len() == 5 {
                    seq![
                        (o[3], product(input, held(o[1]), 1, n0 as int, k as int)),
                        (o[4], product(input, held(o[2]), 1, n1 as int, k as int)),
                    ]
                } else {
                    seq![
                        (o[4], product(input, held(o[1]), 1, n0 as int, k as int)),
                        (o[5], product(input, held(o[2]), 1, n1 as int, k as int)),
                        (o[6], product(input, held(o[3]), 1, n2 as int, k as int)),
                    ]
                }
            },
            Params::NormMultiMatrix { n0, n1, n2, k, epsilon } => if n2 == 0 {
                let total = sum(held(o[0]), held(o[1]));
                let input = normed(total, held(o[2]), 1, k as int, epsilon);
                seq![
                    (o[5], total),
                    (o[6], product(input, held(o[3]), 1, n0 as int, k as int)),
                    (o[7], product(input, held(o[4]), 1, n1 as int, k as int)),
                ]
            } else {
                let input = normed(held(o[0]), held(o[1]), 1, k as int, epsilon);
                seq![
                    (o[5], product(input, held(o[2]), 1, n0 as int, k as int)),
                    (o[6], product(input, held(o[3]), 1, n1 as int, k as int)),
                    (o[7], product(input, held(o[4]), 1, n2 as int, k as int)),
                ]
            },
            Params::QkTransform {
                tokens,
                query_heads,
                kv_heads,
                head_dim,
                offset,
                theta,
                epsilon,
                ..
            } => {
                let queries = normed(
                    held(o[0]),
                    held(o[2]),
                    tokens * query_heads,
                    head_dim as int,
                    epsilon,
                );
                let keys = normed(
                    held(o[1]),
                    held(o[3]),
                    tokens * kv_heads,
                    head_dim as int,
                    epsilon,
                );
                seq![
                    (
                        o[4],
                        rotated(
                            queries,
                            tokens as int,
                            query_heads as int,
                            head_dim as int,
                            offset as int,
                            theta,
                        ),
                    ),
                    (
                        o[5],
                        written(
                            held(o[5]),
                            rotated(
                                keys,
                                tokens as int,
                                kv_heads as int,
                                head_dim as int,
                                offset as int,
                                theta,
                            ),
                            tokens as int,
                            offset as int,
                            kv_heads * head_dim,
                        ),
                    ),
                ]
            },
            Params::Rope { tokens, heads, head_dim, offset, theta } => seq![
                (
                    o[1],
                    rotated(
                        held(o[0]),
                        tokens as int,
                        heads as int,
                        head_dim as int,
                        offset as int,
                        theta,
                    ),
                ),
            ],
            Params::Attention {
                tokens,
                q_heads,
                kv_heads,
                head_dim,
                causal,
                query_offset,
                kv_length,
                padding,
            } => if o.len() == 4 {
                let attended = Content::Attended {
                    query: Box::new(held(o[0])),
                    keys: Box::new(held(o[1])),
                    values: Box::new(held(o[2])),
                    tokens: tokens as int,
                    query_heads: q_heads as int,
                    kv_heads: kv_heads as int,
                    head_dim: head_dim as int,
                    causal: causal != 0,
                    offset: query_offset as int,
                    length: kv_length as int,
                };
                if padding == 0 {
                    seq![(o[3], attended)]
                } else {
                    seq![(o[3], Content::Partial { of: Box::new(attended) })]
                }
            } else {
                seq![(o[1], joined(held(o[0])))]
            },
        },
    }
}

/// What some writes leave at an operand, if one of them is to its storage.
pub open spec fn found(writes: Seq<(Operand, Content)>, at: Operand) -> Option<Content> {
    if writes.len() > 0 && writes[0].0.place == at.place {
        Some(part(writes[0].1, at.offset - writes[0].0.offset))
    } else if writes.len() > 1 && writes[1].0.place == at.place {
        Some(part(writes[1].1, at.offset - writes[1].0.offset))
    } else if writes.len() > 2 && writes[2].0.place == at.place {
        Some(part(writes[2].1, at.offset - writes[2].0.offset))
    } else {
        None
    }
}

/// What lies where once a command is done, if `held` lay there before it.
pub open spec fn behind(
    held: spec_fn(Operand) -> Content,
    command: CommandModel,
) -> spec_fn(Operand) -> Content {
    |at: Operand|
        match found(effects(held, command), at) {
            Some(content) => content,
            None => held(at),
        }
}

/// What lies where once the commands of a log are done, one after the other.
#[verifier::opaque]
pub open spec fn memory(log: Seq<CommandModel>) -> spec_fn(Operand) -> Content
    decreases log.len(),
{
    if log.len() == 0 {
        |at: Operand| Content::Stored { at }
    } else {
        behind(memory(log.drop_last()), log.last())
    }
}

/// What lies at an operand once the commands of a log are done.
pub open spec fn read(log: Seq<CommandModel>, at: Operand) -> Content {
    memory(log)(at)
}

/// What a command writes that follows those of a log.
pub open spec fn writes(log: Seq<CommandModel>, command: CommandModel) -> Seq<(Operand, Content)> {
    effects(memory(log), command)
}

/// What lies at an operand behind a command that follows those of a log.
pub open spec fn read_behind(
    log: Seq<CommandModel>,
    command: CommandModel,
    at: Operand,
) -> Content {
    match found(writes(log, command), at) {
        Some(content) => content,
        None => read(log, at),
    }
}

/// Whether storage was handed out before the commands that are yet to come.
pub open spec fn known(batch: BatchModel, place: Place) -> bool {
    match place {
        Place::Device { .. } => true,
        Place::Scratch { pool, number } => pool == batch.pool && number < batch.issued,
    }
}

/// What a tensor holds once the commands of a batch are done.
pub open spec fn value(batch: BatchModel, tensor: TensorModel) -> Content {
    read(batch.log, tensor.operand())
}

/// Whether the storage of a tensor holds a content from the start of the tensor on.
pub open spec fn fills(batch: BatchModel, tensor: TensorModel, content: Content) -> bool {
    forall|at: Operand|
        at.place == tensor.place ==> #[trigger] read(batch.log, at) == part(
            content,
            at.offset - tensor.offset,
        )
}

/// Storage that was known keeps what it holds.
pub proof fn lemma_keeps_filled(
    before: BatchModel,
    after: BatchModel,
    targets: Set<Place>,
    tensor: TensorModel,
    content: Content,
)
    requires
        kept(before, after, targets),
        known(before, tensor.place),
        !targets.contains(tensor.place),
        fills(before, tensor, content),
    ensures
        known(after, tensor.place),
        fills(after, tensor, content),
        value(after, tensor) == content,
{
    reveal(kept);
    assert forall|at: Operand| at.place == tensor.place implies #[trigger] read(after.log, at)
        == part(content, at.offset - tensor.offset) by {
        assert(read(after.log, at) == read(before.log, at));
    }
    assert(value(after, tensor) == content);
}

/// Whether a batch went on without a change to what was known before, but for
/// some storage.
#[verifier::opaque]
pub open spec fn kept(before: BatchModel, after: BatchModel, targets: Set<Place>) -> bool {
    &&& before.pool == after.pool
    &&& before.issued <= after.issued
    &&& forall|at: Operand|
        known(before, at.place) && !targets.contains(at.place) ==> #[trigger] read(after.log, at)
            == read(before.log, at)
}

pub proof fn lemma_kept_all(batch: BatchModel, targets: Set<Place>)
    ensures
        kept(batch, batch, targets),
{
    reveal(kept);
}

pub proof fn lemma_kept_joins(
    first: BatchModel,
    second: BatchModel,
    third: BatchModel,
    targets: Set<Place>,
)
    requires
        kept(first, second, targets),
        kept(second, third, targets),
    ensures
        kept(first, third, targets),
{
    reveal(kept);
    assert forall|at: Operand|
        known(first, at.place) && !targets.contains(at.place) implies #[trigger] read(
        third.log,
        at,
    ) == read(first.log, at) by {
        assert(read(third.log, at) == read(second.log, at));
    }
}

pub proof fn lemma_kept_wider(
    before: BatchModel,
    after: BatchModel,
    targets: Set<Place>,
    more: Set<Place>,
)
    requires
        kept(before, after, targets),
        targets.subset_of(more),
    ensures
        kept(before, after, more),
{
    reveal(kept);
}

/// A tensor that was known keeps what it holds.
pub proof fn lemma_keeps(
    before: BatchModel,
    after: BatchModel,
    targets: Set<Place>,
    tensor: TensorModel,
)
    requires
        kept(before, after, targets),
        known(before, tensor.place),
        !targets.contains(tensor.place),
    ensures
        known(after, tensor.place),
        value(after, tensor) == value(before, tensor),
{
    reveal(kept);
    assert(read(after.log, tensor.operand()) == read(before.log, tensor.operand()));
}

/// More storage becomes known, none is forgotten.
pub proof fn lemma_still_known(
    before: BatchModel,
    after: BatchModel,
    targets: Set<Place>,
    place: Place,
)
    requires
        kept(before, after, targets),
        known(before, place),
    ensures
        known(after, place),
{
    reveal(kept);
}

pub proof fn lemma_read_behind(log: Seq<CommandModel>, command: CommandModel, at: Operand)
    ensures
        read(log.push(command), at) == read_behind(log, command, at),
{
    reveal(memory);
    assert(log.push(command).drop_last() =~= log);
}

/// Whether the writes of a command go to new storage or to some that is named.
pub open spec fn lands(
    batch: BatchModel,
    writes: Seq<(Operand, Content)>,
    targets: Set<Place>,
) -> bool {
    &&& writes.len() <= 3
    &&& forall|i: int|
        0 <= i < writes.len() ==> targets.contains((#[trigger] writes[i]).0.place) || !known(
            batch,
            writes[i].0.place,
        )
}

proof fn lemma_command_keeps(
    batch: BatchModel,
    before: BatchModel,
    after: BatchModel,
    command: CommandModel,
    targets: Set<Place>,
)
    requires
        kept(batch, before, targets),
        after.log == before.log.push(command),
        after.pool == before.pool,
        after.issued >= before.issued,
        lands(batch, writes(before.log, command), targets),
    ensures
        kept(batch, after, targets),
{
    reveal(kept);
    assert forall|at: Operand|
        known(batch, at.place) && !targets.contains(at.place) implies #[trigger] read(
        after.log,
        at,
    ) == read(batch.log, at) by {
        lemma_read_behind(before.log, command, at);
        assert(read(before.log, at) == read(batch.log, at));
        let all = writes(before.log, command);
        assert(all.len() > 0 ==> all[0].0.place != at.place);
        assert(all.len() > 1 ==> all[1].0.place != at.place);
        assert(all.len() > 2 ==> all[2].0.place != at.place);
        assert(found(all, at) is None);
        assert(read_behind(before.log, command, at) == read(before.log, at));
    }
}

/// A step of one command.
pub proof fn lemma_one_command(
    batch: BatchModel,
    step: Result<Step, KernelError>,
    targets: Set<Place>,
)
    requires
        batch.run(step).1 is Ok,
        step is Ok,
        step->Ok_0.commands.len() == 1,
        lands(batch, writes(batch.log, step->Ok_0.commands[0]), targets),
    ensures
        kept(batch, batch.run(step).0, targets),
        forall|at: Operand| #[trigger]
            read(batch.run(step).0.log, at) == read_behind(
                batch.log,
                step->Ok_0.commands[0],
                at,
            ),
{
    operands::lemma_ran(batch, step);
    let command = step->Ok_0.commands[0];
    let after = batch.run(step).0;
    assert(after.log =~= batch.log.push(command));
    lemma_kept_all(batch, targets);
    lemma_command_keeps(batch, batch, after, command, targets);
    assert forall|at: Operand| #[trigger] read(after.log, at) == read_behind(
        batch.log,
        command,
        at,
    ) by {
        lemma_read_behind(batch.log, command, at);
    }
}

/// A step of two commands.
pub proof fn lemma_two_commands(
    batch: BatchModel,
    step: Result<Step, KernelError>,
    targets: Set<Place>,
)
    requires
        batch.run(step).1 is Ok,
        step is Ok,
        step->Ok_0.commands.len() == 2,
        lands(batch, writes(batch.log, step->Ok_0.commands[0]), targets),
        lands(
            batch,
            writes(batch.log.push(step->Ok_0.commands[0]), step->Ok_0.commands[1]),
            targets,
        ),
    ensures
        kept(batch, batch.run(step).0, targets),
        forall|at: Operand| #[trigger]
            read(batch.run(step).0.log, at) == read_behind(
                batch.log.push(step->Ok_0.commands[0]),
                step->Ok_0.commands[1],
                at,
            ),
        forall|at: Operand| #[trigger]
            read(batch.log.push(step->Ok_0.commands[0]), at) == read_behind(
                batch.log,
                step->Ok_0.commands[0],
                at,
            ),
{
    operands::lemma_ran(batch, step);
    let first = step->Ok_0.commands[0];
    let second = step->Ok_0.commands[1];
    let after = batch.run(step).0;
    let between = BatchModel { log: batch.log.push(first), ..batch };
    assert(after.log =~= between.log.push(second));
    lemma_kept_all(batch, targets);
    lemma_command_keeps(batch, batch, between, first, targets);
    lemma_command_keeps(batch, between, after, second, targets);
    assert forall|at: Operand| #[trigger] read(after.log, at) == read_behind(
        between.log,
        second,
        at,
    ) by {
        lemma_read_behind(between.log, second, at);
    }
    assert forall|at: Operand| #[trigger] read(between.log, at) == read_behind(
        batch.log,
        first,
        at,
    ) by {
        lemma_read_behind(batch.log, first, at);
    }
}

/// Storage that was not known before need not be named.
pub proof fn lemma_kept_unnamed(
    before: BatchModel,
    after: BatchModel,
    targets: Set<Place>,
    place: Place,
)
    requires
        kept(before, after, targets.insert(place)),
        !known(before, place),
    ensures
        kept(before, after, targets),
{
    reveal(kept);
}

/// To hand out storage changes none.
pub proof fn lemma_kept_issue(batch: BatchModel, count: nat, targets: Set<Place>)
    ensures
        kept(batch, batch.after_issue(count), targets),
{
    reveal(kept);
}

} // verus!
