//! Assembling a model from its weights, and the plan that it runs by.

use crate::error::{KernelError, ModelError};
use crate::gpu::tensor::{Tensor, TensorModel};
use crate::ops::AttentionKind;
use crate::planner::{self, Fusions, Plan, PlanErrorModel, PlanModel};
use crate::qwen3::config::Qwen3Config;
use crate::qwen3::layers::{self, AttentionWeights, LayerModel, LayerWeights, MlpWeights};
use crate::qwen3::model::{self, Qwen3Model};
use crate::text;
use crate::tuning::{KernelSelection, KernelSelectionModel, Tuning};
use crate::weights::{self, WeightMap};
use vstd::prelude::*;

verus! {

/// A tensor of a layer.
#[derive(Clone, Copy, Debug, PartialEq, Eq, Structural)]
pub enum LayerPart {
    Query,
    Key,
    Value,
    Output,
    QueryNorm,
    KeyNorm,
    Gate,
    Up,
    Down,
    InputNorm,
    PostAttentionNorm,
}

impl LayerPart {
    /// What follows the index of the layer in the name of the tensor.
    pub open spec fn suffix(self) -> Seq<char> {
        match self {
            LayerPart::Query => ".self_attn.q_proj.weight"@,
            LayerPart::Key => ".self_attn.k_proj.weight"@,
            LayerPart::Value => ".self_attn.v_proj.weight"@,
            LayerPart::Output => ".self_attn.o_proj.weight"@,
            LayerPart::QueryNorm => ".self_attn.q_norm.weight"@,
            LayerPart::KeyNorm => ".self_attn.k_norm.weight"@,
            LayerPart::Gate => ".mlp.gate_proj.weight"@,
            LayerPart::Up => ".mlp.up_proj.weight"@,
            LayerPart::Down => ".mlp.down_proj.weight"@,
            LayerPart::InputNorm => ".input_layernorm.weight"@,
            LayerPart::PostAttentionNorm => ".post_attention_layernorm.weight"@,
        }
    }

    fn suffix_text(self) -> (suffix: &'static str)
        ensures
            suffix@ == self.suffix(),
    {
        match self {
            LayerPart::Query => ".self_attn.q_proj.weight",
            LayerPart::Key => ".self_attn.k_proj.weight",
            LayerPart::Value => ".self_attn.v_proj.weight",
            LayerPart::Output => ".self_attn.o_proj.weight",
            LayerPart::QueryNorm => ".self_attn.q_norm.weight",
            LayerPart::KeyNorm => ".self_attn.k_norm.weight",
            LayerPart::Gate => ".mlp.gate_proj.weight",
            LayerPart::Up => ".mlp.up_proj.weight",
            LayerPart::Down => ".mlp.down_proj.weight",
            LayerPart::InputNorm => ".input_layernorm.weight",
            LayerPart::PostAttentionNorm => ".post_attention_layernorm.weight",
        }
    }
}

/// The name of a tensor of a layer.
pub open spec fn part_name(layer: nat, part: LayerPart) -> Seq<char> {
    "model.layers."@ + text::decimal(layer) + part.suffix()
}

proof fn lemma_suffixes(a: LayerPart, b: LayerPart)
    ensures
        a.suffix().len() > 0,
        a.suffix()[0] == '.',
        a.suffix() == b.suffix() ==> a == b,
{
    reveal_strlit(".self_attn.q_proj.weight");
    reveal_strlit(".self_attn.k_proj.weight");
    reveal_strlit(".self_attn.v_proj.weight");
    reveal_strlit(".self_attn.o_proj.weight");
    reveal_strlit(".self_attn.q_norm.weight");
    reveal_strlit(".self_attn.k_norm.weight");
    reveal_strlit(".mlp.gate_proj.weight");
    reveal_strlit(".mlp.up_proj.weight");
    reveal_strlit(".mlp.down_proj.weight");
    reveal_strlit(".input_layernorm.weight");
    reveal_strlit(".post_attention_layernorm.weight");
    if a.suffix() == b.suffix() {
        assert(a.suffix().len() == b.suffix().len());
        assert(a.suffix()[5] == b.suffix()[5]);
        assert(a.suffix()[11] == b.suffix()[11]);
        assert(a.suffix()[13] == b.suffix()[13]);
    }
}

/// Different parts, and parts of different layers, have different names.
proof fn lemma_part_names(i: nat, a: LayerPart, j: nat, b: LayerPart)
    ensures
        part_name(i, a) == part_name(j, b) ==> i == j && a == b,
{
    lemma_suffixes(a, b);
    lemma_suffixes(b, a);
    let start = "model.layers."@;
    let left = part_name(i, a);
    let right = part_name(j, b);
    let n = start.len() as int;
    assert(left.skip(n) =~= text::decimal(i).push('.') + a.suffix().drop_first());
    assert(right.skip(n) =~= text::decimal(j).push('.') + b.suffix().drop_first());
    text::lemma_decimal_holds_no(i, '.');
    text::lemma_decimal_holds_no(j, '.');
    text::lemma_split_once_joined(text::decimal(i), '.', a.suffix().drop_first());
    text::lemma_split_once_joined(text::decimal(j), '.', b.suffix().drop_first());
    if left == right {
        text::lemma_decimal(i);
        text::lemma_decimal(j);
        assert(a.suffix() =~= seq!['.'] + a.suffix().drop_first());
        assert(b.suffix() =~= seq!['.'] + b.suffix().drop_first());
    }
}

/// No part has the name of a tensor outside the layers.
proof fn lemma_outer_names(i: nat, part: LayerPart)
    ensures
        part_name(i, part) != "model.embed_tokens.weight"@,
        part_name(i, part) != "model.norm.weight"@,
        part_name(i, part) != "lm_head.weight"@,
        "model.embed_tokens.weight"@ != "model.norm.weight"@,
        "model.embed_tokens.weight"@ != "lm_head.weight"@,
        "model.norm.weight"@ != "lm_head.weight"@,
{
    reveal_strlit("model.layers.");
    reveal_strlit("model.embed_tokens.weight");
    reveal_strlit("model.norm.weight");
    reveal_strlit("lm_head.weight");
    assert(part_name(i, part)[6] == 'l');
    assert(part_name(i, part)[0] == 'm');
    assert("model.embed_tokens.weight"@[6] == 'e');
    assert("model.norm.weight"@[6] == 'n');
    assert("lm_head.weight"@[0] == 'l');
    assert("model.norm.weight"@[0] == 'm');
    assert("model.embed_tokens.weight"@[0] == 'm');
}

/// The tensors of a layer by their names.
pub open spec fn named_layer(map: Map<Seq<char>, TensorModel>, layer: nat) -> LayerModel {
    LayerModel {
        input_norm: map[part_name(layer, LayerPart::InputNorm)],
        post_attention_norm: map[part_name(layer, LayerPart::PostAttentionNorm)],
        query: map[part_name(layer, LayerPart::Query)],
        key: map[part_name(layer, LayerPart::Key)],
        value: map[part_name(layer, LayerPart::Value)],
        output: map[part_name(layer, LayerPart::Output)],
        query_norm: map[part_name(layer, LayerPart::QueryNorm)],
        key_norm: map[part_name(layer, LayerPart::KeyNorm)],
        gate: map[part_name(layer, LayerPart::Gate)],
        up: map[part_name(layer, LayerPart::Up)],
        down: map[part_name(layer, LayerPart::Down)],
    }
}

/// The tensors of a layer are those that a checkpoint stores under the index of
/// the layer, each under the name of its own.
pub proof fn a_layer_is_read_by_its_stored_names(map: Map<Seq<char>, TensorModel>, index: nat)
    ensures
        ({
            let layer = named_layer(map, index);
            let start = "model.layers."@ + text::decimal(index);
            &&& layer.query == map[start + ".self_attn.q_proj.weight"@]
            &&& layer.key == map[start + ".self_attn.k_proj.weight"@]
            &&& layer.value == map[start + ".self_attn.v_proj.weight"@]
            &&& layer.output == map[start + ".self_attn.o_proj.weight"@]
            &&& layer.query_norm == map[start + ".self_attn.q_norm.weight"@]
            &&& layer.key_norm == map[start + ".self_attn.k_norm.weight"@]
            &&& layer.gate == map[start + ".mlp.gate_proj.weight"@]
            &&& layer.up == map[start + ".mlp.up_proj.weight"@]
            &&& layer.down == map[start + ".mlp.down_proj.weight"@]
            &&& layer.input_norm == map[start + ".input_layernorm.weight"@]
            &&& layer.post_attention_norm == map[start + ".post_attention_layernorm.weight"@]
        }),
{
}

pub open spec fn has_part(map: Map<Seq<char>, TensorModel>, layer: nat, part: LayerPart) -> bool {
    map.dom().contains(part_name(layer, part))
}

/// The projections of a layer are there, with the norms of its heads.
pub open spec fn has_projections(map: Map<Seq<char>, TensorModel>, layer: nat) -> bool {
    &&& has_part(map, layer, LayerPart::Query)
    &&& has_part(map, layer, LayerPart::Key)
    &&& has_part(map, layer, LayerPart::Value)
    &&& has_part(map, layer, LayerPart::Output)
    &&& has_part(map, layer, LayerPart::QueryNorm)
    &&& has_part(map, layer, LayerPart::KeyNorm)
    &&& has_part(map, layer, LayerPart::Gate)
    &&& has_part(map, layer, LayerPart::Up)
    &&& has_part(map, layer, LayerPart::Down)
}

/// What is wrong with a layer.
pub open spec fn layer_error(
    config: Qwen3Config,
    map: Map<Seq<char>, TensorModel>,
    layer: nat,
) -> Option<ModelError> {
    if !has_projections(map, layer) {
        Some(ModelError::MissingTensor)
    } else if !layers::projections_valid(config, named_layer(map, layer)) {
        Some(ModelError::WeightShape)
    } else if !has_part(map, layer, LayerPart::InputNorm) || !has_part(
        map,
        layer,
        LayerPart::PostAttentionNorm,
    ) {
        Some(ModelError::MissingTensor)
    } else {
        None
    }
}

/// What is wrong with the first of some layers that is not complete.
pub open spec fn layers_error(
    config: Qwen3Config,
    map: Map<Seq<char>, TensorModel>,
    from: nat,
    to: nat,
) -> Option<ModelError>
    decreases to - from,
{
    if from >= to {
        None
    } else {
        match layer_error(config, map, from) {
            Some(error) => Some(error),
            None => layers_error(config, map, from + 1, to),
        }
    }
}

proof fn lemma_layer_on_device(
    config: Qwen3Config,
    map: Map<Seq<char>, TensorModel>,
    from: nat,
    to: nat,
    layer: nat,
)
    requires
        weights::on_device(map),
        layers_error(config, map, from, to) is None,
        from <= layer < to,
    ensures
        named_layer(map, layer).on_device(),
    decreases to - from,
{
    if layer > from {
        lemma_layer_on_device(config, map, from + 1, to, layer);
    } else {
        assert(layer_error(config, map, layer) is None);
    }
}

/// The output projection: the embedding itself where the two are tied.
pub open spec fn named_head(config: Qwen3Config, map: Map<Seq<char>, TensorModel>) -> TensorModel {
    if config.tie_word_embeddings {
        map["model.embed_tokens.weight"@]
    } else {
        map["lm_head.weight"@]
    }
}

/// Why the weights do not make a model of this configuration.
pub open spec fn weights_error(config: Qwen3Config, map: Map<Seq<char>, TensorModel>) -> Option<
    ModelError,
> {
    if !map.dom().contains("model.embed_tokens.weight"@) {
        Some(ModelError::MissingTensor)
    } else if map["model.embed_tokens.weight"@].shape != seq![config.vocab_size, config.hidden_size] {
        Some(ModelError::WeightShape)
    } else {
        match layers_error(config, map, 0, config.num_hidden_layers as nat) {
            Some(error) => Some(error),
            None => if !map.dom().contains("model.norm.weight"@) || (!config.tie_word_embeddings
                && !map.dom().contains("lm_head.weight"@)) {
                Some(ModelError::MissingTensor)
            } else if map["model.norm.weight"@].shape != seq![config.hidden_size] || named_head(
                config,
                map,
            ).shape != seq![config.vocab_size, config.hidden_size] {
                Some(ModelError::WeightShape)
            } else {
                None
            },
        }
    }
}

/// The parts of the layers from `from` on, and the tensors outside the layers
/// but the embedding, are still there as they were.
spec fn still_there(
    now: Map<Seq<char>, TensorModel>,
    map: Map<Seq<char>, TensorModel>,
    from: nat,
) -> bool {
    &&& forall|i: nat, part: LayerPart|
        from <= i ==> (has_part(now, i, part) <==> #[trigger] has_part(map, i, part)) && (has_part(
            map,
            i,
            part,
        ) ==> now[part_name(i, part)] == map[part_name(i, part)])
    &&& now.dom().contains("model.norm.weight"@) <==> map.dom().contains("model.norm.weight"@)
    &&& map.dom().contains("model.norm.weight"@) ==> now["model.norm.weight"@]
        == map["model.norm.weight"@]
    &&& now.dom().contains("lm_head.weight"@) <==> map.dom().contains("lm_head.weight"@)
    &&& map.dom().contains("lm_head.weight"@) ==> now["lm_head.weight"@] == map["lm_head.weight"@]
}

/// The parts of one layer that were not taken out yet are still there.
spec fn layer_left(
    now: Map<Seq<char>, TensorModel>,
    map: Map<Seq<char>, TensorModel>,
    layer: nat,
    gone: Set<LayerPart>,
) -> bool {
    forall|part: LayerPart|
        !gone.contains(part) ==> (has_part(now, layer, part) <==> #[trigger] has_part(
            map,
            layer,
            part,
        )) && (has_part(map, layer, part) ==> now[part_name(layer, part)] == map[part_name(
            layer,
            part,
        )])
}

/// Takes one part of a layer out.
fn take_part(
    weights: &mut WeightMap,
    layer: usize,
    part: LayerPart,
    Ghost(map): Ghost<Map<Seq<char>, TensorModel>>,
    Ghost(gone): Ghost<Set<LayerPart>>,
) -> (result: Result<Tensor, ModelError>)
    requires
        still_there(old(weights)@, map, layer as nat + 1),
        layer_left(old(weights)@, map, layer as nat, gone),
        !gone.contains(part),
    ensures
        still_there(final(weights)@, map, layer as nat + 1),
        layer_left(final(weights)@, map, layer as nat, gone.insert(part)),
        match result {
            Ok(tensor) => has_part(map, layer as nat, part) && tensor@ == map[part_name(
                layer as nat,
                part,
            )],
            Err(error) => !has_part(map, layer as nat, part) && error == ModelError::MissingTensor,
        },
{
    let ghost before = weights@;
    let mut name = "model.layers.".to_owned();
    name.append(text::format_usize(layer).as_str());
    name.append(part.suffix_text());
    assert(name@ == part_name(layer as nat, part));
    let result = weights.take(name.as_str());
    proof {
        let now = weights@;
        assert(has_part(map, layer as nat, part) <==> has_part(before, layer as nat, part));
        assert forall|i: nat, other: LayerPart|
            layer as nat + 1 <= i implies (has_part(now, i, other) <==> #[trigger] has_part(
            map,
            i,
            other,
        )) && (has_part(map, i, other) ==> now[part_name(i, other)] == map[part_name(
            i,
            other,
        )]) by {
            lemma_part_names(layer as nat, part, i, other);
            assert(has_part(before, i, other) <==> has_part(map, i, other));
        }
        assert forall|other: LayerPart| !gone.insert(part).contains(other) implies (has_part(
            now,
            layer as nat,
            other,
        ) <==> #[trigger] has_part(map, layer as nat, other)) && (has_part(map, layer as nat, other)
            ==> now[part_name(layer as nat, other)] == map[part_name(layer as nat, other)]) by {
            lemma_part_names(layer as nat, part, layer as nat, other);
            assert(has_part(before, layer as nat, other) <==> has_part(map, layer as nat, other));
        }
        lemma_outer_names(layer as nat, part);
    }
    result
}

/// Takes the tensors of one layer out, in order.
fn take_layer(
    weights: &mut WeightMap,
    config: &Qwen3Config,
    layer: usize,
    Ghost(map): Ghost<Map<Seq<char>, TensorModel>>,
) -> (result: Result<LayerWeights, ModelError>)
    requires
        config.widths_fit(),
        still_there(old(weights)@, map, layer as nat),
    ensures
        match layer_error(*config, map, layer as nat) {
            Some(error) => result == Err::<LayerWeights, ModelError>(error),
            None => {
                &&& result is Ok
                &&& result->Ok_0@ == named_layer(map, layer as nat)
                &&& still_there(final(weights)@, map, layer as nat + 1)
            },
        },
{
    let ghost none = Set::<LayerPart>::empty();
    assert(layer_left(weights@, map, layer as nat, none));
    assert(still_there(weights@, map, layer as nat + 1));
    let query = take_part(weights, layer, LayerPart::Query, Ghost(map), Ghost(none))?;
    let ghost g1 = none.insert(LayerPart::Query);
    let key = take_part(weights, layer, LayerPart::Key, Ghost(map), Ghost(g1))?;
    let ghost g2 = g1.insert(LayerPart::Key);
    let value = take_part(weights, layer, LayerPart::Value, Ghost(map), Ghost(g2))?;
    let ghost g3 = g2.insert(LayerPart::Value);
    let output = take_part(weights, layer, LayerPart::Output, Ghost(map), Ghost(g3))?;
    let ghost g4 = g3.insert(LayerPart::Output);
    let query_norm = take_part(weights, layer, LayerPart::QueryNorm, Ghost(map), Ghost(g4))?;
    let ghost g5 = g4.insert(LayerPart::QueryNorm);
    let key_norm = take_part(weights, layer, LayerPart::KeyNorm, Ghost(map), Ghost(g5))?;
    let ghost g6 = g5.insert(LayerPart::KeyNorm);
    let gate = take_part(weights, layer, LayerPart::Gate, Ghost(map), Ghost(g6))?;
    let ghost g7 = g6.insert(LayerPart::Gate);
    let up = take_part(weights, layer, LayerPart::Up, Ghost(map), Ghost(g7))?;
    let ghost g8 = g7.insert(LayerPart::Up);
    let down = take_part(weights, layer, LayerPart::Down, Ghost(map), Ghost(g8))?;
    let ghost g9 = g8.insert(LayerPart::Down);
    let attention = AttentionWeights { query, key, value, output, query_norm, key_norm };
    let mlp = MlpWeights { gate, up, down };
    layers::validate_layer(config, &attention, &mlp)?;
    let input_norm = take_part(weights, layer, LayerPart::InputNorm, Ghost(map), Ghost(g9))?;
    let ghost g10 = g9.insert(LayerPart::InputNorm);
    let post_attention_norm = take_part(
        weights,
        layer,
        LayerPart::PostAttentionNorm,
        Ghost(map),
        Ghost(g10),
    )?;
    Ok(LayerWeights { input_norm, post_attention_norm, attention, mlp })
}

/// The tensors of a model.
pub struct ModelWeights {
    pub embedding: Tensor,
    pub layers: Vec<LayerWeights>,
    pub final_norm: Tensor,
    pub lm_head: Tensor,
}

impl ModelWeights {
    /// Takes the tensors of a model out of its weights by their names, and
    /// checks their shapes.
    pub fn assemble(config: &Qwen3Config, weights: WeightMap) -> (result: Result<
        ModelWeights,
        ModelError,
    >)
        requires
            config.widths_fit(),
        ensures
            match weights_error(*config, weights@) {
                Some(error) => result == Err::<ModelWeights, ModelError>(error),
                None => {
                    &&& result is Ok
                    &&& result->Ok_0.embedding@ == weights@["model.embed_tokens.weight"@]
                    &&& model::weight_views(result->Ok_0.layers@) == Seq::new(
                        config.num_hidden_layers as nat,
                        |i: int| named_layer(weights@, i as nat),
                    )
                    &&& result->Ok_0.final_norm@ == weights@["model.norm.weight"@]
                    &&& result->Ok_0.lm_head@ == named_head(*config, weights@)
                },
            },
            result is Ok ==> result->Ok_0.layers@.len() == config.num_hidden_layers && forall|
                i: int,
            |
                0 <= i < config.num_hidden_layers ==> {
                    let layer = (#[trigger] result->Ok_0.layers@[i])@;
                    let start = "model.layers."@ + text::decimal(i as nat);
                    &&& layer.query == weights@[start + ".self_attn.q_proj.weight"@]
                    &&& layer.key == weights@[start + ".self_attn.k_proj.weight"@]
                    &&& layer.value == weights@[start + ".self_attn.v_proj.weight"@]
                    &&& layer.output == weights@[start + ".self_attn.o_proj.weight"@]
                    &&& layer.query_norm == weights@[start + ".self_attn.q_norm.weight"@]
                    &&& layer.key_norm == weights@[start + ".self_attn.k_norm.weight"@]
                    &&& layer.gate == weights@[start + ".mlp.gate_proj.weight"@]
                    &&& layer.up == weights@[start + ".mlp.up_proj.weight"@]
                    &&& layer.down == weights@[start + ".mlp.down_proj.weight"@]
                    &&& layer.input_norm == weights@[start + ".input_layernorm.weight"@]
                    &&& layer.post_attention_norm == weights@[start + ".post_attention_layernorm.weight"@]
                },
            result is Ok ==> result->Ok_0.lm_head@ == if config.tie_word_embeddings {
                weights@["model.embed_tokens.weight"@]
            } else {
                weights@["lm_head.weight"@]
            },
    {
        let ghost map = weights@;
        let mut left = weights;
        let embedding = left.take("model.embed_tokens.weight")?;
        layers::expect_matrix(&embedding, config.vocab_size, config.hidden_size)?;
        proof {
            assert forall|i: nat, part: LayerPart|
                0 <= i implies (has_part(left@, i, part) <==> #[trigger] has_part(map, i, part))
                && (has_part(map, i, part) ==> left@[part_name(i, part)] == map[part_name(
                i,
                part,
            )]) by {
                lemma_outer_names(i, part);
            }
            lemma_outer_names(0, LayerPart::Query);
        }
        let mut layers: Vec<LayerWeights> = Vec::new();
        let mut index: usize = 0;
        while index < config.num_hidden_layers
            invariant
                map == weights@,
                config.widths_fit(),
                index <= config.num_hidden_layers,
                layers@.len() == index,
                still_there(left@, map, index as nat),
                layers_error(*config, map, 0, config.num_hidden_layers as nat) == layers_error(
                    *config,
                    map,
                    index as nat,
                    config.num_hidden_layers as nat,
                ),
                map.dom().contains("model.embed_tokens.weight"@),
                map["model.embed_tokens.weight"@].shape == seq![
                    config.vocab_size,
                    config.hidden_size,
                ],
                forall|i: int|
                    0 <= i < index ==> (#[trigger] layers@[i])@ == named_layer(map, i as nat),
            decreases config.num_hidden_layers - index,
        {
            let layer = take_layer(&mut left, config, index, Ghost(map))?;
            layers.push(layer);
            index += 1;
        }
        let final_norm = left.take("model.norm.weight")?;
        proof {
            lemma_outer_names(0, LayerPart::Query);
        }
        let lm_head = if config.tie_word_embeddings {
            embedding.copy()
        } else {
            left.take("lm_head.weight")?
        };
        layers::expect_vector(&final_norm, config.hidden_size)?;
        layers::expect_matrix(&lm_head, config.vocab_size, config.hidden_size)?;
        proof {
            let expected = Seq::new(
                config.num_hidden_layers as nat,
                |i: int| named_layer(map, i as nat),
            );
            assert forall|i: int| 0 <= i < expected.len() implies model::weight_views(layers@)[i]
                == expected[i] by {
                assert(layers@[i]@ == named_layer(map, i as nat));
            }
            assert(model::weight_views(layers@) =~= expected);
        }
        Ok(ModelWeights { embedding, layers, final_norm, lm_head })
    }
}

/// What is fused before the device and the dimensions are known.
pub open spec fn initial_fusions() -> Fusions {
    Fusions {
        qkv: true,
        gate_up: true,
        add_rms_norm: true,
        qk_rope_cache: true,
        decode_norm: false,
    }
}

/// The plan before any override.
pub open spec fn initial_plan(selection: KernelSelectionModel) -> PlanModel {
    PlanModel { kernels: selection, fusions: initial_fusions(), attention: AttentionKind::Tiled }
}

/// The plan for a device and a width: its own kernel choices, and the fused
/// norms of decoding where the device is tuned for them.
pub open spec fn device_plan(
    initial: PlanModel,
    device_name: Seq<char>,
    device_selection: KernelSelectionModel,
    hidden_size: usize,
) -> PlanModel {
    PlanModel {
        kernels: device_selection,
        fusions: Fusions {
            decode_norm: device_name == "Apple M4 Pro"@ && hidden_size % 256 == 0,
            ..initial.fusions
        },
        attention: initial.attention,
    }
}

/// A plan that the kernels can take over.
pub open spec fn accepted(plan: PlanModel) -> Result<PlanModel, KernelError> {
    if plan.kernels.valid() {
        Ok(plan)
    } else {
        Err(KernelError::FlashDecodeBlocks)
    }
}

/// An override or a kernel selection was refused.
pub open spec fn refused(
    error: ModelError,
    outcome: Result<PlanModel, PlanErrorModel>,
) -> bool {
    match outcome {
        Err(expected) => error matches ModelError::Plan(actual) && actual@ == expected,
        Ok(plan) => match accepted(plan) {
            Err(expected) => error == ModelError::Kernel(expected),
            Ok(_) => false,
        },
    }
}

/// The overrides on the first plan. They are tried before a model is read.
pub fn prepare_plan(tuning: &mut Tuning, overrides: &Vec<String>) -> (result: Result<
    Plan,
    ModelError,
>)
    ensures
        ({
            let outcome = planner::all_overridden(
                initial_plan(old(tuning)@.selection),
                text::string_views(overrides@),
            );
            match result {
                Ok(plan) => {
                    &&& outcome == Ok::<PlanModel, PlanErrorModel>(plan@)
                    &&& plan@.kernels.valid()
                    &&& final(tuning)@.selection == plan@.kernels
                },
                Err(error) => refused(error, outcome) && final(tuning)@.selection == old(
                    tuning,
                )@.selection,
            }
        }),
        final(tuning)@.device_name == old(tuning)@.device_name,
{
    let mut plan = Plan {
        kernels: tuning.selection(),
        fusions: Fusions {
            qkv: true,
            gate_up: true,
            add_rms_norm: true,
            qk_rope_cache: true,
            decode_norm: false,
        },
        attention: AttentionKind::Tiled,
    };
    match plan.apply_overrides(overrides) {
        Ok(()) => {},
        Err(error) => return Err(ModelError::Plan(error)),
    }
    match tuning.select(&plan.kernels) {
        Ok(()) => Ok(plan),
        Err(error) => Err(ModelError::Kernel(error)),
    }
}

/// The overrides on the plan for the device, which the kernels take over.
pub fn resolve_plan(
    tuning: &mut Tuning,
    initial: &Plan,
    device_selection: &KernelSelection,
    hidden_size: usize,
    overrides: &Vec<String>,
) -> (result: Result<Plan, ModelError>)
    ensures
        ({
            let base = device_plan(
                initial@,
                old(tuning)@.device_name,
                device_selection@,
                hidden_size,
            );
            let outcome = planner::all_overridden(base, text::string_views(overrides@));
            if device_selection@.valid() {
                match result {
                    Ok(plan) => {
                        &&& outcome == Ok::<PlanModel, PlanErrorModel>(plan@)
                        &&& plan@.kernels.valid()
                        &&& final(tuning)@.selection == plan@.kernels
                    },
                    Err(error) => {
                        &&& refused(error, outcome)
                        &&& final(tuning)@.selection == device_selection@
                    },
                }
            } else {
                &&& result == Err::<Plan, ModelError>(
                    ModelError::Kernel(KernelError::FlashDecodeBlocks),
                )
                &&& final(tuning)@.selection == old(tuning)@.selection
            }
        }),
        final(tuning)@.device_name == old(tuning)@.device_name,
{
    match tuning.select(device_selection) {
        Ok(()) => {},
        Err(error) => return Err(ModelError::Kernel(error)),
    }
    let mut plan = Plan {
        kernels: device_selection.copy(),
        fusions: Fusions {
            qkv: initial.fusions.qkv,
            gate_up: initial.fusions.gate_up,
            add_rms_norm: initial.fusions.add_rms_norm,
            qk_rope_cache: initial.fusions.qk_rope_cache,
            decode_norm: tuning.is_m4_pro() && hidden_size % 256 == 0,
        },
        attention: initial.attention,
    };
    match plan.apply_overrides(overrides) {
        Ok(()) => {},
        Err(error) => return Err(ModelError::Plan(error)),
    }
    match tuning.select(&plan.kernels) {
        Ok(()) => Ok(plan),
        Err(error) => Err(ModelError::Kernel(error)),
    }
}

impl Qwen3Model {
    /// Assembles a model and takes its plan over. `initial` is the plan that
    /// was prepared with the same overrides, and `device_selection` is what the
    /// device chose for the head counts of the model.
    pub fn load_with(
        config: Qwen3Config,
        weights: WeightMap,
        tuning: Tuning,
        initial: &Plan,
        device_selection: &KernelSelection,
        overrides: &Vec<String>,
    ) -> (result: Result<Qwen3Model, ModelError>)
        requires
            config.widths_fit(),
        ensures
            config.error() is Some ==> result == Err::<Qwen3Model, ModelError>(config.error()->0),
            config.error() is None && weights_error(config, weights@) is Some ==> result == Err::<
                Qwen3Model,
                ModelError,
            >(weights_error(config, weights@)->0),
            config.error() is None && weights_error(config, weights@) is None ==> {
                let base = device_plan(
                    initial@,
                    tuning@.device_name,
                    device_selection@,
                    config.hidden_size,
                );
                let outcome = planner::all_overridden(base, text::string_views(overrides@));
                if device_selection@.valid() {
                    match result {
                        Ok(model) => {
                            &&& outcome == Ok::<PlanModel, PlanErrorModel>(model@.plan)
                            &&& model@.wf()
                            &&& weights::on_device(weights@) ==> model@.on_device()
                            &&& model@.tuning.device_name == tuning@.device_name
                            &&& model@.tuning.selection == model@.plan.kernels
                            &&& model@.config == config
                            &&& model@.embedding == weights@["model.embed_tokens.weight"@]
                            &&& model@.layers == Seq::new(
                                config.num_hidden_layers as nat,
                                |i: int| named_layer(weights@, i as nat),
                            )
                            &&& model@.final_norm == weights@["model.norm.weight"@]
                            &&& model@.lm_head == named_head(config, weights@)
                        },
                        Err(error) => refused(error, outcome),
                    }
                } else {
                    result == Err::<Qwen3Model, ModelError>(
                        ModelError::Kernel(KernelError::FlashDecodeBlocks),
                    )
                }
            },
    {
        config.validate()?;
        let parts = ModelWeights::assemble(&config, weights)?;
        let mut tuning = tuning;
        let plan = resolve_plan(
            &mut tuning,
            initial,
            device_selection,
            config.hidden_size,
            overrides,
        )?;
        proof {
            if weights::on_device(weights@) {
                assert forall|i: int|
                    0 <= i < config.num_hidden_layers implies #[trigger] named_layer(
                    weights@,
                    i as nat,
                ).on_device() by {
                    lemma_layer_on_device(
                        config,
                        weights@,
                        0,
                        config.num_hidden_layers as nat,
                        i as nat,
                    );
                }
            }
        }
        Ok(
            Qwen3Model {
                tuning,
                config,
                embedding: parts.embedding,
                layers: parts.layers,
                final_norm: parts.final_norm,
                lm_head: parts.lm_head,
                plan,
            },
        )
    }
}

/// A model that is loaded with every listed entry of a plan in force runs by
/// that plan again, whatever the kernels had selected before and whatever the
/// device chooses.
pub proof fn listed_plan_replays(
    plan: PlanModel,
    selection: KernelSelectionModel,
    device_name: Seq<char>,
    device_selection: KernelSelectionModel,
    hidden_size: usize,
)
    requires
        plan.kernels.valid(),
    ensures
        ({
            let overrides = planner::listed_assignments(plan);
            let prepared = planner::all_overridden(initial_plan(selection), overrides);
            &&& prepared == Ok::<PlanModel, PlanErrorModel>(plan)
            &&& accepted(plan) == Ok::<PlanModel, KernelError>(plan)
            &&& planner::all_overridden(
                device_plan(prepared->Ok_0, device_name, device_selection, hidden_size),
                overrides,
            ) == Ok::<PlanModel, PlanErrorModel>(plan)
        }),
{
    planner::listed_overrides_reproduce_the_plan(plan, initial_plan(selection));
    planner::listed_overrides_reproduce_the_plan(
        plan,
        device_plan(plan, device_name, device_selection, hidden_size),
    );
}

/// Before anything is overridden, every fusion is on but that of the decode norms, which
/// only the measured device turns on, and only for widths that its kernels take in blocks
/// of 256. Nothing else depends on the device but the choices of its kernels.
pub proof fn a_device_only_fuses_its_decode_norms(
    selection: KernelSelectionModel,
    device_name: Seq<char>,
    device_selection: KernelSelectionModel,
    hidden_size: usize,
)
    ensures
        ({
            let initial = initial_plan(selection);
            let plan = device_plan(initial, device_name, device_selection, hidden_size);
            &&& initial.kernels == selection
            &&& plan.kernels == device_selection
            &&& initial.attention == AttentionKind::Tiled
            &&& plan.attention == AttentionKind::Tiled
            &&& initial.fusions.qkv && initial.fusions.gate_up && initial.fusions.add_rms_norm
                && initial.fusions.qk_rope_cache && !initial.fusions.decode_norm
            &&& plan.fusions.qkv && plan.fusions.gate_up && plan.fusions.add_rms_norm
                && plan.fusions.qk_rope_cache
            &&& plan.fusions.decode_norm <==> device_name == "Apple M4 Pro"@ && hidden_size % 256
                == 0
        }),
{
}

} // verus!
