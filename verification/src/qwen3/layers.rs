//! The weights of a layer.

use crate::error::ModelError;
use crate::gpu::tensor::{self, Tensor, TensorModel};
use crate::qwen3::config::Qwen3Config;
use vstd::prelude::*;

verus! {

pub struct AttentionWeights {
    pub query: Tensor,
    pub key: Tensor,
    pub value: Tensor,
    pub output: Tensor,
    pub query_norm: Tensor,
    pub key_norm: Tensor,
}

pub struct MlpWeights {
    pub gate: Tensor,
    pub up: Tensor,
    pub down: Tensor,
}

pub struct LayerWeights {
    pub input_norm: Tensor,
    pub post_attention_norm: Tensor,
    pub attention: AttentionWeights,
    pub mlp: MlpWeights,
}

#[verifier::ext_equal]
pub struct LayerModel {
    pub input_norm: TensorModel,
    pub post_attention_norm: TensorModel,
    pub query: TensorModel,
    pub key: TensorModel,
    pub value: TensorModel,
    pub output: TensorModel,
    pub query_norm: TensorModel,
    pub key_norm: TensorModel,
    pub gate: TensorModel,
    pub up: TensorModel,
    pub down: TensorModel,
}

impl LayerModel {
    /// Whether every weight lies in a buffer of the device.
    pub open spec fn on_device(self) -> bool {
        &&& self.input_norm.on_device()
        &&& self.post_attention_norm.on_device()
        &&& self.query.on_device()
        &&& self.key.on_device()
        &&& self.value.on_device()
        &&& self.output.on_device()
        &&& self.query_norm.on_device()
        &&& self.key_norm.on_device()
        &&& self.gate.on_device()
        &&& self.up.on_device()
        &&& self.down.on_device()
    }
}

impl View for LayerWeights {
    type V = LayerModel;

    open spec fn view(&self) -> LayerModel {
        LayerModel {
            input_norm: self.input_norm@,
            post_attention_norm: self.post_attention_norm@,
            query: self.attention.query@,
            key: self.attention.key@,
            value: self.attention.value@,
            output: self.attention.output@,
            query_norm: self.attention.query_norm@,
            key_norm: self.attention.key_norm@,
            gate: self.mlp.gate@,
            up: self.mlp.up@,
            down: self.mlp.down@,
        }
    }
}

/// The projections have the widths of the configuration.
pub open spec fn projections_valid(config: Qwen3Config, layer: LayerModel) -> bool {
    let query_width = config.spec_query_width() as usize;
    let kv_width = config.spec_kv_width() as usize;
    &&& layer.query.shape == seq![query_width, config.hidden_size]
    &&& layer.key.shape == seq![kv_width, config.hidden_size]
    &&& layer.value.shape == seq![kv_width, config.hidden_size]
    &&& layer.output.shape == seq![config.hidden_size, query_width]
    &&& layer.query_norm.shape == seq![config.head_dim]
    &&& layer.key_norm.shape == seq![config.head_dim]
    &&& layer.gate.shape == seq![config.intermediate_size, config.hidden_size]
    &&& layer.up.shape == seq![config.intermediate_size, config.hidden_size]
    &&& layer.down.shape == seq![config.hidden_size, config.intermediate_size]
}

/// A layer of these projections has the widths of the configuration, whatever
/// its norms are.
pub open spec fn layer_shapes_valid(
    config: Qwen3Config,
    attention: AttentionWeights,
    mlp: MlpWeights,
) -> bool {
    projections_valid(
        config,
        LayerModel {
            input_norm: arbitrary(),
            post_attention_norm: arbitrary(),
            query: attention.query@,
            key: attention.key@,
            value: attention.value@,
            output: attention.output@,
            query_norm: attention.query_norm@,
            key_norm: attention.key_norm@,
            gate: mlp.gate@,
            up: mlp.up@,
            down: mlp.down@,
        },
    )
}

pub fn expect_shape(tensor: &Tensor, expected: &[usize]) -> (result: Result<(), ModelError>)
    ensures
        result == if tensor@.shape == expected@ {
            Ok::<(), ModelError>(())
        } else {
            Err(ModelError::WeightShape)
        },
{
    if tensor::same_shape(tensor.shape(), expected) {
        Ok(())
    } else {
        Err(ModelError::WeightShape)
    }
}

pub fn expect_matrix(
    tensor: &Tensor,
    rows: usize,
    columns: usize,
) -> (result: Result<(), ModelError>)
    ensures
        result == if tensor@.shape == seq![rows, columns] {
            Ok::<(), ModelError>(())
        } else {
            Err(ModelError::WeightShape)
        },
{
    let expected: Vec<usize> = vec![rows, columns];
    assert(expected@ =~= seq![rows, columns]);
    expect_shape(tensor, expected.as_slice())
}

pub fn expect_vector(tensor: &Tensor, length: usize) -> (result: Result<(), ModelError>)
    ensures
        result == if tensor@.shape == seq![length] {
            Ok::<(), ModelError>(())
        } else {
            Err(ModelError::WeightShape)
        },
{
    let expected: Vec<usize> = vec![length];
    assert(expected@ =~= seq![length]);
    expect_shape(tensor, expected.as_slice())
}

/// Refuses projections that do not have the widths of the configuration.
pub fn validate_layer(config: &Qwen3Config, attention: &AttentionWeights, mlp: &MlpWeights) -> (result:
    Result<(), ModelError>)
    requires
        config.widths_fit(),
    ensures
        result == if layer_shapes_valid(*config, *attention, *mlp) {
            Ok::<(), ModelError>(())
        } else {
            Err(ModelError::WeightShape)
        },
{
    expect_matrix(&attention.query, config.query_width(), config.hidden_size)?;
    expect_matrix(&attention.key, config.kv_width(), config.hidden_size)?;
    expect_matrix(&attention.value, config.kv_width(), config.hidden_size)?;
    expect_matrix(&attention.output, config.hidden_size, config.query_width())?;
    expect_vector(&attention.query_norm, config.head_dim)?;
    expect_vector(&attention.key_norm, config.head_dim)?;
    expect_matrix(&mlp.gate, config.intermediate_size, config.hidden_size)?;
    expect_matrix(&mlp.up, config.intermediate_size, config.hidden_size)?;
    expect_matrix(&mlp.down, config.hidden_size, config.intermediate_size)?;
    Ok(())
}

} // verus!
