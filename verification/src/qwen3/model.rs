//! The weights of a model with its plan.

use crate::gpu::tensor::{Tensor, TensorModel};
use crate::planner::{Plan, PlanModel};
use crate::qwen3::config::Qwen3Config;
use crate::qwen3::layers::{LayerModel, LayerWeights};
use crate::tuning::{Tuning, TuningModel};
use vstd::prelude::*;

verus! {

pub struct Qwen3Model {
    pub tuning: Tuning,
    pub config: Qwen3Config,
    pub embedding: Tensor,
    pub layers: Vec<LayerWeights>,
    pub final_norm: Tensor,
    pub lm_head: Tensor,
    pub plan: Plan,
}

#[verifier::ext_equal]
pub struct NetModel {
    pub tuning: TuningModel,
    pub config: Qwen3Config,
    pub embedding: TensorModel,
    pub layers: Seq<LayerModel>,
    pub final_norm: TensorModel,
    pub lm_head: TensorModel,
    pub plan: PlanModel,
}

pub open spec fn weight_views(layers: Seq<LayerWeights>) -> Seq<LayerModel> {
    layers.map_values(|layer: LayerWeights| layer@)
}

impl View for Qwen3Model {
    type V = NetModel;

    open spec fn view(&self) -> NetModel {
        NetModel {
            tuning: self.tuning@,
            config: self.config,
            embedding: self.embedding@,
            layers: weight_views(self.layers@),
            final_norm: self.final_norm@,
            lm_head: self.lm_head@,
            plan: self.plan@,
        }
    }
}

impl NetModel {
    /// The dimensions are those of a model that loads.
    pub open spec fn wf(self) -> bool {
        self.config.valid() && self.config.widths_fit()
    }

    /// Whether every weight lies in a buffer of the device.
    pub open spec fn on_device(self) -> bool {
        &&& self.embedding.on_device()
        &&& self.final_norm.on_device()
        &&& self.lm_head.on_device()
        &&& forall|i: int| 0 <= i < self.layers.len() ==> (#[trigger] self.layers[i]).on_device()
    }

    pub open spec fn query_heads_per_kv(self) -> usize {
        (self.config.num_attention_heads as int / self.config.num_key_value_heads as int) as usize
    }
}

impl Qwen3Model {
    pub fn config(&self) -> (config: &Qwen3Config)
        ensures
            *config == self@.config,
    {
        &self.config
    }

    pub fn plan(&self) -> (plan: &Plan)
        ensures
            plan@ == self@.plan,
    {
        &self.plan
    }
}

} // verus!
