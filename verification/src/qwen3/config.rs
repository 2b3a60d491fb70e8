//! The dimensions of a model.

use crate::error::ModelError;
use crate::text;
use vstd::prelude::*;

verus! {

/// The epsilon of the norms and the base of the rotation are the bits of
/// single-precision numbers.
#[derive(Clone, Debug)]
pub struct Qwen3Config {
    pub model_type: String,
    pub hidden_size: usize,
    pub intermediate_size: usize,
    pub num_hidden_layers: usize,
    pub num_attention_heads: usize,
    pub num_key_value_heads: usize,
    pub head_dim: usize,
    pub rms_norm_eps: u32,
    pub rope_theta: u32,
    pub vocab_size: usize,
    pub attention_bias: bool,
    pub tie_word_embeddings: bool,
}

impl Qwen3Config {
    /// No dimension is zero, and a head has an even number of elements.
    pub open spec fn dimensions_valid(self) -> bool {
        &&& self.hidden_size > 0
        &&& self.intermediate_size > 0
        &&& self.num_hidden_layers > 0
        &&& self.num_attention_heads > 0
        &&& self.num_key_value_heads > 0
        &&& self.head_dim > 0
        &&& self.vocab_size > 0
        &&& self.head_dim % 2 == 0
    }

    pub open spec fn valid(self) -> bool {
        &&& self.model_type@ == "qwen3"@
        &&& !self.attention_bias
        &&& self.dimensions_valid()
        &&& self.num_attention_heads as int % self.num_key_value_heads as int == 0
    }

    pub open spec fn spec_query_width(self) -> int {
        self.num_attention_heads * self.head_dim
    }

    pub open spec fn spec_kv_width(self) -> int {
        self.num_key_value_heads * self.head_dim
    }

    /// Both projection widths are machine numbers.
    pub open spec fn widths_fit(self) -> bool {
        self.spec_query_width() <= usize::MAX && self.spec_kv_width() <= usize::MAX
    }

    /// What is wrong with the configuration, the first fault in order.
    pub open spec fn error(self) -> Option<ModelError> {
        if self.model_type@ != "qwen3"@ {
            Some(ModelError::UnsupportedModelType)
        } else if self.attention_bias {
            Some(ModelError::AttentionBias)
        } else if !self.dimensions_valid() {
            Some(ModelError::InvalidDimensions)
        } else if self.num_attention_heads as int % self.num_key_value_heads as int != 0 {
            Some(ModelError::InvalidHeadRatio)
        } else {
            None
        }
    }

    pub fn validate(&self) -> (result: Result<(), ModelError>)
        ensures
            result == match self.error() {
                Some(error) => Err::<(), ModelError>(error),
                None => Ok(()),
            },
            result is Ok <==> self.valid(),
    {
        if !text::same(self.model_type.as_str(), "qwen3") {
            return Err(ModelError::UnsupportedModelType);
        }
        if self.attention_bias {
            return Err(ModelError::AttentionBias);
        }
        if self.hidden_size == 0 || self.intermediate_size == 0 || self.num_hidden_layers == 0
            || self.num_attention_heads == 0 || self.num_key_value_heads == 0 || self.head_dim == 0
            || self.vocab_size == 0 || self.head_dim % 2 != 0 {
            return Err(ModelError::InvalidDimensions);
        }
        if self.num_attention_heads % self.num_key_value_heads != 0 {
            return Err(ModelError::InvalidHeadRatio);
        }
        Ok(())
    }

    /// Whether both projection widths are machine numbers.
    pub fn has_machine_widths(&self) -> (answer: bool)
        ensures
            answer == self.widths_fit(),
    {
        self.num_attention_heads.checked_mul(self.head_dim).is_some()
            && self.num_key_value_heads.checked_mul(self.head_dim).is_some()
    }

    pub fn query_width(&self) -> (width: usize)
        requires
            self.widths_fit(),
        ensures
            width == self.spec_query_width(),
    {
        proof {
            assert(0 <= self.spec_query_width()) by (nonlinear_arith)
                requires
                    self.spec_query_width() == self.num_attention_heads * self.head_dim,
            ;
        }
        self.num_attention_heads * self.head_dim
    }

    pub fn kv_width(&self) -> (width: usize)
        requires
            self.widths_fit(),
        ensures
            width == self.spec_kv_width(),
    {
        proof {
            assert(0 <= self.spec_kv_width()) by (nonlinear_arith)
                requires
                    self.spec_kv_width() == self.num_key_value_heads * self.head_dim,
            ;
        }
        self.num_key_value_heads * self.head_dim
    }
}

/// A configuration is refused for its first fault and for nothing else. In one that is
/// not, every key head serves the same number of query heads, so that the queries are as
/// many times as wide as the keys.
pub proof fn key_heads_serve_equal_groups(config: Qwen3Config)
    requires
        config.error() is None,
    ensures
        config.model_type@ == "qwen3"@,
        !config.attention_bias,
        ({
            let group = config.num_attention_heads as int / config.num_key_value_heads as int;
            &&& group >= 1
            &&& group * config.num_key_value_heads == config.num_attention_heads
            &&& config.spec_query_width() == group * config.spec_kv_width()
            &&& config.spec_kv_width() >= 2
            &&& config.spec_kv_width() % 2 == 0
        }),
{
    let heads = config.num_attention_heads as int;
    let kv_heads = config.num_key_value_heads as int;
    let head_dim = config.head_dim as int;
    let group = heads / kv_heads;
    vstd::arithmetic::div_mod::lemma_fundamental_div_mod(heads, kv_heads);
    assert(group * kv_heads == kv_heads * group) by (nonlinear_arith);
    assert(group >= 1) by (nonlinear_arith)
        requires
            group * kv_heads == heads,
            heads > 0,
            kv_heads > 0,
    ;
    assert(heads * head_dim == group * (kv_heads * head_dim)) by (nonlinear_arith)
        requires
            group * kv_heads == heads,
    ;
    let half = head_dim / 2;
    assert(head_dim == 2 * half);
    assert(kv_heads * head_dim == 2 * (kv_heads * half)) by (nonlinear_arith)
        requires
            head_dim == 2 * half,
    ;
    assert(kv_heads * half >= 1) by (nonlinear_arith)
        requires
            kv_heads >= 1,
            half >= 1,
    ;
}

} // verus!
