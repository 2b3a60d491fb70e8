use metal_infer::error::ModelError;
use metal_infer::qwen3::Qwen3Config;

fn config() -> Qwen3Config {
    Qwen3Config {
        model_type: "qwen3".into(),
        hidden_size: 1024,
        intermediate_size: 3072,
        num_hidden_layers: 28,
        num_attention_heads: 16,
        num_key_value_heads: 8,
        head_dim: 128,
        rms_norm_eps: 1.0e-6f32.to_bits(),
        rope_theta: 1_000_000.0f32.to_bits(),
        vocab_size: 151_936,
        attention_bias: false,
        tie_word_embeddings: true,
    }
}

#[test]
fn qwen3_dimensions_are_accepted() {
    let config = config();
    assert!(config.validate().is_ok(), "Qwen3 config should be valid");
    assert_eq!(config.query_width(), 2048, "query width mismatch");
    assert_eq!(config.kv_width(), 1024, "KV width mismatch");
}

#[test]
fn invalid_gqa_ratio_is_rejected() {
    let mut config = config();
    config.num_key_value_heads = 3;
    assert!(
        config.validate().is_err(),
        "invalid GQA ratio must be rejected"
    );
}

#[test]
fn each_fault_of_a_configuration_is_named() {
    let mut other = config();
    other.model_type = "llama".into();
    assert!(matches!(other.validate(), Err(ModelError::UnsupportedModelType)));
    let mut biased = config();
    biased.attention_bias = true;
    assert!(matches!(biased.validate(), Err(ModelError::AttentionBias)));
    let mut odd = config();
    odd.head_dim = 127;
    assert!(matches!(odd.validate(), Err(ModelError::InvalidDimensions)));
    let mut empty = config();
    empty.vocab_size = 0;
    assert!(matches!(empty.validate(), Err(ModelError::InvalidDimensions)));
    let mut ratio = config();
    ratio.num_key_value_heads = 3;
    assert!(matches!(ratio.validate(), Err(ModelError::InvalidHeadRatio)));
}

#[test]
fn widths_beyond_a_machine_number_are_noticed() {
    let mut wide = config();
    assert!(wide.has_machine_widths());
    wide.num_attention_heads = usize::MAX;
    assert!(!wide.has_machine_widths());
}
