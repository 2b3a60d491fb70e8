use metal_infer::gemv_dispatch;
use metal_infer::ops::AttentionKind;
use metal_infer::planner::attention_kind_for_tokens;
use metal_infer::tuning::{fused_norm_rows, single_rows, DecodeGemvConfig};

#[test]
fn tuning_tuned_shapes_and_fallbacks() {
    let tuned = Some(DecodeGemvConfig::Tuned);
    assert_eq!(single_rows("Apple M4 Pro", 1024, 3072, 4, tuned), 1);
    assert_eq!(single_rows("Apple M4 Pro", 1024, 2048, 4, tuned), 2);
    assert_eq!(single_rows("Apple M4 Pro", 151_936, 1024, 0, tuned), 2);
    assert_eq!(single_rows("Apple M3", 1024, 3072, 4, tuned), 4);
    assert_eq!(
        fused_norm_rows("Apple M4 Pro", [3072, 3072, 0], 1024, 2, tuned),
        1
    );
    assert_eq!(
        fused_norm_rows("Apple M4 Pro", [4096, 4096, 0], 1024, 2, tuned),
        2
    );
}

#[test]
fn missing_config_and_baseline_use_their_rows() {
    assert_eq!(single_rows("Apple M4 Pro", 1024, 3072, 4, None), 4);
    assert_eq!(
        single_rows(
            "Apple M4 Pro",
            1024,
            3072,
            4,
            Some(DecodeGemvConfig::Baseline)
        ),
        4
    );
}

#[test]
fn gemv_dispatch_tuned_shapes_and_fallbacks() {
    assert_eq!(
        gemv_dispatch::single_rows(
            "Apple M4 Pro",
            1024,
            3072,
            4,
            Some(DecodeGemvConfig::Tuned),
            false,
            true
        ),
        1
    );
    assert_eq!(
        gemv_dispatch::single_rows(
            "Apple M4 Pro",
            151_936,
            1024,
            0,
            Some(DecodeGemvConfig::Tuned),
            false,
            true
        ),
        2
    );
    assert_eq!(
        gemv_dispatch::single_rows(
            "Apple M3",
            1024,
            3072,
            4,
            Some(DecodeGemvConfig::Tuned),
            false,
            true
        ),
        4
    );
    assert_eq!(
        fused_norm_rows(
            "Apple M4 Pro",
            [3072, 3072, 0],
            1024,
            2,
            Some(DecodeGemvConfig::Tuned)
        ),
        1
    );
    assert_eq!(
        fused_norm_rows(
            "Apple M4 Pro",
            [4096, 4096, 0],
            1024,
            2,
            Some(DecodeGemvConfig::Tuned)
        ),
        2
    );
}

#[test]
fn explicit_shape_choice_survives_general_autotuning() {
    let tuned = Some(DecodeGemvConfig::Tuned);
    assert_eq!(
        gemv_dispatch::single_rows("Apple M4 Pro", 1024, 2048, 4, tuned, false, false),
        2
    );
    assert_eq!(
        gemv_dispatch::single_rows("Apple M4 Pro", 1024, 3072, 4, tuned, false, false),
        1
    );
    assert_eq!(
        gemv_dispatch::single_rows("Apple M4 Pro", 151_936, 1024, 0, tuned, false, false),
        2
    );
    assert_eq!(
        gemv_dispatch::single_rows("Apple M4 Pro", 1024, 3072, 4, tuned, true, false),
        4
    );
    assert_eq!(
        gemv_dispatch::single_rows("Apple M4 Pro", 1024, 3072, 4, None, false, false),
        4
    );
    assert_eq!(
        gemv_dispatch::single_rows(
            "Apple M4 Pro",
            1024,
            3072,
            4,
            Some(DecodeGemvConfig::Baseline),
            false,
            false
        ),
        4
    );
}

#[test]
fn tiled_attention_selects_flash_decode_for_long_gqa_decode() {
    assert_eq!(
        attention_kind_for_tokens(AttentionKind::Tiled, 1, 640, 2),
        AttentionKind::FlashDecode,
        "long single-token decode should select flash decode"
    );
    assert_eq!(
        attention_kind_for_tokens(AttentionKind::Tiled, 1, 255, 2),
        AttentionKind::DecodeSplitKv,
        "short single-token decode should select split-KV attention"
    );
    assert_eq!(
        attention_kind_for_tokens(AttentionKind::Tiled, 1, 640, 4),
        AttentionKind::DecodeSplitKv,
        "other GQA ratios should select split-KV attention"
    );
    assert_eq!(
        attention_kind_for_tokens(AttentionKind::Tiled, 31, 31, 2),
        AttentionKind::Tiled,
        "short prefill should keep tiled attention"
    );
    assert_eq!(
        attention_kind_for_tokens(AttentionKind::Tiled, 32, 32, 2),
        AttentionKind::FlashPrefill,
        "32-token prefill should select flash prefill"
    );
    assert_eq!(
        attention_kind_for_tokens(AttentionKind::Tiled, 512, 512, 2),
        AttentionKind::FlashPrefill,
        "long prefill should select flash prefill"
    );
    assert_eq!(
        attention_kind_for_tokens(AttentionKind::Reference, 1, 640, 2),
        AttentionKind::Reference,
        "reference attention should remain explicitly selectable"
    );
}
