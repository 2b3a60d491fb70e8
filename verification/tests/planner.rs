use metal_infer::ops::AttentionKind;
use metal_infer::planner::{Fusions, Plan, PlanError};
use metal_infer::tuning::{DecodeGemvConfig, KernelSelection};

fn plan() -> Plan {
    Plan {
        kernels: KernelSelection::default(),
        fusions: Fusions {
            qkv: true,
            gate_up: true,
            add_rms_norm: true,
            qk_rope_cache: true,
            decode_norm: true,
        },
        attention: AttentionKind::Tiled,
    }
}

#[test]
fn every_listed_value_can_be_applied_back() -> Result<(), PlanError> {
    let mut original = plan();
    original.apply_override("flash_decode.blocks=512:64x128,1024:128x256")?;
    let mut copy = plan();
    for (key, value) in original.entries() {
        copy.apply_override(&format!("{key}={value}"))?;
    }
    assert_eq!(copy, original, "listed entries must reproduce the plan");
    Ok(())
}

#[test]
fn overrides_change_only_their_key() -> Result<(), PlanError> {
    let mut changed = plan();
    changed.apply_override("fusion.qkv=off")?;
    changed.apply_override("gemv.config=baseline")?;
    let mut expected = plan();
    expected.fusions.qkv = false;
    expected.kernels.decode_gemv = Some(DecodeGemvConfig::Baseline);
    assert_eq!(changed, expected, "an override must only change its key");
    Ok(())
}

#[test]
fn invalid_overrides_are_rejected() {
    let mut target = plan();
    assert!(
        matches!(
            target.apply_override("fusion.qkv"),
            Err(PlanError::Syntax(_))
        ),
        "a missing value must be rejected"
    );
    assert!(
        matches!(
            target.apply_override("fusion.unknown=on"),
            Err(PlanError::UnknownKey(_))
        ),
        "an unknown key must be rejected"
    );
    assert!(
        matches!(
            target.apply_override("fusion.qkv=maybe"),
            Err(PlanError::InvalidValue { .. })
        ),
        "an invalid value must be rejected"
    );
}

#[test]
fn printed_blocks_are_read_back() -> Result<(), PlanError> {
    for value in ["default", "64x128", "512:64x128,256x256", "1:32x128, 2:64x256"] {
        let mut target = plan();
        target.apply_override(&format!("flash_decode.blocks={value}"))?;
        let listed = target
            .entries()
            .into_iter()
            .find(|(key, _)| *key == "flash_decode.blocks")
            .map(|(_, value)| value)
            .unwrap_or_default();
        let mut copy = plan();
        copy.apply_override(&format!("flash_decode.blocks={listed}"))?;
        assert_eq!(copy, target);
    }
    Ok(())
}
