//! Matrix-vector row counts where a manual choice and general autotuning can
//! override the measured shapes.

use crate::tuning::{self, DecodeGemvConfig};
use vstd::prelude::*;

verus! {

/// A manual choice wins. Otherwise an explicit configuration takes its rows
/// from the table even without autotuning, and autotuning alone only knows the
/// square shape.
pub open spec fn dispatch_rows(
    device: Seq<char>,
    n: usize,
    k: usize,
    fallback: usize,
    config: Option<DecodeGemvConfig>,
    manual: bool,
    auto_enabled: bool,
) -> usize {
    if manual || (!auto_enabled && config is None) {
        fallback
    } else {
        match (tuning::single_shape(device, n, k), config) {
            (None, _) => fallback,
            (Some((baseline, _)), Some(DecodeGemvConfig::Baseline)) => baseline,
            (Some((_, tuned)), Some(DecodeGemvConfig::Tuned)) => tuned,
            (Some(_), None) => if n == 1024 && k == 1024 {
                1
            } else {
                fallback
            },
        }
    }
}

/// Rows per simdgroup for a single matrix-vector product.
pub fn single_rows(
    device: &str,
    n: usize,
    k: usize,
    fallback: usize,
    config: Option<DecodeGemvConfig>,
    manual: bool,
    auto_enabled: bool,
) -> (rows: usize)
    ensures
        rows == dispatch_rows(device@, n, k, fallback, config, manual, auto_enabled),
{
    if manual || (!auto_enabled && config.is_none()) {
        return fallback;
    }
    match tuning::find_single_shape(device, n, k) {
        None => fallback,
        Some((baseline, tuned)) => match config {
            Some(DecodeGemvConfig::Baseline) => baseline,
            Some(DecodeGemvConfig::Tuned) => tuned,
            None => if n == 1024 && k == 1024 {
                1
            } else {
                fallback
            },
        },
    }
}

/// A manual choice is kept whatever else is set. Without one, an explicit configuration
/// takes the same rows here as in the tables, with autotuning or without it, and
/// autotuning alone changes nothing but the square shape of the measured device, which
/// then takes one row.
pub proof fn a_manual_choice_comes_first(
    device: Seq<char>,
    n: usize,
    k: usize,
    fallback: usize,
    config: DecodeGemvConfig,
    auto_enabled: bool,
)
    ensures
        forall|chosen: Option<DecodeGemvConfig>, enabled: bool| #[trigger]
            dispatch_rows(device, n, k, fallback, chosen, true, enabled) == fallback,
        dispatch_rows(device, n, k, fallback, Some(config), false, auto_enabled)
            == tuning::configured_rows(tuning::single_shape(device, n, k), fallback, Some(config)),
        dispatch_rows(device, n, k, fallback, None, false, false) == fallback,
        dispatch_rows(device, n, k, fallback, None, false, true) == if device == "Apple M4 Pro"@
            && n == 1024 && k == 1024 {
            1usize
        } else {
            fallback
        },
{
}

} // verus!
