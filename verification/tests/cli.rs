use metal_infer::cli::{
    argmax, check_bench, check_context, kernel_rows, plan_text, split_overrides, CliError,
    InferenceMode, LogFormat, PipelinedDecode, Workload,
};
use metal_infer::error::{GpuError, ModelError};
use metal_infer::gpu::KernelDispatchProfile;
use metal_infer::ops::AttentionKind;
use metal_infer::planner::{Fusions, Plan};
use metal_infer::qwen3::generation::{Action, Event};
use metal_infer::tuning::KernelSelection;

fn workload() -> Workload {
    Workload {
        schema_version: 1,
        case_id: "case".into(),
        prompt_text: "prompt".into(),
        prompt_token_ids: vec![1],
        forced_decode_ids: vec![2],
        output_tokens: 2,
    }
}

#[test]
fn rejects_misaligned_trace() {
    let workload = Workload {
        schema_version: 1,
        case_id: "case".into(),
        prompt_text: "prompt".into(),
        prompt_token_ids: vec![1],
        forced_decode_ids: vec![2],
        output_tokens: 3,
    };
    assert!(
        workload.validate().is_err(),
        "trace must have one fewer token than output"
    );
}

#[test]
fn argmax_uses_generation_tie_behavior() {
    assert_eq!(
        argmax(&[2.0f32.to_bits(), 2.0f32.to_bits()]).expect("argmax"),
        1
    );
}

#[test]
fn logits_without_a_finite_value_are_reported() {
    assert!(matches!(argmax(&[f32::NAN.to_bits()]), Err(CliError::NoFiniteLogit)));
}

#[test]
fn every_part_of_a_workload_is_needed() {
    assert!(workload().validate().is_ok());
    let faults: Vec<fn(&mut Workload)> = vec![
        |workload| workload.schema_version = 2,
        |workload| workload.case_id.clear(),
        |workload| workload.prompt_text.clear(),
        |workload| workload.prompt_token_ids.clear(),
        |workload| {
            workload.output_tokens = 1;
            workload.forced_decode_ids.clear();
        },
    ];
    for fault in faults {
        let mut faulty = workload();
        fault(&mut faulty);
        assert!(matches!(faulty.validate(), Err(CliError::InvalidWorkload)));
    }
}

#[test]
fn a_run_feeds_the_trace_or_its_own_tokens() {
    let workload = workload();
    assert_eq!(workload.fed_token(InferenceMode::Fixed, 0, 9), Some(2));
    assert_eq!(workload.fed_token(InferenceMode::Autoregressive, 0, 9), Some(9));
    assert_eq!(workload.fed_token(InferenceMode::Autoregressive, 1, 9), None);
    assert_eq!(InferenceMode::Fixed.name(), "fixed");
    assert_eq!(InferenceMode::Autoregressive.name(), "autoregressive");
    assert_eq!(LogFormat::default(), LogFormat::Text);
}

#[test]
fn a_benchmark_measures_something() {
    assert!(check_bench(1, 1, 1).is_ok());
    assert!(matches!(check_bench(0, 1, 1), Err(CliError::InvalidBenchArguments)));
    assert!(matches!(check_bench(1, 0, 1), Err(CliError::InvalidBenchArguments)));
    assert!(matches!(check_bench(1, 1, 0), Err(CliError::InvalidBenchArguments)));
}

#[test]
fn a_generation_fits_in_the_context() {
    assert!(check_context(10, 22, 32).is_ok());
    assert!(matches!(check_context(11, 22, 32), Err(CliError::ContextExceeded)));
    assert!(matches!(check_context(usize::MAX, 2, 32), Err(CliError::ContextExceeded)));
}

#[test]
fn the_wish_to_list_is_parted_from_the_overrides() {
    let with = vec!["fusion.qkv=off".to_owned(), "list".to_owned(), "attention=tiled".to_owned()];
    assert_eq!(
        split_overrides(&with),
        (true, vec!["fusion.qkv=off".to_owned(), "attention=tiled".to_owned()])
    );
    assert_eq!(split_overrides(&vec![]), (false, vec![]));
}

#[test]
fn a_plan_is_shown_line_by_line() {
    let plan = Plan {
        kernels: KernelSelection::default(),
        fusions: Fusions {
            qkv: true,
            gate_up: false,
            add_rms_norm: true,
            qk_rope_cache: true,
            decode_norm: false,
        },
        attention: AttentionKind::FlashPrefill,
    };
    assert_eq!(
        plan_text(&plan),
        "attention=flash-prefill\nfusion.qkv=on\nfusion.gate_up=off\nfusion.add_rms_norm=on\n\
         fusion.qk_rope_cache=on\nfusion.decode_norm=off\ngemv.config=none\n\
         flash_decode.blocks=default\n"
    );
}

#[test]
fn messages_say_what_went_wrong() {
    assert_eq!(
        CliError::ContextExceeded.message(),
        Some("prompt and generated tokens exceed the context")
    );
    assert_eq!(
        CliError::InvalidBenchArguments.message(),
        Some("invalid test lengths, iterations, or profile mode (profile requires pg)")
    );
    assert_eq!(CliError::NoFiniteLogit.message(), Some("logits contain no finite value"));
    assert_eq!(CliError::TokenIdOverflow.message(), Some("token index does not fit in u32"));
    assert_eq!(CliError::Model(ModelError::NoLayer).message(), None);
    assert!(CliError::InvalidWorkload
        .message()
        .expect("a message")
        .starts_with("workload requires schema_version=1"));
}

fn launch(kernel: &str, gpu_ticks: u64) -> KernelDispatchProfile {
    KernelDispatchProfile { kernel: kernel.into(), gpu_ticks }
}

#[test]
fn the_slowest_kernels_come_first() {
    let rows = kernel_rows(
        &vec![
            launch("b", 5),
            launch("a", 4),
            launch("c", 9),
            launch("a", 1),
            launch("b", 0),
            launch("a", 0),
        ],
        2,
    );
    let shown: Vec<_> = rows
        .iter()
        .map(|row| (row.kernel.as_str(), row.calls, row.ticks))
        .collect();
    assert_eq!(shown, vec![("c", 0, 9), ("a", 1, 5), ("b", 1, 5)]);
    assert!(kernel_rows(&vec![], 1).is_empty());
}

#[test]
fn a_pipelined_run_keeps_a_pass_ahead() {
    let (run, action) = PipelinedDecode::new(2);
    assert!(matches!(action, Action::Decode { input: 0, output: 1 }));
    let (run, action) = run.handle(Event::Submitted);
    assert!(matches!(action, Action::Decode { input: 1, output: 2 }));
    let (run, action) = run.handle(Event::Submitted);
    assert!(matches!(action, Action::Wait));
    let (run, action) = run.handle(Event::Waited { result: Ok(()) });
    assert!(matches!(action, Action::Read { slot: 1 }));
    let (run, action) = run.handle(Event::Token { token: 5 });
    assert!(matches!(action, Action::Wait), "the last pass is in flight already");
    let (run, action) = run.handle(Event::Waited { result: Ok(()) });
    assert!(matches!(action, Action::Read { slot: 2 }));
    let (run, action) = run.handle(Event::Token { token: 6 });
    assert!(matches!(action, Action::Done));
    assert_eq!(run.step, 2);
    assert!(matches!(PipelinedDecode::new(0).1, Action::Done));
}

#[test]
fn a_pipelined_run_drops_the_pass_ahead_when_it_fails() {
    let start = || PipelinedDecode::new(3).0.handle(Event::Submitted).0;
    let (run, action) = start().handle(Event::SubmitFailed { error: ModelError::CacheCapacity });
    assert!(matches!(action, Action::Wait), "the pass in flight is waited for");
    let (_, action) = run.handle(Event::Waited { result: Ok(()) });
    assert!(matches!(
        action,
        Action::Fail { error: ModelError::CacheCapacity, discard: false }
    ));
    let (run, _) = start().handle(Event::Submitted);
    let (_, action) = run.handle(Event::Waited { result: Err(GpuError::Command) });
    assert!(matches!(
        action,
        Action::Fail { error: ModelError::Gpu(GpuError::Command), discard: true }
    ));
    let (run, _) = start().handle(Event::Submitted);
    let (run, _) = run.handle(Event::Waited { result: Ok(()) });
    let (_, action) = run.handle(Event::Token { token: u32::MAX });
    assert!(matches!(
        action,
        Action::Fail { error: ModelError::NoFiniteLogit, discard: true }
    ));
}
