use metal_infer::error::{GpuError, ModelError};
use metal_infer::gpu::DeviceMemory;
use metal_infer::qwen3::generation::{Action, Event, GreedyRun, SampledRun};
use metal_infer::qwen3::passes::settle_forward;
use metal_infer::qwen3::{KvCache, Qwen3Config};

fn cache(filled: usize) -> KvCache {
    let config = Qwen3Config {
        model_type: "qwen3".into(),
        hidden_size: 4,
        intermediate_size: 4,
        num_hidden_layers: 1,
        num_attention_heads: 2,
        num_key_value_heads: 1,
        head_dim: 2,
        rms_norm_eps: 0,
        rope_theta: 0,
        vocab_size: 8,
        attention_bias: false,
        tie_word_embeddings: true,
    };
    let mut cache = KvCache::new(&mut DeviceMemory::new(), &config, 576).expect("cache");
    cache.advance(filled).expect("room");
    cache
}

/// What a run saw: the tokens it handed out, and how it ended.
struct Trace {
    emitted: Vec<u32>,
    failed: Option<ModelError>,
    in_flight: usize,
}

/// Plays a device whose pass over slot `n` writes `tokens[n + 1]`.
fn play(
    run: &mut GreedyRun,
    cache: &mut KvCache,
    mut action: Action,
    tokens: &[u32],
    wanted: impl Fn(usize) -> bool,
) -> Trace {
    let mut trace = Trace { emitted: Vec::new(), failed: None, in_flight: 0 };
    loop {
        let event = match action {
            Action::Read { slot } => Event::Token { token: tokens[slot] },
            Action::Decode { input, output } => {
                assert_eq!(output, input + 1, "passes follow each other");
                assert!(trace.in_flight < 2, "at most two passes are in flight");
                cache.advance(1).expect("room");
                trace.in_flight += 1;
                Event::Submitted
            }
            Action::Emit { token } => {
                trace.emitted.push(token);
                Event::Continue { wanted: wanted(trace.emitted.len()) }
            }
            Action::Wait => {
                trace.in_flight -= 1;
                Event::Waited { result: Ok(()) }
            }
            Action::Done => return trace,
            Action::Fail { error, discard } => {
                if discard {
                    trace.in_flight -= 1;
                }
                trace.failed = Some(error);
                return trace;
            }
        };
        action = run.handle(cache, event);
    }
}

#[test]
fn a_run_hands_out_every_token() {
    let tokens: Vec<u32> = (10..74).collect();
    let mut cache = cache(512);
    let (mut run, action) = GreedyRun::new(64, vec![]);
    let trace = play(&mut run, &mut cache, action, &tokens, |_| true);
    assert_eq!(trace.emitted, tokens);
    assert_eq!(run.generated, tokens);
    assert_eq!(trace.in_flight, 0);
    assert_eq!(cache.len(), 575, "the last token is not decoded");
}

#[test]
fn an_early_stop_forgets_what_was_decoded_ahead() {
    let tokens: Vec<u32> = (10..74).collect();
    let mut cache = cache(512);
    let (mut run, action) = GreedyRun::new(64, vec![]);
    let trace = play(&mut run, &mut cache, action, &tokens, |seen| seen < 2);
    assert_eq!(run.generated, tokens[..2], "callback keeps emitted tokens");
    assert_eq!(trace.in_flight, 0);
    assert_eq!(cache.len(), 513, "speculative cache rolls back");
}

#[test]
fn a_stop_token_is_not_handed_out() {
    let tokens: Vec<u32> = (10..74).collect();
    let mut cache = cache(512);
    let (mut run, action) = GreedyRun::new(64, vec![10]);
    let trace = play(&mut run, &mut cache, action, &tokens, |_| true);
    assert!(trace.emitted.is_empty(), "stop token is not emitted");
    assert!(run.generated.is_empty());
    assert_eq!(cache.len(), 512, "prefill length restored");
}

#[test]
fn a_run_without_a_finite_logit_fails() {
    let mut cache = cache(3);
    let (mut run, action) = GreedyRun::new(4, vec![]);
    let trace = play(&mut run, &mut cache, action, &[5, u32::MAX, 0, 0], |_| true);
    assert!(matches!(trace.failed, Some(ModelError::NoFiniteLogit)));
    assert_eq!(trace.emitted, vec![5]);
    assert_eq!(trace.in_flight, 0);
    assert_eq!(cache.len(), 4);
}

#[test]
fn a_failed_pass_is_forgotten() {
    let mut cache = cache(3);
    let (mut run, action) = GreedyRun::new(4, vec![]);
    assert!(matches!(action, Action::Read { slot: 0 }));
    assert!(matches!(
        run.handle(&mut cache, Event::Token { token: 1 }),
        Action::Decode { input: 0, output: 1 }
    ));
    cache.advance(1).expect("room");
    assert!(matches!(run.handle(&mut cache, Event::Submitted), Action::Emit { token: 1 }));
    assert!(matches!(
        run.handle(&mut cache, Event::Continue { wanted: true }),
        Action::Decode { input: 1, output: 2 }
    ));
    cache.advance(1).expect("room");
    assert!(matches!(run.handle(&mut cache, Event::Submitted), Action::Wait));
    assert!(matches!(
        run.handle(&mut cache, Event::Waited { result: Err(GpuError::Command) }),
        Action::Fail { error: ModelError::Gpu(GpuError::Command), discard: true }
    ));
    assert_eq!(cache.len(), 3);
}

#[test]
fn one_token_needs_no_pass() {
    let mut cache = cache(3);
    let (mut run, action) = GreedyRun::new(1, vec![]);
    let trace = play(&mut run, &mut cache, action, &[9], |_| true);
    assert_eq!(trace.emitted, vec![9]);
    assert_eq!(cache.len(), 3);
}

#[test]
fn a_sampled_run_stops_where_it_should() {
    let mut run = SampledRun::new(2, vec![7]);
    assert!(run.receive(1));
    assert!(run.continues(true));
    assert!(!run.continues(false));
    assert!(run.receive(2));
    assert!(!run.continues(true), "the limit is reached");
    assert!(!run.receive(7));
    assert_eq!(run.generated, vec![1, 2]);
}

#[test]
fn a_settled_pass_restores_the_cache_on_failure() {
    let mut cache = cache(5);
    assert!(matches!(
        settle_forward(&mut cache, 3, Err(GpuError::CommandWithoutError)),
        Err(ModelError::Gpu(GpuError::CommandWithoutError))
    ));
    assert_eq!(cache.len(), 3);
    cache.truncate(9);
    assert_eq!(cache.len(), 3);
    cache.reset();
    assert!(cache.is_empty());
    assert_eq!(cache.capacity(), 576);
}

#[test]
fn decoding_ahead_gives_the_tokens_of_decoding_in_turn() {
    let tokens: Vec<u32> = vec![4, 8, 15, 16, 23, 42];
    for limit in 1..=6 {
        for stop in [4, 15, 42, 99] {
            for patience in 1..=7 {
                let mut ahead_cache = cache(100);
                let (mut ahead, action) = GreedyRun::new(limit, vec![stop]);
                play(&mut ahead, &mut ahead_cache, action, &tokens, |seen| seen < patience);

                let mut turn_cache = cache(100);
                let mut turn = SampledRun::new(limit, vec![stop]);
                for token in &tokens {
                    if !turn.receive(*token) || !turn.continues(turn.generated.len() < patience) {
                        break;
                    }
                    turn_cache.advance(1).expect("room");
                }

                assert_eq!(ahead.generated, turn.generated, "{limit} {stop} {patience}");
                assert_eq!(ahead_cache.len(), turn_cache.len(), "{limit} {stop} {patience}");
                let stopped = tokens.get(turn.generated.len()) == Some(&stop)
                    && turn.generated.len() < limit.min(patience);
                let held = 100 + turn.generated.len() - usize::from(!stopped);
                assert_eq!(turn_cache.len(), held, "{limit} {stop} {patience}");
            }
        }
    }
}
