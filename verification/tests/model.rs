use metal_infer::error::{GpuError, KernelError, ModelError};
use metal_infer::gpu::command::Binding;
use metal_infer::gpu::scratch::ScratchState;
use metal_infer::gpu::tensor::Storage;
use metal_infer::gpu::{Command, DType, DeviceMemory, Recorder, Tensor};
use metal_infer::kernels::KernelBatch;
use metal_infer::planner::PlanError;
use metal_infer::qwen3::load::prepare_plan;
use metal_infer::qwen3::passes::settle_batch;
use metal_infer::qwen3::{KvCache, Qwen3Config, Qwen3Model};
use metal_infer::tuning::{DecodeGemvConfig, KernelSelection, Tuning};
use metal_infer::weights::WeightMap;

const PROMPT_TOKENS: usize = 600;
const DECODE_STEPS: usize = 8;

fn config() -> Qwen3Config {
    Qwen3Config {
        model_type: "qwen3".into(),
        hidden_size: 1024,
        intermediate_size: 3072,
        num_hidden_layers: 2,
        num_attention_heads: 16,
        num_key_value_heads: 8,
        head_dim: 128,
        rms_norm_eps: 1.0e-6f32.to_bits(),
        rope_theta: 1_000_000.0f32.to_bits(),
        vocab_size: 151_936,
        attention_bias: false,
        tie_word_embeddings: true,
    }
}

fn shapes(config: &Qwen3Config) -> Vec<(String, Vec<usize>)> {
    let hidden = config.hidden_size;
    let query = config.query_width();
    let kv = config.kv_width();
    let mlp = config.intermediate_size;
    let mut shapes = vec![
        ("model.embed_tokens.weight".to_owned(), vec![config.vocab_size, hidden]),
        ("model.norm.weight".to_owned(), vec![hidden]),
        ("lm_head.weight".to_owned(), vec![config.vocab_size, hidden]),
    ];
    for layer in 0..config.num_hidden_layers {
        let prefix = format!("model.layers.{layer}");
        shapes.extend([
            (format!("{prefix}.self_attn.q_proj.weight"), vec![query, hidden]),
            (format!("{prefix}.self_attn.k_proj.weight"), vec![kv, hidden]),
            (format!("{prefix}.self_attn.v_proj.weight"), vec![kv, hidden]),
            (format!("{prefix}.self_attn.o_proj.weight"), vec![hidden, query]),
            (format!("{prefix}.self_attn.q_norm.weight"), vec![config.head_dim]),
            (format!("{prefix}.self_attn.k_norm.weight"), vec![config.head_dim]),
            (format!("{prefix}.mlp.gate_proj.weight"), vec![mlp, hidden]),
            (format!("{prefix}.mlp.up_proj.weight"), vec![mlp, hidden]),
            (format!("{prefix}.mlp.down_proj.weight"), vec![hidden, mlp]),
            (format!("{prefix}.input_layernorm.weight"), vec![hidden]),
            (format!("{prefix}.post_attention_layernorm.weight"), vec![hidden]),
        ]);
    }
    shapes
}

fn weights(memory: &mut DeviceMemory, shapes: &[(String, Vec<usize>)]) -> WeightMap {
    let mut weights = WeightMap::new();
    for (name, shape) in shapes {
        weights.insert(name.clone(), memory.empty(shape, DType::F16).expect("a buffer"));
    }
    weights
}

fn device_selection() -> KernelSelection {
    KernelSelection {
        decode_gemv: Some(DecodeGemvConfig::Tuned),
        flash_decode_blocks: Vec::new(),
    }
}

fn load_on(device: &str, overrides: &[String]) -> Result<(Qwen3Model, DeviceMemory), ModelError> {
    let overrides = overrides.to_vec();
    let mut tuning = Tuning::new(device);
    let initial = prepare_plan(&mut tuning, &overrides)?;
    let config = config();
    let mut memory = DeviceMemory::new();
    let weights = weights(&mut memory, &shapes(&config));
    let model =
        Qwen3Model::load_with(config, weights, tuning, &initial, &device_selection(), &overrides)?;
    Ok((model, memory))
}

fn load(overrides: &[&str]) -> Result<(Qwen3Model, DeviceMemory), ModelError> {
    let overrides: Vec<String> = overrides.iter().map(|value| (*value).to_owned()).collect();
    load_on("Apple M4 Pro", &overrides)
}

fn kernels(batch: KernelBatch<'_>) -> Vec<&'static str> {
    let (commands, _, _) = batch.recorder.finish();
    commands
        .iter()
        .map(|command| match command {
            Command::Dispatch(dispatch) => dispatch.kernel,
            Command::Multiply(_) => "multiply",
        })
        .collect()
}

fn prompt() -> Vec<u32> {
    (0..PROMPT_TOKENS).map(|index| ((index * 7919 + 13) % 150_000) as u32).collect()
}

fn batch(model: &Qwen3Model) -> KernelBatch<'_> {
    KernelBatch::new(Recorder::new(0, ScratchState::new(), false), &model.tuning)
}

fn decode_kernels(model: &Qwen3Model, memory: &mut DeviceMemory) -> Vec<&'static str> {
    let mut cache =
        KvCache::new(memory, model.config(), PROMPT_TOKENS + DECODE_STEPS).expect("KV cache");
    let mut prefill = batch(model);
    model.prefill(memory, &mut prefill, &prompt(), &mut cache).expect("prefill");
    assert_eq!(cache.len(), PROMPT_TOKENS);
    let mut decode = batch(model);
    model.decode(memory, &mut decode, 7, &mut cache).expect("decode");
    assert_eq!(cache.len(), PROMPT_TOKENS + 1);
    kernels(decode)
}

/// Where an argument of a command lies.
fn operand(binding: &Binding) -> String {
    let at = binding.offset_bytes;
    match binding.storage {
        Storage::Device { buffer } => format!("{buffer}+{at}"),
        Storage::Scratch { pool, chunk, span, .. } => {
            format!("{pool}/{chunk}/{}..{}+{at}", span.start, span.end)
        }
    }
}

/// The commands of a batch with all that they hold.
fn commands(batch: KernelBatch<'_>) -> Vec<String> {
    let (commands, _, _) = batch.recorder.finish();
    commands
        .iter()
        .map(|command| match command {
            Command::Dispatch(dispatch) => format!(
                "{} {:?} {:?} {:?} {:?}",
                dispatch.kernel,
                dispatch.bindings.iter().map(operand).collect::<Vec<_>>(),
                dispatch.params,
                dispatch.grid,
                dispatch.threadgroup
            ),
            Command::Multiply(multiply) => format!(
                "{} {} {} {:?}",
                operand(&multiply.left),
                operand(&multiply.right),
                operand(&multiply.result),
                [
                    multiply.m,
                    multiply.n,
                    multiply.k,
                    multiply.left_row_bytes,
                    multiply.right_row_bytes,
                    multiply.result_row_bytes,
                ]
            ),
        })
        .collect()
}

/// All that a prompt and the tokens behind it record, and the words they upload.
fn recorded(model: &Qwen3Model, memory: &mut DeviceMemory) -> (Vec<Vec<String>>, Vec<Vec<u32>>) {
    let mut cache =
        KvCache::new(memory, model.config(), PROMPT_TOKENS + DECODE_STEPS).expect("KV cache");
    let mut prefill = batch(model);
    model.prefill(memory, &mut prefill, &prompt(), &mut cache).expect("prefill");
    let mut all = vec![commands(prefill)];
    for step in 0..DECODE_STEPS {
        let mut decode = batch(model);
        model.decode(memory, &mut decode, step as u32, &mut cache).expect("decode");
        all.push(commands(decode));
    }
    (all, memory.take_uploads().into_iter().map(|upload| upload.words).collect())
}

#[test]
fn tokens_are_uploaded_to_their_buffers() {
    let (model, mut memory) = load(&[]).expect("load");
    let mut cache = KvCache::new(&mut memory, model.config(), 8).expect("cache");
    let mut first = batch(&model);
    let (tokens, _) =
        model.prefill(&mut memory, &mut first, &[5, 0, 7], &mut cache).expect("prefill");
    let mut second = batch(&model);
    let (token, _) = model.decode(&mut memory, &mut second, 9, &mut cache).expect("decode");
    let mut third = batch(&model);
    let (block, _) = model.run_first_block(&mut memory, &mut third, &[1, 2]).expect("block");
    let mut fourth = batch(&model);
    let (batched, _) = model
        .decode_batch(&mut memory, &mut fourth, &[3], &mut vec![cache.copy()])
        .expect("batched decode");
    let uploads = memory.take_uploads();
    let buffer = |tensor: &Tensor| match tensor.storage() {
        Storage::Device { buffer } => buffer,
        Storage::Scratch { .. } => panic!("tokens have a buffer"),
    };
    let expected = [(&tokens, vec![5, 0, 7]), (&token, vec![9]), (&block, vec![1, 2]), (&batched, vec![3])];
    assert_eq!(uploads.len(), expected.len());
    for (upload, (tensor, words)) in uploads.iter().zip(&expected) {
        assert_eq!(upload.buffer, buffer(tensor));
        assert_eq!(&upload.words, words);
    }
    assert!(memory.take_uploads().is_empty());
}

#[test]
fn override_changes_executed_kernels() {
    let (fused, mut fused_memory) = load(&[]).expect("load default model");
    let (unfused, mut unfused_memory) =
        load(&["fusion.qkv=off"]).expect("load model with fusion.qkv=off");
    assert!(
        fused.plan().fusions.qkv && !unfused.plan().fusions.qkv,
        "the override must only disable the QKV fusion in the second model"
    );
    assert!(
        decode_kernels(&fused, &mut fused_memory)
            .iter()
            .any(|kernel| kernel.starts_with("matvec3")),
        "the default plan must run a fused QKV projection"
    );
    assert!(
        !decode_kernels(&unfused, &mut unfused_memory)
            .iter()
            .any(|kernel| kernel.starts_with("matvec3")),
        "fusion.qkv=off must run separate Q, K, and V projections"
    );
}

#[test]
fn listed_plan_replays_bit_for_bit() {
    let (tuned, mut tuned_memory) = load(&["gemv.config=baseline"]).expect("load tuned model");
    let overrides = tuned
        .plan()
        .entries()
        .into_iter()
        .map(|(key, value)| format!("{key}={value}"))
        .collect::<Vec<_>>();
    let (replayed, mut replayed_memory) =
        load_on("Apple M4 Pro", &overrides).expect("load model from listed plan");
    assert_eq!(
        replayed.plan(),
        tuned.plan(),
        "replaying every listed entry must reproduce the plan"
    );
    assert_eq!(
        recorded(&replayed, &mut replayed_memory),
        recorded(&tuned, &mut tuned_memory),
        "the replayed plan must record the same commands"
    );
}

#[test]
fn the_default_plan_decodes_with_fused_kernels() {
    let (model, mut memory) = load(&[]).expect("load");
    let plan = model.plan();
    assert!(plan.fusions.decode_norm, "the device is tuned for fused norms");
    assert_eq!(plan.kernels, device_selection());
    let layer = [
        "matvec3_rms_r1_f16",
        "qk_norm_rope_cache_f16",
        "copy_kv_f16",
        "attention_flash_decode_partial_f16",
        "attention_flash_decode_reduce_f16",
        "matvec_tuned2_f16",
        "matvec2_add_rms_r1_f16",
        "swiglu_f16",
        "matvec_one_row_f16",
        "add_f16",
    ];
    let mut expected = vec!["embedding_f16"];
    expected.extend(layer);
    expected.extend(layer);
    expected.extend(["rms_norm_f16", "matvec_vocab_f16"]);
    assert_eq!(decode_kernels(&model, &mut memory), expected);
}

#[test]
fn another_device_fuses_no_norms() {
    let (model, mut memory) = load_on("Apple M3", &[]).expect("load");
    assert!(!model.plan().fusions.decode_norm);
    let kernels = decode_kernels(&model, &mut memory);
    assert!(kernels.contains(&"rms_norm_f16"));
    assert!(kernels.iter().all(|kernel| !kernel.contains("_rms_r")));
}

#[test]
fn a_plan_that_is_refused_loads_nothing() {
    assert!(matches!(
        load(&["fusion.unknown=on"]),
        Err(ModelError::Plan(PlanError::UnknownKey(key))) if key == "fusion.unknown"
    ));
    assert!(matches!(
        load(&["flash_decode.blocks=48x256"]),
        Err(ModelError::Kernel(KernelError::FlashDecodeBlocks))
    ));
}

fn load_shapes(change: impl FnOnce(&mut Vec<(String, Vec<usize>)>)) -> Result<Qwen3Model, ModelError> {
    let mut config = config();
    config.tie_word_embeddings = false;
    let mut list = shapes(&config);
    change(&mut list);
    let mut memory = DeviceMemory::new();
    let weights = weights(&mut memory, &list);
    let mut tuning = Tuning::new("Apple M4 Pro");
    let initial = prepare_plan(&mut tuning, &vec![])?;
    Qwen3Model::load_with(config, weights, tuning, &initial, &device_selection(), &vec![])
}

#[test]
fn weights_are_found_by_their_names() {
    assert!(load_shapes(|_| ()).is_ok());
    for name in [
        "model.embed_tokens.weight",
        "model.norm.weight",
        "lm_head.weight",
        "model.layers.1.self_attn.v_proj.weight",
        "model.layers.1.post_attention_layernorm.weight",
    ] {
        assert!(matches!(
            load_shapes(|shapes| shapes.retain(|(other, _)| other != name)),
            Err(ModelError::MissingTensor)
        ));
    }
    for name in [
        "model.embed_tokens.weight",
        "model.norm.weight",
        "lm_head.weight",
        "model.layers.0.mlp.down_proj.weight",
    ] {
        assert!(matches!(
            load_shapes(|shapes| {
                for (other, shape) in shapes.iter_mut() {
                    if other == name {
                        shape[0] += 1;
                    }
                }
            }),
            Err(ModelError::WeightShape)
        ));
    }
}

#[test]
fn a_faulty_configuration_loads_nothing() {
    let mut faulty = config();
    faulty.attention_bias = true;
    let mut memory = DeviceMemory::new();
    let weights = weights(&mut memory, &shapes(&faulty));
    let mut tuning = Tuning::new("Apple M3");
    let initial = prepare_plan(&mut tuning, &vec![]).expect("a plan");
    assert!(matches!(
        Qwen3Model::load_with(faulty, weights, tuning, &initial, &device_selection(), &vec![]),
        Err(ModelError::AttentionBias)
    ));
}

#[test]
fn passes_are_refused_without_tokens_or_room() {
    let (model, mut memory) = load(&[]).expect("load");
    let mut cache = KvCache::new(&mut memory, model.config(), 4).expect("KV cache");
    let mut first = batch(&model);
    assert!(matches!(
        model.prefill(&mut memory, &mut first, &[], &mut cache),
        Err(ModelError::EmptyPrefill)
    ));
    assert!(matches!(
        model.run_first_block(&mut memory, &mut first, &[]),
        Err(ModelError::EmptyBlock)
    ));
    assert!(matches!(
        model.prefill(&mut memory, &mut first, &[1, 2, 3, 4, 5], &mut cache),
        Err(ModelError::CacheCapacity)
    ));
    model.prefill(&mut memory, &mut first, &[1, 2, 3, 4], &mut cache).expect("prefill");
    assert!(matches!(
        model.decode(&mut memory, &mut first, 5, &mut cache),
        Err(ModelError::CacheCapacity)
    ));
    assert_eq!(cache.len(), 4, "a refused pass changes nothing");
    let pair = memory.empty(&[2], DType::U32).expect("a buffer");
    let slot = memory.empty(&[1], DType::U32).expect("a buffer");
    assert!(matches!(
        model.decode_argmax(&mut first, &pair, &mut cache, &slot),
        Err(ModelError::DecodeTokenShape)
    ));
    assert!(matches!(
        KvCache::new(&mut memory, model.config(), 0),
        Err(ModelError::EmptyKvCache)
    ));
}

#[test]
fn a_pass_on_the_device_ends_with_its_token() {
    let (model, mut memory) = load(&[]).expect("load");
    let mut cache = KvCache::new(&mut memory, model.config(), 16).expect("KV cache");
    let slots = memory.empty(&[2], DType::U32).expect("slots");
    let first = slots.slice_1d(0, 1).expect("slot");
    let second = slots.slice_1d(1, 1).expect("slot");
    let mut prefill = batch(&model);
    model.prefill_argmax(&mut memory, &mut prefill, &[1, 2], &mut cache, &first).expect("prefill");
    let launched = kernels(prefill);
    assert_eq!(
        &launched[launched.len() - 2..],
        &["argmax_f16_partial", "argmax_f16_reduce"]
    );
    let mut decode = batch(&model);
    let logits = model.decode_argmax(&mut decode, &first, &mut cache, &second).expect("decode");
    assert_eq!(logits.shape(), &[1, 151_936]);
    assert_eq!(cache.len(), 3);
}

#[test]
fn a_first_block_runs_alone() {
    let (model, mut memory) = load(&[]).expect("load");
    let mut first = batch(&model);
    let (_, output) = model.run_first_block(&mut memory, &mut first, &[1, 2, 3]).expect("block");
    assert_eq!(output.shape(), &[3, 1024]);
    let launched = kernels(first);
    assert_eq!(launched[0], "embedding_f16");
    assert_eq!(launched.iter().filter(|kernel| **kernel == "swiglu_f16").count(), 1);
}

#[test]
fn a_batch_decodes_each_sequence_by_its_own_cache() {
    let (model, mut memory) = load(&[]).expect("load");
    let mut caches = Vec::new();
    for length in [3, 5] {
        let mut cache = KvCache::new(&mut memory, model.config(), 8).expect("KV cache");
        let mut prefill = batch(&model);
        let tokens: Vec<u32> = (0..length).collect();
        model.prefill(&mut memory, &mut prefill, &tokens, &mut cache).expect("prefill");
        caches.push(cache);
    }
    let mut decode = batch(&model);
    let (_, logits) =
        model.decode_batch(&mut memory, &mut decode, &[1, 2], &mut caches).expect("batched decode");
    assert_eq!(logits.shape(), &[2, 151_936]);
    assert_eq!(caches[0].len(), 4);
    assert_eq!(caches[1].len(), 6);
    let launched = kernels(decode);
    assert_eq!(
        launched.iter().filter(|kernel| kernel.starts_with("attention_")).count(),
        4,
        "one for each sequence in each layer"
    );
    let mut refused = batch(&model);
    assert!(matches!(
        model.decode_batch(&mut memory, &mut refused, &[1], &mut caches),
        Err(ModelError::DecodeBatchMismatch)
    ));
}

#[test]
fn every_plan_runs_a_model_whose_shapes_fit() {
    for attention in ["reference", "tiled", "flash-prefill", "decode-split-kv", "flash-decode"] {
        for switches in 0..32u32 {
            let plan = [
                format!("attention={attention}"),
                format!("fusion.qkv={}", switches & 1 != 0),
                format!("fusion.gate_up={}", switches & 2 != 0),
                format!("fusion.add_rms_norm={}", switches & 4 != 0),
                format!("fusion.qk_rope_cache={}", switches & 8 != 0),
                format!("fusion.decode_norm={}", switches & 16 != 0),
            ];
            let (model, mut memory) = load_on("Apple M4 Pro", &plan).expect("model");
            let mut cache = KvCache::new(&mut memory, model.config(), 40).expect("KV cache");
            let mut prefill = batch(&model);
            let (_, logits) =
                model.prefill(&mut memory, &mut prefill, &[1; 38], &mut cache).expect("prefill");
            assert_eq!(logits.shape(), [1, 151_936]);
            for token in [2, 3] {
                let mut decode = batch(&model);
                let (_, logits) =
                    model.decode(&mut memory, &mut decode, token, &mut cache).expect("decode");
                assert_eq!(logits.shape(), [1, 151_936]);
                let fused = kernels(decode).iter().any(|kernel| kernel.starts_with("matvec3"));
                assert_eq!(fused, switches & 1 != 0);
            }
            let mut full = batch(&model);
            assert!(matches!(
                model.decode(&mut memory, &mut full, 4, &mut cache),
                Err(ModelError::CacheCapacity)
            ));
        }
    }
}

#[test]
fn a_batch_projects_apart_without_the_fusion() {
    let (model, mut memory) = load(&["fusion.qkv=off"]).expect("load");
    for count in 1..3u32 {
        let mut caches = Vec::new();
        for _ in 0..count {
            caches.push(KvCache::new(&mut memory, model.config(), 4).expect("KV cache"));
        }
        let tokens: Vec<u32> = (0..count).collect();
        let mut empty = batch(&model);
        assert!(matches!(
            model.decode_batch(&mut memory, &mut empty, &tokens, &mut caches),
            Err(ModelError::CacheCapacity)
        ));
        for cache in &mut caches {
            let mut prefill = batch(&model);
            model.prefill(&mut memory, &mut prefill, &[5, 6], cache).expect("prefill");
        }
        let mut decode = batch(&model);
        model.decode_batch(&mut memory, &mut decode, &tokens, &mut caches).expect("decode");
        let launched = kernels(decode);
        assert_eq!(launched[0], "embedding_f16");
        assert!(!launched.iter().any(|kernel| kernel.starts_with("matvec3")));
    }
}

/// The launches that rotate and attend, with their constants and grids.
fn attending(batch: KernelBatch<'_>) -> Vec<(&'static str, Vec<u32>, usize)> {
    let (commands, _, _) = batch.recorder.finish();
    commands
        .iter()
        .filter_map(|command| match command {
            Command::Dispatch(dispatch)
                if dispatch.kernel.starts_with("attention_")
                    || dispatch.kernel.starts_with("qk_norm") =>
            {
                Some((dispatch.kernel, dispatch.params.words(), dispatch.grid.width))
            }
            _ => None,
        })
        .collect()
}

#[test]
fn batched_decode_matches_independent_requests() {
    let (model, mut memory) = load(&[]).expect("load Qwen3");
    let prompts: Vec<Vec<u32>> = [64, 512, 129]
        .iter()
        .map(|length| prompt().into_iter().take(*length).collect())
        .collect();
    let mut start = || {
        let mut caches = Vec::new();
        for prompt in &prompts {
            let mut cache =
                KvCache::new(&mut memory, model.config(), prompt.len() + 4).expect("KV cache");
            let mut prefill = batch(&model);
            model.prefill(&mut memory, &mut prefill, prompt, &mut cache).expect("prefill");
            caches.push(cache);
        }
        caches
    };
    let mut independent = start();
    let mut batched = start();
    let tokens = vec![1, 2, 3];
    let layers = model.config().num_hidden_layers;
    for _ in 0..3 {
        let alone: Vec<_> = independent
            .iter_mut()
            .zip(&tokens)
            .map(|(cache, token)| {
                let mut decode = batch(&model);
                model.decode(&mut memory, &mut decode, *token, cache).expect("independent decode");
                attending(decode)
            })
            .collect();
        let mut decode = batch(&model);
        let (_, logits) = model
            .decode_batch(&mut memory, &mut decode, &tokens, &mut batched)
            .expect("batched decode");
        for row in 0..tokens.len() {
            assert_eq!(logits.row(row).expect("row").shape(), &[1, 151_936]);
        }
        let mut expected = Vec::new();
        for layer in 0..layers {
            for launches in &alone {
                let each = launches.len() / layers;
                expected.extend_from_slice(&launches[layer * each..(layer + 1) * each]);
            }
        }
        assert_eq!(attending(decode), expected);
        let lengths = |caches: &[KvCache]| caches.iter().map(KvCache::len).collect::<Vec<_>>();
        assert_eq!(lengths(&batched), lengths(&independent));
    }
}

#[test]
fn a_batch_that_the_device_fails_counts_nothing() {
    let (model, mut memory) = load(&[]).expect("load");
    let mut caches = Vec::new();
    for length in [2, 3] {
        let mut cache = KvCache::new(&mut memory, model.config(), 8).expect("KV cache");
        let mut prefill = batch(&model);
        model.prefill(&mut memory, &mut prefill, &vec![1; length], &mut cache).expect("prefill");
        caches.push(cache);
    }
    let shared = caches[0].copy();
    let mut decode = batch(&model);
    model.decode_batch(&mut memory, &mut decode, &[1, 2], &mut caches).expect("decode");
    assert_eq!((caches[0].len(), caches[1].len(), shared.len()), (3, 4, 2));
    assert!(matches!(
        settle_batch(&mut caches, Err(GpuError::Command)),
        Err(ModelError::Gpu(GpuError::Command))
    ));
    assert_eq!((caches[0].len(), caches[1].len()), (2, 3));
}

#[test]
fn a_pass_leaves_only_its_logits_in_scratch_memory() {
    for switches in ["on", "off"] {
        let plan: Vec<String> = ["qkv", "gate_up", "add_rms_norm", "qk_rope_cache", "decode_norm"]
            .iter()
            .map(|fusion| format!("fusion.{fusion}={switches}"))
            .collect();
        let (model, mut memory) = load_on("Apple M4 Pro", &plan).expect("load");
        let mut cache = KvCache::new(&mut memory, model.config(), 8).expect("KV cache");
        let mut decode = batch(&model);
        model.prefill(&mut memory, &mut decode, &[1, 2], &mut cache).expect("prefill");
        let (_, logits) = model.decode(&mut memory, &mut decode, 3, &mut cache).expect("decode");
        decode.release(logits);
        let (_, _, scratch) = decode.recorder.finish();
        assert_eq!(scratch.live.len(), 1, "the logits of the prompt");
    }
}
