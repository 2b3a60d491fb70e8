use metal_infer::command_batch::{CommandBatch, DeviceSettings, MatmulBackend, MatvecRows};
use metal_infer::error::{GpuError, KernelError};
use metal_infer::gpu::scratch::ScratchState;
use metal_infer::gpu::{Command, DType, DeviceMemory, Dispatch, Params, Recorder, Size, Tensor};
use metal_infer::kernels::KernelBatch;
use metal_infer::ops::{AttentionConfig, AttentionKind, QkNormRopeCacheConfig};
use metal_infer::tuning::{DecodeGemvConfig, KernelSelection, Tuning};

fn tuned() -> Tuning {
    let mut tuning = Tuning::new("Apple M4 Pro");
    tuning
        .select(&KernelSelection {
            decode_gemv: Some(DecodeGemvConfig::Tuned),
            flash_decode_blocks: Vec::new(),
        })
        .expect("a valid selection");
    tuning
}

fn size(width: usize, height: usize, depth: usize) -> Size {
    Size { width, height, depth }
}

fn half(memory: &mut DeviceMemory, shape: &[usize]) -> Tensor {
    memory.empty(shape, DType::F16).expect("a buffer")
}

fn batch(tuning: &Tuning) -> KernelBatch<'_> {
    KernelBatch::new(Recorder::new(0, ScratchState::new(), false), tuning)
}

fn launches(recorder: Recorder) -> Vec<Dispatch> {
    recorder
        .finish()
        .0
        .into_iter()
        .map(|command| match command {
            Command::Dispatch(dispatch) => dispatch,
            Command::Multiply(_) => panic!("a launch"),
        })
        .collect()
}

fn shape_of(launch: &Dispatch) -> (&'static str, Params, Size, Size) {
    (launch.kernel, launch.params, launch.grid, launch.threadgroup)
}

#[test]
fn elementwise_kernels_have_a_thread_for_each_element() {
    let tuning = tuned();
    let mut memory = DeviceMemory::new();
    let mut batch = batch(&tuning);
    let left = half(&mut memory, &[3, 200]);
    let right = half(&mut memory, &[3, 200]);
    let sum = batch.add(&left, &right).expect("a sum");
    assert_eq!(sum.shape(), &[3, 200]);
    batch.swiglu(&sum, &right).expect("a product");
    assert!(matches!(
        batch.add(&left, &half(&mut memory, &[600])),
        Err(KernelError::ShapeMismatch)
    ));
    let words = memory.tensor_u32(&[1, 2], &[2]).expect("words");
    assert!(matches!(
        batch.add(&words, &words),
        Err(KernelError::Gpu(GpuError::ExpectedF16))
    ));
    let table = half(&mut memory, &[10, 64]);
    let rows = batch.embedding(&words, &table).expect("rows");
    assert_eq!(rows.shape(), &[2, 64]);
    assert!(matches!(batch.embedding(&table, &table), Err(KernelError::TokensShape)));
    let launches = launches(batch.recorder);
    assert_eq!(
        launches.iter().map(shape_of).collect::<Vec<_>>(),
        vec![
            ("add_f16", Params::Count { count: 600 }, size(600, 1, 1), size(256, 1, 1)),
            ("swiglu_f16", Params::Count { count: 600 }, size(600, 1, 1), size(256, 1, 1)),
            (
                "embedding_f16",
                Params::Embedding { tokens: 2, width: 64 },
                size(64, 2, 1),
                size(64, 1, 1)
            ),
        ]
    );
    assert_eq!(launches[0].bindings.len(), 3);
}

#[test]
fn norms_take_eight_rows_to_a_group() {
    let tuning = tuned();
    let mut memory = DeviceMemory::new();
    let mut batch = batch(&tuning);
    let input = half(&mut memory, &[9, 128]);
    let weight = half(&mut memory, &[128]);
    batch.rms_norm(&input, &weight, 7).expect("a norm");
    let (residual, normalized) =
        batch.add_rms_norm(&input, &input, &weight, 7).expect("a sum and its norm");
    assert_eq!(residual.shape(), &[9, 128]);
    assert_eq!(normalized.shape(), &[9, 128]);
    assert!(matches!(
        batch.rms_norm(&input, &half(&mut memory, &[64]), 7),
        Err(KernelError::RmsNormWeight)
    ));
    let params = Params::Norm { rows: 9, width: 128, epsilon: 7 };
    assert_eq!(
        launches(batch.recorder).iter().map(shape_of).collect::<Vec<_>>(),
        vec![
            ("rms_norm_f16", params, size(512, 1, 1), size(256, 1, 1)),
            ("add_rms_norm_f16", params, size(512, 1, 1), size(256, 1, 1)),
        ]
    );
}

#[test]
fn rotations_check_their_shapes() {
    let tuning = tuned();
    let mut memory = DeviceMemory::new();
    let mut batch = batch(&tuning);
    let query = half(&mut memory, &[2, 4, 128]);
    let key = half(&mut memory, &[2, 2, 128]);
    let weight = half(&mut memory, &[128]);
    let cache = half(&mut memory, &[8, 2, 128]);
    let config = |offset| QkNormRopeCacheConfig { offset, theta: 5, epsilon: 6 };
    batch.rope(&query, 3, 5).expect("rotated");
    batch
        .qk_norm_rope_cache(&query, &key, &weight, &weight, &cache, config(6))
        .expect("rotated and cached");
    assert!(matches!(
        batch.qk_norm_rope_cache(&query, &key, &weight, &weight, &cache, config(7)),
        Err(KernelError::QkTransformOffset)
    ));
    assert!(matches!(
        batch.qk_norm_rope_cache(&query, &query, &weight, &weight, &cache, config(0)),
        Err(KernelError::QkTransformShape)
    ));
    assert!(matches!(
        batch.rope(&half(&mut memory, &[1, 1, 3]), 0, 5),
        Err(KernelError::RopeOddHeadDim)
    ));
    assert!(matches!(batch.rope(&weight, 0, 5), Err(KernelError::RopeRank)));
    assert_eq!(
        launches(batch.recorder).iter().map(shape_of).collect::<Vec<_>>(),
        vec![
            (
                "rope_f16",
                Params::Rope { tokens: 2, heads: 4, head_dim: 128, offset: 3, theta: 5 },
                size(64, 4, 2),
                size(32, 1, 1)
            ),
            (
                "qk_norm_rope_cache_f16",
                Params::QkTransform {
                    tokens: 2,
                    query_heads: 4,
                    kv_heads: 2,
                    head_dim: 128,
                    offset: 6,
                    theta: 5,
                    cache_capacity: 8,
                    epsilon: 6,
                },
                size(384, 1, 1),
                size(32, 1, 1)
            ),
        ]
    );
}

#[test]
fn a_cache_takes_what_fits() {
    let tuning = tuned();
    let mut memory = DeviceMemory::new();
    let mut batch = batch(&tuning);
    let source = half(&mut memory, &[2, 2, 16]);
    let cache = half(&mut memory, &[4, 2, 16]);
    batch.copy_into_cache(&source, &cache, 2).expect("room");
    assert!(matches!(
        batch.copy_into_cache(&source, &cache, 3),
        Err(KernelError::KvCapacity)
    ));
    assert!(matches!(
        batch.copy_into_cache(&source, &half(&mut memory, &[4, 1, 16]), 0),
        Err(KernelError::KvShape)
    ));
    assert!(matches!(
        batch.copy_into_cache(&half(&mut memory, &[4]), &cache, 0),
        Err(KernelError::KvSourceRank)
    ));
    assert_eq!(
        launches(batch.recorder).iter().map(shape_of).collect::<Vec<_>>(),
        vec![(
            "copy_kv_f16",
            Params::Copy { tokens: 2, offset: 2, stride: 32 },
            size(64, 1, 1),
            size(64, 1, 1)
        )]
    );
}

#[test]
fn the_greatest_logit_is_found_in_two_steps() {
    let tuning = tuned();
    let mut memory = DeviceMemory::new();
    let mut batch = batch(&tuning);
    let logits = half(&mut memory, &[2049]);
    let output = memory.empty(&[1], DType::U32).expect("a slot");
    batch.argmax(&logits, &output).expect("a token");
    assert!(matches!(
        batch.argmax(&half(&mut memory, &[1, 5]), &output),
        Err(KernelError::ArgmaxLogitsShape)
    ));
    assert!(matches!(
        batch.argmax(&logits, &logits),
        Err(KernelError::ArgmaxOutputShape)
    ));
    assert_eq!(
        launches(batch.recorder).iter().map(shape_of).collect::<Vec<_>>(),
        vec![
            (
                "argmax_f16_partial",
                Params::Count { count: 2049 },
                size(512, 1, 1),
                size(256, 1, 1)
            ),
            (
                "argmax_f16_reduce",
                Params::Count { count: 2 },
                size(256, 1, 1),
                size(256, 1, 1)
            ),
        ]
    );
}

fn matmul_launch(tuning: &Tuning, m: usize, n: usize, k: usize) -> (&'static str, Size, Size) {
    let mut memory = DeviceMemory::new();
    let mut batch = batch(tuning);
    let input = half(&mut memory, &[m, k]);
    let weight = half(&mut memory, &[n, k]);
    let out = batch.matmul(&input, &weight).expect("a product");
    assert_eq!(out.shape(), &[m, n]);
    let launches = launches(batch.recorder);
    assert_eq!(launches.len(), 1);
    (launches[0].kernel, launches[0].grid, launches[0].threadgroup)
}

#[test]
fn products_are_tiled_by_their_shape() {
    let tuned = tuned();
    let plain = Tuning::new("Apple M3");
    assert_eq!(
        matmul_launch(&tuned, 1, 1024, 2048),
        ("matvec_tuned2_f16", size(16_384, 1, 1), size(128, 1, 1))
    );
    assert_eq!(
        matmul_launch(&tuned, 1, 1024, 3072),
        ("matvec_one_row_f16", size(32_768, 1, 1), size(256, 1, 1))
    );
    assert_eq!(
        matmul_launch(&tuned, 1, 33, 512),
        ("matvec_tuned_f16", size(384, 1, 1), size(128, 1, 1))
    );
    assert_eq!(
        matmul_launch(&plain, 1, 33, 512),
        ("matvec_f16", size(512, 1, 1), size(256, 1, 1))
    );
    assert_eq!(
        matmul_launch(&tuned, 9, 256, 256),
        ("matmul_skinny_f16", size(2048, 1, 1), size(128, 1, 1))
    );
    assert_eq!(
        matmul_launch(&tuned, 129, 256, 256),
        ("matmul_simd_db_f16", size(5120, 1, 1), size(128, 1, 1))
    );
    assert_eq!(
        matmul_launch(&plain, 17, 33, 19),
        ("matmul_f16", size(48, 32, 1), size(16, 16, 1))
    );
}

#[test]
fn products_of_different_inner_widths_are_refused() {
    let tuning = tuned();
    let mut memory = DeviceMemory::new();
    let mut batch = batch(&tuning);
    let input = half(&mut memory, &[2, 8]);
    let weight = half(&mut memory, &[4, 9]);
    assert!(matches!(
        batch.matmul(&input, &weight),
        Err(KernelError::MatmulInnerDimension)
    ));
    assert!(matches!(
        batch.matmul(&half(&mut memory, &[8]), &weight),
        Err(KernelError::ExpectedMatrix)
    ));
    assert!(launches(batch.recorder).is_empty(), "a refused product launches nothing");
}

fn attention_launches(
    tokens: usize,
    length: usize,
    config: AttentionConfig,
    kind: AttentionKind,
) -> Result<Vec<(&'static str, Size, Size)>, KernelError> {
    let tuning = Tuning::new("Apple M4 Pro");
    let mut memory = DeviceMemory::new();
    let mut batch = batch(&tuning);
    let query = half(&mut memory, &[tokens, config.query_heads, config.head_dim]);
    let key = half(&mut memory, &[length, config.kv_heads, config.head_dim]);
    let value = half(&mut memory, &[length, config.kv_heads, config.head_dim]);
    batch.attention(&query, &key, &value, config, kind)?;
    Ok(launches(batch.recorder)
        .iter()
        .map(|launch| (launch.kernel, launch.grid, launch.threadgroup))
        .collect())
}

fn heads(query_heads: usize, kv_heads: usize, head_dim: usize, query_offset: usize) -> AttentionConfig {
    AttentionConfig { query_heads, kv_heads, head_dim, causal: true, query_offset }
}

#[test]
fn attention_kernels_cover_the_query() {
    assert_eq!(
        attention_launches(3, 8, heads(4, 2, 128, 5), AttentionKind::Reference).expect("launched"),
        vec![("attention_reference_f16", size(128, 4, 3), size(128, 1, 1))]
    );
    assert_eq!(
        attention_launches(3, 8, heads(4, 2, 128, 5), AttentionKind::Tiled).expect("launched"),
        vec![("attention_tiled_f16", size(384, 1, 1), size(32, 1, 1))]
    );
    assert_eq!(
        attention_launches(33, 64, heads(4, 2, 128, 0), AttentionKind::FlashPrefill)
            .expect("launched"),
        vec![("attention_flash_prefill_f16", size(256, 4, 1), size(128, 1, 1))]
    );
    assert_eq!(
        attention_launches(1, 8, heads(4, 2, 128, 7), AttentionKind::DecodeSplitKv)
            .expect("launched"),
        vec![("attention_decode_f16", size(1024, 1, 1), size(256, 1, 1))]
    );
    assert_eq!(
        attention_launches(1, 200, heads(4, 2, 128, 129), AttentionKind::FlashDecode)
            .expect("launched"),
        vec![
            ("attention_flash_decode_partial_f16", size(768, 1, 1), size(128, 1, 1)),
            ("attention_flash_decode_reduce_f16", size(512, 1, 1), size(128, 1, 1)),
        ],
        "three blocks of 64 keys hold the 130 that are available"
    );
    assert_eq!(
        attention_launches(1, 8, heads(4, 2, 64, 7), AttentionKind::FlashDecode).expect("launched"),
        vec![("attention_decode_f16", size(1024, 1, 1), size(256, 1, 1))],
        "flash decode is built for heads of 128"
    );
}

#[test]
fn attention_refuses_what_its_kernels_cannot_do() {
    assert!(matches!(
        attention_launches(2, 8, heads(4, 2, 128, 0), AttentionKind::DecodeSplitKv),
        Err(KernelError::DecodeAttentionTokens)
    ));
    assert!(matches!(
        attention_launches(1, 8, heads(4, 1, 128, 0), AttentionKind::FlashDecode),
        Err(KernelError::FlashDecodeHeadRatio)
    ));
    assert!(matches!(
        attention_launches(1, 8, heads(4, 3, 128, 0), AttentionKind::Tiled),
        Err(KernelError::AttentionHeadRatio)
    ));
    assert!(matches!(
        attention_launches(1, 8, heads(4, 2, 96, 0), AttentionKind::Tiled),
        Err(KernelError::TiledAttentionHeadDim)
    ));
    assert!(attention_launches(1, 8, heads(4, 2, 96, 0), AttentionKind::Reference).is_ok());
}

#[test]
fn flash_decode_takes_a_block_that_is_built() {
    let tuning = Tuning::new("Apple M4 Pro");
    let mut memory = DeviceMemory::new();
    let mut batch = batch(&tuning);
    let query = half(&mut memory, &[1, 4, 128]);
    let cache = half(&mut memory, &[300, 2, 128]);
    let config = heads(4, 2, 128, 299);
    batch
        .attention_flash_decode_with_block(&query, &cache, &cache, config, 128)
        .expect("launched");
    assert!(matches!(
        batch.attention_flash_decode_with_block(&query, &cache, &cache, config, 48),
        Err(KernelError::FlashDecodeBlockSize)
    ));
    let launches = launches(batch.recorder);
    assert_eq!(launches[0].grid, size(768, 1, 1));
    assert_eq!(launches[0].params.words(), vec![1, 4, 2, 128, 1, 299, 300, 128]);
}

#[test]
fn flash_decode_of_other_heads_ignores_its_block() {
    let tuning = Tuning::new("Apple M4 Pro");
    let mut memory = DeviceMemory::new();
    let query = half(&mut memory, &[1, 4, 64]);
    let cache = half(&mut memory, &[8, 1, 64]);
    let config = heads(4, 1, 64, 7);
    let mut flash = batch(&tuning);
    flash.attention_flash_decode_with_block(&query, &cache, &cache, config, 48).expect("launched");
    let mut split = batch(&tuning);
    split.attention(&query, &cache, &cache, config, AttentionKind::DecodeSplitKv).expect("launched");
    let flash = launches(flash.recorder);
    let split = launches(split.recorder);
    assert_eq!(flash.len(), 1);
    assert_eq!(flash[0].kernel, split[0].kernel);
    assert_eq!(flash[0].params, split[0].params);
    assert_eq!(flash[0].grid, split[0].grid);
    let two = half(&mut memory, &[2, 4, 64]);
    let mut refused = batch(&tuning);
    assert!(matches!(
        refused.attention_flash_decode_with_block(&two, &cache, &cache, config, 64),
        Err(KernelError::DecodeAttentionTokens)
    ));
}

fn settings(backend: MatmulBackend, split_k: usize) -> DeviceSettings {
    DeviceSettings {
        device_name: "Apple M4 Pro".into(),
        is_m4_pro: true,
        matmul_backend: backend,
        rows: MatvecRows { single: 4, vocab: 2, fused2: 2, fused3: 2 },
        split_k,
        half8: false,
        manual_rows: false,
        autotuned: false,
        selection: KernelSelection::default(),
    }
}

#[test]
fn settings_choose_the_multiplier() {
    let mut memory = DeviceMemory::new();
    let input = half(&mut memory, &[2, 64]);
    let weight = half(&mut memory, &[3, 64]);
    let mps = settings(MatmulBackend::Mps, 1);
    let mut batch = CommandBatch::new(Recorder::new(0, ScratchState::new(), false), &mps);
    batch.matmul(&input, &weight).expect("a product");
    let commands = batch.recorder.finish().0;
    match &commands[0] {
        Command::Multiply(multiply) => {
            assert_eq!((multiply.m, multiply.n, multiply.k), (2, 3, 64));
            assert_eq!(multiply.left_row_bytes, 128);
            assert_eq!(multiply.right_row_bytes, 128);
            assert_eq!(multiply.result_row_bytes, 6);
        }
        Command::Dispatch(_) => panic!("the system multiplies"),
    }
    let split = settings(MatmulBackend::Auto, 4);
    let mut batch = CommandBatch::new(Recorder::new(0, ScratchState::new(), false), &split);
    let vector = half(&mut memory, &[1, 512]);
    let matrix = half(&mut memory, &[100, 512]);
    batch.matmul(&vector, &matrix).expect("a product");
    assert_eq!(
        launches(batch.recorder).iter().map(shape_of).collect::<Vec<_>>(),
        vec![
            (
                "matvec_splitk_partial_f16",
                Params::Matrix { m: 1, n: 100, k: 512, padding: 4 },
                size(13_312, 1, 1),
                size(256, 1, 1)
            ),
            (
                "matvec_splitk_reduce_f16",
                Params::Matrix { m: 1, n: 100, k: 512, padding: 4 },
                size(256, 1, 1),
                size(256, 1, 1)
            ),
        ]
    );
    let native = settings(MatmulBackend::NativeMsl, 1);
    let mut batch = CommandBatch::new(Recorder::new(0, ScratchState::new(), false), &native);
    let left = half(&mut memory, &[32, 48]);
    let right = half(&mut memory, &[64, 48]);
    batch.matmul(&left, &right).expect("a product");
    assert_eq!(
        launches(batch.recorder).iter().map(shape_of).collect::<Vec<_>>(),
        vec![(
            "matmul_simd_f16",
            Params::Matrix { m: 32, n: 64, k: 48, padding: 0 },
            size(256, 1, 1),
            size(128, 1, 1)
        )]
    );
}

#[test]
fn settings_split_flash_decode_by_threads() {
    let settings = settings(MatmulBackend::Auto, 1);
    let mut memory = DeviceMemory::new();
    let mut batch = CommandBatch::new(Recorder::new(0, ScratchState::new(), false), &settings);
    let query = half(&mut memory, &[1, 4, 128]);
    let cache = half(&mut memory, &[300, 2, 128]);
    let config = heads(4, 2, 128, 299);
    batch
        .attention_flash_decode_with_configuration(&query, &cache, &cache, config, 32, 128)
        .expect("launched");
    assert!(matches!(
        batch.attention_flash_decode_with_configuration(&query, &cache, &cache, config, 32, 64),
        Err(KernelError::FlashDecodeThreads)
    ));
    assert_eq!(
        launches(batch.recorder)
            .iter()
            .map(|launch| (launch.kernel, launch.grid, launch.threadgroup))
            .collect::<Vec<_>>(),
        vec![
            ("attention_flash_decode_partial_128_f16", size(2560, 1, 1), size(128, 1, 1)),
            ("attention_flash_decode_reduce_f16", size(128, 1, 1), size(32, 1, 1)),
        ]
    );
}
