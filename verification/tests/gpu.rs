use metal_infer::error::GpuError;
use metal_infer::gpu::memory::fill_words;
use metal_infer::gpu::profiling::{
    check_counters, completion_result, Completion, KernelBatchProfile, Profiler,
};
use metal_infer::gpu::scratch::{allocation_len, ScratchState};
use metal_infer::gpu::tensor::{checked_elements, Storage};
use metal_infer::gpu::{Command, DType, DeviceMemory, Params, Recorder, ScratchPools, Size, Tensor};

fn span(tensor: &Tensor) -> (usize, usize, usize) {
    match tensor.storage() {
        Storage::Scratch { chunk, span, .. } => (chunk, span.start, span.end),
        Storage::Device { .. } => panic!("a scratch tensor"),
    }
}

fn recorder() -> Recorder {
    Recorder::new(0, ScratchState::new(), false)
}

#[test]
fn scratch_is_handed_out_in_aligned_pieces() {
    assert_eq!(allocation_len(0), Ok(256));
    assert_eq!(allocation_len(256), Ok(256));
    assert_eq!(allocation_len(257), Ok(512));
    assert_eq!(allocation_len(usize::MAX), Err(GpuError::ScratchSizeOverflow));
    let mut batch = recorder();
    let first = batch.empty(&[100], DType::F16).expect("scratch");
    let second = batch.empty(&[200], DType::F16).expect("scratch");
    assert_eq!(span(&first), (0, 0, 256));
    assert_eq!(span(&second), (0, 256, 768));
    let large = batch.empty(&[1 << 20], DType::F16).expect("scratch");
    assert_eq!(span(&large), (1, 0, 1 << 21), "a chunk of its own");
}

#[test]
fn freed_scratch_is_used_again() {
    let mut batch = recorder();
    let first = batch.empty(&[128], DType::F16).expect("scratch");
    let second = batch.empty(&[128], DType::F16).expect("scratch");
    let third = batch.empty(&[128], DType::F16).expect("scratch");
    assert_eq!(span(&third), (0, 512, 768));
    batch.release(first);
    batch.release(second);
    let wide = batch.empty(&[256], DType::F16).expect("scratch");
    assert_eq!(span(&wide), (0, 0, 512), "freed neighbours are one span again");
}

#[test]
fn releasing_a_tensor_undoes_taking_it() {
    let mut batch = recorder();
    let kept = batch.empty(&[128], DType::F16).expect("scratch");
    let given_back = batch.empty(&[128], DType::F16).expect("scratch");
    let place = span(&given_back);
    batch.release(given_back);
    let again = batch.empty(&[128], DType::F16).expect("scratch");
    assert_eq!(span(&again), place);
    batch.release(again);
    let (_, _, scratch) = batch.finish();
    assert_eq!(scratch.live.len(), 1);
    assert_eq!(scratch.live[0].span.start, span(&kept).1);
}

#[test]
fn an_abandoned_batch_leaves_its_pool_idle() {
    let mut batch = recorder();
    for _ in 0..3 {
        batch.empty(&[1000], DType::F32).expect("scratch");
    }
    let pool = batch.abandon();
    let mut next = Recorder::new(0, pool, false);
    let whole = next.empty(&[1 << 18], DType::F32).expect("scratch");
    assert_eq!(span(&whole), (0, 0, 1 << 20), "the chunk is one free span");
}

#[test]
fn an_abandoned_batch_frees_nothing_of_others() {
    let mut first = recorder();
    let kept = first.empty(&[128], DType::F16).expect("scratch");
    let (_, _, pool) = first.finish();
    let mut second = Recorder::new(0, pool, false);
    for _ in 0..2 {
        second.empty(&[128], DType::F16).expect("scratch");
    }
    let pool = second.abandon();
    assert_eq!(pool.live.len(), 1);
    assert_eq!(pool.live[0].span.start, span(&kept).1);
    assert_eq!(pool.chunks.len(), 1);
}

#[test]
fn batches_that_run_together_have_pools_of_their_own() {
    let mut pools = ScratchPools::new();
    let (first, first_state) = pools.acquire();
    let (second, _) = pools.acquire();
    assert_ne!(first, second);
    pools.put_back(first, first_state);
    let (third, _) = pools.acquire();
    assert_eq!(third, first);
}

#[test]
fn shapes_are_counted_without_overflow() {
    assert_eq!(checked_elements(&[2, 3, 4]), Ok(24));
    assert_eq!(checked_elements(&[]), Err(GpuError::EmptyShape));
    assert_eq!(checked_elements(&[2, 0]), Err(GpuError::EmptyShape));
    assert_eq!(checked_elements(&[usize::MAX, 2]), Err(GpuError::ElementCountOverflow));
    let mut memory = DeviceMemory::new();
    assert!(matches!(
        memory.empty(&[usize::MAX], DType::F16),
        Err(GpuError::ByteLengthOverflow)
    ));
    assert!(matches!(
        memory.tensor_u32(&[1, 2], &[3]),
        Err(GpuError::DataLengthMismatch)
    ));
    assert!(memory.lens.is_empty());
}

#[test]
fn views_share_the_storage_of_their_tensor() {
    let mut memory = DeviceMemory::new();
    let tensor = memory.empty(&[4, 6], DType::F16).expect("a buffer");
    assert_eq!((tensor.len(), tensor.byte_len()), (24, 48));
    let reshaped = tensor.reshape(&[2, 12]).expect("as many elements");
    assert_eq!(reshaped.shape(), &[2, 12]);
    assert!(matches!(tensor.reshape(&[5]), Err(GpuError::ReshapeMismatch)));
    let prefix = tensor.prefix(2).expect("two rows");
    assert_eq!((prefix.shape(), prefix.offset_bytes()), (&[2usize, 6][..], 0));
    assert!(matches!(tensor.prefix(0), Err(GpuError::PrefixOutOfRange)));
    assert!(matches!(tensor.prefix(5), Err(GpuError::PrefixOutOfRange)));
    let row = tensor.row(3).expect("the last row");
    assert_eq!((row.shape(), row.offset_bytes()), (&[1usize, 6][..], 36));
    assert!(matches!(tensor.row(4), Err(GpuError::RowOutOfRange)));
    assert!(matches!(tensor.slice_1d(0, 1), Err(GpuError::SliceRank)));
    let words = memory.tensor_u32(&[7, 8, 9], &[3]).expect("words");
    let slice = words.slice_1d(1, 2).expect("two words");
    assert_eq!((slice.shape(), slice.offset_bytes()), (&[2usize][..], 4));
    assert!(matches!(words.slice_1d(2, 2), Err(GpuError::SliceOutOfRange)));
    assert!(matches!(words.slice_1d(usize::MAX, 2), Err(GpuError::SliceOverflow)));
    assert!(matches!(words.row(0), Err(GpuError::RowRank)));
    assert_eq!(words.expect_f16(), Err(GpuError::ExpectedF16));
    assert_eq!(tensor.expect_u32(), Err(GpuError::ExpectedU32));
    assert!(words.expect_u32().is_ok() && tensor.expect_f16().is_ok());
}

#[test]
fn a_profiled_batch_takes_two_timestamps_for_each_launch() {
    let one = Size { width: 1, height: 1, depth: 1 };
    let mut batch = Recorder::new(0, ScratchState::new(), true);
    for _ in 0..1024 {
        batch.dispatch("add_f16", vec![], Params::Count { count: 1 }, one, one).expect("room");
    }
    assert_eq!(
        batch.dispatch("add_f16", vec![], Params::Count { count: 1 }, one, one),
        Err(GpuError::TooManyProfiledDispatches)
    );
    let (commands, profile, _) = batch.finish();
    assert_eq!(commands.len(), 1024);
    assert!(profile.is_some());
    let samples: Vec<_> = commands
        .iter()
        .map(|command| match command {
            Command::Dispatch(dispatch) => dispatch.sample,
            Command::Multiply(_) => None,
        })
        .collect();
    assert_eq!(samples[0], Some(0));
    assert_eq!(samples[1023], Some(2046));
}

fn profiled(kernels: &[&str]) -> KernelBatchProfile {
    let mut profile = KernelBatchProfile::new();
    for kernel in kernels {
        profile.reserve(kernel).expect("room");
    }
    profile
}

#[test]
fn a_profiler_records_only_while_it_is_on() {
    let mut profiler = Profiler::new();
    assert_eq!(profiler.times_batches(None), Ok(false));
    let samples = vec![10, 15];
    assert_eq!(
        profiler.record(&profiled(&["matvec_f16"]), Some(&samples)),
        Err(GpuError::ProfilingDisabled)
    );
    assert_eq!(profiler.enable(5, 5, 5, 9), Err(GpuError::TimestampCalibration));
    assert_eq!(profiler.enable(5, 5, 25, 9), Ok(()));
    assert_eq!(profiler.calibration, Some((20, 4)));
    assert_eq!(profiler.times_batches(Some(true)), Ok(true));
    assert_eq!(profiler.times_batches(None), Err(GpuError::NoCounterSets));
    assert_eq!(profiler.times_batches(Some(false)), Err(GpuError::NoTimestampCounterSet));
    assert_eq!(profiler.record(&profiled(&["matvec_f16"]), Some(&samples)), Ok(()));
    profiler.disable();
    let profiles = profiler.take();
    assert_eq!(profiles.len(), 1, "one profiled dispatch");
    assert_eq!(profiles[0].kernel, "matvec_f16");
    assert_eq!(profiles[0].gpu_ticks, 5);
    assert!(profiler.take().is_empty());
}

#[test]
fn timestamps_that_the_device_did_not_write_are_refused() {
    let profile = profiled(&["a", "b"]);
    let resolve = |samples: Vec<u64>| profile.resolve(Some(&samples)).map(|list| list.len());
    assert_eq!(resolve(vec![1, 2, 3, 4]), Ok(2));
    assert_eq!(resolve(vec![1, 2, 3]), Err(GpuError::TimestampBufferSize));
    for bad in [vec![0, 2, 3, 4], vec![1, 2, 3, u64::MAX], vec![2, 1, 3, 4]] {
        assert_eq!(resolve(bad), Err(GpuError::InvalidTimestamps));
    }
    assert_eq!(profile.resolve(None).map(|list| list.len()), Err(GpuError::TimestampResolution));
    assert_eq!(profiled(&[]).resolve(None).map(|list| list.len()), Ok(0));
    assert_eq!(check_counters(true, Some(true)), Ok(()));
    assert_eq!(
        check_counters(false, None),
        Err(GpuError::StageBoundaryCountersUnsupported)
    );
    assert_eq!(check_counters(true, None), Err(GpuError::NoCounterSets));
    assert_eq!(check_counters(true, Some(false)), Err(GpuError::NoTimestampCounterSet));
}

#[test]
fn a_batch_that_failed_says_so() {
    assert_eq!(completion_result(Completion::Succeeded), Ok(()));
    assert_eq!(
        completion_result(Completion::Failed { described: true }),
        Err(GpuError::Command)
    );
    assert_eq!(
        completion_result(Completion::Failed { described: false }),
        Err(GpuError::CommandWithoutError)
    );
}

#[test]
fn constants_are_padded_words() {
    assert_eq!(Params::Norm { rows: 1, width: 2, epsilon: 3 }.words(), vec![1, 2, 3, 0]);
    assert_eq!(
        Params::Rope { tokens: 1, heads: 2, head_dim: 3, offset: 4, theta: 5 }.words(),
        vec![1, 2, 3, 4, 5, 0, 0, 0]
    );
    assert_eq!(Params::Matrix { m: 1, n: 2, k: 3, padding: 4 }.words(), vec![1, 2, 3, 4]);
}

#[test]
fn words_fill_a_buffer() {
    let mut buffer = [7u8; 10];
    assert_eq!(fill_words(&[0x0403_0201, 0xffff_fffe], &mut buffer), Ok(()));
    assert_eq!(buffer, [1, 2, 3, 4, 0xfe, 0xff, 0xff, 0xff, 7, 7]);
    assert_eq!(fill_words(&[0; 3], &mut buffer), Err(GpuError::DataLengthMismatch));
    assert_eq!(buffer[0], 1);
}

#[test]
fn profiles_follow_the_order_of_the_batches() {
    let mut profiler = Profiler::new();
    profiler.enable(0, 0, 10, 20).expect("both clocks moved");
    let names = |profiler: &Profiler| {
        profiler.profiles.iter().map(|profile| profile.kernel.clone()).collect::<Vec<_>>()
    };
    profiler.record(&profiled(&["a", "b"]), Some(&vec![1, 2, 3, 5])).expect("recorded");
    profiler.record(&profiled(&["c"]), None).expect_err("no timestamps");
    profiler.record(&profiled(&["d"]), Some(&vec![6, 7])).expect("recorded");
    assert_eq!(names(&profiler), vec!["a", "b", "d"]);
    profiler.disable();
    assert!(matches!(
        profiler.record(&profiled(&["e"]), Some(&vec![8, 9])),
        Err(GpuError::ProfilingDisabled)
    ));
    assert_eq!(names(&profiler), vec!["a", "b", "d"]);
    profiler.enable(10, 20, 30, 40).expect("both clocks moved");
    assert!(names(&profiler).is_empty());
}
