use metal_infer::flash_tuning::{FlashTuner, Stage};
use metal_infer::gpu::DeviceMemory;
use metal_infer::tuning::{FlashDecodeBlock, Tuning};

#[test]
fn only_a_tuned_device_with_paired_heads_is_measured() {
    let tuned = Tuning::new("Apple M4 Pro");
    assert!(FlashTuner::begin(&tuned, 16, 8, 128).is_some());
    assert!(FlashTuner::begin(&tuned, 16, 4, 128).is_none());
    assert!(FlashTuner::begin(&tuned, 17, 8, 128).is_none());
    assert!(FlashTuner::begin(&tuned, 16, 8, 0).is_none());
    assert!(FlashTuner::begin(&Tuning::new("Apple M3"), 16, 8, 128).is_none());
}

/// Times every block of a length, each three times.
fn measure_length(tuner: &mut FlashTuner, times: [u128; 8]) {
    assert_eq!(tuner.stage, Stage::Length);
    tuner.tick(false);
    for time in times {
        assert_eq!(tuner.stage, Stage::Block);
        tuner.tick(false);
        tuner.measure(time + 100);
        tuner.measure(0);
        tuner.measure(time);
    }
}

#[test]
fn the_fastest_median_wins() {
    let mut tuning = Tuning::new("Apple M4 Pro");
    let mut tuner = FlashTuner::begin(&tuning, 16, 8, 128).expect("measured");
    measure_length(&mut tuner, [9, 8, 7, 6, 5, 4, 3, 2]);
    measure_length(&mut tuner, [9, 3, 7, 3, 5, 4, 3, 9]);
    measure_length(&mut tuner, [1, 1, 1, 1, 1, 1, 1, 1]);
    measure_length(&mut tuner, [5, 5, 4, 5, 5, 5, 5, 5]);
    measure_length(&mut tuner, [5, 5, 5, 5, 5, 1, 5, 5]);
    measure_length(&mut tuner, [5, 5, 5, 5, 0, 1, 5, 5]);
    assert_eq!(tuner.stage, Stage::Finished);
    let block = |max_length, block, threads| FlashDecodeBlock { max_length, block, threads };
    let expected = vec![
        block(512, 256, 128),
        block(640, 32, 256),
        block(1024, 64, 256),
        block(2048, 128, 256),
        block(4096, 32, 128),
        block(8192, 64, 128),
    ];
    assert_eq!(tuner.chosen, expected);
    tuner.apply(&mut tuning);
    assert_eq!(tuning.selection().flash_decode_blocks, expected);
    assert_eq!(tuning.flash_decode_configuration_for_length(600), (32, 256));
    assert_eq!(tuning.flash_decode_configuration_for_length(9000), (64, 256));
}

#[test]
fn time_that_is_up_ends_the_measurement() {
    let tuning = Tuning::new("Apple M4 Pro");
    let mut tuner = FlashTuner::begin(&tuning, 16, 8, 128).expect("measured");
    tuner.tick(false);
    tuner.tick(true);
    assert_eq!(
        tuner.chosen,
        vec![FlashDecodeBlock { max_length: 512, block: 64, threads: 256 }]
    );
    tuner.tick(true);
    assert_eq!(tuner.stage, Stage::Finished);
    assert_eq!(tuner.chosen.len(), 1);
}

#[test]
fn a_measurement_runs_on_the_longest_cache() {
    let tuning = Tuning::new("Apple M4 Pro");
    let tuner = FlashTuner::begin(&tuning, 16, 8, 128).expect("measured");
    let mut device = DeviceMemory::new();
    let tensors = tuner.tensors(&mut device).expect("buffers");
    assert_eq!(tensors.query.shape(), &[1, 16, 128]);
    assert_eq!(tensors.key.shape(), &[8192, 8, 128]);
    assert_eq!(tensors.value.shape(), &[8192, 8, 128]);
    assert_eq!(device.lens, vec![4096, 16_777_216, 16_777_216]);
}
