use half::{bf16, f16};
use metal_infer::halves::{narrow, narrow_into, repeat_into};

#[test]
fn every_number_is_narrowed_as_by_single_precision() {
    for bits in 0..=u16::MAX {
        let expected = f16::from_f32(bf16::from_bits(bits).to_f32());
        if expected.is_nan() {
            assert!(f16::from_bits(narrow(bits)).is_nan(), "{bits:#06x}");
        } else {
            assert_eq!(narrow(bits), expected.to_bits(), "{bits:#06x}");
        }
    }
}

#[test]
fn edges_are_narrowed() {
    let cases = [
        (0x3f80, 0x3c00),
        (0x8000, 0x8000),
        (0x477f, 0x7bf8),
        (0x4780, 0x7c00),
        (0xff80, 0xfc00),
        (0x7fc0, 0x7e00),
        (0x7f81, 0x7e08),
        (0x3880, 0x0400),
        (0x3380, 0x0001),
        (0x3300, 0x0000),
        (0x3301, 0x0001),
        (0x32ff, 0x0000),
    ];
    for (bits, half) in cases {
        assert_eq!(narrow(bits), half, "{bits:#06x}");
    }
}

#[test]
fn bytes_are_narrowed_in_place_of_others() {
    let mut target = [7u8; 5];
    narrow_into(&[0x80, 0x3f, 0x81, 0x3f], &mut target);
    assert_eq!(target, [0x00, 0x3c, 0x08, 0x3c, 7]);
}

#[test]
fn a_number_is_repeated() {
    let mut target = [0u8; 5];
    repeat_into(0x3c00, &mut target);
    assert_eq!(target, [0x00, 0x3c, 0x00, 0x3c, 0x00]);
}
