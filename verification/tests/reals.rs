use gds::reals::{
    bytes_to_gds_real, bytes_to_gds_real32, gds_real_32_to_bytes, gds_real_decode,
    gds_real_encode, gds_real_to_bytes, real64_is_encodable,
};
use gds::utils::{i16_to_vec, i32_to_vec, u16_to_vec, u32_to_vec, u64_to_vec};

fn round_trip_f64(x: f64) -> f64 {
    f64::from_bits(gds_real_decode(gds_real_encode(x.to_bits())))
}

#[test]
fn zero_encodes_with_bare_bias_byte() {
    assert_eq!(gds_real_to_bytes(0.0f64.to_bits()), [0x40, 0, 0, 0, 0, 0, 0, 0]);
    assert_eq!(gds_real_32_to_bytes(0.0f32.to_bits()), [0x40, 0, 0, 0]);
}

#[test]
fn representative_doubles_round_trip_exactly() {
    for x in [
        0.0,
        0.1,
        0.001,
        1e-9,
        2.5,
        -2.5,
        -0.1,
        12345.6789,
        -6.02214076e23,
        3.14159265358979,
        1.0 / 3.0,
        255.9999,
        1e30,
        -1e-30,
    ] {
        assert_eq!(round_trip_f64(x), x);
    }
}

#[test]
fn known_byte_patterns_decode() {
    // exponent 65, mantissa 2^52: 2^52 * 16^(65-78) == 1.0
    let one = bytes_to_gds_real(&[0x41, 0x10, 0, 0, 0, 0, 0, 0]);
    assert_eq!(f64::from_bits(one), 1.0);
    // the same with the sign bit
    let minus_one = bytes_to_gds_real(&[0xC1, 0x10, 0, 0, 0, 0, 0, 0]);
    assert_eq!(f64::from_bits(minus_one), -1.0);
    // all zero decodes to zero
    let zero = bytes_to_gds_real(&[0, 0, 0, 0, 0, 0, 0, 0]);
    assert_eq!(f64::from_bits(zero), 0.0);
}

#[test]
fn encode_emits_big_endian_bytes() {
    // 2.5 normalizes below 1 with one division by 16
    let raw = gds_real_encode(2.5f64.to_bits());
    let bytes = gds_real_to_bytes(2.5f64.to_bits());
    assert_eq!(bytes[0], 0x41);
    let mut expect = [0u8; 8];
    for i in 0..8 {
        expect[i] = ((raw >> (56 - 8 * i)) & 0xFF) as u8;
    }
    assert_eq!(bytes, expect);
    assert_eq!(f64::from_bits(gds_real_decode(raw)), 2.5);
}

#[test]
fn unnormalized_mantissa_decodes_by_value() {
    // exponent 64, mantissa 1: 16^(64-78) == 2^-56
    let tiny = bytes_to_gds_real(&[0x40, 0, 0, 0, 0, 0, 0, 1]);
    assert_eq!(f64::from_bits(tiny), (2.0f64).powi(-56));
}

#[test]
fn rounding_to_53_bits_matches_native_conversion() {
    // a 56-bit mantissa rounds to the nearest 53-bit significand,
    // exactly as the native u64-to-f64 conversion does
    let raw: u64 = (0x40u64 + 15) << 56 | (1u64 << 55) | 0x09;
    let got = f64::from_bits(gds_real_decode(raw));
    let exact = ((1u64 << 55) + 9) as f64 * 16.0;
    assert_eq!(got, exact);
}

#[test]
fn encodability_bounds() {
    assert!(real64_is_encodable(0.0f64.to_bits()));
    assert!(real64_is_encodable(1e30f64.to_bits()));
    assert!(!real64_is_encodable(f64::MAX.to_bits()));
    assert!(!real64_is_encodable(f64::INFINITY.to_bits()));
    assert!(!real64_is_encodable(f64::NAN.to_bits()));
    assert!(!real64_is_encodable(1e-300f64.to_bits()));
}

#[test]
fn representative_floats_round_trip_within_budget() {
    // lossless when the significand fits six hex digits
    for x in [0.5f32, -0.5, 2.0, 0.0625, 1024.0, -0.75] {
        let bytes = gds_real_32_to_bytes(x.to_bits());
        let back = f32::from_bits(bytes_to_gds_real32(&bytes));
        assert_eq!(back, x);
    }
    // within the 3-byte mantissa precision otherwise
    for x in [0.1f32, -1.1, 3.14159] {
        let bytes = gds_real_32_to_bytes(x.to_bits());
        let back = f32::from_bits(bytes_to_gds_real32(&bytes));
        assert!((back - x).abs() <= x.abs() * 1e-6);
    }
}

#[test]
fn float_zero_and_sign_bytes() {
    let bytes = gds_real_32_to_bytes((-0.5f32).to_bits());
    assert_eq!(bytes[0], 0xC0);
}

#[test]
fn big_endian_helpers() {
    assert_eq!(u16_to_vec(0x1234), vec![0x12, 0x34]);
    assert_eq!(i16_to_vec(-2), vec![0xFF, 0xFE]);
    assert_eq!(u32_to_vec(0xDEADBEEF), vec![0xDE, 0xAD, 0xBE, 0xEF]);
    assert_eq!(i32_to_vec(-1), vec![0xFF, 0xFF, 0xFF, 0xFF]);
    assert_eq!(i32_to_vec(0x01020304), vec![1, 2, 3, 4]);
    assert_eq!(
        u64_to_vec(0x0102030405060708),
        vec![1, 2, 3, 4, 5, 6, 7, 8]
    );
}
