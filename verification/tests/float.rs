use gdsii::{GdsEightByteReal, GdsFourByteReal, NotRepresentable, RealParts};

/// The value of a real, from its exact parts.
fn value(p: RealParts) -> f64 {
    let sign = if p.negative { -1.0 } else { 1.0 };
    sign * (p.mantissa as f64) * 2f64.powi(p.exponent)
}

fn eight(x: f64) -> Result<GdsEightByteReal, NotRepresentable> {
    GdsEightByteReal::from_f64_bits(x.to_bits())
}

fn four(x: f64) -> Result<GdsFourByteReal, NotRepresentable> {
    GdsFourByteReal::from_f64_bits(x.to_bits())
}

#[test]
fn eight_byte_real_zero() {
    assert!((value(GdsEightByteReal([0u8; 8]).parts()) - 0.0).abs() < f64::EPSILON);
}

#[test]
fn four_byte_real_zero() {
    assert!((value(GdsFourByteReal([0u8; 4]).parts()) - 0.0).abs() < f64::EPSILON);
}

#[test]
fn eight_byte_real_one() {
    // 1.0 = 0.0625 x 16^1: exponent byte 64 + 1 = 0x41, mantissa 0x10_0000_0000_0000
    let r = GdsEightByteReal([0x41, 0x10, 0x00, 0x00, 0x00, 0x00, 0x00, 0x00]);
    let v = value(r.parts());
    assert!((v - 1.0).abs() < 1e-15, "expected 1.0, got {v}");
}

#[test]
fn eight_byte_real_negative_one() {
    // -1.0: sign bit set, first byte 0xC1
    let r = GdsEightByteReal([0xC1, 0x10, 0x00, 0x00, 0x00, 0x00, 0x00, 0x00]);
    let v = value(r.parts());
    assert!((v + 1.0).abs() < 1e-15, "expected -1.0, got {v}");
}

#[test]
fn encode_decode_eight_byte_round_trip_manual() {
    for &x in &[1.0f64, -1.0, 0.5, 1.5, 0.1, 1e10, -1e-10, 42.0] {
        let encoded = eight(x).expect("should encode");
        let decoded = value(encoded.parts());
        assert_eq!(decoded, x, "round-trip not exact for {x}");
    }
}

#[test]
fn encode_decode_four_byte_round_trip_manual() {
    for &x in &[1.0f64, -1.0, 0.5, 1.5, 42.0] {
        let encoded = four(x).expect("should encode");
        let decoded = value(encoded.parts());
        // a four-byte real has a 24-bit mantissa; allow about 1e-6 relative error
        let rel_err = (decoded - x).abs() / x.abs();
        assert!(rel_err < 1e-6, "round-trip failed for {x}: got {decoded}, rel_err={rel_err}");
    }
}

#[test]
fn not_representable_nan_inf() {
    assert!(eight(f64::NAN).is_err());
    assert!(eight(f64::INFINITY).is_err());
    assert!(four(f64::NAN).is_err());
    assert!(four(f64::INFINITY).is_err());
}

#[test]
fn eight_byte_encodings_of_known_values() {
    assert_eq!(eight(1.0).unwrap().raw(), [0x41, 0x10, 0, 0, 0, 0, 0, 0]);
    assert_eq!(eight(-1.0).unwrap().raw(), [0xC1, 0x10, 0, 0, 0, 0, 0, 0]);
    assert_eq!(eight(0.001).unwrap().raw(), [0x3E, 0x41, 0x89, 0x37, 0x4B, 0xC6, 0xA7, 0xF0]);
    assert_eq!(eight(1e-9).unwrap().raw(), [0x39, 0x44, 0xB8, 0x2F, 0xA0, 0x9B, 0x5A, 0x54]);
    assert_eq!(eight(0.5).unwrap().raw(), [0x40, 0x80, 0, 0, 0, 0, 0, 0]);
}

#[test]
fn four_byte_encodings_of_known_values() {
    assert_eq!(four(1.0).unwrap().raw(), [0x41, 0x10, 0, 0]);
    assert_eq!(four(-2.0).unwrap().raw(), [0xC1, 0x20, 0, 0]);
    assert_eq!(four(42.0).unwrap().raw(), [0x42, 0x2A, 0, 0]);
}

#[test]
fn zeros_encode_as_true_zero() {
    assert_eq!(eight(0.0).unwrap().raw(), [0u8; 8]);
    assert_eq!(eight(-0.0).unwrap().raw(), [0u8; 8]);
    assert_eq!(four(-0.0).unwrap().raw(), [0u8; 4]);
}

#[test]
fn out_of_range_magnitudes_are_not_representable() {
    assert_eq!(eight(1e300), Err(NotRepresentable));
    assert_eq!(eight(-1e300), Err(NotRepresentable));
    assert_eq!(eight(1e-300), Err(NotRepresentable));
    assert_eq!(four(1e-300), Err(NotRepresentable));
    assert_eq!(eight(f64::NEG_INFINITY), Err(NotRepresentable));
}

#[test]
fn four_byte_rounds_to_nearest_even() {
    // Near 1.0 a four-byte real steps by 2^-20. A quarter step rounds down, three
    // quarters round up; a half step goes to the even mantissa, down from 0x100000 and up
    // from 0x100001.
    assert_eq!(four(1.0 + 2f64.powi(-22)).unwrap().raw(), [0x41, 0x10, 0x00, 0x00]);
    assert_eq!(four(1.0 + 3.0 * 2f64.powi(-22)).unwrap().raw(), [0x41, 0x10, 0x00, 0x01]);
    assert_eq!(four(1.0 + 2f64.powi(-21)).unwrap().raw(), [0x41, 0x10, 0x00, 0x00]);
    assert_eq!(four(1.0 + 3.0 * 2f64.powi(-21)).unwrap().raw(), [0x41, 0x10, 0x00, 0x02]);
}

#[test]
fn parts_are_exact() {
    let p = GdsEightByteReal([0x41, 0x10, 0, 0, 0, 0, 0, 0]).parts();
    assert_eq!(p, RealParts { negative: false, mantissa: 0x10_0000_0000_0000, exponent: -52 });
    let q = GdsFourByteReal([0xC1, 0x20, 0, 0]).parts();
    assert_eq!(q, RealParts { negative: true, mantissa: 0x20_0000, exponent: -20 });
}
