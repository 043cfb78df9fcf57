use sunscreen_compiler::codec::{
    decode_fractional_digits, encode_fractional_bits, InnerPlaintext, Plaintext, Polynomial,
    SignedDigit,
};
use sunscreen_compiler::{Error, Params, SchemeType, SecurityLevel};

fn params(lattice_dimension: u64, plain_modulus: u64) -> Params {
    Params {
        lattice_dimension,
        plain_modulus,
        coeff_modulus: vec![],
        scheme_type: SchemeType::Bfv,
        security_level: SecurityLevel::TC128,
    }
}

fn sum_digits(digits: &[SignedDigit]) -> f64 {
    let mut val = 0.0f64;
    for d in digits {
        let term = d.magnitude as f64 * (d.power as f64).exp2();
        if d.negative {
            val -= term;
        } else {
            val += term;
        }
    }
    val
}

fn coefficients(p: &Plaintext) -> &Vec<u64> {
    match &p.inner {
        InnerPlaintext::Seal(v) => &v[0].coefficients,
    }
}

#[test]
fn can_encode_decode_fractional() {
    let round_trip = |x: f64| {
        let params = params(4096, 1_000_000);
        let pt = encode_fractional_bits(x.to_bits(), 64, &params).unwrap();
        let digits = decode_fractional_digits(&pt, 64, &params).unwrap();
        let y = sum_digits(&digits);
        assert_eq!(x, y);
    };

    round_trip(5.8125);
    round_trip(6.0);
    round_trip(6.6);
    round_trip(1.2);
    round_trip(1e13);
    round_trip(0.0000000005);
    round_trip(-1.0);
    round_trip(-5.875);
    round_trip(-6.0);
    round_trip(-6.6);
    round_trip(-1.2);
    round_trip(-1e13);
    round_trip(-0.0000000005);
}

#[test]
fn encode_six_point_six_layout() {
    let params = params(4096, 1_000_000);
    let pt = encode_fractional_bits(6.6f64.to_bits(), 64, &params).unwrap();
    let c = coefficients(&pt);
    assert_eq!(c.len(), 4096);
    assert_eq!(c[0], 0);
    assert_eq!(c[1], 1);
    assert_eq!(c[2], 1);
    assert_eq!(c[3], 0);
    // 0.6 = 0.1001 1001 ...b, each fractional digit stored negated.
    assert_eq!(c[4095], 999_999);
    assert_eq!(c[4094], 0);
    assert_eq!(c[4093], 0);
    assert_eq!(c[4092], 999_999);
    assert_eq!(c[4091], 999_999);
    let digits = decode_fractional_digits(&pt, 64, &params).unwrap();
    assert_eq!(sum_digits(&digits), 6.6);
}

#[test]
fn encode_negative_integer_layout() {
    let params = params(4096, 1_000_000);
    let pt = encode_fractional_bits((-6.0f64).to_bits(), 64, &params).unwrap();
    let c = coefficients(&pt);
    assert_eq!(c[0], 0);
    assert_eq!(c[1], 999_999);
    assert_eq!(c[2], 999_999);
    assert!(c[3..].iter().all(|&x| x == 0));
}

#[test]
fn encode_rejects_nan_infinity_and_out_of_range() {
    let params = params(4096, 1_000_000);
    for x in [f64::NAN, f64::INFINITY, f64::NEG_INFINITY, 2f64.powi(64)] {
        match encode_fractional_bits(x.to_bits(), 64, &params) {
            Err(Error::FheTypeError(_)) => {}
            _ => panic!("expected a type error for {}", x),
        }
    }
    match encode_fractional_bits(2f64.powi(8).to_bits(), 8, &params) {
        Err(Error::FheTypeError(_)) => {}
        _ => panic!("expected a type error"),
    }
    assert!(encode_fractional_bits((2f64.powi(8) - 1.0).to_bits(), 8, &params).is_ok());
    assert!(encode_fractional_bits((2f64.powi(64) - 2048.0).to_bits(), 64, &params).is_ok());
}

#[test]
fn encode_zero_and_subnormal_is_zero_polynomial() {
    let params = params(2048, 65537);
    for x in [0.0f64, -0.0f64, f64::MIN_POSITIVE / 4.0] {
        let pt = encode_fractional_bits(x.to_bits(), 64, &params).unwrap();
        let c = coefficients(&pt);
        assert_eq!(c.len(), 2048);
        assert!(c.iter().all(|&v| v == 0));
    }
}

#[test]
fn decode_rejects_wrong_polynomial_count() {
    let params = params(4096, 1_000_000);
    let empty = Plaintext { inner: InnerPlaintext::Seal(vec![]) };
    assert!(matches!(
        decode_fractional_digits(&empty, 64, &params),
        Err(Error::IncorrectCiphertextCount)
    ));
    let poly = Polynomial { coefficients: vec![1, 2] };
    let two = Plaintext { inner: InnerPlaintext::Seal(vec![poly.clone(), poly]) };
    assert!(matches!(
        decode_fractional_digits(&two, 64, &params),
        Err(Error::IncorrectCiphertextCount)
    ));
}

#[test]
fn decode_short_polynomial_and_sign_cutoff() {
    let params = params(4096, 1_000_000);
    let poly = Polynomial { coefficients: vec![3, 500_000, 500_001, 999_999] };
    let pt = Plaintext { inner: InnerPlaintext::Seal(vec![poly]) };
    let digits = decode_fractional_digits(&pt, 2, &params).unwrap();
    assert_eq!(digits.len(), 4);
    assert_eq!(digits[0], SignedDigit { power: 0, negative: false, magnitude: 3 });
    assert_eq!(digits[1], SignedDigit { power: 1, negative: false, magnitude: 500_000 });
    // Index 2 is past the integer digits: weight 2^(2 - 4096), sign inverted.
    assert_eq!(digits[2], SignedDigit { power: -4094, negative: false, magnitude: 499_999 });
    assert_eq!(digits[3], SignedDigit { power: -4093, negative: false, magnitude: 1 });
}

#[test]
fn decode_stops_at_lattice_dimension() {
    let params = params(2, 7);
    let poly = Polynomial { coefficients: vec![1, 6, 5] };
    let pt = Plaintext { inner: InnerPlaintext::Seal(vec![poly]) };
    let digits = decode_fractional_digits(&pt, 1, &params).unwrap();
    assert_eq!(digits.len(), 2);
    assert_eq!(digits[0], SignedDigit { power: 0, negative: false, magnitude: 1 });
    assert_eq!(digits[1], SignedDigit { power: -1, negative: false, magnitude: 1 });
}

#[test]
fn encode_wide_integer_part_in_small_polynomial() {
    let params = params(1024, 1_000_000);
    let pt = encode_fractional_bits(2f64.powi(999).to_bits(), 1000, &params).unwrap();
    let c = coefficients(&pt);
    assert_eq!(c.len(), 1024);
    assert_eq!(c[999], 1);
    assert_eq!(c.iter().filter(|&&v| v != 0).count(), 1);
    let neg = encode_fractional_bits((-2f64.powi(999)).to_bits(), 1000, &params).unwrap();
    assert_eq!(coefficients(&neg)[999], 999_999);
    match encode_fractional_bits(2f64.powi(1000).to_bits(), 1000, &params) {
        Err(Error::FheTypeError(_)) => {}
        _ => panic!("expected a type error"),
    }
}

#[test]
fn decode_wrong_count_ignores_coefficient_range() {
    let params = params(4096, 7);
    let poly = Polynomial { coefficients: vec![100, 200] };
    let two = Plaintext { inner: InnerPlaintext::Seal(vec![poly.clone(), poly]) };
    assert!(matches!(
        decode_fractional_digits(&two, 64, &params),
        Err(Error::IncorrectCiphertextCount)
    ));
}
