use plural_operands::decimal::DecimalDigits;
use plural_operands::operands::{OperandsError, PluralOperands};

fn ops(i: u64, v: usize, w: usize, f: u64, t: u64) -> PluralOperands {
    PluralOperands { i, v, w, f, t }
}

#[test]
fn integer_string() {
    assert_eq!(Ok(ops(2, 0, 0, 0, 0)), PluralOperands::from_str("2"));
}

#[test]
fn negative_with_fraction() {
    assert_eq!(
        Ok(ops(1234, 3, 3, 567, 567)),
        PluralOperands::from_str("-1234.567")
    );
}

#[test]
fn plain_fraction() {
    assert_eq!(Ok(ops(123, 2, 2, 45, 45)), PluralOperands::from_str("123.45"));
}

#[test]
fn trailing_zeros_trimmed() {
    assert_eq!(Ok(ops(1, 3, 1, 500, 5)), PluralOperands::from_str("1.500"));
}

#[test]
fn internal_zero_kept() {
    assert_eq!(Ok(ops(1, 3, 2, 50, 5)), PluralOperands::from_str("1.050"));
}

#[test]
fn all_zero_fraction() {
    assert_eq!(Ok(ops(0, 3, 0, 0, 0)), PluralOperands::from_str("0.000"));
}

#[test]
fn empty_input_is_empty_error() {
    assert_eq!(Err(OperandsError::Empty), PluralOperands::from_str(""));
}

#[test]
fn malformed_inputs_are_invalid() {
    for bad in ["abc", "1.2.3", "--5", "."] {
        assert_eq!(
            Err(OperandsError::Invalid),
            PluralOperands::from_str(bad),
            "input {:?}",
            bad
        );
    }
}

#[test]
fn empty_integer_part_is_invalid() {
    assert_eq!(Err(OperandsError::Invalid), PluralOperands::from_str(".5"));
}

#[test]
fn empty_fraction_part_is_invalid() {
    assert_eq!(Err(OperandsError::Invalid), PluralOperands::from_str("1."));
}

#[test]
fn lone_minus_is_invalid() {
    assert_eq!(Err(OperandsError::Invalid), PluralOperands::from_str("-"));
}

#[test]
fn plus_sign_is_invalid() {
    assert_eq!(Err(OperandsError::Invalid), PluralOperands::from_str("+5"));
}

#[test]
fn non_ascii_digit_is_invalid() {
    assert_eq!(
        Err(OperandsError::Invalid),
        PluralOperands::from_str("1\u{661}2")
    );
}

#[test]
fn u64_max_is_accepted() {
    assert_eq!(
        Ok(ops(u64::MAX, 0, 0, 0, 0)),
        PluralOperands::from_str("18446744073709551615")
    );
}

#[test]
fn integer_overflow_is_invalid() {
    assert_eq!(
        Err(OperandsError::Invalid),
        PluralOperands::from_str("18446744073709551616")
    );
    assert_eq!(
        Err(OperandsError::Invalid),
        PluralOperands::from_str("99999999999999999999")
    );
}

#[test]
fn fraction_overflow_is_invalid() {
    assert_eq!(
        Err(OperandsError::Invalid),
        PluralOperands::from_str("1.99999999999999999999")
    );
}

#[test]
fn long_zero_fraction_is_accepted() {
    assert_eq!(
        Ok(ops(1, 25, 0, 0, 0)),
        PluralOperands::from_str("1.0000000000000000000000000")
    );
}

#[test]
fn integer_and_string_agree() {
    for n in [0u64, 1, 2, 7, 10, 999, 1000000, u64::MAX] {
        assert_eq!(
            Ok(PluralOperands::from_unsigned(n)),
            PluralOperands::from_str(&n.to_string())
        );
        assert_eq!(PluralOperands::from(n), PluralOperands::from_unsigned(n));
    }
}

#[test]
fn signed_matches_unsigned() {
    for n in [0i64, 1, -1, -5, 42, i64::MAX, -i64::MAX] {
        assert_eq!(
            Ok(PluralOperands::from_unsigned(n.unsigned_abs())),
            PluralOperands::try_from_signed(n)
        );
        assert_eq!(
            PluralOperands::try_from(n),
            PluralOperands::try_from_signed(n)
        );
    }
}

#[test]
fn signed_minimum_is_invalid() {
    assert_eq!(
        Err(OperandsError::Invalid),
        PluralOperands::try_from_signed(i64::MIN)
    );
}

#[test]
fn decimal_units_digit() {
    let d = DecimalDigits {
        digits: vec![2],
        mag_high: 0,
        mag_low: 0,
    };
    assert_eq!(ops(2, 0, 0, 0, 0), PluralOperands::from_decimal(&d));
}

#[test]
fn decimal_trailing_zeros() {
    // 1.500
    let d = DecimalDigits {
        digits: vec![1, 5, 0, 0],
        mag_high: 0,
        mag_low: -3,
    };
    assert_eq!(ops(1, 3, 1, 500, 5), PluralOperands::from_decimal(&d));
}

#[test]
fn decimal_internal_zero() {
    // 0.105: the zero between nonzero digits is not a trailing zero.
    let d = DecimalDigits {
        digits: vec![0, 1, 0, 5],
        mag_high: 0,
        mag_low: -3,
    };
    assert_eq!(ops(0, 3, 3, 105, 105), PluralOperands::from_decimal(&d));
}

#[test]
fn decimal_leading_fraction_zeros() {
    // 0.050
    let d = DecimalDigits {
        digits: vec![0, 0, 5, 0],
        mag_high: 0,
        mag_low: -3,
    };
    assert_eq!(ops(0, 3, 2, 50, 5), PluralOperands::from_decimal(&d));
}

#[test]
fn decimal_high_magnitude_only() {
    // 500 stored as a single digit at magnitude 2: lower magnitudes read 0.
    let d = DecimalDigits {
        digits: vec![5],
        mag_high: 2,
        mag_low: 2,
    };
    assert_eq!(ops(500, 0, 0, 0, 0), PluralOperands::from_decimal(&d));
}

#[test]
fn decimal_wraparound_is_silent() {
    // Twenty nines exceed 64 bits; accumulation wraps as documented.
    let d = DecimalDigits {
        digits: vec![9; 20],
        mag_high: 19,
        mag_low: 0,
    };
    let expected_i = 7766279631452241919u64; // (10^20 - 1) mod 2^64
    assert_eq!(ops(expected_i, 0, 0, 0, 0), PluralOperands::from_decimal(&d));
}

#[test]
fn decimal_matches_string() {
    // The same number through the string path and the digit path.
    let d = DecimalDigits {
        digits: vec![1, 2, 3, 4, 5],
        mag_high: 2,
        mag_low: -2,
    };
    assert_eq!(
        PluralOperands::from_str("123.45"),
        Ok(PluralOperands::from_decimal(&d))
    );
}

#[test]
fn derived_operands_are_well_formed() {
    for input in ["2", "-7", "0.000", "1.500", "1.050", "123.45", "0.5"] {
        let op = PluralOperands::from_str(input).unwrap();
        assert!(op.w <= op.v, "input {:?}", input);
        if op.v == 0 {
            assert_eq!((op.w, op.f, op.t), (0, 0, 0), "input {:?}", input);
        }
    }
}

#[test]
fn rederiving_reconstruction_keeps_i_v_f() {
    // No trailing fraction zeros: i, v and f survive the round trip.
    let op = PluralOperands::from_str("123.45").unwrap();
    let back = format!("{}.{:0width$}", op.i, op.t, width = op.v);
    let re = PluralOperands::from_str(&back).unwrap();
    assert_eq!((op.i, op.v, op.f), (re.i, re.v, re.f));
}

#[test]
fn rederiving_reconstruction_after_trim() {
    // With trailing zeros trimmed away, i and v survive but f does not:
    // 1.500 reconstructs as 1.005.
    let op = PluralOperands::from_str("1.500").unwrap();
    let back = format!("{}.{:0width$}", op.i, op.t, width = op.v);
    assert_eq!("1.005", back);
    let re = PluralOperands::from_str(&back).unwrap();
    assert_eq!((op.i, op.v), (re.i, re.v));
    assert_eq!(re.f, 5);
}
