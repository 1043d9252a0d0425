use cddlc_validate::text::decimal_text;
use cddlc_validate::Double;

fn double(number: f64) -> Double {
    Double::from_bits(number.to_bits())
}

const SAMPLES: [f64; 18] = [
    0.0,
    -0.0,
    0.5,
    -0.5,
    1.0,
    -1.0,
    1.5,
    2.25,
    -1234.75,
    1e-320,
    -1e-320,
    9007199254740993.0,
    1e300,
    -1e300,
    f64::MAX,
    f64::INFINITY,
    f64::NEG_INFINITY,
    f64::NAN,
];

#[test]
fn doubles_compare_as_numbers() {
    for a in SAMPLES {
        for b in SAMPLES {
            assert_eq!(double(a).is_less(double(b)), a < b, "{a} < {b}");
            assert_eq!(double(a).is_equal(double(b)), a == b, "{a} == {b}");
            assert_eq!(double(a) == double(b), a == b, "{a} == {b}");
        }
    }
}

#[test]
fn doubles_lose_their_fraction() {
    assert_eq!(double(0.999).truncate(), 0);
    assert_eq!(double(-0.999).truncate(), 0);
    assert_eq!(double(2.75).truncate(), 2);
    assert_eq!(double(-2.75).truncate(), -2);
    assert_eq!(double(2251799813685249.5).truncate(), 2251799813685249);
    assert_eq!(double(1e300).truncate(), i128::MAX);
    assert_eq!(double(f64::NEG_INFINITY).truncate(), i128::MIN);
    assert_eq!(double(f64::NAN).truncate(), 0);
    for number in SAMPLES {
        assert_eq!(double(number).truncate(), number as i128, "{number}");
    }
    for exponent in 0..130 {
        let number = 1.7 * 2f64.powi(exponent);
        assert_eq!(double(number).truncate(), number as i128, "{number}");
        assert_eq!(double(-number).truncate(), (-number) as i128, "{number}");
    }
}

#[test]
fn integers_round_to_the_nearest_double() {
    assert_eq!(Double::from_integer(0).bits, 0);
    assert_eq!(Double::from_integer(1).bits, 0x3ff0_0000_0000_0000);
    assert_eq!(Double::from_integer(-2).bits, 0xc000_0000_0000_0000);
    // Halfway between two doubles: the even one of each pair.
    assert_eq!(Double::from_integer(9007199254740993).bits, 9007199254740992f64.to_bits());
    assert_eq!(Double::from_integer(9007199254740995).bits, 9007199254740996f64.to_bits());
    // Rounding up into another digit.
    assert_eq!(Double::from_integer(u64::MAX as i128).bits, 18446744073709551616f64.to_bits());
    for k in 0..127 {
        for near in [-3i128, -1, 0, 1, 3] {
            let n = (1i128 << k) + near;
            assert_eq!(Double::from_integer(n).bits, (n as f64).to_bits(), "{n}");
            assert_eq!(Double::from_integer(-n).bits, ((-n) as f64).to_bits(), "-{n}");
        }
    }
    assert_eq!(Double::from_integer(i128::MIN).bits, (i128::MIN as f64).to_bits());
    assert_eq!(Double::from_integer(i128::MAX).bits, (i128::MAX as f64).to_bits());
}

#[test]
fn no_double_is_closer_than_the_rounded_one() {
    // 2^53 + 1 lies as far from 2^53 as from 2^53 + 2, and the former is even.
    let chosen = Double::from_integer(9007199254740993);
    let above = Double::from_bits(chosen.bits + 1);
    assert_eq!(chosen.truncate(), 9007199254740992);
    assert_eq!(above.truncate(), 9007199254740994);
    assert_eq!(chosen.bits % 2, 0);
    // 2^54 + 3 is closer to 2^54 + 4 than to 2^54.
    assert_eq!(Double::from_integer(18014398509481987).truncate(), 18014398509481988);
}

#[test]
fn doubles_are_written_in_decimal() {
    assert_eq!(double(1.5).text(), "1.5");
    assert_eq!(double(-0.0).text(), "-0");
    assert_eq!(double(100.0).text(), "100");
    assert_eq!(double(0.1).text(), "0.1");
    assert_eq!(double(f64::INFINITY).text(), "inf");
    assert_eq!(double(f64::NEG_INFINITY).text(), "-inf");
    assert_eq!(double(f64::NAN).text(), "NaN");
    for number in SAMPLES {
        assert_eq!(double(number).text(), number.to_string());
    }
    // Every NaN is written alike, whatever its sign and payload.
    assert_eq!(Double::from_bits(0xfff0_0000_0000_0001).text(), "NaN");
    assert!(Double::from_bits(0xfff0_0000_0000_0001).is_not_a_number());
    assert!(!double(f64::INFINITY).is_not_a_number());
}

#[test]
fn doubles_have_a_nine_byte_item() {
    assert_eq!(double(1.5).to_item(), vec![0xfb, 0x3f, 0xf8, 0, 0, 0, 0, 0, 0]);
    assert_eq!(
        Double::from_bits(0x0123_4567_89ab_cdef).to_item(),
        vec![0xfb, 0x01, 0x23, 0x45, 0x67, 0x89, 0xab, 0xcd, 0xef],
    );
}

#[test]
fn integers_are_written_in_decimal() {
    assert_eq!(decimal_text(0), "0");
    assert_eq!(decimal_text(7), "7");
    assert_eq!(decimal_text(-10), "-10");
    assert_eq!(decimal_text(9876543210), "9876543210");
    assert_eq!(decimal_text(i128::MIN), i128::MIN.to_string());
    assert_eq!(decimal_text(i128::MAX), i128::MAX.to_string());
}
