use rlox::arithmetic::{
    negate, number_is_nan, number_is_zero, number_less, number_less_or_equal, numbers_equal,
};
use rlox::text::{characters, decimal_text, spells, string_of};

fn samples() -> Vec<f64> {
    vec![
        0.0,
        -0.0,
        1.0,
        -1.0,
        0.5,
        -0.5,
        123.45,
        -123.45,
        54.321,
        1e300,
        -1e300,
        5e-324,
        -5e-324,
        f64::MIN_POSITIVE,
        f64::MAX,
        f64::MIN,
        f64::INFINITY,
        f64::NEG_INFINITY,
        f64::NAN,
        -f64::NAN,
        f64::from_bits(0x7FF0_0000_0000_0001),
        f64::from_bits(0xFFFF_FFFF_FFFF_FFFF),
    ]
}

#[test]
fn order_is_that_of_the_doubles() {
    for &a in &samples() {
        for &b in &samples() {
            assert_eq!(number_less(a.to_bits(), b.to_bits()), a < b, "{a} < {b}");
            assert_eq!(number_less_or_equal(a.to_bits(), b.to_bits()), a <= b, "{a} <= {b}");
            assert_eq!(numbers_equal(a.to_bits(), b.to_bits()), a == b, "{a} == {b}");
        }
    }
}

#[test]
fn classes_are_those_of_the_doubles() {
    for &a in &samples() {
        assert_eq!(number_is_nan(a.to_bits()), a.is_nan(), "{a}");
        assert_eq!(number_is_zero(a.to_bits()), a == 0.0, "{a}");
    }
}

#[test]
fn negation_flips_the_sign() {
    for &a in &samples() {
        assert_eq!(negate(a.to_bits()), (-a).to_bits(), "{a}");
    }
    assert_eq!(negate(0), 0x8000_0000_0000_0000);
    assert_eq!(negate(0x8000_0000_0000_0000), 0);
}

#[test]
fn zero_equals_negative_zero_and_nan_equals_nothing() {
    assert!(numbers_equal(0.0f64.to_bits(), (-0.0f64).to_bits()));
    assert!(!numbers_equal(f64::NAN.to_bits(), f64::NAN.to_bits()));
    assert!(!number_less(f64::NAN.to_bits(), 1.0f64.to_bits()));
    assert!(!number_less_or_equal(f64::NAN.to_bits(), f64::NAN.to_bits()));
}

#[test]
fn decimal_text_writes_integers() {
    assert_eq!(decimal_text(0), "0");
    assert_eq!(decimal_text(7), "7");
    assert_eq!(decimal_text(10), "10");
    assert_eq!(decimal_text(1234567890), "1234567890");
    assert_eq!(decimal_text(usize::MAX), usize::MAX.to_string());
}

#[test]
fn characters_and_back() {
    let chars = characters("héllo, wörld");
    assert_eq!(chars.len(), 12);
    assert_eq!(string_of(&chars, 0, chars.len()), "héllo, wörld");
    assert_eq!(string_of(&chars, 1, 5), "éllo");
    assert_eq!(string_of(&chars, 3, 3), "");
    assert!(spells(&chars, 7, 12, "wörld"));
    assert!(!spells(&chars, 7, 12, "world"));
    assert!(!spells(&chars, 7, 11, "wörld"));
}
