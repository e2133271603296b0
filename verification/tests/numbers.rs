//! Numbers are the exact decimals the file writes, compared and printed without rounding.

use day_piece_lottie::Num;

fn num(text: &str) -> Num {
    Num::from_numeral(text).expect("a numeral")
}

#[test]
fn numerals_print_as_plain_decimals() {
    assert_eq!(num("30").to_text(), "30");
    assert_eq!(num("30.0").to_text(), "30");
    assert_eq!(num("1.5").to_text(), "1.5");
    assert_eq!(num("-7").to_text(), "-7");
    assert_eq!(num("-0.0").to_text(), "-0");
    assert_eq!(num("0").to_text(), "0");
    assert_eq!(num("1e+21").to_text(), "1000000000000000000000");
    assert_eq!(num("1.234e-5").to_text(), "0.00001234");
    assert_eq!(num("1e-07").to_text(), "0.0000001");
    assert_eq!(num("0.001234").to_text(), "0.001234");
    assert_eq!(num("12.34").to_text(), "12.34");
    assert_eq!(num("2.5E2").to_text(), "250");
}

#[test]
fn plain_decimals_match_what_floats_print() {
    for text in ["30.0", "1.5", "0.1", "-2.25", "1e+21", "1e-07", "123.456", "-0.0", "600"] {
        let float: f64 = text.parse().unwrap();
        assert_eq!(num(text).to_text(), format!("{float}"), "{text}");
    }
}

#[test]
fn what_is_not_a_numeral_is_refused() {
    for text in ["", "-", "1.", ".5", "1e", "1e+", "1e+1234", "abc", "1 ", "+1", "0x10"] {
        assert!(Num::from_numeral(text).is_none(), "{text:?}");
    }
    assert!(Num::from_numeral("1234567890123456789012345").is_none());
}

#[test]
fn leading_and_trailing_zeros_keep_the_value() {
    let a = num("0012.3400");
    let b = num("12.34");
    assert_eq!(a, b);
    assert!(a.le(&b) && b.le(&a));
    assert_eq!(a.to_text(), "12.34");
}

#[test]
fn comparisons_are_exact() {
    assert!(num("0").le(&num("-0.0")) && num("-0.0").le(&num("0")));
    assert!(num("1.5").le(&num("2")));
    assert!(!num("2").le(&num("1.5")));
    assert!(num("-3").le(&num("-2")));
    assert!(!num("-2").le(&num("-3")));
    assert!(num("1e+2").le(&num("100.0")) && num("100.0").le(&num("1e+2")));
    assert!(num("0.1").le(&num("1e-1")) && num("1e-1").le(&num("0.1")));
    assert!(num("-1e+300").le(&num("1e-300")));
    assert!(!num("0.30000000000000004").le(&num("0.3")));
}

#[test]
fn signs_and_zeros() {
    assert!(!num("0").is_positive());
    assert!(!num("-1").is_positive());
    assert!(num("0.0001").is_positive());
    assert!(num("-0.0").is_zero());
    assert!(!num("1e-300").is_zero());
    assert_eq!(Num::zero(), num("0"));
}

#[test]
fn the_two_zeros_are_equal_but_print_their_sign() {
    assert_eq!(num("-0.0"), num("0"));
    assert_eq!(num("-0.0").to_text(), "-0");
    assert_ne!(num("-1"), num("1"));
    assert_ne!(num("1.5"), num("15"));
}
