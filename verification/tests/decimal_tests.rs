use crytrade::decimal::{is_decimal_text, scale_decimal};
use crytrade::text::{parse_u64, same_text, u64_to_decimal};

#[test]
fn scale_moves_the_point_four_places() {
    assert_eq!(scale_decimal("1573915002.1839", 4), Some(15739150021839));
    assert_eq!(scale_decimal("1575127767.9793", 4), Some(15751277679793));
}

#[test]
fn scale_drops_what_is_behind_the_fifth_place() {
    assert_eq!(scale_decimal("1.23456", 4), Some(12345));
    assert_eq!(scale_decimal("1.99999", 4), Some(19999));
    assert_eq!(scale_decimal("0.00009", 4), Some(0));
}

#[test]
fn scale_fills_missing_places_with_zeros() {
    assert_eq!(scale_decimal("12", 4), Some(120000));
    assert_eq!(scale_decimal("12.5", 4), Some(125000));
    assert_eq!(scale_decimal("5.", 4), Some(50000));
    assert_eq!(scale_decimal(".5", 4), Some(5000));
}

#[test]
fn scale_honours_the_exponent() {
    assert_eq!(scale_decimal("1.5e3", 4), Some(15000000));
    assert_eq!(scale_decimal("1.5E+3", 4), Some(15000000));
    assert_eq!(scale_decimal("15000e-3", 4), Some(150000));
    assert_eq!(scale_decimal("1e-5", 4), Some(0));
    assert_eq!(scale_decimal("123456e-7", 4), Some(123));
}

#[test]
fn scale_stays_within_u64() {
    assert_eq!(scale_decimal("-1.5", 4), Some(0));
    assert_eq!(scale_decimal("1844674407370955.1615", 4), Some(u64::MAX));
    assert_eq!(scale_decimal("1844674407370955.1614", 4), Some(u64::MAX - 1));
    assert_eq!(scale_decimal("1844674407370955.1616", 4), Some(u64::MAX));
    assert_eq!(scale_decimal("1e400", 4), Some(u64::MAX));
    assert_eq!(scale_decimal("0e99999999999999999999999999999999999999999", 4), Some(0));
    assert_eq!(scale_decimal("1e99999999999999999999999999999999999999999", 4), Some(u64::MAX));
    assert_eq!(scale_decimal("1e-99999999999999999999999999999999999999999", 4), Some(0));
    assert_eq!(scale_decimal("0.0000", 0), Some(0));
}

#[test]
fn scale_refuses_what_is_no_number() {
    for text in ["", ".", "+", "-", "e5", "1e", "1e+", "1.5x", " 1", "1 ", "1..2", "--1", "nan", "inf", "1,5"] {
        assert_eq!(scale_decimal(text, 4), None, "{:?}", text);
        assert!(!is_decimal_text(text), "{:?}", text);
    }
}

#[test]
fn decimal_texts_are_recognised() {
    for text in ["164.70000", "2.00000000", "0", "-0.5", "+7", "5.", ".5", "1e10", "1.5E-3"] {
        assert!(is_decimal_text(text), "{:?}", text);
    }
}

#[test]
fn unsigned_numbers_are_read() {
    assert_eq!(parse_u64("0"), Some(0));
    assert_eq!(parse_u64("007"), Some(7));
    assert_eq!(parse_u64("+42"), Some(42));
    assert_eq!(parse_u64("1575145023655038533"), Some(1575145023655038533));
    assert_eq!(parse_u64("18446744073709551615"), Some(u64::MAX));
}

#[test]
fn unsigned_numbers_are_refused() {
    for text in ["", "+", "-1", "1.0", "12a", " 12", "18446744073709551616", "99999999999999999999999"] {
        assert_eq!(parse_u64(text), None, "{:?}", text);
    }
}

#[test]
fn unsigned_numbers_are_written() {
    assert_eq!(u64_to_decimal(0), "0");
    assert_eq!(u64_to_decimal(9), "9");
    assert_eq!(u64_to_decimal(10), "10");
    assert_eq!(u64_to_decimal(1575127767000000000), "1575127767000000000");
    assert_eq!(u64_to_decimal(u64::MAX), "18446744073709551615");
}

#[test]
fn written_numbers_read_back() {
    for n in [0u64, 1, 9, 10, 99, 100, 12345, 1575145023655038533, u64::MAX] {
        assert_eq!(parse_u64(&u64_to_decimal(n)), Some(n));
    }
}

#[test]
fn texts_are_compared_by_their_characters() {
    assert!(same_text("last", "last"));
    assert!(!same_text("last", "lasT"));
    assert!(!same_text("last", "las"));
    assert!(same_text("", ""));
    assert!(same_text("é€", "é€"));
}
