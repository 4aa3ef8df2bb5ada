use bracket2::digits::{parse_decimal, render_decimal};
use bracket2::literal::classify;
use bracket2::value::Value;

fn name(s: &str) -> Value {
    Value::Name(s.to_string())
}

#[test]
fn back_references() {
    assert_eq!(classify("&12"), Value::BackReference(12));
    assert_eq!(classify("&0"), Value::BackReference(0));
    assert_eq!(classify("&007"), Value::BackReference(7));
    assert_eq!(classify("&"), Value::BackReference(0));
}

#[test]
fn back_reference_needs_digits_only() {
    assert_eq!(classify("&a"), name("&a"));
    assert_eq!(classify("&1a"), name("&1a"));
    assert_eq!(classify("&&1"), name("&&1"));
    assert_eq!(classify("1&"), name("1&"));
    assert_eq!(classify("&1.5"), name("&1.5"));
}

#[test]
fn integers() {
    assert_eq!(classify("0"), Value::Integer(0));
    assert_eq!(classify("42"), Value::Integer(42));
    assert_eq!(classify("007"), Value::Integer(7));
    assert_eq!(classify("9223372036854775807"), Value::Integer(i64::MAX));
}

#[test]
fn integer_too_large_stays_a_name() {
    assert_eq!(classify("9223372036854775808"), name("9223372036854775808"));
    assert_eq!(classify("18446744073709551616"), name("18446744073709551616"));
    assert_eq!(
        classify("100000000000000000000000000000000000000"),
        name("100000000000000000000000000000000000000")
    );
    assert_eq!(classify("0000000000000000000000000000000000000012"), Value::Integer(12));
}

#[test]
fn back_reference_too_large_stays_a_name() {
    assert_eq!(classify("&18446744073709551616"), name("&18446744073709551616"));
    assert_eq!(
        classify("&18446744073709551615"),
        match usize::try_from(u64::MAX) {
            Ok(n) => Value::BackReference(n),
            Err(_) => name("&18446744073709551615"),
        }
    );
}

#[test]
fn floats_keep_their_text() {
    assert_eq!(classify("3.14"), Value::Float("3.14".to_string()));
    assert_eq!(classify("0.0"), Value::Float("0.0".to_string()));
    assert_eq!(classify("10.50"), Value::Float("10.50".to_string()));
}

#[test]
fn float_needs_digits_on_both_sides() {
    assert_eq!(classify("1."), name("1."));
    assert_eq!(classify(".5"), name(".5"));
    assert_eq!(classify("."), name("."));
    assert_eq!(classify("1.2.3"), name("1.2.3"));
    assert_eq!(classify("1,5"), name("1,5"));
    assert_eq!(classify("1e5"), name("1e5"));
    assert_eq!(classify("-1.5"), name("-1.5"));
}

#[test]
fn signs_and_letters_make_names() {
    assert_eq!(classify("-1"), name("-1"));
    assert_eq!(classify("+1"), name("+1"));
    assert_eq!(classify("x1"), name("x1"));
    assert_eq!(classify("hello"), name("hello"));
    assert_eq!(classify(""), name(""));
}

#[test]
fn only_ascii_digits_count() {
    // Arabic-Indic and fullwidth digits
    assert_eq!(classify("\u{661}\u{662}"), name("\u{661}\u{662}"));
    assert_eq!(classify("\u{ff11}"), name("\u{ff11}"));
    assert_eq!(classify("&\u{ff11}"), name("&\u{ff11}"));
    assert_eq!(classify("1.\u{ff11}"), name("1.\u{ff11}"));
}

#[test]
fn a_line_feed_is_part_of_the_token() {
    assert_eq!(classify("12\n"), name("12\n"));
    assert_eq!(classify("\n12"), name("\n12"));
    assert_eq!(classify("&1\n"), name("&1\n"));
    assert_eq!(classify("1.5\n"), name("1.5\n"));
    assert_eq!(classify("1\n2"), name("1\n2"));
}

#[test]
fn decimal_values() {
    assert_eq!(parse_decimal("", 0), Some(0));
    assert_eq!(parse_decimal("0", 0), Some(0));
    assert_eq!(parse_decimal("12345", 0), Some(12345));
    assert_eq!(parse_decimal("12345", 2), Some(345));
    assert_eq!(parse_decimal("&77", 1), Some(77));
    assert_eq!(parse_decimal("18446744073709551615", 0), Some(u64::MAX));
    assert_eq!(parse_decimal("18446744073709551616", 0), None);
    assert_eq!(parse_decimal("99999999999999999999", 0), None);
    assert_eq!(parse_decimal("00018446744073709551615", 0), Some(u64::MAX));
}

#[test]
fn decimal_numerals() {
    assert_eq!(render_decimal(0), "0");
    assert_eq!(render_decimal(7), "7");
    assert_eq!(render_decimal(10), "10");
    assert_eq!(render_decimal(1905), "1905");
    assert_eq!(render_decimal(u64::MAX), "18446744073709551615");
}

#[test]
fn numerals_read_back() {
    for n in [0u64, 1, 9, 10, 99, 100, 12345, u64::MAX - 1, u64::MAX] {
        assert_eq!(parse_decimal(&render_decimal(n), 0), Some(n));
    }
}
