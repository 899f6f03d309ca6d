use scheme_rs::literal::{is_float_literal, parse_integer};
use scheme_rs::printer::integer_to_string;
use scheme_rs::text::is_ascii_digit;

#[test]
fn parse_integer_reads_signed_decimals() {
    assert_eq!(parse_integer("0"), Some(0));
    assert_eq!(parse_integer("1"), Some(1));
    assert_eq!(parse_integer("42"), Some(42));
    assert_eq!(parse_integer("-42"), Some(-42));
    assert_eq!(parse_integer("+42"), Some(42));
    assert_eq!(parse_integer("007"), Some(7));
    assert_eq!(parse_integer("-0"), Some(0));
}

#[test]
fn parse_integer_knows_the_limits() {
    assert_eq!(parse_integer("9223372036854775807"), Some(i64::MAX));
    assert_eq!(parse_integer("-9223372036854775808"), Some(i64::MIN));
    assert_eq!(parse_integer("9223372036854775808"), None);
    assert_eq!(parse_integer("-9223372036854775809"), None);
    assert_eq!(parse_integer("+9223372036854775808"), None);
    assert_eq!(parse_integer("99999999999999999999999999999999"), None);
    assert_eq!(parse_integer("0000000000000000000000000000009223372036854775807"), Some(i64::MAX));
}

#[test]
fn parse_integer_refuses_what_is_no_integer() {
    for token in ["", "+", "-", "a", "1a", "a1", "1.0", "1e3", " 1", "1 ", "--1", "+-1", "1_000", "0x10", "\u{661}"] {
        assert_eq!(parse_integer(token), None, "{:?}", token);
    }
}

#[test]
fn parse_integer_agrees_with_std() {
    let samples = [
        "0", "-1", "+1", "12345678901234567890", "-12345678901234567890", "9223372036854775807",
        "9223372036854775808", "-9223372036854775808", "-9223372036854775809", "", "+", "-", "abc",
        "12a", "1.5", "٣", "１２", "1 2", "00", "-00", "+0",
    ];
    for token in samples {
        assert_eq!(parse_integer(token), token.parse::<i64>().ok(), "{:?}", token);
    }
}

#[test]
fn float_literal_accepts_the_grammar() {
    for token in [
        "1.5", "1.", ".5", "-1.5", "+1.5", "1e3", "1E3", "1e+3", "1e-3", "1.5e10", ".5e1", "1.e1",
        "inf", "-inf", "+inf", "INF", "Inf", "infinity", "Infinity", "-INFINITY", "nan", "NaN",
        "-nan", "NAN", "0", "-0", "123", "99999999999999999999",
    ] {
        assert!(is_float_literal(token), "{:?}", token);
    }
}

#[test]
fn float_literal_refuses_the_rest() {
    for token in [
        "", "+", "-", ".", "-.", "e", "e5", "1e", "1e+", "1e-", ".e5", "1.5.2", "1..", "1e5.5",
        "in", "infi", "infinit", "infinityy", "na", "nann", "1.5f", "0x1p3", " 1.5", "1.5 ", "1_0.0",
        "--1.5", "+-1.5", "pi", "r", "define", "1e5e5", "１.５", "i\u{307}nf",
    ] {
        assert!(!is_float_literal(token), "{:?}", token);
    }
}

#[test]
fn float_literal_agrees_with_std() {
    let heads = ["", "+", "-", "1", ".", "e", "E", "inf", "nan", "NaN", "infinity", "12", "0"];
    let tails = ["", "1", ".", "e", "e1", "e+", "e-1", ".5", "5.", "x", "inf", "E10", "+", "-"];
    for head in heads {
        for middle in tails {
            for tail in tails {
                let token = format!("{}{}{}", head, middle, tail);
                assert_eq!(is_float_literal(&token), token.parse::<f64>().is_ok(), "{:?}", token);
            }
        }
    }
}

#[test]
fn digits_are_the_ascii_digits() {
    let mut code: u32 = 0;
    while code <= 0x10ffff {
        if let Some(c) = char::from_u32(code) {
            assert_eq!(is_ascii_digit(c), c.is_ascii_digit(), "U+{:04X}", code);
        }
        code += 1;
    }
}

#[test]
fn integer_to_string_writes_decimal_digits() {
    assert_eq!(integer_to_string(0), "0");
    assert_eq!(integer_to_string(7), "7");
    assert_eq!(integer_to_string(10), "10");
    assert_eq!(integer_to_string(-1), "-1");
    assert_eq!(integer_to_string(-6), "-6");
    assert_eq!(integer_to_string(1234567890), "1234567890");
    assert_eq!(integer_to_string(i64::MAX), "9223372036854775807");
    assert_eq!(integer_to_string(i64::MIN), "-9223372036854775808");
}

#[test]
fn integer_text_reads_back_as_the_integer() {
    for i in [0, 1, -1, 9, 10, -10, 99, 100, 4096, -65536, i64::MAX, i64::MIN, i64::MAX - 1, i64::MIN + 1] {
        assert_eq!(integer_to_string(i), format!("{}", i));
        assert_eq!(parse_integer(&integer_to_string(i)), Some(i));
    }
}
