use matheval_core::arith::{negate, one_bits, zero_bits, NAN, ONE, SIGN_BIT, ZERO};
use matheval_core::pool::{find_bits, find_name};
use matheval_core::text::{chars_of, decimal, digit_char, find_line_end, line_of, spaces, string_of};

#[test]
fn test_decimal() {
    assert_eq!(decimal(0), "0");
    assert_eq!(decimal(7), "7");
    assert_eq!(decimal(10), "10");
    assert_eq!(decimal(1234567890), "1234567890");
    assert_eq!(decimal(usize::MAX), usize::MAX.to_string());
    for d in 0..10 {
        assert_eq!(digit_char(d), char::from_digit(d as u32, 10).unwrap());
    }
}

#[test]
fn test_spaces() {
    assert_eq!(spaces(0), "");
    assert_eq!(spaces(3), "   ");
}

#[test]
fn test_chars_and_strings() {
    let chars = chars_of("a\u{e9}\u{3000}z");
    assert_eq!(chars, vec!['a', '\u{e9}', '\u{3000}', 'z']);
    assert_eq!(string_of(&chars, 0, 4), "a\u{e9}\u{3000}z");
    assert_eq!(string_of(&chars, 1, 3), "\u{e9}\u{3000}");
    assert_eq!(string_of(&chars, 2, 2), "");
    assert!(chars_of("").is_empty());
}

#[test]
fn test_lines_as_std_splits_them() {
    let texts = [
        "",
        "a",
        "a\n",
        "\n",
        "\n\n",
        "a\nb",
        "a\r\nb\r\n",
        "a\rb\n\rc",
        "\r\n\r\n",
        "one\n\ntwo\r\n\r\nthree\r",
        "x\r\r\ny",
    ];
    for text in texts {
        let expected: Vec<&str> = text.lines().collect();
        assert_eq!(line_of(text, 0), None);
        for k in 1..expected.len() + 3 {
            assert_eq!(
                line_of(text, k).as_deref(),
                expected.get(k - 1).copied(),
                "line {k} of {text:?}"
            );
        }
    }
}

#[test]
fn test_find_line_end() {
    let chars = chars_of("ab\ncd");
    assert_eq!(find_line_end(&chars, 0), 2);
    assert_eq!(find_line_end(&chars, 2), 2);
    assert_eq!(find_line_end(&chars, 3), 5);
    assert_eq!(find_line_end(&chars, 5), 5);
}

#[test]
fn test_pool_lookups() {
    let pool = vec![5, 7, 5, 9];
    assert_eq!(find_bits(&pool, 5), 0);
    assert_eq!(find_bits(&pool, 7), 1);
    assert_eq!(find_bits(&pool, 9), 3);
    assert_eq!(find_bits(&pool, 1), 4);
    assert_eq!(find_bits(&vec![], 1), 0);
    let names = vec!["x".to_string(), "yy".to_string(), "x".to_string()];
    assert_eq!(find_name(&names, "x"), 0);
    assert_eq!(find_name(&names, "yy"), 1);
    assert_eq!(find_name(&names, "y"), 3);
    assert_eq!(find_name(&names, ""), 3);
}

#[test]
fn test_bit_patterns() {
    assert_eq!(ZERO, 0.0f64.to_bits());
    assert_eq!(ONE, 1.0f64.to_bits());
    assert_eq!(SIGN_BIT, (-0.0f64).to_bits());
    assert!(f64::from_bits(NAN).is_nan());
    assert_eq!(NAN, f64::NAN.to_bits());
    for x in [0.0, -0.0, 1.0, -1.0, 2.5, f64::MAX, f64::MIN_POSITIVE, f64::INFINITY, f64::NAN] {
        assert_eq!(negate(x.to_bits()), (-x).to_bits());
        assert_eq!(zero_bits(x.to_bits()), x == 0.0);
        assert_eq!(one_bits(x.to_bits()), x == 1.0);
    }
}
