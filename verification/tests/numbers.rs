use music_engine::number::{parse_decimal, parse_integer, push_int, push_nat, DECIMAL_LIMIT};
use music_engine::text::{
    char_digit_value, char_is_digit, char_is_space, chars_of, find_char, find_last_char, spells,
    trim_end_len, trim_range, word_ranges,
};

fn cs(s: &str) -> Vec<char> {
    s.chars().collect()
}

fn integer(s: &str, minus: bool, lo: i64, hi: i64) -> Option<i64> {
    parse_integer(&cs(s), minus, lo, hi)
}

fn decimal(s: &str, places: u32) -> Option<i64> {
    parse_decimal(&cs(s), places)
}

#[test]
fn integers_with_and_without_sign() {
    assert_eq!(integer("0", true, -10, 10), Some(0));
    assert_eq!(integer("7", true, -10, 10), Some(7));
    assert_eq!(integer("+7", true, -10, 10), Some(7));
    assert_eq!(integer("-7", true, -10, 10), Some(-7));
    assert_eq!(integer("-0", true, -10, 10), Some(0));
    assert_eq!(integer("0010", true, -10, 10), Some(10));
}

#[test]
fn integers_outside_the_range_are_none() {
    assert_eq!(integer("11", true, -10, 10), None);
    assert_eq!(integer("-11", true, -10, 10), None);
    assert_eq!(integer("127", true, -128, 127), Some(127));
    assert_eq!(integer("128", true, -128, 127), None);
    assert_eq!(integer("-128", true, -128, 127), Some(-128));
    assert_eq!(integer("5", true, 6, 4), None);
}

#[test]
fn integers_at_the_ends_of_64_bits() {
    assert_eq!(integer("9223372036854775807", true, i64::MIN, i64::MAX), Some(i64::MAX));
    assert_eq!(integer("9223372036854775808", true, i64::MIN, i64::MAX), None);
    assert_eq!(integer("-9223372036854775808", true, i64::MIN, i64::MAX), Some(i64::MIN));
    assert_eq!(integer("-9223372036854775809", true, i64::MIN, i64::MAX), None);
    assert_eq!(integer("99999999999999999999999999999999999999999", true, i64::MIN, i64::MAX), None);
}

#[test]
fn minus_is_a_sign_only_where_allowed() {
    assert_eq!(integer("-0", false, 0, 10), None);
    assert_eq!(integer("-5", false, -10, 10), None);
    assert_eq!(integer("+5", false, 0, 10), Some(5));
}

#[test]
fn what_is_no_integer() {
    for s in ["", "+", "-", "1.5", "1e3", "abc", "12a", " 12", "12 ", "+-1", "--1", "\u{661}"] {
        assert_eq!(integer(s, true, i64::MIN, i64::MAX), None);
    }
}

#[test]
fn decimals_in_thousandths() {
    assert_eq!(decimal("25", 3), Some(25_000));
    assert_eq!(decimal("12.5", 3), Some(12_500));
    assert_eq!(decimal("0.001", 3), Some(1));
    assert_eq!(decimal("0.0019", 3), Some(1));
    assert_eq!(decimal("-0.0019", 3), Some(-1));
    assert_eq!(decimal(".5", 3), Some(500));
    assert_eq!(decimal("5.", 3), Some(5_000));
    assert_eq!(decimal("+5", 3), Some(5_000));
    assert_eq!(decimal("-5", 3), Some(-5_000));
    assert_eq!(decimal("-.5", 3), Some(-500));
    assert_eq!(decimal("007.250", 3), Some(7_250));
    assert_eq!(decimal("1.23456789", 3), Some(1_234));
}

#[test]
fn decimals_in_other_units() {
    assert_eq!(decimal("1.5", 0), Some(1));
    assert_eq!(decimal("1.5", 1), Some(15));
    assert_eq!(decimal("1.5", 6), Some(1_500_000));
    assert_eq!(decimal("1.0594631", 6), Some(1_059_463));
    assert_eq!(decimal("0.123456789", 9), Some(123_456_789));
    assert_eq!(decimal("3", 9), Some(3_000_000_000));
}

#[test]
fn decimals_with_an_exponent() {
    assert_eq!(decimal("1e3", 3), Some(1_000_000));
    assert_eq!(decimal("1E3", 3), Some(1_000_000));
    assert_eq!(decimal("1e+3", 3), Some(1_000_000));
    assert_eq!(decimal("1e1", 3), Some(10_000));
    assert_eq!(decimal("1e0", 3), Some(1_000));
    assert_eq!(decimal("1.5e1", 3), Some(15_000));
    assert_eq!(decimal("-1.5e1", 3), Some(-15_000));
    assert_eq!(decimal(".5e1", 3), Some(5_000));
    assert_eq!(decimal("5.e1", 3), Some(50_000));
    assert_eq!(decimal("1e-3", 3), Some(1));
    assert_eq!(decimal("1e-4", 3), Some(0));
    assert_eq!(decimal("-9e-4", 3), Some(0));
    assert_eq!(decimal("12345e-2", 3), Some(123_450));
    assert_eq!(decimal("123.456789e2", 3), Some(12_345_678));
    assert_eq!(decimal("123.456789e-2", 3), Some(1_234));
    assert_eq!(decimal("0.000001e6", 3), Some(1_000));
    assert_eq!(decimal("100e-2", 0), Some(1));
    assert_eq!(decimal("199e-2", 0), Some(1));
    assert_eq!(decimal("1e002", 0), Some(100));
}

#[test]
fn infinity_stands_for_the_limit() {
    for s in ["inf", "INF", "iNf", "+inf", "infinity", "Infinity", "INFINITY", "+InFiNiTy"] {
        assert_eq!(decimal(s, 3), Some(DECIMAL_LIMIT));
        assert_eq!(decimal(s, 0), Some(DECIMAL_LIMIT));
    }
    assert_eq!(decimal("-inf", 3), Some(-DECIMAL_LIMIT));
    assert_eq!(decimal("-Infinity", 9), Some(-DECIMAL_LIMIT));
}

#[test]
fn exponents_out_of_all_proportion() {
    let huge = "99999999999999999999999999999999999999999999";
    assert_eq!(decimal(&format!("1e{}", huge), 3), Some(DECIMAL_LIMIT));
    assert_eq!(decimal(&format!("-1e{}", huge), 3), Some(-DECIMAL_LIMIT));
    assert_eq!(decimal(&format!("0e{}", huge), 3), Some(0));
    assert_eq!(decimal(&format!("0.000e{}", huge), 3), Some(0));
    assert_eq!(decimal(&format!("1e-{}", huge), 3), Some(0));
    assert_eq!(decimal(&format!("{}e-{}", huge, huge), 3), Some(0));
    assert_eq!(decimal("1e18", 0), Some(DECIMAL_LIMIT));
    assert_eq!(decimal("1e17", 0), Some(100_000_000_000_000_000));
    assert_eq!(decimal("1e19", 0), Some(DECIMAL_LIMIT));
    assert_eq!(decimal("1e15", 3), Some(DECIMAL_LIMIT));
    assert_eq!(decimal("9e14", 3), Some(900_000_000_000_000_000));
    assert_eq!(decimal("0.1e40", 9), Some(DECIMAL_LIMIT));
    assert_eq!(decimal("1e-40", 9), Some(0));
}

#[test]
fn decimals_are_limited() {
    assert_eq!(decimal("1000000000000000", 3), Some(DECIMAL_LIMIT));
    assert_eq!(decimal("999999999999999.999", 3), Some(999_999_999_999_999_999));
    assert_eq!(decimal("1000000000000001", 3), Some(DECIMAL_LIMIT));
    assert_eq!(decimal("-1000000000000001", 3), Some(-DECIMAL_LIMIT));
    assert_eq!(decimal("99999999999999999999999999999999999999999999", 9), Some(DECIMAL_LIMIT));
    assert_eq!(decimal("-99999999999999999999999999999999999999999999.5", 0), Some(-DECIMAL_LIMIT));
}

#[test]
fn what_is_no_decimal() {
    for s in ["", ".", "+", "-", "+.", "1.2.3", "in", "infinit", "infinite", "inff", "NaN", "nan",
        "abc", "1,5", " 1", "1inf", "inf1", "infe1",
        "1 ", "--1", "1.-5", "1.5x", "e", "e5", ".e5", "1e", "1e+", "1e-", "1e5e3", "1e1.5",
        "1ee5", "1e 5", "1x2", "+e1"]
    {
        assert_eq!(decimal(s, 3), None);
    }
}

#[test]
fn writes_numbers() {
    let mut out = String::from("n=");
    push_nat(&mut out, 0);
    push_nat(&mut out, 7);
    push_nat(&mut out, 10);
    push_nat(&mut out, u64::MAX);
    assert_eq!(out, "n=071018446744073709551615");
    let mut out = String::new();
    push_int(&mut out, -12);
    push_int(&mut out, 0);
    push_int(&mut out, 340);
    push_int(&mut out, i64::MIN);
    push_int(&mut out, i64::MAX);
    assert_eq!(out, "-120340-92233720368547758089223372036854775807");
}

#[test]
fn classes_of_characters() {
    assert!(char_is_digit('0') && char_is_digit('9'));
    assert!(!char_is_digit('a') && !char_is_digit('/') && !char_is_digit(':'));
    assert!(!char_is_digit('\u{661}'));
    for d in 0u8..10 {
        assert_eq!(char_digit_value((b'0' + d) as char), d);
    }
    for c in 0u32..0x11000 {
        if let Some(c) = char::from_u32(c) {
            assert_eq!(char_is_space(c), c.is_whitespace());
        }
    }
}

#[test]
fn characters_of_a_text() {
    assert_eq!(chars_of("a\u{2192}b"), vec!['a', '\u{2192}', 'b']);
    assert_eq!(chars_of(""), Vec::<char>::new());
}

#[test]
fn splits_into_words() {
    let text = cs("  C4\tE4 \u{3000} +3  ");
    let ranges = word_ranges(&text);
    assert_eq!(ranges, vec![(2, 4), (5, 7), (10, 12)]);
    assert_eq!(word_ranges(&cs("")), vec![]);
    assert_eq!(word_ranges(&cs(" \n ")), vec![]);
    assert_eq!(word_ranges(&cs("one")), vec![(0, 3)]);
    for text in ["a b  c", " x", "y ", "\ta\u{a0}b\n", "C4 E4 G4 +3 x"] {
        let chars = cs(text);
        let words: Vec<String> =
            word_ranges(&chars).iter().map(|&(a, b)| chars[a..b].iter().collect()).collect();
        let want: Vec<String> = text.split_whitespace().map(String::from).collect();
        assert_eq!(words, want);
    }
}

#[test]
fn trims_and_searches() {
    assert_eq!(trim_range(&cs("  ab c \n")), (2, 6));
    assert_eq!(trim_range(&cs("   ")), (3, 3));
    assert_eq!(trim_range(&cs("")), (0, 0));
    assert_eq!(trim_range(&cs("x")), (0, 1));
    assert_eq!(trim_end_len(&cs(" ab \r\n")), 3);
    assert_eq!(trim_end_len(&cs("  ")), 0);
    assert_eq!(find_char(&cs("a+b+c"), '+', 0), 1);
    assert_eq!(find_char(&cs("a+b+c"), '+', 2), 3);
    assert_eq!(find_char(&cs("a+b+c"), '-', 0), 5);
    assert_eq!(find_last_char(&cs("a-b-c"), '-'), Some(3));
    assert_eq!(find_last_char(&cs("abc"), '-'), None);
    assert_eq!(find_last_char(&cs(""), '-'), None);
    assert!(spells(&cs("inv"), "inv"));
    assert!(!spells(&cs("inv"), "in"));
    assert!(!spells(&cs("inv"), "inw"));
    assert!(spells(&cs(""), ""));
}
