use rustxes::float_literal::FloatLiteral;
use rustxes::text::{
    add_name, chars_eq, chars_eq_str, chars_from, chars_to_string, check_float_literal,
    decimal_text, has_name, parse_i64, push_decimal, split_chars, starts_with, str_chars, str_eq,
};

#[test]
fn parses_signed_decimal_integers() {
    assert_eq!(parse_i64(&str_chars("42")), Some(42));
    assert_eq!(parse_i64(&str_chars("-9223372036854775808")), Some(i64::MIN));
    assert_eq!(parse_i64(&str_chars("9223372036854775807")), Some(i64::MAX));
    assert_eq!(parse_i64(&str_chars("9223372036854775808")), None);
    assert_eq!(parse_i64(&str_chars("-9223372036854775809")), None);
    assert_eq!(parse_i64(&str_chars("+7")), Some(7));
    assert_eq!(parse_i64(&str_chars("-0")), Some(0));
    assert_eq!(parse_i64(&str_chars("0000000000000000000000012")), Some(12));
    assert_eq!(parse_i64(&str_chars("")), None);
    assert_eq!(parse_i64(&str_chars("-")), None);
    assert_eq!(parse_i64(&str_chars("+")), None);
    assert_eq!(parse_i64(&str_chars("1x")), None);
    assert_eq!(parse_i64(&str_chars(" 1")), None);
    assert_eq!(parse_i64(&str_chars("99999999999999999999999999999999999999999999")), None);
    assert_eq!(parse_i64(&str_chars("99999999999999999999999999999999999999999999x")), None);
}

#[test]
fn integer_parsing_agrees_with_the_standard_library() {
    for text in ["0", "-1", "+1", "12345678901234567890", "1_000", "٣", "--1", "1.0", "0x10"] {
        assert_eq!(parse_i64(&str_chars(text)), text.parse::<i64>().ok(), "{}", text);
    }
}

#[test]
fn writes_decimal_integers() {
    assert_eq!(decimal_text(0), str_chars("0"));
    assert_eq!(decimal_text(7), str_chars("7"));
    assert_eq!(decimal_text(10), str_chars("10"));
    assert_eq!(decimal_text(-120), str_chars("-120"));
    assert_eq!(decimal_text(i64::MIN), str_chars("-9223372036854775808"));
    assert_eq!(decimal_text(i64::MAX), str_chars("9223372036854775807"));
    let mut out = str_chars("n=");
    push_decimal(305, &mut out);
    assert_eq!(out, str_chars("n=305"));
}

#[test]
fn decimal_text_reads_back() {
    for n in [0, 1, -1, 9, 10, 99, 100, -100, 1234567890123, i64::MAX, i64::MIN] {
        assert_eq!(parse_i64(&decimal_text(n)), Some(n));
    }
}

#[test]
fn strings_and_characters() {
    assert_eq!(str_chars("aé😀"), vec!['a', 'é', '😀']);
    assert_eq!(chars_to_string(&vec!['a', 'é', '😀']), "aé😀");
    assert_eq!(chars_to_string(&vec![]), "");
    assert!(chars_eq(&str_chars("abc"), &str_chars("abc")));
    assert!(!chars_eq(&str_chars("abc"), &str_chars("abd")));
    assert!(!chars_eq(&str_chars("abc"), &str_chars("ab")));
    assert!(chars_eq_str(&str_chars("trace"), "trace"));
    assert!(!chars_eq_str(&str_chars("trace"), "traces"));
    assert!(str_eq("", ""));
    assert!(!str_eq("a", "A"));
}

#[test]
fn prefixes() {
    let key = str_chars("case:concept:name");
    assert!(starts_with(&key, &str_chars("case:")));
    assert!(starts_with(&key, &str_chars("")));
    assert!(!starts_with(&key, &str_chars("Case:")));
    assert!(!starts_with(&str_chars("cas"), &str_chars("case:")));
    assert_eq!(chars_from(&key, 5), str_chars("concept:name"));
    assert_eq!(chars_from(&key, key.len()), str_chars(""));
}

#[test]
fn splits_at_every_separator() {
    let parts = |text: &str| -> Vec<String> {
        split_chars(&str_chars(text), ' ').iter().map(chars_to_string).collect()
    };
    assert_eq!(parts("a b"), vec!["a", "b"]);
    assert_eq!(parts(""), vec![""]);
    assert_eq!(parts("a  b "), vec!["a", "", "b", ""]);
    assert_eq!(parts(" "), vec!["", ""]);
    for text in ["concept:name lifecycle:transition", "x", "  ", " a"] {
        let expected: Vec<String> = text.split(" ").map(|s| s.to_string()).collect();
        assert_eq!(parts(text), expected);
    }
}

#[test]
fn names_without_repetition() {
    let mut names: Vec<String> = Vec::new();
    for name in ["b", "a", "b", "c", "a"] {
        add_name(&mut names, &name.to_string());
    }
    assert_eq!(names, vec!["b", "a", "c"]);
    assert!(has_name(&names, &"c".to_string()));
    assert!(!has_name(&names, &"d".to_string()));
}

#[test]
fn floating_point_literals() {
    let valid = [
        "0", "1", "-1", "+1", "1.", ".5", "1.5", "-0.0", "1e5", "1E5", "1e+5", "1e-5", "1.5e3",
        ".5e-3", "inf", "-inf", "+infinity", "Infinity", "NaN", "nan", "-NAN", "007",
    ];
    let invalid = [
        "", "+", "-", ".", "e5", "1e", "1e+", "1.2.3", "1,5", " 1", "1 ", "infinit", "na", "1f",
        "0x10", "--1", "1e5.0", "+-1", "．5",
    ];
    for text in valid {
        assert!(check_float_literal(&str_chars(text)), "{}", text);
        assert!(text.parse::<f64>().is_ok(), "{}", text);
        assert_eq!(FloatLiteral::parse(text).unwrap().as_str(), text);
    }
    for text in invalid {
        assert!(!check_float_literal(&str_chars(text)), "{}", text);
        assert!(text.parse::<f64>().is_err(), "{}", text);
        assert!(FloatLiteral::parse(text).is_none());
    }
}

#[test]
fn literal_of_a_whole_number() {
    assert_eq!(FloatLiteral::from_int(0).as_str(), "0");
    assert_eq!(FloatLiteral::from_int(-42).as_str(), "-42");
    assert_eq!(FloatLiteral::from_int(42).as_str().parse::<f64>().unwrap(), 42.0);
    let copy = FloatLiteral::from_int(7).clone();
    assert_eq!(copy.as_str(), "7");
}
