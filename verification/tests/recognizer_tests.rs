use csvschema::text::{
    chars_of, has_leading_zero_padding_chars, is_bool_literal_chars, is_signed_decimal_chars,
    is_iso_date_chars, parse_i64_chars,
};

fn parsed_int(s: &str) -> Option<i64> {
    parse_i64_chars(&chars_of(s))
}

fn numeral(s: &str) -> bool {
    is_signed_decimal_chars(&chars_of(s))
}

fn date(s: &str) -> bool {
    is_iso_date_chars(&chars_of(s))
}

#[test]
fn chars_of_keeps_every_character() {
    assert_eq!(chars_of("naïve"), vec!['n', 'a', 'ï', 'v', 'e']);
    assert_eq!(chars_of(""), Vec::<char>::new());
}

#[test]
fn integers_parse_like_i64_from_str() {
    assert_eq!(parsed_int("123"), Some(123));
    assert_eq!(parsed_int("+5"), Some(5));
    assert_eq!(parsed_int("-42"), Some(-42));
    assert_eq!(parsed_int("-9223372036854775808"), Some(i64::MIN));
    assert_eq!(parsed_int("9223372036854775807"), Some(i64::MAX));
    assert_eq!(parsed_int("9223372036854775808"), None);
    assert_eq!(parsed_int("-9223372036854775809"), None);
    assert_eq!(parsed_int("123456789012345678901234567890"), None);
    assert_eq!(parsed_int(""), None);
    assert_eq!(parsed_int("-"), None);
    assert_eq!(parsed_int("+"), None);
    assert_eq!(parsed_int("1a"), None);
    assert_eq!(parsed_int(" 1"), None);
    assert_eq!(parsed_int("1.0"), None);
    for s in ["0", "17", "-17", "+0", "000", "2147483648"] {
        assert_eq!(parsed_int(s), s.parse::<i64>().ok(), "{}", s);
    }
}

#[test]
fn numerals_follow_the_documented_grammar() {
    for s in ["1", "1.5", "5.", ".5", "-.5", "+1", "1e10", "1E+3", "2.5e-3", "1e400", "00.5"] {
        assert!(numeral(s), "{}", s);
        assert!(s.parse::<f64>().is_ok(), "{}", s);
    }
    for s in ["", ".", "e5", "1e", "1e+", "1.2.3", "abc", "+", "-", " 1", "1 ", "1_000", "0x10", "..5"] {
        assert!(!numeral(s), "{}", s);
        assert!(s.parse::<f64>().is_err(), "{}", s);
    }
}

#[test]
fn the_float_words_are_no_numerals() {
    for s in ["inf", "-inf", "+INF", "infinity", "Infinity", "NaN", "nan", "-NAN"] {
        assert!(!numeral(s), "{}", s);
    }
}

#[test]
fn booleans_ignore_ascii_case() {
    for s in ["true", "TRUE", "TrUe", "false", "False", "FALSE"] {
        assert!(is_bool_literal_chars(&chars_of(s)), "{}", s);
    }
    for s in ["", "yes", "1", "truee", "tru", "fals", "t rue"] {
        assert!(!is_bool_literal_chars(&chars_of(s)), "{}", s);
    }
}

#[test]
fn leading_zero_padding_is_detected() {
    for s in ["007", "-007", "00", "02134"] {
        assert!(has_leading_zero_padding_chars(&chars_of(s)), "{}", s);
    }
    for s in ["0", "-0", "10", "0.5", "0a", "", "-", "--00"] {
        assert!(!has_leading_zero_padding_chars(&chars_of(s)), "{}", s);
    }
}

#[test]
fn iso_dates_are_strict() {
    assert!(date("2023-01-15"));
    assert!(date("0000-12-31"));
    assert!(!date("+123-+1-+5"));
    assert!(!date("2023-+1-05"));
    assert!(!date("+999-01-01"));
    assert!(!date("2023-01-+5"));
    assert!(!date("2023-01-1a"));
    assert!(!date("2023-13-01"));
    assert!(!date("2023-00-10"));
    assert!(!date("2023-01-32"));
    assert!(!date("2023-01-00"));
    assert!(!date("2023/01/15"));
    assert!(!date("2023-1-15"));
    assert!(!date("2023-01-15T00:00"));
    assert!(!date("23-01-15"));
    assert!(!date(""));
}
