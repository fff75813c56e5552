use s3_wire::text::{
    bool_field, bool_to_text, chars_of, eq_ignoring_case, int_field, int_to_text, parse_bool,
    parse_int, str_eq, to_lower,
};

#[test]
fn integers_render_in_decimal() {
    assert_eq!(int_to_text(0), "0");
    assert_eq!(int_to_text(7), "7");
    assert_eq!(int_to_text(10), "10");
    assert_eq!(int_to_text(-1), "-1");
    assert_eq!(int_to_text(1234567890), "1234567890");
    assert_eq!(int_to_text(i64::MAX), "9223372036854775807");
    assert_eq!(int_to_text(i64::MIN), "-9223372036854775808");
}

#[test]
fn booleans_render_as_words() {
    assert_eq!(bool_to_text(true), "true");
    assert_eq!(bool_to_text(false), "false");
}

#[test]
fn optional_values_render_only_when_present() {
    assert_eq!(int_field(Some(42)), Some("42".to_string()));
    assert_eq!(int_field(None), None);
    assert_eq!(bool_field(Some(false)), Some("false".to_string()));
    assert_eq!(bool_field(None), None);
}

#[test]
fn integers_parse_strictly() {
    assert_eq!(parse_int("0"), Some(0));
    assert_eq!(parse_int("10"), Some(10));
    assert_eq!(parse_int("007"), Some(7));
    assert_eq!(parse_int("-0"), Some(0));
    assert_eq!(parse_int("-15"), Some(-15));
    assert_eq!(parse_int("9223372036854775807"), Some(i64::MAX));
    assert_eq!(parse_int("-9223372036854775808"), Some(i64::MIN));
    assert_eq!(parse_int("9223372036854775808"), None);
    assert_eq!(parse_int("-9223372036854775809"), None);
    assert_eq!(parse_int("99999999999999999999999"), None);
    assert_eq!(parse_int("000000000000000000000000000001"), Some(1));
    assert_eq!(parse_int(""), None);
    assert_eq!(parse_int("-"), None);
    assert_eq!(parse_int("+5"), None);
    assert_eq!(parse_int("12a"), None);
    assert_eq!(parse_int(" 12"), None);
    assert_eq!(parse_int("1.0"), None);
    assert_eq!(parse_int("--1"), None);
    assert_eq!(parse_int("\u{663}"), None);
}

#[test]
fn integers_survive_rendering_and_parsing() {
    for n in [0, 1, -1, 9, 10, 99, 100, -100, 4096, i64::MAX, i64::MIN, i64::MIN + 1] {
        assert_eq!(parse_int(&int_to_text(n)), Some(n));
    }
}

#[test]
fn booleans_parse_strictly() {
    assert_eq!(parse_bool("true"), Some(true));
    assert_eq!(parse_bool("false"), Some(false));
    assert_eq!(parse_bool("True"), None);
    assert_eq!(parse_bool("1"), None);
    assert_eq!(parse_bool(""), None);
    assert_eq!(parse_bool("true "), None);
}

#[test]
fn case_is_ignored_for_ascii_letters_only() {
    assert!(eq_ignoring_case("Location", "location"));
    assert!(eq_ignoring_case("X-AMZ-Request-Payer", "x-amz-request-payer"));
    assert!(eq_ignoring_case("", ""));
    assert!(!eq_ignoring_case("location", "locations"));
    assert!(!eq_ignoring_case("a-b", "a_b"));
    assert!(!eq_ignoring_case("\u{c9}", "\u{e9}"));
    assert!(!eq_ignoring_case("@", "`"));
    assert!(!eq_ignoring_case("[", "{"));
}

#[test]
fn lower_case_of_characters() {
    assert_eq!(to_lower('A'), 'a');
    assert_eq!(to_lower('Z'), 'z');
    assert_eq!(to_lower('a'), 'a');
    assert_eq!(to_lower('0'), '0');
    assert_eq!(to_lower('@'), '@');
    assert_eq!(to_lower('['), '[');
    assert_eq!(to_lower('\u{c9}'), '\u{c9}');
}

#[test]
fn characters_of_a_text() {
    assert_eq!(chars_of("a\u{e9}b"), vec!['a', '\u{e9}', 'b']);
    assert_eq!(chars_of(""), Vec::<char>::new());
}

#[test]
fn equal_texts() {
    assert!(str_eq("Name", "Name"));
    assert!(!str_eq("Name", "name"));
    assert!(!str_eq("Name", "Names"));
}
