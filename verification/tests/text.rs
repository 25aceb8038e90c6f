use yewchat::document::{parse_document, read_field, read_string_array, Field, Member};
use yewchat::grammar::MAX_DEPTH;
use yewchat::scan::{
    find_number_end, find_string_end, find_value_end, read_escape, read_hex4, read_string,
    skip_whitespace,
};
use yewchat::text::{chars_of, matches_at, string_of};

fn chars(text: &str) -> Vec<char> {
    text.chars().collect()
}

#[test]
fn chars_and_strings_convert_both_ways() {
    for sample in ["", "a", "héllo", "😊❤️", "\u{0}\u{10ffff}"] {
        assert_eq!(chars_of(sample), chars(sample));
        assert_eq!(string_of(&chars(sample)), sample);
    }
}

#[test]
fn matches_at_compares_in_place() {
    let text = chars("abcabc");
    assert!(matches_at(&text, 0, &chars("abc")));
    assert!(matches_at(&text, 3, &chars("abc")));
    assert!(!matches_at(&text, 1, &chars("abc")));
    assert!(!matches_at(&text, 4, &chars("abc")));
    assert!(matches_at(&text, 6, &chars("")));
    assert!(!matches_at(&text, 7, &chars("")));
    assert!(!matches_at(&text, usize::MAX, &chars("a")));
}

#[test]
fn whitespace_is_space_tab_newline_and_return() {
    let text = chars(" \t\r\n\u{b}\u{c}\u{a0} x");
    assert_eq!(skip_whitespace(&text, 0), 4);
    assert_eq!(skip_whitespace(&text, 4), 4);
    assert_eq!(skip_whitespace(&text, 7), 8);
    assert_eq!(skip_whitespace(&text, 9), 9);
    assert_eq!(skip_whitespace(&text, 100), 100);
}

#[test]
fn hex_digits_of_either_case() {
    assert_eq!(read_hex4(&chars("0000"), 0), Some(0));
    assert_eq!(read_hex4(&chars("00e9"), 0), Some(0xe9));
    assert_eq!(read_hex4(&chars("xAbCdy"), 1), Some(0xabcd));
    assert_eq!(read_hex4(&chars("FFFF"), 0), Some(0xffff));
    assert_eq!(read_hex4(&chars("FFF"), 0), None);
    assert_eq!(read_hex4(&chars("FFFG"), 0), None);
    assert_eq!(read_hex4(&chars("FFFF"), 1), None);
    assert_eq!(read_hex4(&chars("FFFF"), 9), None);
}

#[test]
fn escapes_name_characters() {
    assert_eq!(read_escape(&chars("n"), 0), Some(('\n', 1)));
    assert_eq!(read_escape(&chars("/"), 0), Some(('/', 1)));
    assert_eq!(read_escape(&chars("u0041"), 0), Some(('A', 5)));
    assert_eq!(read_escape(&chars("ud7ff"), 0), Some(('\u{d7ff}', 5)));
    assert_eq!(read_escape(&chars("ue000"), 0), Some(('\u{e000}', 5)));
    assert_eq!(read_escape(&chars("ud800\\udc00"), 0), Some(('\u{10000}', 11)));
    assert_eq!(read_escape(&chars("udbff\\udfff"), 0), Some(('\u{10ffff}', 11)));
    assert_eq!(read_escape(&chars("ud83d\\ude0a"), 0), Some(('😊', 11)));
    assert_eq!(read_escape(&chars("ud800"), 0), None);
    assert_eq!(read_escape(&chars("ud800\\n"), 0), None);
    assert_eq!(read_escape(&chars("ud800\\ud800"), 0), None);
    assert_eq!(read_escape(&chars("udc00"), 0), None);
    assert_eq!(read_escape(&chars("a"), 0), None);
    assert_eq!(read_escape(&chars("N"), 0), None);
    assert_eq!(read_escape(&chars(""), 0), None);
}

#[test]
fn strings_end_at_the_first_bare_quote() {
    assert_eq!(read_string(&chars("\"abc\" rest"), 1), Some(("abc".to_string(), 5)));
    assert_eq!(read_string(&chars("\"a\\\"b\""), 1), Some(("a\"b".to_string(), 6)));
    assert_eq!(read_string(&chars("\"\""), 1), Some((String::new(), 2)));
    assert_eq!(read_string(&chars("\"é😊\""), 1), Some(("é😊".to_string(), 4)));
    assert_eq!(read_string(&chars("\"abc"), 1), None);
    assert_eq!(read_string(&chars("\"a\u{1f}\""), 1), None);
    assert_eq!(read_string(&chars("\"a"), 5), None);
    assert_eq!(find_string_end(&chars("\"a\\\"b\""), 1), Some(6));
    assert_eq!(find_string_end(&chars("\"a\\u00e9\" "), 1), Some(9));
    assert_eq!(find_string_end(&chars("\"a\\u00e\""), 1), None);
}

#[test]
fn numbers_end_where_the_grammar_says() {
    let cases: Vec<(&str, Option<usize>)> = vec![
        ("0", Some(1)),
        ("-0", Some(2)),
        ("10", Some(2)),
        ("01", Some(1)),
        ("-12.50e+10,", Some(10)),
        ("1E5]", Some(3)),
        ("1.5.5", Some(3)),
        ("1e5e5", Some(3)),
        ("0.0", Some(3)),
        ("-", None),
        ("-a", None),
        (".5", None),
        ("1.", None),
        ("1.e1", None),
        ("1e", None),
        ("1e+", None),
        ("+1", None),
        ("", None),
        ("x", None),
    ];
    for (text, end) in cases {
        assert_eq!(find_number_end(&chars(text), 0), end, "{text:?}");
    }
    assert_eq!(find_number_end(&chars("12"), 9), None);
}

#[test]
fn values_end_where_the_grammar_says() {
    let cases: Vec<(&str, Option<usize>)> = vec![
        ("null", Some(4)),
        ("nullx", Some(4)),
        ("true,", Some(4)),
        ("false]", Some(5)),
        ("\"a\"", Some(3)),
        ("[]", Some(2)),
        ("[ ]", Some(3)),
        ("{}", Some(2)),
        ("[1, \"a\", [null], {\"k\": {}}] tail", Some(27)),
        ("{\"a\": [1, 2], \"b\": {\"c\": null}}", Some(31)),
        ("nul", None),
        ("fals", None),
        ("[1,]", None),
        ("[1", None),
        ("{\"a\":1", None),
        ("{\"a\"}", None),
        ("{1:2}", None),
        (" 1", None),
        ("", None),
    ];
    for (text, end) in cases {
        assert_eq!(find_value_end(&chars(text), 0, MAX_DEPTH), end, "{text:?}");
    }
    assert_eq!(find_value_end(&chars("[[]]"), 0, 2), Some(4));
    assert_eq!(find_value_end(&chars("[[]]"), 0, 1), None);
    assert_eq!(find_value_end(&chars("[]"), 0, 0), None);
    assert_eq!(find_value_end(&chars("{}"), 0, 0), None);
    assert_eq!(find_value_end(&chars("1"), 0, 0), Some(1));
}

#[test]
fn fields_are_told_apart() {
    let cases: Vec<(&str, Option<(Field, usize)>)> = vec![
        ("null", Some((Field::Null, 4))),
        ("\"x\"", Some((Field::Str("x".to_string()), 3))),
        ("[]", Some((Field::StrArray(vec![]), 2))),
        (
            "[ \"a\" , \"b\" ]",
            Some((Field::StrArray(vec!["a".to_string(), "b".to_string()]), 13)),
        ),
        ("[\"a\",1]", Some((Field::Other, 7))),
        ("[[\"a\"]]", Some((Field::Other, 7))),
        ("{}", Some((Field::Other, 2))),
        ("17", Some((Field::Other, 2))),
        ("true", Some((Field::Other, 4))),
        ("nul", None),
        ("[\"a\",]", None),
        ("[\"a\"", None),
    ];
    for (text, expected) in cases {
        assert_eq!(read_field(&chars(text), 0, 5), expected, "{text:?}");
    }
    assert_eq!(read_field(&chars("[\"a\"]"), 0, 0), None);
    assert_eq!(read_string_array(&chars("x[\"a\"]"), 1), Some((vec!["a".to_string()], 6)));
    assert_eq!(read_string_array(&chars("\"a\""), 0), None);
}

#[test]
fn documents_give_their_members_in_order() {
    assert_eq!(parse_document("{}"), Some(vec![]));
    assert_eq!(parse_document(" { } "), Some(vec![]));
    assert_eq!(
        parse_document("{\"b\":null,\"a\":\"x\",\"b\":[\"y\"],\"c\":{\"d\":1}}"),
        Some(vec![
            Member { key: "b".to_string(), value: Field::Null },
            Member { key: "a".to_string(), value: Field::Str("x".to_string()) },
            Member { key: "b".to_string(), value: Field::StrArray(vec!["y".to_string()]) },
            Member { key: "c".to_string(), value: Field::Other },
        ])
    );
    assert_eq!(parse_document("[]"), None);
    assert_eq!(parse_document("{} {}"), None);
    assert_eq!(parse_document("{\"a\":1}x"), None);
}
