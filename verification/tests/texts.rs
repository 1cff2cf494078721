//! Text operations and aggregation conditions in detail.
use event_rule::aggregation::{AggegationConditionCompiler, AggregationConditionToken};
use event_rule::text::{
    bool_to_string, contains, decimal_i64, decimal_u64, ends_with, parse_i32, remove_char,
    remove_first, starts_with, text_eq,
};

#[test]
fn numbers_are_written_and_read() {
    assert_eq!(decimal_u64(0), "0");
    assert_eq!(decimal_u64(u64::MAX), "18446744073709551615");
    assert_eq!(decimal_i64(i64::MIN), "-9223372036854775808");
    assert_eq!(decimal_i64(-7), "-7");
    assert_eq!(parse_i32("2147483647"), Some(2147483647));
    assert_eq!(parse_i32("2147483648"), None);
    assert_eq!(parse_i32("-2147483648"), Some(-2147483648));
    assert_eq!(parse_i32("-2147483649"), None);
    assert_eq!(parse_i32("99999999999999999999999"), None);
    assert_eq!(parse_i32("+05"), Some(5));
    assert_eq!(parse_i32(""), None);
    assert_eq!(parse_i32("-"), None);
    assert_eq!(parse_i32("1_0"), None);
    for n in [0, 9, 10, -10, 4103, i32::MAX, i32::MIN] {
        assert_eq!(parse_i32(&decimal_i64(n as i64)), Some(n));
    }
    assert_eq!(bool_to_string(true), "true");
    assert_eq!(bool_to_string(false), "false");
}

#[test]
fn texts_are_searched() {
    assert_eq!(text_eq("文", "文"), true);
    assert_eq!(text_eq("文", "字"), false);
    assert_eq!(starts_with("文字", "文"), true);
    assert_eq!(starts_with("文", "文字"), false);
    assert_eq!(ends_with("文字", "字"), true);
    assert_eq!(ends_with("文字", "文"), false);
    assert_eq!(contains("a文字b", "文字"), true);
    assert_eq!(contains("", ""), true);
    assert_eq!(contains("aab", "ab"), true);
    assert_eq!(contains("aab", "ba"), false);
    assert_eq!(remove_first("abab", "b"), "aab");
    assert_eq!(remove_first("abab", "c"), "abab");
    assert_eq!(remove_char("a b c ", ' '), "abc");
}

#[test]
fn tokens_of_an_aggregation_condition() {
    let compiler = AggegationConditionCompiler::new();
    let shown = |text: &str| -> String {
        let tokens = compiler.tokenize(text.to_string()).unwrap();
        format!("{:?}", tokens)
    };
    assert_eq!(
        shown("count( f ) by g>=3"),
        "[COUNT(\"f\"), BY, KEYWORD(\"g\"), GE, KEYWORD(\"3\")]"
    );
    assert_eq!(shown("<= < == > "), "[LE, LT, EQ, GT]");
    // A word that starts with `by` falls apart.
    assert_eq!(shown("bytes"), "[BY, KEYWORD(\"tes\")]");
    // Without its parentheses `count` is a word.
    assert_eq!(shown("count"), "[KEYWORD(\"count\")]");
    assert_eq!(
        compiler.tokenize("count(a b)".to_string()).unwrap_err(),
        "An unusable character was found."
    );
    assert_eq!(shown("count()"), "[COUNT(\"\")]");
}

#[test]
fn lexemes_of_an_aggregation_condition() {
    let compiler = AggegationConditionCompiler::new();
    for (text, token) in [
        ("count( a )", "COUNT(\"a\")"),
        (" ", "SPACE"),
        ("by", "BY"),
        ("==", "EQ"),
        ("<=", "LE"),
        (">=", "GE"),
        ("<", "LT"),
        (">", "GT"),
        ("x", "KEYWORD(\"x\")"),
    ] {
        let found = compiler.to_enum(text.to_string());
        assert_eq!(format!("{:?}", found), token);
        let is_op = ["==", "<=", ">=", "<", ">"].contains(&text);
        assert_eq!(compiler.is_cmp_op(&found), is_op);
    }
}

#[test]
fn every_comparison_is_read_back() {
    let compiler = AggegationConditionCompiler::new();
    for (text, op) in [("==", "EQ"), ("<=", "LE"), (">=", "GE"), ("<", "LT"), (">", "GT")] {
        let info = compiler
            .compile(format!("a | count(f) by g {} 12", text))
            .unwrap()
            .unwrap();
        assert_eq!(format!("{:?}", info._cmp_op), op);
        assert_eq!(info._field_name, Some("f".to_string()));
        assert_eq!(info._by_field_name, Some("g".to_string()));
        assert_eq!(info._cmp_num, 12);
    }
}

#[test]
fn wrong_aggregation_conditions_are_reported() {
    let compiler = AggegationConditionCompiler::new();
    let cases = [
        ("a |", "There are no strings after pipe(|)."),
        ("a | b", "aggregation condition can use count only."),
        ("a | count()", "count keyword needs compare operator and number like '> 3'"),
        ("a | count() by b", "count keyword needs compare operator and number like '> 3'"),
        ("a | count() by b c", "count keyword needs compare operator and number like '> 3'"),
        ("a | count() by > 3", "by keyword needs field name like 'by EventID'"),
        ("a | count() > b", "compare operator needs a number like '> 3'."),
        ("a | count() > > 3", "compare operator needs a number like '> 3'."),
        ("a | count() > 2147483648", "compare operator needs a number like '> 3'."),
        ("a | count() > 3 > 3", "unnecessary word was found."),
        ("a | count() > -3", "An unusable character was found."),
    ];
    for (text, message) in cases {
        assert_eq!(compiler.compile_body(text.to_string()).unwrap_err(), message, "{}", text);
    }
    // What stands on the next line does not count.
    assert_eq!(compiler.compile_body("a | count() > 3\n-".to_string()).is_ok(), true);
    let tokens = vec![AggregationConditionToken::BY];
    assert_eq!(
        compiler.parse(tokens).unwrap_err(),
        "aggregation condition can use count only."
    );
}
