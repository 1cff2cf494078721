//! The comparisons of leaves with values of event records.
use event_rule::event::{get_event_value, Number, Value};
use event_rule::matcher::{
    concat_selection_key, ContainsMatcher, EndsWithMatcher, LeafMatcher, MinlengthMatcher,
    RegexMatcher, RegexesFileMatcher, StartsWithMatcher, WhitelistFileMatcher,
};
use event_rule::pattern::Pattern;
use event_rule::table::TextTable;
use event_rule::utils::{check_regex, check_whitelist};
use event_rule::yaml::Yaml;

fn string(text: &str) -> Value {
    Value::String(text.to_string())
}

fn number(n: u64) -> Value {
    Value::Number(Number::PosInt(n))
}

fn row(cells: &[&str]) -> Vec<String> {
    cells.iter().map(|cell| cell.to_string()).collect()
}

fn yaml(text: &str) -> Yaml {
    Yaml::String(text.to_string())
}

fn keys(names: &[&str]) -> Vec<String> {
    row(names)
}

fn regex(value: Yaml) -> RegexMatcher {
    let mut matcher = RegexMatcher::new();
    assert_eq!(matcher.init(&keys(&[]), &value), Ok(()));
    matcher
}

#[test]
fn patterns_are_compiled_and_applied() {
    assert_eq!(Pattern::new("a(").is_none(), true);
    let pattern = Pattern::new("[a-c]+").unwrap();
    assert_eq!(pattern.as_str(), "[a-c]+");
    assert_eq!(pattern.first_match("xxabyc"), Some("ab".to_string()));
    assert_eq!(pattern.first_match("xyz"), None);
    assert_eq!(pattern.matches("xxabyc"), row(&["ab", "c"]));
    assert_eq!(pattern.is_match("xyz"), false);
    assert_eq!(pattern.is_match("xyzb"), true);
}

#[test]
fn regex_has_to_match_all_of_the_value() {
    let matcher = regex(yaml("4[0-9]+"));
    assert_eq!(matcher.is_match(Some(&number(4103))), true);
    assert_eq!(matcher.is_match(Some(&number(14103))), false);
    assert_eq!(matcher.is_match(Some(&string("4103"))), true);
    assert_eq!(matcher.is_match(Some(&string("4103x"))), false);
    assert_eq!(matcher.is_match(Some(&string(""))), false);
    assert_eq!(matcher.is_match(None), false);
    assert_eq!(matcher.is_match(Some(&Value::Null)), false);
    assert_eq!(matcher.is_match(Some(&Value::Array(vec![number(41)]))), false);
    let pattern = Pattern::new("b+").unwrap();
    assert_eq!(
        matcher.is_regex_fullmatch(&pattern, "bbb".to_string()),
        true
    );
    assert_eq!(
        matcher.is_regex_fullmatch(&pattern, "bab".to_string()),
        false
    );
}

#[test]
fn regex_is_given_as_any_scalar() {
    assert_eq!(regex(Yaml::Integer(-12)).is_match(Some(&string("-12"))), true);
    assert_eq!(
        regex(Yaml::Integer(i64::MIN)).is_match(Some(&Value::Number(Number::NegInt(i64::MIN)))),
        true
    );
    assert_eq!(
        regex(Yaml::Boolean(true)).is_match(Some(&Value::Bool(true))),
        true
    );
    assert_eq!(
        regex(Yaml::Boolean(true)).is_match(Some(&Value::Bool(false))),
        false
    );
    let float = Value::Number(Number::Float("1.5".to_string()));
    assert_eq!(
        regex(Yaml::Real("1.5".to_string())).is_match(Some(&float)),
        true
    );
}

#[test]
fn null_asks_for_absence() {
    let mut matcher = regex(yaml("x"));
    assert_eq!(matcher.init(&keys(&[]), &Yaml::Null), Ok(()));
    assert_eq!(matcher.re.is_none(), true);
    assert_eq!(matcher.is_match(None), true);
    assert_eq!(matcher.is_match(Some(&Value::Null)), true);
    assert_eq!(matcher.is_match(Some(&string(""))), true);
    assert_eq!(matcher.is_match(Some(&string(" "))), false);
    assert_eq!(matcher.is_match(Some(&number(0))), false);
    assert_eq!(matcher.is_match(Some(&Value::Array(vec![]))), false);
}

#[test]
fn wrong_regexes_are_reported() {
    let mut matcher = regex(yaml("x"));
    assert_eq!(
        matcher.init(&keys(&["regex"]), &yaml("a(")),
        Err(row(&[
            "cannot parse regex. [regex:a(, key:detection -> selection -> regex]"
        ]))
    );
    assert_eq!(matcher.re.as_ref().unwrap().as_str(), "x");
    assert_eq!(
        matcher.init(&keys(&["a", "b"]), &Yaml::Alias(1)),
        Err(row(&[
            "unknown error occured. [key:detection -> selection -> a -> b]"
        ]))
    );
    assert_eq!(matcher.re.as_ref().unwrap().as_str(), "x");
}

#[test]
fn length_is_counted_in_characters() {
    let mut matcher = MinlengthMatcher::new();
    assert_eq!(matcher.min_len, 0);
    assert_eq!(matcher.init(&keys(&["min_length"]), &Yaml::Integer(3)), Ok(()));
    assert_eq!(matcher.is_match(Some(&string("abc"))), true);
    assert_eq!(matcher.is_match(Some(&string("ab"))), false);
    assert_eq!(matcher.is_match(Some(&string("文字"))), false);
    assert_eq!(matcher.is_match(Some(&string("文字数"))), true);
    assert_eq!(matcher.is_match(Some(&number(123))), true);
    assert_eq!(matcher.is_match(Some(&number(12))), false);
    assert_eq!(matcher.is_match(Some(&Value::Bool(true))), false);
    assert_eq!(matcher.is_match(None), false);
    assert_eq!(
        matcher.init(&keys(&["min_length"]), &yaml("3")),
        Err(row(&[
            "min_length value should be Integer. [key:detection -> selection -> min_length]"
        ]))
    );
    assert_eq!(matcher.min_len, 3);
    assert_eq!(
        matcher.init(&keys(&["min_length"]), &Yaml::Integer(-1)),
        Ok(())
    );
    assert_eq!(matcher.is_match(Some(&string(""))), true);
    assert_eq!(matcher.is_match(Some(&Value::Null)), false);
}

#[test]
fn smaller_minimum_is_met_too() {
    let value = string("abcd");
    let met: Vec<bool> = (0..7)
        .map(|min_len| MinlengthMatcher { min_len }.is_match(Some(&value)))
        .collect();
    assert_eq!(met, vec![true, true, true, true, true, false, false]);
}

fn files() -> TextTable<Vec<Vec<String>>> {
    let mut files = TextTable::new();
    files.insert(
        "list.txt".to_string(),
        vec![
            row(&["0", "^evil", "an evil tool"]),
            row(&["1", "^other", "another kind"]),
        ],
    );
    files.insert("7".to_string(), vec![row(&["^good"])]);
    files
}

#[test]
fn regexes_come_from_a_file() {
    let mut matcher = RegexesFileMatcher::new();
    let list = keys(&["regexes"]);
    assert_eq!(matcher.is_match(Some(&string("evil.exe"))), false);
    assert_eq!(matcher.init(&list, &yaml("list.txt"), &files()), Ok(()));
    assert_eq!(matcher.regexes_csv_content.len(), 2);
    assert_eq!(matcher.is_match(Some(&string("evil.exe"))), true);
    assert_eq!(matcher.is_match(Some(&string("not evil"))), false);
    assert_eq!(matcher.is_match(Some(&string("other"))), false);
    assert_eq!(matcher.is_match(None), false);
    assert_eq!(
        matcher.init(&list, &Yaml::Boolean(true), &files()),
        Err(row(&[
            "regexes value should be String. [key:detection -> selection -> regexes]"
        ]))
    );
    assert_eq!(
        matcher.init(&list, &yaml("none.txt"), &files()),
        Err(row(&[
            "cannot read regexes file. [key:detection -> selection -> regexes]"
        ]))
    );
    assert_eq!(matcher.regexes_csv_content.len(), 2);
}

#[test]
fn exceptions_come_from_a_file() {
    let mut matcher = WhitelistFileMatcher::new();
    let list = keys(&["whitelist"]);
    assert_eq!(matcher.is_match(Some(&string("good.exe"))), true);
    assert_eq!(matcher.init(&list, &Yaml::Integer(7), &files()), Ok(()));
    assert_eq!(matcher.is_match(Some(&string("good.exe"))), false);
    assert_eq!(matcher.is_match(Some(&string("bad.exe"))), true);
    assert_eq!(matcher.is_match(Some(&Value::Bool(true))), true);
    assert_eq!(matcher.is_match(Some(&Value::Null)), true);
    assert_eq!(matcher.is_match(None), true);
    assert_eq!(
        matcher.init(&list, &Yaml::Null, &files()),
        Err(row(&[
            "whitelist value should be String. [key:detection -> selection -> whitelist]"
        ]))
    );
    assert_eq!(
        matcher.init(&list, &Yaml::Real("1.5".to_string()), &files()),
        Err(row(&[
            "cannot read whitelist file. [key:detection -> selection -> whitelist]"
        ]))
    );
}

#[test]
fn parts_of_a_value_are_compared() {
    let mut start = StartsWithMatcher::new();
    let mut end = EndsWithMatcher::new();
    let mut part = ContainsMatcher::new();
    let value = string("ab.cd");
    // Without a text every string matches.
    assert_eq!(start.is_match(Some(&value)), true);
    assert_eq!(end.is_match(Some(&value)), true);
    assert_eq!(part.is_match(Some(&value)), true);
    for (text, at_start, at_end, inside) in [
        ("ab", true, false, true),
        ("cd", false, true, true),
        (".", false, false, true),
        ("ab.cd", true, true, true),
        ("ab.cd.", false, false, false),
        ("bc", false, false, false),
    ] {
        assert_eq!(start.init(&keys(&[]), &yaml(text)), Ok(()));
        assert_eq!(end.init(&keys(&[]), &yaml(text)), Ok(()));
        assert_eq!(part.init(&keys(&[]), &yaml(text)), Ok(()));
        assert_eq!(start.is_match(Some(&value)), at_start, "{}", text);
        assert_eq!(end.is_match(Some(&value)), at_end, "{}", text);
        assert_eq!(part.is_match(Some(&value)), inside, "{}", text);
    }
    // Null keeps the text.
    assert_eq!(start.init(&keys(&[]), &Yaml::Null), Ok(()));
    assert_eq!(start.start_text, "bc");
    assert_eq!(end.init(&keys(&[]), &Yaml::Null), Ok(()));
    assert_eq!(end.end_text, "bc");
    assert_eq!(part.init(&keys(&[]), &Yaml::Null), Ok(()));
    assert_eq!(part.pattern, "bc");
    // Numbers are compared as they are written, and nothing else is.
    assert_eq!(start.init(&keys(&[]), &Yaml::Integer(47)), Ok(()));
    assert_eq!(end.init(&keys(&[]), &Yaml::Integer(47)), Ok(()));
    assert_eq!(part.init(&keys(&[]), &Yaml::Integer(47)), Ok(()));
    assert_eq!(start.is_match(Some(&number(4732))), true);
    assert_eq!(end.is_match(Some(&number(3247))), true);
    assert_eq!(part.is_match(Some(&number(34732))), true);
    assert_eq!(start.is_match(Some(&Value::Bool(true))), false);
    assert_eq!(end.is_match(Some(&Value::Null)), false);
    assert_eq!(part.is_match(None), false);
    let message = "unknown error occured. [key:detection -> selection -> k]";
    let list = keys(&["k"]);
    assert_eq!(start.init(&list, &Yaml::BadValue), Err(row(&[message])));
    assert_eq!(end.init(&list, &Yaml::BadValue), Err(row(&[message])));
    assert_eq!(part.init(&list, &Yaml::BadValue), Err(row(&[message])));
    assert_eq!(start.start_text, "47");
}

#[test]
fn keys_ask_for_matchers() {
    let lists = [
        keys(&[]),
        keys(&["regex"]),
        keys(&["min_length"]),
        keys(&["regexes"]),
        keys(&["whitelist"]),
        keys(&["regex", "regex"]),
        keys(&["other"]),
    ];
    let targets = |matcher: LeafMatcher| -> Vec<bool> {
        lists.iter().map(|list| matcher.is_target_key(list)).collect()
    };
    let t = true;
    let f = false;
    assert_eq!(
        targets(LeafMatcher::Regex(RegexMatcher::new())),
        vec![t, t, f, f, f, f, f]
    );
    assert_eq!(
        targets(LeafMatcher::Minlength(MinlengthMatcher::new())),
        vec![f, f, t, f, f, f, f]
    );
    assert_eq!(
        targets(LeafMatcher::Regexes(RegexesFileMatcher::new())),
        vec![f, f, f, t, f, f, f]
    );
    assert_eq!(
        targets(LeafMatcher::Whitelist(WhitelistFileMatcher::new())),
        vec![f, f, f, f, t, f, f]
    );
    assert_eq!(
        targets(LeafMatcher::StartsWith(StartsWithMatcher::new())),
        vec![f; 7]
    );
    assert_eq!(
        targets(LeafMatcher::EndsWith(EndsWithMatcher::new())),
        vec![f; 7]
    );
    assert_eq!(
        targets(LeafMatcher::Contains(ContainsMatcher::new())),
        vec![f; 7]
    );
}

#[test]
fn place_of_a_leaf() {
    assert_eq!(concat_selection_key(&keys(&[])), "detection -> selection");
    assert_eq!(
        concat_selection_key(&keys(&["a", "b"])),
        "detection -> selection -> a -> b"
    );
}

#[test]
fn lists_are_checked() {
    let list = vec![
        row(&["0", "a+", "first"]),
        row(&["0", "b", ""]),
        row(&["0", "", "empty"]),
        row(&["0", "c(", "invalid"]),
        row(&["10", "a", "other kind"]),
        row(&["0", "[ab]$", "last"]),
        row(&["0"]),
        row(&[]),
    ];
    assert_eq!(check_regex("xab", 0, &list), "first\nlast\n");
    assert_eq!(check_regex("xab", 10, &list), "other kind\n");
    assert_eq!(check_regex("c", 0, &list), "");
    let list = vec![row(&[]), row(&[""]), row(&["b("]), row(&["^x", "y"])];
    assert_eq!(check_whitelist("xab", &list), true);
    assert_eq!(check_whitelist("ab", &list), false);
}

#[test]
fn values_are_found_by_paths_and_aliases() {
    let record = Value::Object(vec![
        (
            "Event".to_string(),
            Value::Object(vec![
                ("System".to_string(), Value::Object(vec![("ID".to_string(), number(7))])),
                ("Name".to_string(), string("n")),
            ]),
        ),
        ("ID".to_string(), number(8)),
    ]);
    let mut aliases = TextTable::new();
    aliases.insert("EventID".to_string(), "Event.System.ID".to_string());
    aliases.insert("Two".to_string(), "EventID".to_string());
    let found = |key: &str| {
        get_event_value(key, &record, &aliases).and_then(|value| value.text())
    };
    assert_eq!(found("Event.System.ID"), Some("7".to_string()));
    assert_eq!(found("EventID"), Some("7".to_string()));
    assert_eq!(found("ID"), Some("8".to_string()));
    assert_eq!(found("Event.Name"), Some("n".to_string()));
    assert_eq!(get_event_value("Event.Name.x", &record, &aliases).is_none(), true);
    assert_eq!(get_event_value("Event.System", &record, &aliases).is_some(), true);
    assert_eq!(get_event_value("Event.Other", &record, &aliases).is_none(), true);
    assert_eq!(get_event_value("Event.", &record, &aliases).is_none(), true);
    // An alias is followed once.
    assert_eq!(get_event_value("Two", &record, &aliases).is_none(), true);
}
