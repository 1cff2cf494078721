//! Selections and rules: how they are set up, and what they ask for.
use std::sync::Arc;

use event_rule::event::{Number, Value};
use event_rule::matcher::LeafMatcher;
use event_rule::rule::{create_rule, DetectionNode, RuleNode};
use event_rule::selection::{
    AndSelectionNode, LeafSelectionNode, NotSelectionNode, OrSelectionNode, RefSelectionNode,
    SelectionNode,
};
use event_rule::table::TextTable;
use event_rule::yaml::Yaml;

fn string(text: &str) -> Value {
    Value::String(text.to_string())
}

fn object(members: Vec<(&str, Value)>) -> Value {
    Value::Object(
        members
            .into_iter()
            .map(|(name, value)| (name.to_string(), value))
            .collect(),
    )
}

fn yaml(text: &str) -> Yaml {
    Yaml::String(text.to_string())
}

fn hash(entries: Vec<(&str, Yaml)>) -> Yaml {
    Yaml::Hash(
        entries
            .into_iter()
            .map(|(key, value)| (yaml(key), value))
            .collect(),
    )
}

fn texts(texts: &[&str]) -> Vec<String> {
    texts.iter().map(|text| text.to_string()).collect()
}

fn no_files() -> TextTable<Vec<Vec<String>>> {
    TextTable::new()
}

fn no_aliases() -> TextTable<String> {
    TextTable::new()
}

fn leaf(keys: &[&str], value: Yaml) -> LeafSelectionNode {
    LeafSelectionNode::new(texts(keys), value)
}

fn rule(detection: Yaml) -> RuleNode {
    create_rule(hash(vec![("detection", detection)]))
}

fn loaded(detection: Yaml) -> RuleNode {
    let mut rule = rule(detection);
    assert_eq!(rule.can_init(), true);
    assert_eq!(rule.init(&no_files()), Ok(()));
    rule
}

fn errors(detection: Yaml) -> Vec<String> {
    let mut rule = rule(detection);
    assert_eq!(rule.can_init(), true);
    rule.init(&no_files()).unwrap_err()
}

#[test]
fn leaf_without_matcher_selects_nothing() {
    let node = leaf(&["a"], yaml("x"));
    assert_eq!(node.select(&object(vec![("a", string("x"))]), &no_aliases()), false);
    assert_eq!(node.get_key(), "a");
    assert_eq!(leaf(&[], yaml("x")).get_key(), "");
    assert_eq!(
        leaf(&[], yaml("x"))
            .get_event_value(&object(vec![("", string("x"))]), &no_aliases())
            .is_none(),
        true
    );
    assert_eq!(node.get_matchers().len(), 4);
}

#[test]
fn options_choose_the_matcher() {
    let mut node = leaf(&["a|startswith|more"], yaml("x"));
    assert_eq!(node.init(&no_files()), Ok(()));
    assert_eq!(node.key_list, texts(&["a"]));
    assert_eq!(matches!(node.matcher, Some(LeafMatcher::StartsWith(_))), true);
    assert_eq!(node.select(&object(vec![("a", string("xy"))]), &no_aliases()), true);
    assert_eq!(node.select(&object(vec![("a", string("yx"))]), &no_aliases()), false);

    let mut node = leaf(&["a|startswith", "b|endswith"], yaml("x"));
    assert_eq!(node.init(&no_files()), Ok(()));
    assert_eq!(node.key_list, texts(&["a", "b"]));
    assert_eq!(matches!(node.matcher, Some(LeafMatcher::EndsWith(_))), true);

    let mut node = leaf(&["a|contains", "b|other"], yaml("x"));
    assert_eq!(
        node.init(&no_files()),
        Err(texts(&["Found unknown key option. option: other"]))
    );
    assert_eq!(node.key_list, texts(&["a|contains", "b|other"]));
    assert_eq!(matches!(node.matcher, Some(LeafMatcher::Contains(_))), true);

    let mut node = leaf(&["a|"], yaml("x"));
    assert_eq!(
        node.init(&no_files()),
        Err(texts(&["Found unknown key option. option: "]))
    );
}

#[test]
fn wrong_leaves_are_reported() {
    let mut node = leaf(&["a", "unknown"], yaml("x"));
    assert_eq!(
        node.init(&no_files()),
        Err(texts(&[
            "Found unknown key. key:detection -> selection -> unknown"
        ]))
    );
    assert_eq!(node.matcher.is_none(), true);
    let mut node = leaf(&[], yaml("x"));
    assert_eq!(
        node.init(&no_files()),
        Err(texts(&["Found no key. key:detection -> selection"]))
    );
    assert_eq!(node.matcher.is_none(), true);
    assert_eq!(node.csv_file_name(), None);
    let mut node = leaf(&["a", "regex"], Yaml::BadValue);
    assert_eq!(
        node.init(&no_files()),
        Err(texts(&[
            "Cannot parse yaml file. key:detection -> selection -> regex"
        ]))
    );
    let mut node = leaf(&["a", "min_length"], yaml("x"));
    assert_eq!(
        node.init(&no_files()),
        Err(texts(&[
            "min_length value should be Integer. [key:detection -> selection -> min_length]"
        ]))
    );
}

#[test]
fn event_data_is_looked_up_in_its_items() {
    let mut node = leaf(&["EventData"], yaml("x[0-9]"));
    assert_eq!(node.init(&no_files()), Ok(()));
    let selects = |data: Value| {
        let record = object(vec![("Event", object(vec![("EventData", object(vec![("Data", data)]))]))]);
        node.select(&record, &no_aliases())
    };
    assert_eq!(selects(Value::Array(vec![string("a"), string("x1")])), true);
    assert_eq!(selects(Value::Array(vec![string("a"), string("b")])), false);
    assert_eq!(selects(Value::Array(vec![])), false);
    assert_eq!(selects(string("x2")), true);
    assert_eq!(selects(object(vec![])), false);

    let mut node = leaf(&["EventData"], yaml("[0-9.]+|true"));
    assert_eq!(node.init(&no_files()), Ok(()));
    let selects = |data: Value| {
        let record = object(vec![("Event", object(vec![("EventData", object(vec![("Data", data)]))]))]);
        node.select(&record, &no_aliases())
    };
    assert_eq!(selects(Value::Bool(true)), true);
    assert_eq!(selects(Value::Number(Number::PosInt(12))), true);
    // Data that is neither a boolean, nor an integer of 64 bits, nor a string counts as absent.
    assert_eq!(selects(Value::Number(Number::PosInt(u64::MAX))), false);
    assert_eq!(selects(Value::Number(Number::Float("1.5".to_string()))), false);
    assert_eq!(
        selects(Value::Array(vec![Value::Number(Number::Float("1.5".to_string()))])),
        true
    );

    let mut node = leaf(&["EventData"], Yaml::Null);
    assert_eq!(node.init(&no_files()), Ok(()));
    assert_eq!(node.select(&object(vec![]), &no_aliases()), true);
}

#[test]
fn conditions_combine() {
    let yes = || SelectionNode::And(AndSelectionNode::new());
    let no = || SelectionNode::Or(OrSelectionNode::new());
    let mut all = AndSelectionNode::new();
    let mut any = OrSelectionNode::new();
    assert_eq!(all.select(&Value::Null, &no_aliases()), true);
    assert_eq!(any.select(&Value::Null, &no_aliases()), false);
    all.child_nodes = vec![yes(), no()];
    any.child_nodes = vec![no(), yes()];
    assert_eq!(all.select(&Value::Null, &no_aliases()), false);
    assert_eq!(any.select(&Value::Null, &no_aliases()), true);
    let mut not = NotSelectionNode::new(Box::new(no()));
    assert_eq!(not.select(&Value::Null, &no_aliases()), true);
    assert_eq!(not.init(&no_files()), Ok(()));
    assert_eq!(not.get_childs().len(), 1);
    assert_eq!(matches!(not.get_childs()[0], SelectionNode::Or(_)), true);
    assert_eq!(not.get_descendants().len(), 1);
    let mut reference = RefSelectionNode::new(Arc::new(yes()));
    assert_eq!(reference.select(&Value::Null, &no_aliases()), true);
    assert_eq!(reference.init(&no_files()), Ok(()));
    assert_eq!(reference.get_childs().len(), 1);
    assert_eq!(reference.get_descendants().len(), 1);
}

#[test]
fn descendants_go_through_references_and_negations() {
    let mut all = AndSelectionNode::new();
    all.child_nodes = vec![SelectionNode::Leaf(leaf(&["a"], yaml("x")))];
    let reference = RefSelectionNode::new(Arc::new(SelectionNode::And(all)));
    assert_eq!(reference.get_childs().len(), 1);
    let descendants = reference.get_descendants();
    assert_eq!(descendants.len(), 2);
    assert_eq!(matches!(descendants[0], SelectionNode::And(_)), true);
    assert_eq!(matches!(descendants[1], SelectionNode::Leaf(_)), true);
    let not = NotSelectionNode::new(Box::new(SelectionNode::Ref(reference)));
    let descendants = not.get_descendants();
    assert_eq!(descendants.len(), 3);
    assert_eq!(matches!(descendants[0], SelectionNode::Ref(_)), true);
    assert_eq!(matches!(descendants[2], SelectionNode::Leaf(_)), true);
    let node = SelectionNode::Not(not);
    assert_eq!(node.get_childs().len(), 1);
    assert_eq!(node.get_descendants().len(), 3);
}

#[test]
fn messages_are_collected_in_order() {
    let wrong = |key: &str| SelectionNode::Leaf(leaf(&["a", key], yaml("x")));
    let mut inner = OrSelectionNode::new();
    inner.child_nodes = vec![wrong("c"), SelectionNode::Leaf(leaf(&["a"], yaml("x"))), wrong("d")];
    let mut outer = AndSelectionNode::new();
    outer.child_nodes = vec![wrong("b"), SelectionNode::Or(inner), wrong("e")];
    assert_eq!(outer.get_childs().len(), 3);
    assert_eq!(outer.get_descendants().len(), 6);
    assert_eq!(
        outer.init(&no_files()),
        Err(texts(&[
            "Found unknown key. key:detection -> selection -> b",
            "Found unknown key. key:detection -> selection -> c",
            "Found unknown key. key:detection -> selection -> d",
            "Found unknown key. key:detection -> selection -> e",
        ]))
    );
}

#[test]
fn hashes_ask_for_all_and_arrays_for_one() {
    let rule = loaded(hash(vec![(
        "selection",
        hash(vec![
            ("a", yaml("1")),
            ("b", Yaml::Array(vec![yaml("2"), Yaml::Integer(3)])),
        ]),
    )]));
    let selects = |a: &str, b: &str| {
        rule.select(&object(vec![("a", string(a)), ("b", string(b))]), &no_aliases())
    };
    assert_eq!(selects("1", "2"), true);
    assert_eq!(selects("1", "3"), true);
    assert_eq!(selects("1", "4"), false);
    assert_eq!(selects("0", "2"), false);
}

#[test]
fn rule_that_is_not_set_up_detects_nothing() {
    let rule = rule(hash(vec![("selection", hash(vec![]))]));
    assert_eq!(rule.detection.is_none(), true);
    assert_eq!(rule.select(&Value::Null, &no_aliases()), false);
    assert_eq!(DetectionNode::new().select(&Value::Null, &no_aliases()), false);
}

#[test]
fn only_selection_needs_no_condition() {
    let rule = loaded(hash(vec![("target", hash(vec![("a", yaml("1"))]))]));
    assert_eq!(rule.select(&object(vec![("a", string("1"))]), &no_aliases()), true);
    assert_eq!(rule.select(&object(vec![("a", string("2"))]), &no_aliases()), false);
    let detection = rule.detection.unwrap();
    assert_eq!(detection.aggregation_condition.is_none(), true);
    assert_eq!(detection.name_to_selection.len(), 1);
}

#[test]
fn only_selection_is_adopted_whatever_its_name() {
    for name in ["selection-1", "and", "not", "a b", "a|b", "(", "選択"] {
        let rule = loaded(hash(vec![(name, hash(vec![("Channel", yaml("System"))]))]));
        let selects = |text: &str| {
            rule.select(&object(vec![("Channel", string(text))]), &no_aliases())
        };
        assert_eq!(selects("System"), true, "{}", name);
        assert_eq!(selects("Other"), false, "{}", name);
        let detection = rule.detection.as_ref().unwrap();
        assert_eq!(detection.aggregation_condition.is_none(), true);
        assert_eq!(detection.condition.as_ref().unwrap().get_childs().len(), 1);
    }
    // A condition that is no string counts as none.
    let rule = loaded(hash(vec![
        ("selection-1", hash(vec![])),
        ("condition", Yaml::Integer(1)),
    ]));
    assert_eq!(rule.select(&Value::Null, &no_aliases()), true);
}

#[test]
fn aggregation_condition_is_kept() {
    let rule = loaded(hash(vec![
        ("target", hash(vec![("a", yaml("1"))])),
        ("condition", yaml("not target | count(f) by g >= 10")),
    ]));
    assert_eq!(rule.select(&object(vec![("a", string("1"))]), &no_aliases()), false);
    assert_eq!(rule.select(&object(vec![]), &no_aliases()), true);
    let info = rule.detection.unwrap().aggregation_condition.unwrap();
    assert_eq!(info._field_name.unwrap(), "f");
    assert_eq!(info._by_field_name.unwrap(), "g");
    assert_eq!(info._cmp_num, 10);
}

#[test]
fn wrong_rules_are_reported() {
    assert_eq!(errors(yaml("x")), texts(&["not found detection node"]));
    let mut rule_without_detection = create_rule(Yaml::Null);
    assert_eq!(
        rule_without_detection.init(&no_files()),
        Err(texts(&["not found detection node"]))
    );
    let none = "There are no selection node under detection.";
    assert_eq!(errors(hash(vec![])), texts(&[none]));
    assert_eq!(errors(hash(vec![("condition", yaml("a"))])), texts(&[none]));
    assert_eq!(
        errors(Yaml::Hash(vec![(Yaml::Integer(1), yaml("x"))])),
        texts(&[none])
    );
    assert_eq!(
        errors(hash(vec![("a", hash(vec![])), ("b", hash(vec![]))])),
        texts(&["There are no condition node under detection."])
    );
    assert_eq!(
        errors(hash(vec![
            ("a", hash(vec![])),
            ("condition", yaml("b | count()")),
        ])),
        texts(&[
            "condition parse error has occured. b is not defined.",
            "aggregation condition parse error has occurred. count keyword needs compare operator and number like '> 3'",
        ])
    );
    assert_eq!(
        errors(hash(vec![
            ("a", hash(vec![("k|x", yaml("1"))])),
            ("b", hash(vec![("k", hash(vec![("y", yaml("1"))]))])),
            ("condition", yaml("a")),
        ])),
        texts(&[
            "Found unknown key option. option: x",
            "Found unknown key. key:detection -> selection -> y",
        ])
    );
}

#[test]
fn wrong_condition_detects_nothing() {
    let mut wrong = rule(hash(vec![
        ("a", hash(vec![])),
        ("condition", yaml("a and b")),
    ]));
    assert_eq!(wrong.init(&no_files()).is_err(), true);
    assert_eq!(wrong.detection.is_some(), true);
    assert_eq!(wrong.select(&Value::Null, &no_aliases()), false);
    // With a wrong aggregation condition alone, the condition still detects.
    let mut wrong = rule(hash(vec![("a", hash(vec![])), ("condition", yaml("a |"))]));
    assert_eq!(wrong.init(&no_files()).is_err(), true);
    assert_eq!(wrong.select(&Value::Null, &no_aliases()), true);
}

#[test]
fn selections_without_keys_are_reported() {
    let message = "Found no key. key:detection -> selection";
    assert_eq!(errors(hash(vec![("a", yaml("x"))])), texts(&[message]));
    assert_eq!(
        errors(hash(vec![("a", Yaml::Array(vec![yaml("x"), Yaml::Null]))])),
        texts(&[message, message])
    );
}

#[test]
fn keys_have_to_be_strings() {
    assert_eq!(
        rule(hash(vec![("a", Yaml::Hash(vec![(Yaml::Integer(1), yaml("x"))]))])).can_init(),
        false
    );
    assert_eq!(rule(hash(vec![("a", Yaml::Array(vec![]))])).can_init(), true);
    assert_eq!(rule(hash(vec![("condition", yaml("x"))])).can_init(), true);
    assert_eq!(
        rule(hash(vec![(
            "a",
            Yaml::Array(vec![hash(vec![("k", Yaml::Array(vec![yaml("x")]))])])
        )]))
        .can_init(),
        true
    );
}

#[test]
fn files_of_a_rule() {
    let detection = hash(vec![
        (
            "a",
            hash(vec![
                ("k", hash(vec![("regexes", yaml("one.txt")), ("min_length", Yaml::Integer(1))])),
                ("l", Yaml::Array(vec![hash(vec![("whitelist", Yaml::Integer(2))])])),
                ("m|startswith", hash(vec![("regexes", yaml("three.txt"))])),
                ("n", hash(vec![("regexes", Yaml::Null)])),
            ]),
        ),
        ("condition", yaml("a")),
    ]);
    let rule = rule(detection);
    assert_eq!(rule.can_init(), true);
    assert_eq!(rule.csv_file_names(), texts(&["one.txt", "2"]));
}

#[test]
fn kinds_of_yaml_are_told_apart() {
    assert_eq!(Yaml::Integer(3).as_i64(), Some(3));
    assert_eq!(yaml("3").as_i64(), None);
    assert_eq!(yaml("3").as_str(), Some("3"));
    assert_eq!(Yaml::Null.is_null(), true);
    assert_eq!(Yaml::BadValue.is_badvalue(), true);
    assert_eq!(Yaml::Null.index("a").is_badvalue(), true);
    assert_eq!(hash(vec![("a", Yaml::Integer(1))]).index("a").as_i64(), Some(1));
    assert_eq!(hash(vec![("a", Yaml::Integer(1))]).index("b").is_badvalue(), true);
    let nested = Yaml::Array(vec![hash(vec![("a", yaml("b"))])]);
    assert_eq!(format!("{:?}", nested.clone()), format!("{:?}", nested));
    assert_eq!(nested.as_hash().is_none(), true);
}

#[test]
fn rules_can_be_shared_between_threads() {
    fn shared<T: Send + Sync>(_: &T) {}
    shared(&rule(Yaml::Null));
}

#[test]
fn tables_keep_the_last_value() {
    let mut table = TextTable::new();
    assert_eq!(table.some_key().is_none(), true);
    table.insert("a".to_string(), 1);
    table.insert("b".to_string(), 2);
    table.insert("a".to_string(), 3);
    assert_eq!(table.len(), 2);
    assert_eq!(table.get("a"), Some(&3));
    assert_eq!(table.get("b"), Some(&2));
    assert_eq!(table.get("c"), None);
}

#[test]
fn setting_up_again_changes_nothing() {
    let mut node = AndSelectionNode::new();
    node.child_nodes = vec![
        SelectionNode::Leaf(leaf(&["a|endswith"], yaml("x"))),
        SelectionNode::Leaf(leaf(&["b", "regex"], yaml("[0-9]+"))),
    ];
    assert_eq!(node.init(&no_files()), Ok(()));
    let once = format!("{:?}", node);
    assert_eq!(node.init(&no_files()), Ok(()));
    assert_eq!(format!("{:?}", node), once);
}

#[test]
fn files_that_are_not_named_make_no_difference() {
    let detection = || hash(vec![("a", hash(vec![("k", hash(vec![("regexes", yaml("one.txt"))]))]))]);
    let mut some = TextTable::new();
    some.insert("one.txt".to_string(), vec![texts(&["0", "x", "found"])]);
    let mut more = TextTable::new();
    more.insert("two.txt".to_string(), vec![texts(&["0", "y", "other"])]);
    more.insert("one.txt".to_string(), vec![texts(&["0", "x", "found"])]);
    let mut first = rule(detection());
    let mut second = rule(detection());
    assert_eq!(first.init(&some), Ok(()));
    assert_eq!(second.init(&more), Ok(()));
    assert_eq!(format!("{:?}", first), format!("{:?}", second));
    for text in ["x", "y"] {
        let record = object(vec![("k", string(text))]);
        assert_eq!(first.select(&record, &no_aliases()), text == "x");
        assert_eq!(second.select(&record, &no_aliases()), text == "x");
    }
}

#[test]
fn children_come_first_among_descendants() {
    let node = |key: &str| SelectionNode::Leaf(leaf(&[key], yaml("x")));
    let mut inner = OrSelectionNode::new();
    inner.child_nodes = vec![node("c"), node("d")];
    let mut outer = AndSelectionNode::new();
    outer.child_nodes = vec![node("a"), SelectionNode::Or(inner), node("b")];
    let keys: Vec<String> = outer
        .get_descendants()
        .into_iter()
        .map(|node| match node {
            SelectionNode::Leaf(leaf) => leaf.get_key(),
            _ => "or".to_string(),
        })
        .collect();
    assert_eq!(keys, texts(&["a", "or", "b", "c", "d"]));
}
