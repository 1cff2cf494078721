//! What the keys of leaves stand for, and of which event records conditions hold.
use vstd::prelude::*;

use crate::event;
use crate::event::ValueView;
use crate::matcher;
use crate::matcher::MatcherView;
use crate::matcher_laws;
use crate::pattern;
use crate::selection;
use crate::selection::{LeafView, NodeView};
use crate::text;
use crate::yaml::YamlView;

verus! {

proof fn lemma_first_bar(name: Seq<char>, rest: Seq<char>)
    requires
        !name.contains('|'),
    ensures
        text::find_char(name + seq!['|'] + rest, '|', 0) == name.len(),
{
    let key = name + seq!['|'] + rest;
    text::lemma_find_char(key, '|', 0);
    let bar = text::find_char(key, '|', 0);
    assert(key[name.len() as int] == '|');
    if bar < name.len() {
        assert(name[bar] == key[bar]);
        assert(name.contains(name[bar]));
    }
}

proof fn lemma_no_bar(key: Seq<char>, from: int)
    requires
        0 <= from <= key.len(),
        forall|i: int| from <= i < key.len() ==> key[i] != '|',
    ensures
        text::find_char(key, '|', from) == key.len(),
{
    text::lemma_find_char(key, '|', from);
}

/// A key without a bar is a name, and has no option.
pub proof fn law_key_without_option(key: Seq<char>)
    requires
        !key.contains('|'),
    ensures
        selection::key_name(key) == key,
        selection::key_option(key) is None,
{
    assert forall|i: int| 0 <= i < key.len() implies key[i] != '|' by {
        assert(key.contains(key[i]));
    }
    lemma_no_bar(key, 0);
    assert(key.take(key.len() as int) =~= key);
}

/// What stands before the first bar of a key is its name.
pub proof fn law_key_name(name: Seq<char>, rest: Seq<char>)
    requires
        !name.contains('|'),
    ensures
        selection::key_name(name + seq!['|'] + rest) == name,
{
    lemma_first_bar(name, rest);
    assert((name + seq!['|'] + rest).take(name.len() as int) =~= name);
}

/// What stands behind the first bar of a key, up to the next one or the end, is its option.
pub proof fn law_key_option(name: Seq<char>, option: Seq<char>, rest: Seq<char>)
    requires
        !name.contains('|'),
        !option.contains('|'),
    ensures
        selection::key_option(name + seq!['|'] + option) == Some(option),
        selection::key_option(name + seq!['|'] + (option + seq!['|'] + rest)) == Some(option),
{
    let n = name.len() as int;
    let m = option.len() as int;
    let short = name + seq!['|'] + option;
    lemma_first_bar(name, option);
    assert forall|i: int| n + 1 <= i < short.len() implies short[i] != '|' by {
        assert(short[i] == option[i - n - 1]);
        assert(option.contains(option[i - n - 1]));
    }
    lemma_no_bar(short, n + 1);
    assert(short.subrange(n + 1, short.len() as int) =~= option);
    let long = name + seq!['|'] + (option + seq!['|'] + rest);
    lemma_first_bar(name, option + seq!['|'] + rest);
    text::lemma_find_char(long, '|', n + 1);
    let bar = text::find_char(long, '|', n + 1);
    assert(long[n + 1 + m] == '|');
    if bar < n + 1 + m {
        assert(long[bar] == option[bar - n - 1]);
        assert(option.contains(option[bar - n - 1]));
    }
    assert(long.subrange(n + 1, n + 1 + m) =~= option);
}

/// Each key keeps its name and its place.
pub proof fn law_key_names(keys: Seq<Seq<char>>)
    ensures
        selection::key_names(keys).len() == keys.len(),
        forall|i: int|
            0 <= i < keys.len() ==> (#[trigger] selection::key_names(keys)[i])
                == selection::key_name(keys[i]),
{
}

/// The keys of a leaf are read from the first to the last. An option that is known replaces the
/// matcher, a key without an option keeps it, and an option that is not known ends the reading.
pub proof fn law_options_are_read(
    key: Seq<char>,
    keys: Seq<Seq<char>>,
    m: Option<MatcherView>,
)
    ensures
        selection::read_options(Seq::empty(), m) == (m, None::<Seq<char>>),
        selection::key_option(key) is None ==> selection::read_options(seq![key] + keys, m)
            == selection::read_options(keys, m),
        selection::key_option(key) == Some("startswith"@) ==> selection::read_options(
            seq![key] + keys,
            m,
        ) == selection::read_options(keys, Some(MatcherView::StartsWith(Seq::empty()))),
        selection::key_option(key) == Some("endswith"@) ==> selection::read_options(
            seq![key] + keys,
            m,
        ) == selection::read_options(keys, Some(MatcherView::EndsWith(Seq::empty()))),
        selection::key_option(key) == Some("contains"@) ==> selection::read_options(
            seq![key] + keys,
            m,
        ) == selection::read_options(keys, Some(MatcherView::Contains(Seq::empty()))),
        selection::key_option(key) matches Some(option) ==> option != "startswith"@ && option
            != "endswith"@ && option != "contains"@ ==> selection::read_options(
            seq![key] + keys,
            m,
        ) == (m, Some(option)),
{
    assert((seq![key] + keys).skip(1) =~= keys);
    assert((seq![key] + keys)[0] == key);
    assert("startswith"@ != "endswith"@) by {
        reveal_strlit("startswith");
        reveal_strlit("endswith");
        assert("startswith"@.len() != "endswith"@.len());
    }
    assert("startswith"@ != "contains"@) by {
        reveal_strlit("startswith");
        reveal_strlit("contains");
        assert("startswith"@.len() != "contains"@.len());
    }
    assert("endswith"@ != "contains"@) by {
        reveal_strlit("endswith");
        reveal_strlit("contains");
        assert("endswith"@[0] != "contains"@[0]);
    }
}

/// No key has an option.
pub open spec fn plain(keys: Seq<Seq<char>>) -> bool {
    forall|i: int| 0 <= i < keys.len() ==> !(#[trigger] keys[i]).contains('|')
}

proof fn lemma_plain(keys: Seq<Seq<char>>, m: Option<MatcherView>)
    requires
        plain(keys),
    ensures
        selection::read_options(keys, m) == (m, None::<Seq<char>>),
        selection::key_names(keys) == keys,
    decreases keys.len(),
{
    assert forall|i: int| 0 <= i < keys.len() implies selection::key_names(keys)[i]
        == keys[i] by {
        law_key_without_option(keys[i]);
    }
    assert(selection::key_names(keys) =~= keys);
    if keys.len() > 0 {
        law_key_without_option(keys[0]);
        assert forall|i: int| 0 <= i < keys.skip(1).len() implies !(
        #[trigger] keys.skip(1)[i]).contains('|') by {
            assert(keys.skip(1)[i] == keys[i + 1]);
        }
        lemma_plain(keys.skip(1), m);
    }
}

/// What a key list without options stands for: a leaf of one key, or with `regex` behind it, is
/// a regular expression, and `min_length`, `regexes` and `whitelist` ask for theirs.
pub open spec fn asked_for(keys: Seq<Seq<char>>, m: MatcherView) -> bool {
    match m {
        MatcherView::Regex(re) => re is None && (keys.len() == 1 || (keys.len() == 2 && keys[1]
            == "regex"@)),
        MatcherView::Minlength(n) => n == 0 && keys.len() == 2 && keys[1] == "min_length"@,
        MatcherView::Regexes(rows) => rows == Seq::<Seq<Seq<char>>>::empty() && keys.len() == 2
            && keys[1] == "regexes"@,
        MatcherView::Whitelist(rows) => rows == Seq::<Seq<Seq<char>>>::empty() && keys.len() == 2
            && keys[1] == "whitelist"@,
        _ => false,
    }
}

proof fn lemma_distinct_keys()
    ensures
        "regex"@ != "min_length"@,
        "regex"@ != "regexes"@,
        "regex"@ != "whitelist"@,
        "min_length"@ != "regexes"@,
        "min_length"@ != "whitelist"@,
        "regexes"@ != "whitelist"@,
{
    reveal_strlit("regex");
    reveal_strlit("min_length");
    reveal_strlit("regexes");
    reveal_strlit("whitelist");
    assert("regex"@.len() == 5);
    assert("min_length"@.len() == 10);
    assert("regexes"@.len() == 7);
    assert("whitelist"@.len() == 9);
}

proof fn lemma_chosen(keys: Seq<Seq<char>>)
    requires
        keys.len() > 0,
    ensures
        ({
            let rest = keys.skip(1);
            let chosen = selection::first_target(selection::key_matchers(), rest);
            &&& chosen matches Some(m) ==> asked_for(keys, m)
            &&& forall|m: MatcherView| #[trigger] asked_for(keys, m) ==> chosen == Some(m)
        }),
{
    let rest = keys.skip(1);
    let all = selection::key_matchers();
    let s1 = all.skip(1);
    let s2 = s1.skip(1);
    let s3 = s2.skip(1);
    let s4 = s3.skip(1);
    assert(s4.len() == 0);
    assert(selection::first_target(s4, rest) is None);
    assert(s3[0] == all[3]);
    assert(s2[0] == all[2]);
    assert(s1[0] == all[1]);
    lemma_distinct_keys();
    if rest.len() == 1 {
        assert(rest[0] == keys[1]);
        assert(rest =~= seq![keys[1]]);
        assert(seq![keys[1]][0] == keys[1]);
        assert(seq!["regex"@][0] == "regex"@);
        assert(seq!["min_length"@][0] == "min_length"@);
        assert(seq!["regexes"@][0] == "regexes"@);
        assert(seq!["whitelist"@][0] == "whitelist"@);
    } else {
        assert(seq!["regex"@].len() == 1);
        assert(seq!["min_length"@].len() == 1);
        assert(seq!["regexes"@].len() == 1);
        assert(seq!["whitelist"@].len() == 1);
    }
    let f3 = selection::first_target(s3, rest);
    let f2 = selection::first_target(s2, rest);
    let f1 = selection::first_target(s1, rest);
    assert(f3 == if matcher::is_target(s3[0], rest) {
        Some(s3[0])
    } else {
        None
    });
    assert(f2 == if matcher::is_target(s2[0], rest) {
        Some(s2[0])
    } else {
        f3
    });
    assert(f1 == if matcher::is_target(s1[0], rest) {
        Some(s1[0])
    } else {
        f2
    });
    assert(selection::first_target(all, rest) == if matcher::is_target(all[0], rest) {
        Some(all[0])
    } else {
        f1
    });
}

/// A leaf without options is set up with the matcher that its keys ask for.
pub proof fn law_leaf_is_set_up(
    keys: Seq<Seq<char>>,
    value: YamlView,
    m: MatcherView,
    files: Map<Seq<char>, Seq<Seq<Seq<char>>>>,
)
    requires
        plain(keys),
        asked_for(keys, m),
        !(value is BadValue),
    ensures
        (LeafView { keys, value, matcher: None }).set_up(files) == (
            (LeafView {
                keys,
                value,
                matcher: Some(m.set_up(keys.skip(1), value, files).0),
            }),
            m.set_up(keys.skip(1), value, files).1,
        ),
{
    lemma_plain(keys, None);
    lemma_chosen(keys);
}

/// Keys that ask for no matcher are reported.
pub proof fn law_unknown_key(
    keys: Seq<Seq<char>>,
    value: YamlView,
    files: Map<Seq<char>, Seq<Seq<Seq<char>>>>,
)
    requires
        plain(keys),
        keys.len() >= 2,
        keys.len() == 2 ==> keys[1] != "regex"@ && keys[1] != "min_length"@ && keys[1]
            != "regexes"@ && keys[1] != "whitelist"@,
    ensures
        (LeafView { keys, value, matcher: None }).set_up(files) == (
            (LeafView { keys, value, matcher: None }),
            seq!["Found unknown key. key:"@ + matcher::key_path(keys.skip(1))],
        ),
{
    lemma_plain(keys, None);
    lemma_chosen(keys);
}

/// A leaf whose options ask for a matcher is set up with it, whatever its other keys are.
pub proof fn law_leaf_with_option_is_set_up(
    leaf: LeafView,
    m: MatcherView,
    files: Map<Seq<char>, Seq<Seq<Seq<char>>>>,
)
    requires
        leaf.keys.len() > 0,
        selection::read_options(leaf.keys, leaf.matcher) == (Some(m), None::<Seq<char>>),
        !(leaf.value is BadValue),
    ensures
        ({
            let names = selection::key_names(leaf.keys);
            leaf.set_up(files) == (
                (LeafView {
                    keys: names,
                    value: leaf.value,
                    matcher: Some(m.set_up(names.skip(1), leaf.value, files).0),
                }),
                m.set_up(names.skip(1), leaf.value, files).1,
            )
        }),
{
}

/// An option that is not known is reported.
pub proof fn law_unknown_option(
    leaf: LeafView,
    option: Seq<char>,
    files: Map<Seq<char>, Seq<Seq<Seq<char>>>>,
)
    requires
        leaf.keys.len() > 0,
        selection::read_options(leaf.keys, leaf.matcher).1 == Some(option),
    ensures
        leaf.set_up(files).0.keys == leaf.keys,
        leaf.set_up(files).0.value == leaf.value,
        leaf.set_up(files).0.matcher == selection::read_options(leaf.keys, leaf.matcher).0,
        leaf.set_up(files).1 == seq!["Found unknown key option. option: "@ + option],
{
}

/// A leaf without a value is reported.
pub proof fn law_leaf_without_value(
    keys: Seq<Seq<char>>,
    m: MatcherView,
    files: Map<Seq<char>, Seq<Seq<Seq<char>>>>,
)
    requires
        plain(keys),
        asked_for(keys, m),
    ensures
        (LeafView { keys, value: YamlView::BadValue, matcher: None }).set_up(files) == (
            (LeafView { keys, value: YamlView::BadValue, matcher: Some(m) }),
            seq!["Cannot parse yaml file. key:"@ + matcher::key_path(keys.skip(1))],
        ),
{
    lemma_plain(keys, None);
    lemma_chosen(keys);
}

/// A leaf with an option and without a value is reported.
pub proof fn law_leaf_with_option_without_value(
    leaf: LeafView,
    m: MatcherView,
    files: Map<Seq<char>, Seq<Seq<Seq<char>>>>,
)
    requires
        leaf.keys.len() > 0,
        selection::read_options(leaf.keys, leaf.matcher) == (Some(m), None::<Seq<char>>),
        leaf.value == YamlView::BadValue,
    ensures
        ({
            let names = selection::key_names(leaf.keys);
            leaf.set_up(files) == (
                (LeafView { keys: names, value: YamlView::BadValue, matcher: Some(m) }),
                seq!["Cannot parse yaml file. key:"@ + matcher::key_path(names.skip(1))],
            )
        }),
{
}

/// A leaf without a key is reported.
pub proof fn law_leaf_without_key(
    value: YamlView,
    m: Option<MatcherView>,
    files: Map<Seq<char>, Seq<Seq<Seq<char>>>>,
)
    ensures
        (LeafView { keys: Seq::empty(), value, matcher: m }).set_up(files) == (
            (LeafView { keys: Seq::empty(), value, matcher: m }),
            seq!["Found no key. key:"@ + "detection -> selection"@],
        ),
{
    assert(matcher::key_path(seq![]) == "detection -> selection"@);
}

/// A leaf asks its matcher about the value that its first key leads to, also where there is no
/// such value. Without a key there is none, and without a matcher the leaf applies to nothing.
pub proof fn law_leaf_asks_its_matcher(
    leaf: LeafView,
    m: MatcherView,
    event: ValueView,
    aliases: Map<Seq<char>, Seq<char>>,
)
    ensures
        leaf.matcher is None ==> !leaf.selects(event, aliases),
        leaf.matcher == Some(m) && leaf.keys.len() == 0 ==> leaf.selects(event, aliases)
            == m.matches(None),
        leaf.matcher == Some(m) && leaf.keys.len() > 0 && leaf.keys[0] != "EventData"@
            ==> leaf.selects(event, aliases) == m.matches(
            event::event_value(leaf.keys[0], event, aliases),
        ),
{
}

/// A leaf on data that is no list asks about a boolean, an integer or a string, and takes
/// anything else, also where there is nothing, for a missing value.
pub proof fn law_event_data_of_one_value(
    leaf: LeafView,
    m: MatcherView,
    event: ValueView,
    aliases: Map<Seq<char>, Seq<char>>,
)
    requires
        leaf.keys.len() > 0,
        leaf.keys[0] == "EventData"@,
        leaf.matcher == Some(m),
    ensures
        match event::event_value("Event.EventData.Data"@, event, aliases) {
            Some(ValueView::Array(items)) => leaf.selects(event, aliases) <==> exists|i: int|
                0 <= i < items.len() && m.matches(Some(#[trigger] items[i])),
            Some(ValueView::Bool(b)) => leaf.selects(event, aliases) == m.matches(
                Some(ValueView::Bool(b)),
            ),
            Some(ValueView::String(s)) => leaf.selects(event, aliases) == m.matches(
                Some(ValueView::String(s)),
            ),
            Some(ValueView::Number(n)) => if n.is_i64() {
                leaf.selects(event, aliases) == m.matches(Some(ValueView::Number(n)))
            } else {
                leaf.selects(event, aliases) == m.matches(None)
            },
            _ => leaf.selects(event, aliases) == m.matches(None),
        },
{
}

/// A leaf on one key that a rule gives null holds of a record exactly if the value is missing,
/// null or the empty string.
pub proof fn law_null_leaf(
    name: Seq<char>,
    event: ValueView,
    aliases: Map<Seq<char>, Seq<char>>,
    files: Map<Seq<char>, Seq<Seq<Seq<char>>>>,
)
    requires
        !name.contains('|'),
        name != "EventData"@,
    ensures
        ({
            let leaf = LeafView { keys: seq![name], value: YamlView::Null, matcher: None };
            &&& leaf.set_up(files).1.len() == 0
            &&& match event::event_value(name, event, aliases) {
                None => leaf.set_up(files).0.selects(event, aliases),
                Some(v) => leaf.set_up(files).0.selects(event, aliases) <==> v == ValueView::Null
                    || v == ValueView::String(Seq::empty()),
            }
        }),
{
    let keys = seq![name];
    assert(plain(keys));
    law_leaf_is_set_up(keys, YamlView::Null, MatcherView::Regex(None), files);
    if let Some(v) = event::event_value(name, event, aliases) {
        matcher_laws::law_absence(v);
    }
}

/// A leaf on one key that a rule gives a regular expression holds of a record exactly if there
/// is a value that can be written and that the regular expression matches as a whole.
pub proof fn law_regex_leaf(
    name: Seq<char>,
    given: YamlView,
    re: Seq<char>,
    event: ValueView,
    aliases: Map<Seq<char>, Seq<char>>,
    files: Map<Seq<char>, Seq<Seq<Seq<char>>>>,
)
    requires
        !name.contains('|'),
        name != "EventData"@,
        matcher_laws::scalar(given, re),
        pattern::regex_valid(re),
    ensures
        ({
            let leaf = LeafView { keys: seq![name], value: given, matcher: None };
            &&& leaf.set_up(files).1.len() == 0
            &&& leaf.set_up(files).0.selects(event, aliases) <==> match event::event_value(
                name,
                event,
                aliases,
            ) {
                None => false,
                Some(v) => v.text() matches Some(text) && exists|i: int|
                    0 <= i < pattern::regex_matches(re, text).len() && (
                    #[trigger] pattern::regex_matches(re, text)[i]) == text,
            }
        }),
{
    let keys = seq![name];
    assert(plain(keys));
    law_leaf_is_set_up(keys, given, MatcherView::Regex(None), files);
    matcher_laws::law_regex_is_set_up(None, keys.skip(1), given, re, files);
}

/// A conjunction holds exactly if all of its conditions do.
pub proof fn law_and_selects(
    nodes: Seq<NodeView>,
    event: ValueView,
    aliases: Map<Seq<char>, Seq<char>>,
)
    ensures
        NodeView::And(nodes).selects(event, aliases) <==> forall|i: int|
            0 <= i < nodes.len() ==> (#[trigger] nodes[i]).selects(event, aliases),
{
    assert(NodeView::And(nodes).selects(event, aliases) == selection::all_select(
        nodes,
        event,
        aliases,
    ));
}

/// A disjunction holds exactly if one of its conditions does.
pub proof fn law_or_selects(
    nodes: Seq<NodeView>,
    event: ValueView,
    aliases: Map<Seq<char>, Seq<char>>,
)
    ensures
        NodeView::Or(nodes).selects(event, aliases) <==> exists|i: int|
            0 <= i < nodes.len() && (#[trigger] nodes[i]).selects(event, aliases),
{
    assert(NodeView::Or(nodes).selects(event, aliases) == selection::any_selects(
        nodes,
        event,
        aliases,
    ));
}

/// A negation holds exactly if its condition does not, a reference exactly if its condition
/// does, and a leaf as it does alone.
pub proof fn law_one_node_selects(
    node: NodeView,
    leaf: LeafView,
    event: ValueView,
    aliases: Map<Seq<char>, Seq<char>>,
)
    ensures
        NodeView::Not(Box::new(node)).selects(event, aliases) == !node.selects(event, aliases),
        NodeView::Ref(Box::new(node)).selects(event, aliases) == node.selects(event, aliases),
        NodeView::Leaf(leaf).selects(event, aliases) == leaf.selects(event, aliases),
{
}

/// Each condition of a conjunction or a disjunction is set up in its place.
pub proof fn law_nodes_are_set_up(
    nodes: Seq<NodeView>,
    files: Map<Seq<char>, Seq<Seq<Seq<char>>>>,
)
    ensures
        NodeView::And(nodes).set_up(files).0 matches NodeView::And(done) && done.len()
            == nodes.len() && forall|i: int|
            0 <= i < nodes.len() ==> (#[trigger] done[i]) == nodes[i].set_up(files).0,
        NodeView::Or(nodes).set_up(files).0 matches NodeView::Or(done) && done.len()
            == nodes.len() && forall|i: int|
            0 <= i < nodes.len() ==> (#[trigger] done[i]) == nodes[i].set_up(files).0,
{
    let results = selection::nodes_set_up(nodes, files);
    let done = selection::set_up_nodes(results);
    assert(NodeView::And(nodes).set_up(files).0 == NodeView::And(done));
    assert(NodeView::Or(nodes).set_up(files).0 == NodeView::Or(done));
    assert forall|i: int| 0 <= i < nodes.len() implies (#[trigger] done[i]) == nodes[i].set_up(
        files,
    ).0 by {
        assert(results[i] == nodes[i].set_up(files));
    }
}

/// The messages about a conjunction or a disjunction are those about its conditions, in order.
pub proof fn law_messages_of_nodes(
    nodes: Seq<NodeView>,
    node: NodeView,
    files: Map<Seq<char>, Seq<Seq<Seq<char>>>>,
)
    ensures
        NodeView::And(Seq::empty()).set_up(files).1 == Seq::<Seq<char>>::empty(),
        NodeView::Or(Seq::empty()).set_up(files).1 == Seq::<Seq<char>>::empty(),
        NodeView::And(nodes.push(node)).set_up(files).1 == NodeView::And(nodes).set_up(files).1
            + node.set_up(files).1,
        NodeView::Or(nodes.push(node)).set_up(files).1 == NodeView::Or(nodes).set_up(files).1
            + node.set_up(files).1,
{
    let none = selection::nodes_set_up(Seq::empty(), files);
    assert(none.len() == 0);
    assert(NodeView::And(Seq::empty()).set_up(files).1 == selection::messages_of(none));
    assert(NodeView::Or(Seq::empty()).set_up(files).1 == selection::messages_of(none));
    let before = selection::nodes_set_up(nodes, files);
    let after = selection::nodes_set_up(nodes.push(node), files);
    assert forall|i: int| 0 <= i < before.len() implies after.drop_last()[i] == before[i] by {
        assert(nodes.push(node)[i] == nodes[i]);
        assert(after[i] == nodes.push(node)[i].set_up(files));
        assert(before[i] == nodes[i].set_up(files));
    }
    assert(after.drop_last() =~= before);
    assert(nodes.push(node)[nodes.len() as int] == node);
    assert(after.last() == node.set_up(files));
    assert(NodeView::And(nodes.push(node)).set_up(files).1 == selection::messages_of(after));
    assert(NodeView::And(nodes).set_up(files).1 == selection::messages_of(before));
    assert(NodeView::Or(nodes.push(node)).set_up(files).1 == selection::messages_of(after));
    assert(NodeView::Or(nodes).set_up(files).1 == selection::messages_of(before));
}

/// A leaf is set up as it is alone; what is negated or referred to stays as it is.
pub proof fn law_one_node_is_set_up(
    node: NodeView,
    leaf: LeafView,
    files: Map<Seq<char>, Seq<Seq<Seq<char>>>>,
)
    ensures
        NodeView::Leaf(leaf).set_up(files).0 == NodeView::Leaf(leaf.set_up(files).0),
        NodeView::Leaf(leaf).set_up(files).1 == leaf.set_up(files).1,
        NodeView::Not(Box::new(node)).set_up(files) == (
            NodeView::Not(Box::new(node)),
            Seq::<Seq<char>>::empty(),
        ),
        NodeView::Ref(Box::new(node)).set_up(files) == (
            NodeView::Ref(Box::new(node)),
            Seq::<Seq<char>>::empty(),
        ),
{
}

/// The children of a condition are the conditions that it is made of.
pub proof fn law_children(nodes: Seq<NodeView>, node: NodeView, leaf: LeafView)
    ensures
        NodeView::And(nodes).childs() == nodes,
        NodeView::Or(nodes).childs() == nodes,
        NodeView::Not(Box::new(node)).childs() == seq![node],
        NodeView::Ref(Box::new(node)).childs() == seq![node],
        NodeView::Leaf(leaf).childs() == Seq::<NodeView>::empty(),
{
}

/// Behind the children of a condition come the descendants of the first child, then those of
/// the next one, and so on.
pub proof fn law_descendants(nodes: Seq<NodeView>, node: NodeView, leaf: LeafView)
    ensures
        NodeView::And(Seq::empty()).descendants() == Seq::<NodeView>::empty(),
        NodeView::Or(Seq::empty()).descendants() == Seq::<NodeView>::empty(),
        NodeView::And(nodes.push(node)).descendants() == nodes.push(node) + NodeView::And(
            nodes,
        ).descendants().skip(nodes.len() as int) + node.descendants(),
        NodeView::Or(nodes.push(node)).descendants() == nodes.push(node) + NodeView::Or(
            nodes,
        ).descendants().skip(nodes.len() as int) + node.descendants(),
        NodeView::Not(Box::new(node)).descendants() == seq![node] + node.descendants(),
        NodeView::Ref(Box::new(node)).descendants() == seq![node] + node.descendants(),
        NodeView::Leaf(leaf).descendants() == Seq::<NodeView>::empty(),
{
    let none = Seq::<NodeView>::empty();
    assert(selection::all_descendants(none) == none);
    assert(NodeView::And(none).descendants() =~= none + selection::all_descendants(none));
    assert(NodeView::Or(none).descendants() =~= none + selection::all_descendants(none));
    let more = nodes.push(node);
    assert(more.drop_last() =~= nodes);
    assert(more.last() == node);
    assert(selection::all_descendants(more) == selection::all_descendants(nodes)
        + node.descendants());
    assert(NodeView::And(more).descendants() == more + selection::all_descendants(more));
    assert(NodeView::Or(more).descendants() == more + selection::all_descendants(more));
    assert(NodeView::And(nodes).descendants() == nodes + selection::all_descendants(nodes));
    assert(NodeView::Or(nodes).descendants() == nodes + selection::all_descendants(nodes));
    assert((nodes + selection::all_descendants(nodes)).skip(nodes.len() as int)
        =~= selection::all_descendants(nodes));
    assert(more + selection::all_descendants(more) =~= more + selection::all_descendants(nodes)
        + node.descendants());
}

/// The files that a condition names are those of its leaves, in order.
pub proof fn law_files_of_nodes(nodes: Seq<NodeView>, node: NodeView)
    ensures
        NodeView::And(Seq::empty()).file_names() == Seq::<Seq<char>>::empty(),
        NodeView::Or(Seq::empty()).file_names() == Seq::<Seq<char>>::empty(),
        NodeView::And(nodes.push(node)).file_names() == NodeView::And(nodes).file_names()
            + node.file_names(),
        NodeView::Or(nodes.push(node)).file_names() == NodeView::Or(nodes).file_names()
            + node.file_names(),
        NodeView::Not(Box::new(node)).file_names() == Seq::<Seq<char>>::empty(),
        NodeView::Ref(Box::new(node)).file_names() == Seq::<Seq<char>>::empty(),
{
    let none = Seq::<NodeView>::empty();
    assert(NodeView::And(none).file_names() == selection::all_file_names(none));
    assert(NodeView::Or(none).file_names() == selection::all_file_names(none));
    let more = nodes.push(node);
    assert(more.drop_last() =~= nodes);
    assert(more.last() == node);
    assert(NodeView::And(more).file_names() == selection::all_file_names(more));
    assert(NodeView::Or(more).file_names() == selection::all_file_names(more));
    assert(NodeView::And(nodes).file_names() == selection::all_file_names(nodes));
    assert(NodeView::Or(nodes).file_names() == selection::all_file_names(nodes));
}

/// A leaf that asks for a list names the file that the list is in, if a string or a number does
/// so; every other leaf without options names none.
pub proof fn law_file_of_leaf(keys: Seq<Seq<char>>, value: YamlView, m: MatcherView)
    requires
        plain(keys),
        asked_for(keys, m),
    ensures
        ({
            let names = NodeView::Leaf(LeafView { keys, value, matcher: None }).file_names();
            let listed = m is Regexes || m is Whitelist;
            &&& forall|name: Seq<char>|
                listed && !(value is Boolean) && #[trigger] matcher_laws::scalar(value, name)
                    ==> names == seq![name]
            &&& !listed || value is Boolean || matcher_laws::no_scalar(value) ==> names
                == Seq::<Seq<char>>::empty()
        }),
{
    lemma_plain(keys, None);
    lemma_chosen(keys);
}

} // verus!
