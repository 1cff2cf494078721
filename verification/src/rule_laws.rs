//! What holds of selections and rules as a whole.
use vstd::prelude::*;

use crate::condition;
use crate::condition_laws;
use crate::event;
use crate::event::ValueView;
use crate::matcher;
use crate::matcher::MatcherView;
use crate::pattern;
use crate::rule;
use crate::selection;
use crate::selection::{LeafView, NodeView};
use crate::text;
use crate::utils;
use crate::yaml::YamlView;

verus! {

/// A hash in a selection asks for all of its entries.
pub proof fn law_hash_asks_for_all(
    keys: Seq<Seq<char>>,
    entries: Seq<(YamlView, YamlView)>,
    files: Map<Seq<char>, Seq<Seq<Seq<char>>>>,
    event: ValueView,
    aliases: Map<Seq<char>, Seq<char>>,
)
    ensures
        rule::selection_of(keys, YamlView::Hash(entries)).set_up(files).0.selects(event, aliases)
            <==> forall|i: int|
            0 <= i < entries.len() ==> rule::selection_of(
                keys.push(rule::string_text((#[trigger] entries[i]).0)),
                entries[i].1,
            ).set_up(files).0.selects(event, aliases),
{
    let nodes = rule::entry_selections(keys, entries);
    let results = selection::nodes_set_up(nodes, files);
    let done = selection::set_up_nodes(results);
    assert(rule::selection_of(keys, YamlView::Hash(entries)) == NodeView::And(nodes));
    assert(NodeView::And(nodes).set_up(files).0 == NodeView::And(done));
    assert(NodeView::And(done).selects(event, aliases) == selection::all_select(
        done,
        event,
        aliases,
    ));
    assert forall|i: int| 0 <= i < entries.len() implies #[trigger] done[i]
        == rule::selection_of(
        keys.push(rule::string_text(entries[i].0)),
        entries[i].1,
    ).set_up(files).0 by {
        assert(results[i] == nodes[i].set_up(files));
    }
    if selection::all_select(done, event, aliases) {
        assert forall|i: int| 0 <= i < entries.len() implies rule::selection_of(
            keys.push(rule::string_text((#[trigger] entries[i]).0)),
            entries[i].1,
        ).set_up(files).0.selects(event, aliases) by {
            assert(done[i].selects(event, aliases));
        }
    }
}

/// An array in a selection asks for one of its items.
pub proof fn law_array_asks_for_one(
    keys: Seq<Seq<char>>,
    items: Seq<YamlView>,
    files: Map<Seq<char>, Seq<Seq<Seq<char>>>>,
    event: ValueView,
    aliases: Map<Seq<char>, Seq<char>>,
)
    ensures
        rule::selection_of(keys, YamlView::Array(items)).set_up(files).0.selects(event, aliases)
            <==> exists|i: int|
            0 <= i < items.len() && rule::selection_of(keys, #[trigger] items[i]).set_up(
                files,
            ).0.selects(event, aliases),
{
    let nodes = rule::item_selections(keys, items);
    let results = selection::nodes_set_up(nodes, files);
    let done = selection::set_up_nodes(results);
    assert(rule::selection_of(keys, YamlView::Array(items)) == NodeView::Or(nodes));
    assert(NodeView::Or(nodes).set_up(files).0 == NodeView::Or(done));
    assert(NodeView::Or(done).selects(event, aliases) == selection::any_selects(
        done,
        event,
        aliases,
    ));
    assert forall|i: int| 0 <= i < items.len() implies #[trigger] done[i] == rule::selection_of(
        keys,
        items[i],
    ).set_up(files).0 by {
        assert(results[i] == nodes[i].set_up(files));
    }
    if selection::any_selects(done, event, aliases) {
        let i = choose|i: int|
            0 <= i < done.len() && (#[trigger] done[i]).selects(event, aliases);
        assert(rule::selection_of(keys, items[i]).set_up(files).0.selects(event, aliases));
    }
    if exists|i: int|
        0 <= i < items.len() && rule::selection_of(keys, #[trigger] items[i]).set_up(
            files,
        ).0.selects(event, aliases) {
        let i = choose|i: int|
            0 <= i < items.len() && rule::selection_of(keys, #[trigger] items[i]).set_up(
                files,
            ).0.selects(event, aliases);
        assert(done[i].selects(event, aliases));
    }
}

/// What a rule is set up to depends on no other files than those its selections name.
pub proof fn law_only_named_files(
    detection: YamlView,
    a: Map<Seq<char>, Seq<Seq<Seq<char>>>>,
    b: Map<Seq<char>, Seq<Seq<Seq<char>>>>,
)
    requires
        selection::same_files(rule::detection_files(detection), a, b),
    ensures
        rule::empty_detection().set_up(detection, a) == rule::empty_detection().set_up(
            detection,
            b,
        ),
{
    if let YamlView::Hash(entries) = detection {
        lemma_only_named_files(entries, rule::empty_detection().names, a, b);
    }
}

proof fn lemma_only_named_files(
    entries: Seq<(YamlView, YamlView)>,
    names: Map<Seq<char>, NodeView>,
    a: Map<Seq<char>, Seq<Seq<Seq<char>>>>,
    b: Map<Seq<char>, Seq<Seq<Seq<char>>>>,
)
    requires
        selection::same_files(rule::entry_files(entries), a, b),
    ensures
        rule::named_selections(entries, names, a) == rule::named_selections(entries, names, b),
    decreases entries.len(),
{
    if entries.len() > 0 {
        let all = rule::entry_files(entries);
        let before = rule::entry_files(entries.drop_last());
        let (key, value) = entries.last();
        assert forall|i: int| 0 <= i < before.len() implies selection::same_file(
            #[trigger] before[i],
            a,
            b,
        ) by {
            assert(selection::same_file(all[i], a, b));
        }
        lemma_only_named_files(entries.drop_last(), names, a, b);
        if rule::is_selection(key) {
            let node = rule::selection_of(seq![], value);
            let last = node.file_names();
            assert forall|i: int| 0 <= i < last.len() implies selection::same_file(
                #[trigger] last[i],
                a,
                b,
            ) by {
                assert(selection::same_file(all[before.len() + i], a, b));
            }
            selection::lemma_only_named_files(node, a, b);
        }
    }
}

/// A rule without a condition and with one selection adopts that selection, whatever it is
/// called, and asks for what the selection asks for.
pub proof fn law_only_selection(
    name: Seq<char>,
    detection: YamlView,
    files: Map<Seq<char>, Seq<Seq<Seq<char>>>>,
    event: ValueView,
    aliases: Map<Seq<char>, Seq<char>>,
)
    requires
        rule::empty_detection().names_set_up(detection, files).1.len() == 0,
        rule::empty_detection().names_set_up(detection, files).0.names.dom() == set![name],
        !(detection.index("condition"@) is String),
    ensures
        ({
            let named = rule::empty_detection().names_set_up(detection, files).0;
            let (done, messages) = rule::empty_detection().set_up(detection, files);
            &&& messages.len() == 0
            &&& done.condition == Some(
                NodeView::Or(seq![NodeView::Ref(Box::new(named.names[name]))]),
            )
            &&& done.aggregation is None
            &&& done.selects(event, aliases) == named.names[name].selects(event, aliases)
        }),
{
    let names = rule::empty_detection().names_set_up(detection, files).0.names;
    let only = set![name];
    assert(only.len() == 1);
    assert(names.dom().contains(name));
    assert(names.dom().contains(names.dom().choose()));
    assert(names.dom().choose() == name);
    let reference = NodeView::Ref(Box::new(names[name]));
    condition_laws::lemma_any_of_one(reference, event, aliases);
    assert(reference.selects(event, aliases) == names[name].selects(event, aliases));
}

/// A rule that something is wrong with detects nothing, unless it is only its aggregation
/// condition.
pub proof fn law_wrong_rule_detects_nothing(
    detection: YamlView,
    files: Map<Seq<char>, Seq<Seq<Seq<char>>>>,
    event: ValueView,
    aliases: Map<Seq<char>, Seq<char>>,
)
    requires
        ({
            let (named, messages) = rule::empty_detection().names_set_up(detection, files);
            messages.len() > 0 || match detection.index("condition"@) {
                YamlView::String(text) => condition::compiled_condition(text, named.names) is Err,
                _ => named.names.dom().len() >= 2,
            }
        }),
    ensures
        rule::empty_detection().set_up(detection, files).1.len() > 0,
        !rule::empty_detection().set_up(detection, files).0.selects(event, aliases),
{
}

/// A rule detects what the condition of its expression, without the aggregation condition,
/// says of the named selections.
pub proof fn law_rule_detects(
    text: Seq<char>,
    detection: YamlView,
    files: Map<Seq<char>, Seq<Seq<Seq<char>>>>,
    event: ValueView,
    aliases: Map<Seq<char>, Seq<char>>,
)
    requires
        rule::empty_detection().names_set_up(detection, files).1.len() == 0,
        detection.index("condition"@) == YamlView::String(text),
    ensures
        ({
            let names = rule::empty_detection().names_set_up(detection, files).0.names;
            let done = rule::empty_detection().set_up(detection, files).0;
            done.selects(event, aliases) == (condition_laws::holds(
                condition::condition_part(text),
                names,
                event,
                aliases,
            ) == Some(true))
        }),
{
}

/// A value that starts with a text contains it.
pub proof fn law_starts_with_contains(part: Seq<char>, value: Option<ValueView>)
    ensures
        MatcherView::StartsWith(part).matches(value) ==> MatcherView::Contains(part).matches(value),
{
    if MatcherView::StartsWith(part).matches(value) {
        assert(text::occurs_at(matcher::written(value)->0, part, 0));
    }
}

/// A value that ends with a text contains it.
pub proof fn law_ends_with_contains(part: Seq<char>, value: Option<ValueView>)
    ensures
        MatcherView::EndsWith(part).matches(value) ==> MatcherView::Contains(part).matches(value),
{
    if MatcherView::EndsWith(part).matches(value) {
        let text = matcher::written(value)->0;
        assert(text::occurs_at(text, part, text.len() - part.len()));
    }
}

/// A value that is long enough for a minimum is long enough for every smaller one.
pub proof fn law_smaller_minimum(small: int, large: int, value: Option<ValueView>)
    requires
        small <= large,
    ensures
        MatcherView::Minlength(large).matches(value) ==> MatcherView::Minlength(small).matches(
            value,
        ),
{
}

/// A leaf that a rule gives null asks for a value that is missing, null or empty.
pub proof fn law_null_asks_for_absence(
    re: Option<Seq<char>>,
    keys: Seq<Seq<char>>,
    files: Map<Seq<char>, Seq<Seq<Seq<char>>>>,
    value: Option<ValueView>,
)
    ensures
        ({
            let (done, messages) = MatcherView::Regex(re).set_up(keys, YamlView::Null, files);
            messages.len() == 0 && done.matches(value) == matcher::absent(value)
        }),
{
}

/// A leaf that a rule gives a regular expression asks for a match that is all of the value, so
/// that a match of a part is not enough.
pub proof fn law_regex_matches_whole_value(
    re: Option<Seq<char>>,
    keys: Seq<Seq<char>>,
    files: Map<Seq<char>, Seq<Seq<Seq<char>>>>,
    given: YamlView,
    value: ValueView,
)
    requires
        given.scalar_text() is Some,
        pattern::regex_valid(given.scalar_text()->0),
        value.text() is Some,
    ensures
        ({
            let (done, messages) = MatcherView::Regex(re).set_up(keys, given, files);
            let text = value.text()->0;
            &&& messages.len() == 0
            &&& done.matches(Some(value)) <==> exists|i: int|
                0 <= i < pattern::regex_matches(given.scalar_text()->0, text).len() && (
                #[trigger] pattern::regex_matches(given.scalar_text()->0, text)[i]) == text
        }),
{
}

/// What a list of exceptions holds is not detected.
pub proof fn law_whitelist_excludes(
    rows: Seq<Seq<Seq<char>>>,
    i: int,
    value: ValueView,
)
    requires
        0 <= i < rows.len(),
        value.text() is Some,
        utils::found_in(utils::cell(rows[i], 0), value.text()->0),
    ensures
        !MatcherView::Whitelist(rows).matches(Some(value)),
{
}

/// An alias of a path finds what the path finds, if the path is no alias itself.
pub proof fn law_alias(
    key: Seq<char>,
    event: ValueView,
    aliases: Map<Seq<char>, Seq<char>>,
)
    requires
        aliases.contains_key(key),
        !aliases.contains_key(aliases[key]),
    ensures
        event::event_value(key, event, aliases) == event::event_value(aliases[key], event, aliases),
{
}

/// The children of a condition come first among its descendants.
pub proof fn law_children_come_first(node: NodeView)
    ensures
        node.childs().is_prefix_of(node.descendants()),
{
    assert(node.descendants().subrange(0, node.childs().len() as int) =~= node.childs());
}

proof fn lemma_key_name(key: Seq<char>)
    ensures
        selection::key_option(selection::key_name(key)) is None,
        selection::key_name(selection::key_name(key)) == selection::key_name(key),
{
    let name = selection::key_name(key);
    text::lemma_find_char(key, '|', 0);
    text::lemma_find_char(name, '|', 0);
    let bar = text::find_char(name, '|', 0);
    if bar < name.len() {
        assert(name[bar] == key[bar]);
    }
    assert(name.take(bar) =~= name);
}

proof fn lemma_read_options_again(keys: Seq<Seq<char>>, m: Option<MatcherView>)
    ensures
        selection::read_options(selection::key_names(keys), m) == (m, None::<Seq<char>>),
        selection::key_names(selection::key_names(keys)) == selection::key_names(keys),
    decreases keys.len(),
{
    let names = selection::key_names(keys);
    assert forall|i: int| 0 <= i < names.len() implies selection::key_names(names)[i]
        == names[i] by {
        lemma_key_name(keys[i]);
    }
    assert(selection::key_names(names) =~= names);
    if keys.len() > 0 {
        lemma_key_name(keys[0]);
        assert(names.skip(1) =~= selection::key_names(keys.skip(1)));
        lemma_read_options_again(keys.skip(1), m);
    }
}

proof fn lemma_leaf_set_up_again(
    leaf: LeafView,
    files: Map<Seq<char>, Seq<Seq<Seq<char>>>>,
)
    requires
        leaf.set_up(files).1.len() == 0,
    ensures
        leaf.set_up(files).0.set_up(files) == leaf.set_up(files),
{
    let done = leaf.set_up(files).0;
    lemma_read_options_again(leaf.keys, done.matcher);
    let rest = selection::key_names(leaf.keys).skip(1);
    let again = done.matcher->0.set_up(rest, leaf.value, files);
    assert(again.0 == done.matcher->0);
    assert(again.1 =~= leaf.set_up(files).1);
}

/// A condition that nothing is wrong with can be set up any number of times, with the same
/// outcome.
pub proof fn law_set_up_again(node: NodeView, files: Map<Seq<char>, Seq<Seq<Seq<char>>>>)
    requires
        node.set_up(files).1.len() == 0,
    ensures
        node.set_up(files).0.set_up(files) == node.set_up(files),
    decreases node,
{
    match node {
        NodeView::And(nodes) => lemma_nodes_set_up_again(nodes, files),
        NodeView::Or(nodes) => lemma_nodes_set_up_again(nodes, files),
        NodeView::Leaf(leaf) => lemma_leaf_set_up_again(leaf, files),
        _ => {},
    }
}

proof fn lemma_nodes_set_up_again(
    nodes: Seq<NodeView>,
    files: Map<Seq<char>, Seq<Seq<Seq<char>>>>,
)
    requires
        selection::messages_of(selection::nodes_set_up(nodes, files)).len() == 0,
    ensures
        selection::nodes_set_up(
            selection::set_up_nodes(selection::nodes_set_up(nodes, files)),
            files,
        ) == selection::nodes_set_up(nodes, files),
    decreases nodes,
{
    let results = selection::nodes_set_up(nodes, files);
    let done = selection::set_up_nodes(results);
    law_no_message_of_any(results);
    assert forall|i: int| 0 <= i < nodes.len() implies selection::nodes_set_up(done, files)[i]
        == results[i] by {
        assert(results[i] == nodes[i].set_up(files));
        assert(results[i].1.len() == 0);
        law_set_up_again(nodes[i], files);
        assert(done[i] == nodes[i].set_up(files).0);
    }
    assert(selection::nodes_set_up(done, files) =~= results);
}

/// A conjunction or a disjunction can be set up if and only if each of its conditions can.
pub proof fn law_no_message_of_any(results: Seq<(NodeView, Seq<Seq<char>>)>)
    ensures
        selection::messages_of(results).len() == 0 <==> forall|i: int|
            0 <= i < results.len() ==> (#[trigger] results[i]).1.len() == 0,
    decreases results.len(),
{
    if results.len() > 0 {
        law_no_message_of_any(results.drop_last());
        if selection::messages_of(results).len() == 0 {
            assert forall|i: int| 0 <= i < results.len() implies (
            #[trigger] results[i]).1.len() == 0 by {
                if i < results.len() - 1 {
                    assert(results.drop_last()[i].1.len() == 0);
                }
            }
        } else if results.last().1.len() > 0 {
            assert(results[results.len() - 1].1.len() > 0);
        } else {
            let i = choose|i: int|
                0 <= i < results.drop_last().len() && (#[trigger] results.drop_last()[i]).1.len()
                    != 0;
            assert(results[i].1.len() > 0);
        }
    }
}

/// A leaf on the data of an event asks for one of the data items.
pub proof fn law_event_data(
    leaf: LeafView,
    items: Seq<ValueView>,
    event: ValueView,
    aliases: Map<Seq<char>, Seq<char>>,
)
    requires
        leaf.keys.len() > 0,
        leaf.keys[0] == "EventData"@,
        leaf.matcher is Some,
        event::event_value("Event.EventData.Data"@, event, aliases) == Some(
            ValueView::Array(items),
        ),
    ensures
        leaf.selects(event, aliases) <==> exists|i: int|
            0 <= i < items.len() && leaf.matcher->0.matches(Some(#[trigger] items[i])),
{
}

/// A list of regular expressions detects a value if and only if one of its rows applies to it.
pub proof fn law_regexes_need_a_row(rows: Seq<Seq<Seq<char>>>, value: Option<ValueView>)
    requires
        matcher::written(value) is Some,
    ensures
        MatcherView::Regexes(rows).matches(value) <==> exists|i: int|
            0 <= i < rows.len() && utils::regex_hit(
                #[trigger] rows[i],
                matcher::written(value)->0,
                0,
            ),
{
    utils::lemma_regex_report(rows, matcher::written(value)->0, 0);
}

/// A rule with several selections has to say how they are combined.
pub proof fn law_condition_is_required(
    detection: YamlView,
    files: Map<Seq<char>, Seq<Seq<Seq<char>>>>,
)
    requires
        rule::empty_detection().names_set_up(detection, files).1.len() == 0,
        rule::empty_detection().names_set_up(detection, files).0.names.dom().len() >= 2,
        !(detection.index("condition"@) is String),
    ensures
        rule::empty_detection().set_up(detection, files).1 == seq![
            "There are no condition node under detection."@,
        ],
{
}

} // verus!
