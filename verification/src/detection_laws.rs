//! How the YAML of a detection becomes named conditions, and what a detection is set up to.
use vstd::prelude::*;

use crate::aggregation;
use crate::condition;
use crate::event::ValueView;
use crate::rule;
use crate::rule::DetectionView;
use crate::rule_laws;
use crate::selection::{LeafView, NodeView};
use crate::yaml::YamlView;

verus! {

/// The conditions that a hash is made of are those of its entries, each below the key of the
/// entry.
pub proof fn law_hash_becomes_nodes(
    keys: Seq<Seq<char>>,
    entries: Seq<(YamlView, YamlView)>,
)
    ensures
        rule::selection_of(keys, YamlView::Hash(entries)) matches NodeView::And(nodes)
            && nodes.len() == entries.len() && forall|i: int|
            0 <= i < entries.len() ==> (entries[i].0 matches YamlView::String(key) ==> (
            #[trigger] nodes[i]) == rule::selection_of(keys.push(key), entries[i].1)),
{
    let nodes = rule::entry_selections(keys, entries);
    assert(rule::selection_of(keys, YamlView::Hash(entries)) == NodeView::And(nodes));
    assert forall|i: int| 0 <= i < entries.len() implies (entries[i].0 matches YamlView::String(
        key,
    ) ==> (#[trigger] nodes[i]) == rule::selection_of(keys.push(key), entries[i].1)) by {
        assert(nodes[i] == rule::selection_of(
            keys.push(rule::string_text(entries[i].0)),
            entries[i].1,
        ));
    }
}

/// The conditions that an array is made of are those of its items, below the same keys.
pub proof fn law_array_becomes_nodes(keys: Seq<Seq<char>>, items: Seq<YamlView>)
    ensures
        rule::selection_of(keys, YamlView::Array(items)) matches NodeView::Or(nodes)
            && nodes.len() == items.len() && forall|i: int|
            0 <= i < items.len() ==> (#[trigger] nodes[i]) == rule::selection_of(keys, items[i]),
{
    let nodes = rule::item_selections(keys, items);
    assert(rule::selection_of(keys, YamlView::Array(items)) == NodeView::Or(nodes));
    assert forall|i: int| 0 <= i < items.len() implies (#[trigger] nodes[i])
        == rule::selection_of(keys, items[i]) by {
        assert(nodes[i] == rule::selection_of(keys, items[i]));
    }
}

/// Anything else is a leaf with the keys that lead to it.
pub proof fn law_leaf_of_yaml(keys: Seq<Seq<char>>, value: YamlView)
    requires
        !(value is Hash),
        !(value is Array),
    ensures
        rule::selection_of(keys, value) == NodeView::Leaf(
            LeafView { keys, value, matcher: None },
        ),
{
}

/// An entry of a detection that names a selection: its key is a string that is neither empty
/// nor `condition`.
pub open spec fn names_selection(entry: (YamlView, YamlView), name: Seq<char>) -> bool {
    &&& entry.0 == YamlView::String(name)
    &&& name != Seq::<char>::empty()
    &&& name != "condition"@
}

/// What the YAML of a selection is set up to.
pub open spec fn set_up_selection(
    value: YamlView,
    files: Map<Seq<char>, Seq<Seq<Seq<char>>>>,
) -> (NodeView, Seq<Seq<char>>) {
    rule::selection_of(Seq::empty(), value).set_up(files)
}

proof fn lemma_is_selection(entry: (YamlView, YamlView))
    ensures
        rule::is_selection(entry.0) <==> entry.0 is String && names_selection(
            entry,
            entry.0->String_0,
        ),
        rule::is_selection(entry.0) ==> rule::string_text(entry.0) == entry.0->String_0,
{
    if let YamlView::String(s) = entry.0 {
        if s.len() == 0 {
            assert(s =~= Seq::<char>::empty());
        }
    }
}

/// Selections are set up in turn. One that nothing is wrong with gets its name, in place of an
/// earlier one; what is wrong with another is reported behind what has been reported before.
pub proof fn law_selections_in_turn(
    entries: Seq<(YamlView, YamlView)>,
    entry: (YamlView, YamlView),
    name: Seq<char>,
    names: Map<Seq<char>, NodeView>,
    files: Map<Seq<char>, Seq<Seq<Seq<char>>>>,
)
    ensures
        ({
            let before = rule::named_selections(entries, names, files);
            let after = rule::named_selections(entries.push(entry), names, files);
            let (node, wrong) = set_up_selection(entry.1, files);
            &&& rule::named_selections(Seq::empty(), names, files) == (
                names,
                Seq::<Seq<char>>::empty(),
            )
            &&& names_selection(entry, name) && wrong.len() == 0 ==> after == (
                before.0.insert(name, node),
                before.1,
            )
            &&& names_selection(entry, name) && wrong.len() > 0 ==> after == (
                before.0,
                before.1 + wrong,
            )
            &&& !(entry.0 is String) || !names_selection(entry, entry.0->String_0) ==> after
                == before
        }),
{
    assert(entries.push(entry).drop_last() =~= entries);
    lemma_is_selection(entry);
}

/// The last entry with a name is where the name comes from.
pub open spec fn last_with_name(
    entries: Seq<(YamlView, YamlView)>,
    i: int,
    name: Seq<char>,
) -> bool {
    &&& 0 <= i < entries.len()
    &&& names_selection(entries[i], name)
    &&& forall|j: int|
        i < j < entries.len() ==> (#[trigger] entries[j]).0 != YamlView::String(name)
}

proof fn lemma_named(
    entries: Seq<(YamlView, YamlView)>,
    files: Map<Seq<char>, Seq<Seq<Seq<char>>>>,
)
    ensures
        ({
            let (names, messages) = rule::named_selections(entries, Map::empty(), files);
            &&& names.dom().finite()
            &&& messages.len() == 0 <==> forall|i: int|
                0 <= i < entries.len() && rule::is_selection((#[trigger] entries[i]).0)
                    ==> set_up_selection(entries[i].1, files).1.len() == 0
            &&& messages.len() == 0 ==> {
                &&& forall|i: int, name: Seq<char>| #[trigger]
                    last_with_name(entries, i, name) ==> names.contains_key(name) && names[name]
                        == set_up_selection(entries[i].1, files).0
                &&& forall|name: Seq<char>| #[trigger]
                    names.contains_key(name) ==> exists|i: int|
                        0 <= i < entries.len() && names_selection(#[trigger] entries[i], name)
            }
        }),
    decreases entries.len(),
{
    let (names, messages) = rule::named_selections(entries, Map::empty(), files);
    if entries.len() > 0 {
        let before = entries.drop_last();
        let n = entries.len() - 1;
        let entry = entries.last();
        lemma_named(before, files);
        lemma_is_selection(entry);
        let (old_names, old_messages) = rule::named_selections(before, Map::empty(), files);
        let (node, wrong) = set_up_selection(entry.1, files);
        assert(entries[n] == entry);
        assert forall|i: int| 0 <= i < n implies #[trigger] entries[i] == before[i] by {}
        if messages.len() == 0 {
            assert(old_messages.len() == 0);
            assert forall|i: int|
                0 <= i < entries.len() && rule::is_selection((#[trigger] entries[i]).0) implies
                set_up_selection(entries[i].1, files).1.len() == 0 by {
                if i < n {
                    assert(rule::is_selection(before[i].0));
                }
            }
            assert forall|i: int, name: Seq<char>| #[trigger]
                last_with_name(entries, i, name) implies names.contains_key(name) && names[name]
                == set_up_selection(entries[i].1, files).0 by {
                lemma_is_selection(entries[i]);
                if i < n {
                    assert(entries[n].0 != YamlView::String(name));
                    assert forall|j: int| i < j < before.len() implies (#[trigger] before[j]).0
                        != YamlView::String(name) by {
                        assert(entries[j].0 != YamlView::String(name));
                    }
                    assert(last_with_name(before, i, name));
                }
            }
            assert forall|name: Seq<char>| #[trigger] names.contains_key(name) implies exists|
                i: int,
            |
                0 <= i < entries.len() && names_selection(#[trigger] entries[i], name) by {
                if old_names.contains_key(name) {
                    let i = choose|i: int|
                        0 <= i < before.len() && names_selection(#[trigger] before[i], name);
                    assert(names_selection(entries[i], name));
                } else {
                    assert(names_selection(entries[n], name));
                }
            }
        } else {
            if old_messages.len() > 0 {
                let i = choose|i: int|
                    0 <= i < before.len() && rule::is_selection((#[trigger] before[i]).0)
                        && set_up_selection(before[i].1, files).1.len() != 0;
                assert(rule::is_selection(entries[i].0));
            } else {
                assert(rule::is_selection(entries[n].0));
            }
        }
    }
}

/// A detection whose selections nothing is wrong with has exactly their names, and each name
/// stands for what the last entry with that name is set up to.
pub proof fn law_selections_are_named(
    entries: Seq<(YamlView, YamlView)>,
    files: Map<Seq<char>, Seq<Seq<Seq<char>>>>,
)
    requires
        rule::empty_detection().names_set_up(YamlView::Hash(entries), files).1.len() == 0,
    ensures
        ({
            let names = rule::empty_detection().names_set_up(
                YamlView::Hash(entries),
                files,
            ).0.names;
            &&& forall|i: int, name: Seq<char>| #[trigger]
                last_with_name(entries, i, name) ==> names.contains_key(name) && names[name]
                    == set_up_selection(entries[i].1, files).0
            &&& forall|name: Seq<char>| #[trigger]
                names.contains_key(name) ==> exists|i: int|
                    0 <= i < entries.len() && names_selection(#[trigger] entries[i], name)
        }),
{
    lemma_named(entries, files);
}

/// The name of a list stands for a condition that holds exactly if that of one item does.
pub proof fn law_name_of_list(
    entries: Seq<(YamlView, YamlView)>,
    i: int,
    name: Seq<char>,
    items: Seq<YamlView>,
    files: Map<Seq<char>, Seq<Seq<Seq<char>>>>,
    event: ValueView,
    aliases: Map<Seq<char>, Seq<char>>,
)
    requires
        rule::empty_detection().names_set_up(YamlView::Hash(entries), files).1.len() == 0,
        last_with_name(entries, i, name),
        entries[i].1 == YamlView::Array(items),
    ensures
        ({
            let names = rule::empty_detection().names_set_up(
                YamlView::Hash(entries),
                files,
            ).0.names;
            names.contains_key(name) && (names[name].selects(event, aliases) <==> exists|j: int|
                0 <= j < items.len() && set_up_selection(#[trigger] items[j], files).0.selects(
                    event,
                    aliases,
                ))
        }),
{
    law_selections_are_named(entries, files);
    rule_laws::law_array_asks_for_one(Seq::empty(), items, files, event, aliases);
    let names = rule::empty_detection().names_set_up(YamlView::Hash(entries), files).0.names;
    if names[name].selects(event, aliases) {
        let j = choose|j: int|
            0 <= j < items.len() && rule::selection_of(
                Seq::empty(),
                #[trigger] items[j],
            ).set_up(files).0.selects(event, aliases);
        assert(set_up_selection(items[j], files).0.selects(event, aliases));
    }
    if exists|j: int|
        0 <= j < items.len() && set_up_selection(#[trigger] items[j], files).0.selects(
            event,
            aliases,
        ) {
        let j = choose|j: int|
            0 <= j < items.len() && set_up_selection(#[trigger] items[j], files).0.selects(
                event,
                aliases,
            );
        assert(rule::selection_of(Seq::empty(), items[j]).set_up(files).0.selects(event, aliases));
    }
}

/// The name of a hash with string keys stands for a condition that holds exactly if those of
/// all its entries do, each about the value that the key of the entry leads to.
pub proof fn law_name_of_hash(
    entries: Seq<(YamlView, YamlView)>,
    i: int,
    name: Seq<char>,
    keys: Seq<Seq<char>>,
    values: Seq<YamlView>,
    files: Map<Seq<char>, Seq<Seq<Seq<char>>>>,
    event: ValueView,
    aliases: Map<Seq<char>, Seq<char>>,
)
    requires
        rule::empty_detection().names_set_up(YamlView::Hash(entries), files).1.len() == 0,
        last_with_name(entries, i, name),
        keys.len() == values.len(),
        entries[i].1 == YamlView::Hash(
            Seq::new(keys.len(), |j: int| (YamlView::String(keys[j]), values[j])),
        ),
    ensures
        ({
            let names = rule::empty_detection().names_set_up(
                YamlView::Hash(entries),
                files,
            ).0.names;
            names.contains_key(name) && (names[name].selects(event, aliases) <==> forall|j: int|
                0 <= j < keys.len() ==> rule::selection_of(
                    seq![#[trigger] keys[j]],
                    values[j],
                ).set_up(files).0.selects(event, aliases))
        }),
{
    let inner = Seq::new(keys.len(), |j: int| (YamlView::String(keys[j]), values[j]));
    law_selections_are_named(entries, files);
    rule_laws::law_hash_asks_for_all(Seq::empty(), inner, files, event, aliases);
    assert forall|j: int| 0 <= j < keys.len() implies rule::selection_of(
        Seq::<Seq<char>>::empty().push(rule::string_text((#[trigger] inner[j]).0)),
        inner[j].1,
    ) == rule::selection_of(seq![keys[j]], values[j]) by {
        assert(Seq::<Seq<char>>::empty().push(keys[j]) =~= seq![keys[j]]);
    }
    let names = rule::empty_detection().names_set_up(YamlView::Hash(entries), files).0.names;
    if names[name].selects(event, aliases) {
        assert forall|j: int| 0 <= j < keys.len() implies rule::selection_of(
            seq![#[trigger] keys[j]],
            values[j],
        ).set_up(files).0.selects(event, aliases) by {
            assert(inner[j] == (YamlView::String(keys[j]), values[j]));
        }
    } else {
        let j = choose|j: int|
            0 <= j < inner.len() && !rule::selection_of(
                Seq::<Seq<char>>::empty().push(rule::string_text((#[trigger] inner[j]).0)),
                inner[j].1,
            ).set_up(files).0.selects(event, aliases);
        assert(!rule::selection_of(seq![keys[j]], values[j]).set_up(files).0.selects(
            event,
            aliases,
        ));
    }
}

/// The selections of a detection can be set up exactly if there is one and nothing is wrong
/// with any.
pub proof fn law_nothing_wrong(
    entries: Seq<(YamlView, YamlView)>,
    files: Map<Seq<char>, Seq<Seq<Seq<char>>>>,
)
    ensures
        rule::empty_detection().names_set_up(YamlView::Hash(entries), files).1.len() == 0 <==> {
            &&& exists|i: int, name: Seq<char>|
                0 <= i < entries.len() && #[trigger] names_selection(entries[i], name)
            &&& forall|i: int, name: Seq<char>|
                0 <= i < entries.len() && #[trigger] names_selection(entries[i], name)
                    ==> set_up_selection(entries[i].1, files).1.len() == 0
        },
{
    let (names, messages) = rule::named_selections(entries, Map::empty(), files);
    lemma_named(entries, files);
    if messages.len() == 0 {
        assert forall|i: int, name: Seq<char>|
            0 <= i < entries.len() && #[trigger] names_selection(entries[i], name) implies
            set_up_selection(entries[i].1, files).1.len() == 0 by {
            lemma_is_selection(entries[i]);
        }
        if exists|i: int, name: Seq<char>|
            0 <= i < entries.len() && #[trigger] names_selection(entries[i], name) {
            let (i, name) = choose|i: int, name: Seq<char>|
                0 <= i < entries.len() && #[trigger] names_selection(entries[i], name);
            lemma_last_with_name(entries, i, name);
            assert(names.contains_key(name));
            assert(names.dom().contains(name));
            assert(names.dom().len() > 0) by {
                if names.dom().len() == 0 {
                    names.dom().lemma_len0_is_empty();
                }
            }
        } else {
            assert(names.dom() =~= Set::empty()) by {
                assert forall|name: Seq<char>| !names.dom().contains(name) by {
                    if names.contains_key(name) {
                        let i = choose|i: int|
                            0 <= i < entries.len() && names_selection(#[trigger] entries[i], name);
                        assert(names_selection(entries[i], name));
                    }
                }
            }
        }
    } else {
        let i = choose|i: int|
            0 <= i < entries.len() && rule::is_selection((#[trigger] entries[i]).0)
                && set_up_selection(entries[i].1, files).1.len() != 0;
        lemma_is_selection(entries[i]);
        assert(names_selection(entries[i], entries[i].0->String_0));
    }
}

proof fn lemma_last_with_name(entries: Seq<(YamlView, YamlView)>, i: int, name: Seq<char>)
    requires
        0 <= i < entries.len(),
        names_selection(entries[i], name),
    ensures
        exists|j: int| #[trigger] last_with_name(entries, j, name),
    decreases entries.len() - i,
{
    if exists|j: int| i < j < entries.len() && (#[trigger] entries[j]).0 == YamlView::String(name) {
        let j = choose|j: int|
            i < j < entries.len() && (#[trigger] entries[j]).0 == YamlView::String(name);
        lemma_last_with_name(entries, j, name);
    } else {
        assert(last_with_name(entries, i, name));
    }
}

/// A detection without a selection is reported.
pub proof fn law_no_selection(
    entries: Seq<(YamlView, YamlView)>,
    files: Map<Seq<char>, Seq<Seq<Seq<char>>>>,
)
    requires
        forall|i: int, name: Seq<char>|
            0 <= i < entries.len() ==> !(#[trigger] names_selection(entries[i], name)),
    ensures
        rule::empty_detection().set_up(YamlView::Hash(entries), files) == (
            rule::empty_detection(),
            seq!["There are no selection node under detection."@],
        ),
{
    lemma_no_selection(entries, files);
    assert(Map::<Seq<char>, NodeView>::empty().dom() =~= Set::empty());
}

proof fn lemma_no_selection(
    entries: Seq<(YamlView, YamlView)>,
    files: Map<Seq<char>, Seq<Seq<Seq<char>>>>,
)
    requires
        forall|i: int, name: Seq<char>|
            0 <= i < entries.len() ==> !(#[trigger] names_selection(entries[i], name)),
    ensures
        rule::named_selections(entries, Map::empty(), files) == (
            Map::<Seq<char>, NodeView>::empty(),
            Seq::<Seq<char>>::empty(),
        ),
    decreases entries.len(),
{
    if entries.len() > 0 {
        let before = entries.drop_last();
        assert forall|i: int, name: Seq<char>| 0 <= i < before.len() implies !(
        #[trigger] names_selection(before[i], name)) by {
            assert(!names_selection(entries[i], name));
        }
        lemma_no_selection(before, files);
        let n = entries.len() - 1;
        lemma_is_selection(entries[n]);
        assert(!names_selection(entries[n], entries[n].0->String_0));
    }
}

/// A detection that is no hash is reported.
pub proof fn law_detection_is_a_hash(
    detection: YamlView,
    files: Map<Seq<char>, Seq<Seq<Seq<char>>>>,
)
    requires
        !(detection is Hash),
    ensures
        rule::empty_detection().set_up(detection, files) == (
            rule::empty_detection(),
            seq!["not found detection node"@],
        ),
{
}

/// What is wrong with a selection is all that is reported, and the detection gets no condition.
pub proof fn law_wrong_selections_are_reported(
    entries: Seq<(YamlView, YamlView)>,
    files: Map<Seq<char>, Seq<Seq<Seq<char>>>>,
)
    requires
        rule::named_selections(entries, Map::empty(), files).1.len() > 0,
    ensures
        rule::empty_detection().set_up(YamlView::Hash(entries), files).1
            == rule::named_selections(entries, Map::empty(), files).1,
        rule::empty_detection().set_up(YamlView::Hash(entries), files).0.condition is None,
        rule::empty_detection().set_up(YamlView::Hash(entries), files).0.aggregation is None,
{
}

/// The expression of a detection is compiled as a condition and as an aggregation condition.
/// What is wrong with the one is reported before what is wrong with the other, and each of them
/// is kept if nothing is wrong with it.
pub proof fn law_expression_is_compiled(
    text: Seq<char>,
    detection: YamlView,
    files: Map<Seq<char>, Seq<Seq<Seq<char>>>>,
)
    requires
        rule::empty_detection().names_set_up(detection, files).1.len() == 0,
        detection.index("condition"@) == YamlView::String(text),
    ensures
        ({
            let names = rule::empty_detection().names_set_up(detection, files).0.names;
            let (done, messages) = rule::empty_detection().set_up(detection, files);
            let compiled = condition::compiled_condition(text, names);
            let aggregated = aggregation::compiled_aggregation(text);
            &&& done.names == names
            &&& compiled matches Ok(node) ==> done.condition == Some(node)
            &&& compiled is Err ==> done.condition is None
            &&& aggregated matches Ok(info) ==> done.aggregation == info
            &&& aggregated is Err ==> done.aggregation is None
            &&& match (compiled, aggregated) {
                (Ok(_), Ok(_)) => messages == Seq::<Seq<char>>::empty(),
                (Err(a), Ok(_)) => messages == seq![a],
                (Ok(_), Err(b)) => messages == seq![b],
                (Err(a), Err(b)) => messages == seq![a, b],
            }
        }),
{
    let messages = rule::empty_detection().set_up(detection, files).1;
    let names = rule::empty_detection().names_set_up(detection, files).0.names;
    let compiled = condition::compiled_condition(text, names);
    let aggregated = aggregation::compiled_aggregation(text);
    assert(messages == rule::error_messages(compiled) + rule::error_messages(aggregated));
    match (compiled, aggregated) {
        (Ok(_), Ok(_)) => {
            assert(messages =~= Seq::<Seq<char>>::empty());
        },
        (Err(a), Ok(_)) => {
            assert(messages =~= seq![a]);
        },
        (Ok(_), Err(b)) => {
            assert(messages =~= seq![b]);
        },
        (Err(a), Err(b)) => {
            assert(messages =~= seq![a, b]);
        },
    }
}

/// A detection holds of a record exactly if it has a condition that does.
pub proof fn law_detection_selects(
    detection: DetectionView,
    node: NodeView,
    event: ValueView,
    aliases: Map<Seq<char>, Seq<char>>,
)
    ensures
        detection.condition == Some(node) ==> detection.selects(event, aliases) == node.selects(
            event,
            aliases,
        ),
        detection.condition is None ==> !detection.selects(event, aliases),
{
}

/// A detection can be set up exactly if it is no hash or the keys of all hashes in its
/// selections are strings.
pub proof fn law_string_keys(
    entries: Seq<(YamlView, YamlView)>,
    items: Seq<YamlView>,
    other: YamlView,
)
    ensures
        rule::can_set_up(YamlView::Hash(entries)) <==> forall|i: int, name: Seq<char>|
            0 <= i < entries.len() && #[trigger] names_selection(entries[i], name)
                ==> rule::string_keys(entries[i].1),
        !(other is Hash) ==> rule::can_set_up(other),
        rule::string_keys(YamlView::Hash(entries)) <==> forall|i: int|
            0 <= i < entries.len() ==> (#[trigger] entries[i]).0 is String && rule::string_keys(
                entries[i].1,
            ),
        rule::string_keys(YamlView::Array(items)) <==> forall|i: int|
            0 <= i < items.len() ==> rule::string_keys(#[trigger] items[i]),
        !(other is Hash) && !(other is Array) ==> rule::string_keys(other),
{
    assert(rule::string_keys(YamlView::Hash(entries)) == rule::entries_string_keys(entries));
    assert(rule::string_keys(YamlView::Array(items)) == rule::items_string_keys(items));
    if rule::can_set_up(YamlView::Hash(entries)) {
        assert forall|i: int, name: Seq<char>|
            0 <= i < entries.len() && #[trigger] names_selection(entries[i], name) implies
            rule::string_keys(entries[i].1) by {
            lemma_is_selection(entries[i]);
            assert(rule::entry_can_set_up(entries[i]));
        }
    } else {
        let i = choose|i: int|
            0 <= i < entries.len() && !rule::entry_can_set_up(#[trigger] entries[i]);
        lemma_is_selection(entries[i]);
        assert(names_selection(entries[i], entries[i].0->String_0));
    }
}

/// The files of a detection are those of its selections, in order.
pub proof fn law_files_of_detection(
    entries: Seq<(YamlView, YamlView)>,
    entry: (YamlView, YamlView),
    name: Seq<char>,
    other: YamlView,
)
    ensures
        rule::detection_files(YamlView::Hash(Seq::empty())) == Seq::<Seq<char>>::empty(),
        names_selection(entry, name) ==> rule::detection_files(
            YamlView::Hash(entries.push(entry)),
        ) == rule::detection_files(YamlView::Hash(entries)) + rule::selection_of(
            Seq::empty(),
            entry.1,
        ).file_names(),
        !(entry.0 is String) || !names_selection(entry, entry.0->String_0)
            ==> rule::detection_files(YamlView::Hash(entries.push(entry)))
            == rule::detection_files(YamlView::Hash(entries)),
        !(other is Hash) ==> rule::detection_files(other) == Seq::<Seq<char>>::empty(),
{
    assert(entries.push(entry).drop_last() =~= entries);
    lemma_is_selection(entry);
    let files = rule::entry_files(entries);
    assert(files + Seq::<Seq<char>>::empty() =~= files);
}

} // verus!
