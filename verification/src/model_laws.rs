//! What the models of the library's types hold.
use std::sync::Arc;

use vstd::prelude::*;

use crate::aggregation;
use crate::aggregation::{AggregationConditionToken, AggregationParseInfo, AggregationTokenView};
use crate::condition;
use crate::event;
use crate::event::{Number, NumberView, Value, ValueView};
use crate::matcher;
use crate::matcher::{LeafMatcher, MatcherView};
use crate::rule::DetectionNode;
use crate::selection;
use crate::selection::{
    AndSelectionNode, LeafSelectionNode, NodeView, NotSelectionNode, OrSelectionNode,
    RefSelectionNode, SelectionNode,
};
use crate::text;
use crate::token;
use crate::token::{ConditionToken, TokenView};

verus! {

/// A list of strings holds their texts, one by one.
pub proof fn law_texts(list: Seq<String>, rows: Seq<Vec<String>>)
    ensures
        text::texts(list).len() == list.len(),
        forall|i: int| 0 <= i < list.len() ==> (#[trigger] text::texts(list)[i]) == list[i]@,
        text::rows(rows).len() == rows.len(),
        forall|i: int| 0 <= i < rows.len() ==> (#[trigger] text::rows(rows)[i]) == text::texts(
            rows[i]@,
        ),
{
}

/// The models of tables have the same keys, and the models of the values.
pub proof fn law_tables(
    aliases: Map<Seq<char>, String>,
    files: Map<Seq<char>, Vec<Vec<String>>>,
    names: Map<Seq<char>, Arc<SelectionNode>>,
    key: Seq<char>,
)
    ensures
        event::alias_views(aliases).contains_key(key) <==> aliases.contains_key(key),
        aliases.contains_key(key) ==> event::alias_views(aliases)[key] == aliases[key]@,
        matcher::file_views(files).contains_key(key) <==> files.contains_key(key),
        files.contains_key(key) ==> matcher::file_views(files)[key] == text::rows(files[key]@),
        condition::name_views(names).contains_key(key) <==> names.contains_key(key),
        names.contains_key(key) ==> condition::name_views(names)[key] == names[key]@,
{
}

/// The model of a value that is no array and no object.
pub proof fn law_value_model(s: String, b: bool, p: u64, n: i64)
    ensures
        Value::Null@ == ValueView::Null,
        Value::Bool(b)@ == ValueView::Bool(b),
        Value::String(s)@ == ValueView::String(s@),
        Value::Number(Number::PosInt(p))@ == ValueView::Number(NumberView::PosInt(p as nat)),
        Value::Number(Number::NegInt(n))@ == ValueView::Number(NumberView::NegInt(n as int)),
        Value::Number(Number::Float(s))@ == ValueView::Number(NumberView::Float(s@)),
{
}

/// The model of an array holds the models of the items, one by one.
pub proof fn law_array_model(items: Vec<Value>)
    ensures
        Value::Array(items)@ matches ValueView::Array(views) && views.len() == items@.len()
            && forall|i: int| 0 <= i < views.len() ==> (#[trigger] views[i]) == items@[i]@,
{
    let views = event::value_views(items@);
    assert(Value::Array(items)@ == ValueView::Array(views));
    assert forall|i: int| 0 <= i < views.len() implies (#[trigger] views[i]) == items@[i]@ by {
        assert(views[i] == items@[i].model());
    }
}

/// The model of an object holds the names and the models of the members, one by one.
pub proof fn law_object_model(members: Vec<(String, Value)>)
    ensures
        Value::Object(members)@ matches ValueView::Object(views) && views.len() == members@.len()
            && forall|i: int|
            0 <= i < views.len() ==> (#[trigger] views[i]) == (
                members@[i].0@,
                members@[i].1@,
            ),
{
    let views = event::member_views(members@);
    assert(Value::Object(members)@ == ValueView::Object(views));
    assert forall|i: int| 0 <= i < views.len() implies (#[trigger] views[i]) == (
        members@[i].0@,
        members@[i].1@,
    ) by {
        assert(views[i] == (members@[i].0@, members@[i].1.model()));
    }
}

/// The models of some conditions, one by one.
pub open spec fn models(views: Seq<NodeView>, nodes: Seq<SelectionNode>) -> bool {
    &&& views.len() == nodes.len()
    &&& forall|i: int| 0 <= i < views.len() ==> (#[trigger] views[i]) == nodes[i]@
}

/// The model of a condition is made of the models of the conditions in it.
pub proof fn law_node_model(
    and: AndSelectionNode,
    or: OrSelectionNode,
    not: NotSelectionNode,
    reference: RefSelectionNode,
    leaf: LeafSelectionNode,
)
    ensures
        and@ matches NodeView::And(views) && models(views, and.child_nodes@),
        or@ matches NodeView::Or(views) && models(views, or.child_nodes@),
        not@ == NodeView::Not(Box::new(not.node@)),
        reference@ == NodeView::Ref(Box::new(reference.selection_node@)),
        SelectionNode::And(and)@ == and@,
        SelectionNode::Or(or)@ == or@,
        SelectionNode::Not(not)@ == not@,
        SelectionNode::Ref(reference)@ == reference@,
        SelectionNode::Leaf(leaf)@ == NodeView::Leaf(leaf@),
{
    lemma_models(and.child_nodes@);
    lemma_models(or.child_nodes@);
}

proof fn lemma_models(nodes: Seq<SelectionNode>)
    ensures
        models(selection::node_views(nodes), nodes),
{
    let views = selection::node_views(nodes);
    assert forall|i: int| 0 <= i < views.len() implies (#[trigger] views[i]) == nodes[i]@ by {
        assert(views[i] == nodes[i].model());
    }
}

/// The model of a leaf holds its keys, its value and its matcher.
pub proof fn law_leaf_model(leaf: LeafSelectionNode)
    ensures
        leaf@.keys == text::texts(leaf.key_list@),
        leaf@.value == leaf.select_value@,
        leaf.matcher is None ==> leaf@.matcher is None,
        leaf.matcher matches Some(m) ==> leaf@.matcher == Some(m@),
{
}

/// The model of a matcher holds what the matcher compares with.
pub proof fn law_matcher_model(m: LeafMatcher)
    ensures
        match m {
            LeafMatcher::Regex(regex) => m@ == MatcherView::Regex(
                match regex.re {
                    Some(p) => Some(p@),
                    None => None,
                },
            ),
            LeafMatcher::Minlength(min) => m@ == MatcherView::Minlength(min.min_len as int),
            LeafMatcher::Regexes(list) => m@ == MatcherView::Regexes(
                text::rows(list.regexes_csv_content@),
            ),
            LeafMatcher::Whitelist(list) => m@ == MatcherView::Whitelist(
                text::rows(list.whitelist_csv_content@),
            ),
            LeafMatcher::StartsWith(start) => m@ == MatcherView::StartsWith(start.start_text@),
            LeafMatcher::EndsWith(end) => m@ == MatcherView::EndsWith(end.end_text@),
            LeafMatcher::Contains(part) => m@ == MatcherView::Contains(part.pattern@),
        },
{
}

/// The models of some tokens, one by one.
pub open spec fn token_models(views: Seq<TokenView>, tokens: Seq<ConditionToken>) -> bool {
    &&& views.len() == tokens.len()
    &&& forall|i: int| 0 <= i < views.len() ==> (#[trigger] views[i]) == tokens[i]@
}

/// The model of a token holds what the token holds.
pub proof fn law_token_model(token: ConditionToken)
    ensures
        match token {
            ConditionToken::LeftParenthesis => token@ == TokenView::LeftParenthesis,
            ConditionToken::RightParenthesis => token@ == TokenView::RightParenthesis,
            ConditionToken::Space => token@ == TokenView::Space,
            ConditionToken::Not => token@ == TokenView::Not,
            ConditionToken::And => token@ == TokenView::And,
            ConditionToken::Or => token@ == TokenView::Or,
            ConditionToken::SelectionReference(name) => token@ == TokenView::SelectionReference(
                name@,
            ),
            ConditionToken::ParenthesisContainer(sub) => token@ matches
                TokenView::ParenthesisContainer(views) && token_models(views, sub@),
            ConditionToken::AndContainer(sub) => token@ matches TokenView::AndContainer(views)
                && token_models(views, sub@),
            ConditionToken::OrContainer(sub) => token@ matches TokenView::OrContainer(views)
                && token_models(views, sub@),
            ConditionToken::NotContainer(sub) => token@ matches TokenView::NotContainer(views)
                && token_models(views, sub@),
            ConditionToken::OperandContainer(sub) => token@ matches TokenView::OperandContainer(
                views,
            ) && token_models(views, sub@),
        },
{
    match token {
        ConditionToken::ParenthesisContainer(sub) => lemma_token_models(sub@),
        ConditionToken::AndContainer(sub) => lemma_token_models(sub@),
        ConditionToken::OrContainer(sub) => lemma_token_models(sub@),
        ConditionToken::NotContainer(sub) => lemma_token_models(sub@),
        ConditionToken::OperandContainer(sub) => lemma_token_models(sub@),
        _ => {},
    }
}

proof fn lemma_token_models(tokens: Seq<ConditionToken>)
    ensures
        token_models(token::token_views(tokens), tokens),
{
    let views = token::token_views(tokens);
    assert forall|i: int| 0 <= i < views.len() implies (#[trigger] views[i]) == tokens[i]@ by {
        assert(views[i] == tokens[i].model());
    }
}

/// The model of an aggregation condition holds its fields, its operator and its number.
pub proof fn law_aggregation_model(info: AggregationParseInfo)
    ensures
        info@.field_name == text::text_of(info._field_name),
        info@.by_field_name == text::text_of(info._by_field_name),
        info@.cmp_op == info._cmp_op@,
        info@.cmp_num == info._cmp_num,
{
}

/// The model of a token of an aggregation condition holds what the token holds.
pub proof fn law_aggregation_token_model(token: AggregationConditionToken)
    ensures
        match token {
            AggregationConditionToken::COUNT(field) => token@ == AggregationTokenView::COUNT(
                field@,
            ),
            AggregationConditionToken::SPACE => token@ == AggregationTokenView::SPACE,
            AggregationConditionToken::BY => token@ == AggregationTokenView::BY,
            AggregationConditionToken::EQ => token@ == AggregationTokenView::EQ,
            AggregationConditionToken::LE => token@ == AggregationTokenView::LE,
            AggregationConditionToken::LT => token@ == AggregationTokenView::LT,
            AggregationConditionToken::GE => token@ == AggregationTokenView::GE,
            AggregationConditionToken::GT => token@ == AggregationTokenView::GT,
            AggregationConditionToken::KEYWORD(word) => token@ == AggregationTokenView::KEYWORD(
                word@,
            ),
        },
{
}

/// The model of a detection holds its named conditions, its condition and its aggregation
/// condition.
pub proof fn law_detection_model(detection: DetectionNode)
    ensures
        detection@.names == condition::name_views(detection.name_to_selection@),
        detection.condition is None ==> detection@.condition is None,
        detection.condition matches Some(node) ==> detection@.condition == Some(node@),
        detection.aggregation_condition is None ==> detection@.aggregation is None,
        detection.aggregation_condition matches Some(info) ==> detection@.aggregation == Some(
            info@,
        ),
{
    assert(aggregation::aggregation_view(detection.aggregation_condition)
        == detection@.aggregation);
}

/// What may be missing is missing in the model exactly if it is missing.
pub proof fn law_optional_models(value: Option<&Value>, s: Option<String>)
    ensures
        value is None ==> event::value_view(value) is None,
        value matches Some(v) ==> event::value_view(value) == Some(v@),
        s is None ==> text::text_of(s) is None,
        s matches Some(t) ==> text::text_of(s) == Some(t@),
{
}

/// The models of the tokens of an aggregation condition, one by one.
pub proof fn law_aggregation_token_models(tokens: Seq<AggregationConditionToken>)
    ensures
        aggregation::aggregation_views(tokens).len() == tokens.len(),
        forall|i: int|
            0 <= i < tokens.len() ==> (#[trigger] aggregation::aggregation_views(tokens)[i])
                == tokens[i]@,
{
}

/// The model of a result is a success or an error as the result is, with the model of what it
/// holds.
pub proof fn law_results(
    token: ConditionToken,
    tokens: Vec<ConditionToken>,
    node: SelectionNode,
    words: Vec<AggregationConditionToken>,
    info: Option<AggregationParseInfo>,
    msg: String,
)
    ensures
        condition::token_result(Ok(token)) == Ok::<TokenView, Seq<char>>(token@),
        condition::token_result(Err(msg)) == Err::<TokenView, Seq<char>>(msg@),
        condition::tokens_result(Ok(tokens)) matches Ok(views) && token_models(views, tokens@),
        condition::tokens_result(Err(msg)) == Err::<Seq<TokenView>, Seq<char>>(msg@),
        condition::node_result(Ok(node)) == Ok::<NodeView, Seq<char>>(node@),
        condition::node_result(Err(msg)) == Err::<NodeView, Seq<char>>(msg@),
        aggregation::aggregation_tokens_result(Ok(words)) == Ok::<
            Seq<AggregationTokenView>,
            Seq<char>,
        >(aggregation::aggregation_views(words@)),
        aggregation::aggregation_tokens_result(Err(msg)) == Err::<
            Seq<AggregationTokenView>,
            Seq<char>,
        >(msg@),
        aggregation::aggregation_result(Err(msg)) == Err::<
            Option<aggregation::AggregationView>,
            Seq<char>,
        >(msg@),
        info is None ==> aggregation::aggregation_result(Ok(info)) == Ok::<
            Option<aggregation::AggregationView>,
            Seq<char>,
        >(None),
        info matches Some(i) ==> aggregation::aggregation_result(Ok(info)) == Ok::<
            Option<aggregation::AggregationView>,
            Seq<char>,
        >(Some(i@)),
{
    lemma_token_models(tokens@);
}

} // verus!
