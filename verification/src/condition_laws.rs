//! What conditions that are put together say of event records.
use vstd::prelude::*;

use crate::aggregation;
use crate::aggregation::AggregationView;
use crate::condition;
use crate::event::ValueView;
use crate::grammar;
use crate::grammar_laws;
use crate::lexer_laws;
use crate::selection;
use crate::selection::NodeView;
use crate::text;
use crate::token::TokenView;

verus! {

proof fn lemma_nodes_of_append(
    a: Seq<TokenView>,
    b: Seq<TokenView>,
    names: Map<Seq<char>, NodeView>,
)
    requires
        condition::nodes_of(a, names) is Ok,
        condition::nodes_of(b, names) is Ok,
    ensures
        condition::nodes_of(a + b, names) == Ok::<Seq<NodeView>, Seq<char>>(
            condition::nodes_of(a, names)->Ok_0 + condition::nodes_of(b, names)->Ok_0,
        ),
    decreases b.len(),
{
    if b.len() == 0 {
        assert(a + b =~= a);
        assert(condition::nodes_of(a, names)->Ok_0 + condition::nodes_of(b, names)->Ok_0
            =~= condition::nodes_of(a, names)->Ok_0);
    } else {
        assert((a + b).drop_last() =~= a + b.drop_last());
        lemma_nodes_of_append(a, b.drop_last(), names);
        assert(condition::nodes_of(a + b, names)->Ok_0 =~= condition::nodes_of(a, names)->Ok_0
            + condition::nodes_of(b, names)->Ok_0);
    }
}

proof fn lemma_nodes_of_one(token: TokenView, names: Map<Seq<char>, NodeView>)
    requires
        condition::node_of(token, names) is Ok,
    ensures
        condition::nodes_of(seq![token], names) == Ok::<Seq<NodeView>, Seq<char>>(
            seq![condition::node_of(token, names)->Ok_0],
        ),
{
    let one = seq![token];
    let none = Seq::<TokenView>::empty();
    let node = condition::node_of(token, names)->Ok_0;
    assert(one.drop_last() =~= none);
    assert(condition::nodes_of(none, names) == Ok::<Seq<NodeView>, Seq<char>>(seq![]));
    assert(Seq::<NodeView>::empty().push(node) =~= seq![node]);
}

/// What an expression says of an event record; nothing where it is not a condition over the
/// given names.
pub open spec fn holds(
    text: Seq<char>,
    names: Map<Seq<char>, NodeView>,
    event: ValueView,
    aliases: Map<Seq<char>, Seq<char>>,
) -> Option<bool> {
    match condition::condition_of(text, names) {
        Ok(node) => Some(node.selects(event, aliases)),
        Err(_) => None,
    }
}

/// The tree and the node of an expression that is a condition.
proof fn lemma_condition_parts(text: Seq<char>, names: Map<Seq<char>, NodeView>) -> (r: (
    Seq<TokenView>,
    Seq<TokenView>,
    Seq<NodeView>,
))
    requires
        condition::condition_of(text, names) is Ok,
    ensures
        condition::tokens_of(text) == Ok::<Seq<TokenView>, Seq<char>>(r.0),
        grammar::parse(r.0) == Ok::<TokenView, Seq<char>>(TokenView::OrContainer(r.1)),
        condition::nodes_of(r.1, names) == Ok::<Seq<NodeView>, Seq<char>>(r.2),
        condition::condition_of(text, names) == Ok::<NodeView, Seq<char>>(NodeView::Or(r.2)),
{
    let tokens = condition::tokens_of(text)->Ok_0;
    let (_, _, _, opened) = grammar_laws::lemma_parse_parts(tokens);
    (tokens, opened, condition::nodes_of(opened, names)->Ok_0)
}

/// A disjunction of one condition says what that condition says.
pub proof fn lemma_any_of_one(node: NodeView, event: ValueView, aliases: Map<Seq<char>, Seq<char>>)
    ensures
        NodeView::Or(seq![node]).selects(event, aliases) == node.selects(event, aliases),
{
    let one = seq![node];
    assert(one[0] == node);
    assert(NodeView::Or(one).selects(event, aliases) == selection::any_selects(
        one,
        event,
        aliases,
    ));
}

/// A disjunction holds if and only if one of the two expressions does.
pub proof fn law_or(
    a: Seq<char>,
    b: Seq<char>,
    names: Map<Seq<char>, NodeView>,
    event: ValueView,
    aliases: Map<Seq<char>, Seq<char>>,
)
    requires
        holds(a, names, event, aliases) is Some,
        holds(b, names, event, aliases) is Some,
    ensures
        holds(a + " or "@ + b, names, event, aliases) == Some(
            holds(a, names, event, aliases)->0 || holds(b, names, event, aliases)->0,
        ),
{
    let (ta, sa, na) = lemma_condition_parts(a, names);
    let (tb, sb, nb) = lemma_condition_parts(b, names);
    lexer_laws::law_or_tokens(a, b);
    grammar_laws::law_parse_or(ta, tb);
    lemma_nodes_of_append(sa, sb, names);
    let nodes = na + nb;
    assert(NodeView::Or(nodes).selects(event, aliases) == selection::any_selects(
        nodes,
        event,
        aliases,
    ));
    assert(NodeView::Or(na).selects(event, aliases) == selection::any_selects(
        na,
        event,
        aliases,
    ));
    assert(NodeView::Or(nb).selects(event, aliases) == selection::any_selects(
        nb,
        event,
        aliases,
    ));
    if selection::any_selects(na, event, aliases) {
        let i = choose|i: int| 0 <= i < na.len() && (#[trigger] na[i]).selects(event, aliases);
        assert(nodes[i].selects(event, aliases));
    }
    if selection::any_selects(nb, event, aliases) {
        let i = choose|i: int| 0 <= i < nb.len() && (#[trigger] nb[i]).selects(event, aliases);
        assert(nodes[na.len() + i].selects(event, aliases));
    }
    if selection::any_selects(nodes, event, aliases) {
        let i = choose|i: int|
            0 <= i < nodes.len() && (#[trigger] nodes[i]).selects(event, aliases);
        if i < na.len() {
            assert(na[i].selects(event, aliases));
        } else {
            assert(nb[i - na.len()].selects(event, aliases));
        }
    }
}

/// An expression without a disjunction outside its parentheses.
pub open spec fn one_alternative(text: Seq<char>) -> bool {
    condition::tokens_of(text) matches Ok(tokens) && grammar::parse(tokens) matches Ok(token)
        && token.sub().len() == 1
}

/// An expression of one operand: a name, an expression in parentheses, or `not` and either.
pub open spec fn is_operand_text(text: Seq<char>) -> bool {
    condition::tokens_of(text) matches Ok(tokens) && grammar_laws::is_single(tokens)
}

/// Parentheses around an expression keep what it says.
pub proof fn law_parentheses(
    a: Seq<char>,
    names: Map<Seq<char>, NodeView>,
    event: ValueView,
    aliases: Map<Seq<char>, Seq<char>>,
)
    requires
        holds(a, names, event, aliases) is Some,
    ensures
        holds("("@ + a + ")"@, names, event, aliases) == holds(a, names, event, aliases),
        one_alternative("("@ + a + ")"@),
        is_operand_text("("@ + a + ")"@),
{
    let (ta, sa, na) = lemma_condition_parts(a, names);
    lexer_laws::law_parenthesis_tokens(a);
    grammar_laws::law_parse_parentheses(ta);
    let token = TokenView::OrContainer(sa);
    assert(condition::node_of(token, names) == Ok::<NodeView, Seq<char>>(NodeView::Or(na)));
    lemma_nodes_of_one(token, names);
    lemma_any_of_one(NodeView::Or(na), event, aliases);
}

/// `not` in front of an expression in parentheses says the opposite.
pub proof fn law_not(
    a: Seq<char>,
    names: Map<Seq<char>, NodeView>,
    event: ValueView,
    aliases: Map<Seq<char>, Seq<char>>,
)
    requires
        holds(a, names, event, aliases) is Some,
    ensures
        holds("not ("@ + a + ")"@, names, event, aliases) == Some(
            !holds(a, names, event, aliases)->0,
        ),
        one_alternative("not ("@ + a + ")"@),
        is_operand_text("not ("@ + a + ")"@),
{
    let (ta, sa, na) = lemma_condition_parts(a, names);
    let enclosed = "("@ + a + ")"@;
    lexer_laws::law_parenthesis_tokens(a);
    lexer_laws::law_not_tokens(enclosed);
    assert("not ("@ + a + ")"@ =~= "not "@ + enclosed) by {
        reveal_strlit("not (");
        reveal_strlit("not ");
        reveal_strlit("(");
    }
    grammar_laws::law_parse_not(ta);
    let token = TokenView::OrContainer(sa);
    let negated = seq![token];
    assert(negated[0] == token);
    assert(condition::node_of(token, names) == Ok::<NodeView, Seq<char>>(NodeView::Or(na)));
    let node = NodeView::Not(Box::new(NodeView::Or(na)));
    assert(condition::node_of(TokenView::NotContainer(negated), names) == Ok::<
        NodeView,
        Seq<char>,
    >(node));
    lemma_nodes_of_one(TokenView::NotContainer(negated), names);
    lemma_any_of_one(node, event, aliases);
    assert(node.selects(event, aliases) == !NodeView::Or(na).selects(event, aliases));
}

/// A conjunction holds if and only if both expressions do.
pub proof fn law_and(
    a: Seq<char>,
    b: Seq<char>,
    names: Map<Seq<char>, NodeView>,
    event: ValueView,
    aliases: Map<Seq<char>, Seq<char>>,
)
    requires
        holds(a, names, event, aliases) is Some,
        holds(b, names, event, aliases) is Some,
        one_alternative(a),
        is_operand_text(b),
    ensures
        holds(a + " and "@ + b, names, event, aliases) == Some(
            holds(a, names, event, aliases)->0 && holds(b, names, event, aliases)->0,
        ),
        one_alternative(a + " and "@ + b),
{
    let (ta, sa, na) = lemma_condition_parts(a, names);
    let (tb, sb, nb) = lemma_condition_parts(b, names);
    lexer_laws::law_and_tokens(a, b);
    grammar_laws::law_parse_and(ta, tb);
    let none = Seq::<TokenView>::empty();
    assert(sa.drop_last() =~= none);
    assert(sa =~= seq![sa[0]]);
    assert(sb =~= seq![sb[0]]);
    assert(sb.drop_last() =~= none);
    assert(condition::nodes_of(none, names) == Ok::<Seq<NodeView>, Seq<char>>(seq![]));
    lemma_nodes_of_one(sa[0], names);
    lemma_nodes_of_one(sb[0], names);
    let x = condition::node_of(sa[0], names)->Ok_0;
    let y = condition::node_of(sb[0], names)->Ok_0;
    let pair = seq![sa[0], sb[0]];
    assert(seq![sa[0]] + seq![sb[0]] =~= pair);
    lemma_nodes_of_append(seq![sa[0]], seq![sb[0]], names);
    let both = seq![x] + seq![y];
    let token = TokenView::AndContainer(pair);
    assert(sa.drop_last().push(token) =~= seq![token]);
    assert(condition::node_of(token, names) == Ok::<NodeView, Seq<char>>(NodeView::And(both)));
    lemma_nodes_of_one(token, names);
    lemma_any_of_one(NodeView::And(both), event, aliases);
    lemma_any_of_one(x, event, aliases);
    lemma_any_of_one(y, event, aliases);
    assert(NodeView::And(both).selects(event, aliases) == selection::all_select(
        both,
        event,
        aliases,
    ));
    assert(both[0] == x && both[1] == y);
}

/// The name of a condition says what the condition says, if it is a word and none of the
/// operators.
pub proof fn law_name(
    name: Seq<char>,
    names: Map<Seq<char>, NodeView>,
    event: ValueView,
    aliases: Map<Seq<char>, Seq<char>>,
)
    requires
        lexer_laws::is_word(name),
        name != "and"@,
        name != "or"@,
        name != "not"@,
    ensures
        names.contains_key(name) ==> holds(name, names, event, aliases) == Some(
            names[name].selects(event, aliases),
        ),
        !names.contains_key(name) ==> condition::condition_of(name, names) == Err::<
            NodeView,
            Seq<char>,
        >(name + " is not defined."@),
        one_alternative(name),
        is_operand_text(name),
{
    let reference = TokenView::SelectionReference(name);
    lexer_laws::law_name_tokens(name);
    grammar_laws::law_parse_name(name);
    let sub = seq![reference];
    if names.contains_key(name) {
        lemma_nodes_of_one(reference, names);
        let node = NodeView::Ref(Box::new(names[name]));
        lemma_any_of_one(node, event, aliases);
        assert(node.selects(event, aliases) == names[name].selects(event, aliases));
    } else {
        let none = Seq::<TokenView>::empty();
        assert(sub.drop_last() =~= none);
        assert(condition::nodes_of(none, names) == Ok::<Seq<NodeView>, Seq<char>>(seq![]));
        assert(condition::nodes_of(sub, names) == Err::<Seq<NodeView>, Seq<char>>(
            name + " is not defined."@,
        ));
    }
}

/// `and` binds more tightly than `or`.
pub proof fn law_precedence(
    a: Seq<char>,
    b: Seq<char>,
    c: Seq<char>,
    names: Map<Seq<char>, NodeView>,
    event: ValueView,
    aliases: Map<Seq<char>, Seq<char>>,
)
    requires
        holds(a, names, event, aliases) is Some,
        holds(b, names, event, aliases) is Some,
        holds(c, names, event, aliases) is Some,
        one_alternative(b),
        is_operand_text(c),
    ensures
        holds(a + " or "@ + b + " and "@ + c, names, event, aliases) == Some(
            holds(a, names, event, aliases)->0 || (holds(b, names, event, aliases)->0 && holds(
                c,
                names,
                event,
                aliases,
            )->0),
        ),
{
    law_and(b, c, names, event, aliases);
    law_or(a, b + " and "@ + c, names, event, aliases);
    assert(a + " or "@ + (b + " and "@ + c) =~= a + " or "@ + b + " and "@ + c);
}

proof fn lemma_joined_text(a: Seq<char>, b: Seq<char>)
    ensures
        "("@ + a + ") and ("@ + b + ")"@ == ("("@ + a + ")"@) + " and "@ + ("("@ + b + ")"@),
{
    assert(") and ("@ =~= ")"@ + " and "@ + "("@) by {
        reveal_strlit(") and (");
        reveal_strlit(" and ");
        reveal_strlit("(");
        reveal_strlit(")");
    }
    assert("("@ + a + ") and ("@ + b + ")"@ =~= ("("@ + a + ")"@) + " and "@ + ("("@ + b + ")"@));
}

/// Any two expressions in parentheses can be joined by `and`.
pub proof fn law_and_parentheses(
    a: Seq<char>,
    b: Seq<char>,
    names: Map<Seq<char>, NodeView>,
    event: ValueView,
    aliases: Map<Seq<char>, Seq<char>>,
)
    requires
        holds(a, names, event, aliases) is Some,
        holds(b, names, event, aliases) is Some,
    ensures
        holds("("@ + a + ") and ("@ + b + ")"@, names, event, aliases) == Some(
            holds(a, names, event, aliases)->0 && holds(b, names, event, aliases)->0,
        ),
{
    let left = "("@ + a + ")"@;
    let right = "("@ + b + ")"@;
    law_parentheses(a, names, event, aliases);
    law_parentheses(b, names, event, aliases);
    law_and(left, right, names, event, aliases);
    lemma_joined_text(a, b);
}

/// `not` in front of the name of a condition says the opposite of what the condition says.
pub proof fn law_not_name(
    name: Seq<char>,
    names: Map<Seq<char>, NodeView>,
    event: ValueView,
    aliases: Map<Seq<char>, Seq<char>>,
)
    requires
        lexer_laws::is_word(name),
        name != "and"@,
        name != "or"@,
        name != "not"@,
        names.contains_key(name),
    ensures
        holds("not "@ + name, names, event, aliases) == Some(
            !names[name].selects(event, aliases),
        ),
        one_alternative("not "@ + name),
        is_operand_text("not "@ + name),
{
    let reference = TokenView::SelectionReference(name);
    lexer_laws::law_name_tokens(name);
    lexer_laws::law_not_tokens(name);
    assert(seq![TokenView::Not] + seq![reference] =~= seq![TokenView::Not, reference]);
    grammar_laws::law_parse_not_name(name);
    let negated = seq![reference];
    assert(negated[0] == reference);
    let inner = NodeView::Ref(Box::new(names[name]));
    assert(condition::node_of(reference, names) == Ok::<NodeView, Seq<char>>(inner));
    let node = NodeView::Not(Box::new(inner));
    assert(condition::node_of(TokenView::NotContainer(negated), names) == Ok::<
        NodeView,
        Seq<char>,
    >(node));
    lemma_nodes_of_one(TokenView::NotContainer(negated), names);
    lemma_any_of_one(node, event, aliases);
    assert(inner.selects(event, aliases) == names[name].selects(event, aliases));
    assert(node.selects(event, aliases) == !inner.selects(event, aliases));
}

/// A text without the given character.
pub open spec fn lacks(text: Seq<char>, c: char) -> bool {
    forall|i: int| 0 <= i < text.len() ==> #[trigger] text[i] != c
}

/// The first `|` of an expression parts its condition from its aggregation condition.
pub proof fn law_pipe(text: Seq<char>, part: Seq<char>, names: Map<Seq<char>, NodeView>)
    requires
        lacks(text, '|'),
        lacks(part, '\n'),
    ensures
        condition::condition_part(text + seq!['|'] + part) == text,
        aggregation::aggregation_part(text + seq!['|'] + part) == Some(part),
        condition::compiled_condition(text + seq!['|'] + part, names)
            == condition::compiled_condition(text, names),
{
    let all = text + seq!['|'] + part;
    let n = text.len() as int;
    let start = text::find_char(all, '|', 0);
    text::lemma_find_char(all, '|', 0);
    assert(all[n] == '|');
    if start < n {
        assert(all[start] == text[start]);
    }
    assert(start == n);
    let end = text::find_char(all, '\n', start);
    text::lemma_find_char(all, '\n', start);
    if end < all.len() {
        assert(end > n);
        assert(all[end] == part[end - n - 1]);
    }
    assert(all.take(start) + all.skip(end) =~= text);
    assert(all.subrange(start + 1, end) =~= part);
    law_no_pipe(text);
}

/// An expression without a `|` is all condition.
pub proof fn law_no_pipe(text: Seq<char>)
    requires
        lacks(text, '|'),
    ensures
        condition::condition_part(text) == text,
        aggregation::compiled_aggregation(text) == Ok::<Option<AggregationView>, Seq<char>>(None),
{
    text::lemma_find_char(text, '|', 0);
}

} // verus!
