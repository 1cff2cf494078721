//! Which sequences of tokens are expressions.
use vstd::prelude::*;

use crate::condition;
use crate::grammar;
use crate::grammar_laws;
use crate::selection::NodeView;
use crate::token::TokenView;

verus! {

/// A name, or an expression in parentheses.
pub open spec fn is_primary(tokens: Seq<TokenView>) -> bool
    decreases tokens.len(), 0int,
{
    ||| tokens.len() == 1 && tokens[0] is SelectionReference
    ||| tokens.len() > 2 && tokens[0] is LeftParenthesis && tokens.last() is RightParenthesis
        && is_expression(tokens.subrange(1, tokens.len() - 1))
}

/// A name or an expression in parentheses, or `not` and either.
pub open spec fn is_factor(tokens: Seq<TokenView>) -> bool
    decreases tokens.len(), 1int,
{
    ||| is_primary(tokens)
    ||| tokens.len() > 1 && tokens[0] is Not && is_primary(tokens.skip(1))
}

/// Factors with `and` or `or` between them.
pub open spec fn is_expression(tokens: Seq<TokenView>) -> bool
    decreases tokens.len(), 2int,
{
    ||| is_factor(tokens)
    ||| exists|k: int|
        0 < k < tokens.len() && ((#[trigger] tokens[k]) is And || tokens[k] is Or)
            && is_expression(tokens.take(k)) && is_factor(tokens.skip(k + 1))
}

proof fn lemma_factor_parses(tokens: Seq<TokenView>)
    requires
        is_factor(tokens),
    ensures
        grammar::parse(tokens) is Ok,
        grammar_laws::is_single(tokens),
    decreases tokens.len(), 1int,
{
    if is_primary(tokens) {
        if tokens.len() == 1 {
            assert(tokens =~= seq![TokenView::SelectionReference(
                tokens[0]->SelectionReference_0,
            )]);
            grammar_laws::law_parse_name(tokens[0]->SelectionReference_0);
        } else {
            let inner = tokens.subrange(1, tokens.len() - 1);
            lemma_expression_parses(inner);
            grammar_laws::law_parse_parentheses(inner);
            assert(grammar_laws::in_parentheses(inner) =~= tokens);
        }
    } else {
        let rest = tokens.skip(1);
        if rest.len() == 1 {
            let name = rest[0]->SelectionReference_0;
            assert(rest[0] == tokens[1]);
            assert(tokens =~= seq![TokenView::Not, TokenView::SelectionReference(name)]);
            grammar_laws::law_parse_not_name(name);
        } else {
            let inner = rest.subrange(1, rest.len() - 1);
            lemma_expression_parses(inner);
            grammar_laws::law_parse_not(inner);
            assert(seq![TokenView::Not] + grammar_laws::in_parentheses(inner) =~= tokens);
        }
    }
}

proof fn lemma_expression_parses(tokens: Seq<TokenView>)
    requires
        is_expression(tokens),
    ensures
        grammar::parse(tokens) is Ok,
    decreases tokens.len(), 2int,
{
    if is_factor(tokens) {
        lemma_factor_parses(tokens);
    } else {
        let k = choose|k: int|
            0 < k < tokens.len() && ((#[trigger] tokens[k]) is And || tokens[k] is Or)
                && is_expression(tokens.take(k)) && is_factor(tokens.skip(k + 1));
        let a = tokens.take(k);
        let b = tokens.skip(k + 1);
        lemma_expression_parses(a);
        lemma_factor_parses(b);
        if tokens[k] is And {
            grammar_laws::law_parse_and(a, b);
            assert(a + seq![TokenView::And] + b =~= tokens);
        } else {
            grammar_laws::law_parse_or(a, b);
            assert(a + seq![TokenView::Or] + b =~= tokens);
        }
    }
}

proof fn lemma_unwrap_append(a: Seq<TokenView>, b: Seq<TokenView>)
    ensures
        grammar_laws::unwrap_parentheses(a + b) == grammar_laws::unwrap_parentheses(a)
            + grammar_laws::unwrap_parentheses(b),
    decreases a.len(),
{
    if a.len() == 0 {
        assert(a + b =~= b);
        assert(grammar_laws::unwrap_parentheses(a) + grammar_laws::unwrap_parentheses(b)
            =~= grammar_laws::unwrap_parentheses(b));
    } else {
        assert((a + b).skip(1) =~= a.skip(1) + b);
        assert((a + b)[0] == a[0]);
        lemma_unwrap_append(a.skip(1), b);
        assert(grammar_laws::unwrap_parentheses(a + b) =~= grammar_laws::unwrap_parentheses(a)
            + grammar_laws::unwrap_parentheses(b));
    }
}

proof fn lemma_unwrap_one(token: TokenView)
    ensures
        grammar_laws::unwrap_parentheses(seq![token]) == (match token {
            TokenView::ParenthesisContainer(sub) => grammar_laws::in_parentheses(sub),
            _ => seq![token],
        }),
{
    let one = seq![token];
    let none = Seq::<TokenView>::empty();
    assert(one.skip(1) =~= none);
    assert(grammar_laws::unwrap_parentheses(none) =~= none);
    assert(grammar_laws::in_parentheses(token.sub()) + none =~= grammar_laws::in_parentheses(
        token.sub(),
    ));
    assert(one + none =~= one);
}

proof fn lemma_ungroup_append(a: Seq<TokenView>, b: Seq<TokenView>)
    ensures
        grammar_laws::unwrap_operands(a + b) == grammar_laws::unwrap_operands(a)
            + grammar_laws::unwrap_operands(b),
    decreases a.len(),
{
    if a.len() == 0 {
        assert(a + b =~= b);
        assert(grammar_laws::unwrap_operands(a) + grammar_laws::unwrap_operands(b)
            =~= grammar_laws::unwrap_operands(b));
    } else {
        assert((a + b).skip(1) =~= a.skip(1) + b);
        assert((a + b)[0] == a[0]);
        lemma_ungroup_append(a.skip(1), b);
        assert(grammar_laws::unwrap_operands(a + b) =~= grammar_laws::unwrap_operands(a)
            + grammar_laws::unwrap_operands(b));
    }
}

proof fn lemma_ungroup_one(token: TokenView)
    ensures
        grammar_laws::unwrap_operands(seq![token]) == (match token {
            TokenView::OperandContainer(sub) => sub,
            _ => seq![token],
        }),
{
    let one = seq![token];
    let none = Seq::<TokenView>::empty();
    assert(one.skip(1) =~= none);
    assert(grammar_laws::unwrap_operands(none) =~= none);
    assert(token.sub() + none =~= token.sub());
    assert(one + none =~= one);
}

/// An operand that stands for something, with its parentheses opened.
spec fn opens(token: TokenView) -> bool {
    grammar::resolve(token) matches Ok(t) && grammar::open_parentheses(t) is Ok
}

spec fn all_open(tokens: Seq<TokenView>) -> bool {
    grammar::resolve_all(tokens) matches Ok(s) && grammar::open_all(s) is Ok
}

proof fn lemma_all_open_push(tokens: Seq<TokenView>, token: TokenView)
    ensures
        all_open(tokens.push(token)) <==> all_open(tokens) && opens(token),
{
    assert(tokens.push(token).drop_last() =~= tokens);
    if let Ok(before) = grammar::resolve_all(tokens) {
        if let Ok(t) = grammar::resolve(token) {
            assert(before.push(t).drop_last() =~= before);
        }
    }
}

proof fn lemma_pair_opens(a: TokenView, b: TokenView)
    ensures
        opens(TokenView::AndContainer(seq![a, b])) <==> opens(a) && opens(b),
{
    let none = Seq::<TokenView>::empty();
    let pair = seq![a, b];
    assert(none.push(a).push(b) =~= pair);
    lemma_all_open_push(none, a);
    lemma_all_open_push(none.push(a), b);
    assert(grammar::resolve_all(none) == Ok::<Seq<TokenView>, Seq<char>>(none));
    assert(grammar::open_all(none) == Ok::<Seq<TokenView>, Seq<char>>(none));
    assert(all_open(none));
    assert(opens(TokenView::AndContainer(pair)) <==> all_open(pair)) by {
        if let Ok(s) = grammar::resolve_all(pair) {
            assert(grammar::resolve(TokenView::AndContainer(pair)) == Ok::<TokenView, Seq<char>>(
                TokenView::AndContainer(s),
            ));
        }
    }
}

/// All alternatives open exactly if all operands do.
proof fn lemma_alternatives_open(items: Seq<TokenView>)
    requires
        items.len() >= 3,
        all_open(grammar::alternatives(items)),
    ensures
        all_open(grammar::alternatives(items.take(items.len() - 2))),
        opens(items.last()),
{
    let before = grammar::alternatives(items.take(items.len() - 2));
    let operand = items.last();
    grammar::lemma_alternatives_nonempty(items.take(items.len() - 2));
    if items[items.len() - 2] is Or {
        lemma_all_open_push(before, operand);
    } else {
        let pair = TokenView::AndContainer(seq![before.last(), operand]);
        lemma_all_open_push(before.drop_last(), pair);
        lemma_pair_opens(before.last(), operand);
        lemma_all_open_push(before.drop_last(), before.last());
        assert(before.drop_last().push(before.last()) =~= before);
    }
}

/// A token that an operand can be made of, and that opens, is a primary.
proof fn lemma_primary(token: TokenView, len: nat)
    requires
        grammar::is_unit(token),
        !token.is_logical(),
        !(token is RightParenthesis),
        !(token is Not),
        grammar::open_parentheses(token) is Ok,
        grammar_laws::unwrap_parentheses(seq![token]).len() <= len,
    ensures
        is_primary(grammar_laws::unwrap_parentheses(seq![token])),
    decreases len, 0int,
{
    lemma_unwrap_one(token);
    match token {
        TokenView::ParenthesisContainer(sub) => {
            let all = grammar_laws::in_parentheses(sub);
            lemma_parsed_is_expression(sub, (len - 2) as nat);
            assert(all.subrange(1, all.len() - 1) =~= sub);
            assert(sub.len() > 0) by {
                if sub.len() == 0 {
                    assert(grammar::wrap_parentheses(sub) == Ok::<Seq<TokenView>, Seq<char>>(
                        seq![],
                    ));
                    assert(grammar::parenthesised(sub) == Ok::<Seq<TokenView>, Seq<char>>(
                        seq![],
                    ));
                }
            }
        },
        _ => {},
    }
}

/// An operand that opens is a factor.
proof fn lemma_factor(token: TokenView, len: nat)
    requires
        token matches TokenView::OperandContainer(sub) && grammar::is_operand(sub)
            && grammar_laws::unwrap_parentheses(sub).len() <= len,
        opens(token),
    ensures
        is_factor(grammar_laws::unwrap_parentheses(token.sub())),
    decreases len, 1int,
{
    let sub = token.sub();
    assert(grammar::operand(sub) is Ok);
    if sub.len() == 1 {
        assert(sub =~= seq![sub[0]]);
        assert(grammar::is_unit(sub[0]));
        lemma_primary(sub[0], len);
    } else {
        assert(sub =~= seq![sub[0]] + seq![sub[1]]);
        lemma_unwrap_append(seq![sub[0]], seq![sub[1]]);
        lemma_unwrap_one(sub[0]);
        let inner = grammar_laws::unwrap_parentheses(seq![sub[1]]);
        let all = grammar_laws::unwrap_parentheses(sub);
        assert(all =~= seq![TokenView::Not] + inner);
        assert(all.skip(1) =~= inner);
        assert(grammar::is_unit(sub[1]));
        let negated = seq![sub[1]];
        assert(grammar::open_all(negated) is Ok);
        assert(negated.last() == sub[1]);
        lemma_primary(sub[1], len);
        assert(inner.len() > 0);
    }
}

/// The items of one level that open make an expression.
proof fn lemma_items_are_expression(items: Seq<TokenView>, len: nat)
    requires
        items.len() % 2 == 1,
        grammar::all_items(items),
        grammar::alternating(items),
        all_open(grammar::alternatives(items)),
        grammar_laws::unwrap_parentheses(grammar_laws::unwrap_operands(items)).len() <= len,
    ensures
        is_expression(grammar_laws::unwrap_parentheses(grammar_laws::unwrap_operands(items))),
    decreases len, 2int, items.len(),
{
    let all = grammar_laws::unwrap_parentheses(grammar_laws::unwrap_operands(items));
    let n = items.len() - 1;
    let last = items[n];
    assert(grammar::is_item(last));
    assert(!last.is_logical());
    lemma_ungroup_one(last);
    if items.len() == 1 {
        let none = Seq::<TokenView>::empty();
        assert(items =~= seq![last]);
        assert(grammar::alternatives(items) == items);
        assert(none.push(last) =~= items);
        lemma_all_open_push(none, last);
        lemma_factor(last, len);
    } else {
        let before = items.take(n - 1);
        let op = items[n - 1];
        assert(op.is_logical());
        lemma_alternatives_open(items);
        assert(items =~= before + seq![op] + seq![last]);
        lemma_ungroup_append(before + seq![op], seq![last]);
        lemma_ungroup_append(before, seq![op]);
        lemma_ungroup_one(op);
        let u = grammar_laws::unwrap_operands(before);
        lemma_unwrap_append(u + seq![op], last.sub());
        lemma_unwrap_append(u, seq![op]);
        lemma_unwrap_one(op);
        let a = grammar_laws::unwrap_parentheses(u);
        let b = grammar_laws::unwrap_parentheses(last.sub());
        assert(all =~= a + seq![op] + b);
        assert forall|i: int| 0 <= i < before.len() implies grammar::is_item(
            #[trigger] before[i],
        ) by {
            assert(grammar::is_item(items[i]));
        }
        assert forall|i: int| 0 <= i < before.len() implies (#[trigger] before[i]).is_logical()
            == (i % 2 == 1) by {
            assert(items[i].is_logical() == (i % 2 == 1));
        }
        lemma_items_are_expression(before, len);
        lemma_factor(last, len);
        let k = a.len() as int;
        assert(all.take(k) =~= a);
        assert(all.skip(k + 1) =~= b);
        assert(a.len() > 0) by {
            lemma_expression_nonempty(a);
        }
        assert(all[k] == op);
    }
}

proof fn lemma_expression_nonempty(tokens: Seq<TokenView>)
    requires
        is_expression(tokens),
    ensures
        tokens.len() > 0,
{
    if !is_factor(tokens) {
        let k = choose|k: int|
            0 < k < tokens.len() && ((#[trigger] tokens[k]) is And || tokens[k] is Or)
                && is_expression(tokens.take(k)) && is_factor(tokens.skip(k + 1));
        assert(0 < k < tokens.len());
    }
}

proof fn lemma_parsed_is_expression(tokens: Seq<TokenView>, len: nat)
    requires
        grammar::all_plain(tokens),
        grammar::parse(tokens) is Ok,
        tokens.len() <= len,
    ensures
        is_expression(tokens),
    decreases len, 3int,
{
    let (wrapped, items, resolved, opened) = grammar_laws::lemma_parse_parts(tokens);
    assert forall|i: int| 0 <= i < tokens.len() implies !(
    #[trigger] tokens[i] is ParenthesisContainer) by {
        assert(grammar::is_plain(tokens[i]));
    }
    grammar_laws::law_wrap_parentheses_keeps_tokens(tokens);
    grammar_laws::law_wrap_operands_keeps_tokens(wrapped);
    grammar::lemma_level_items(tokens);
    lemma_items_are_expression(items, len);
}

/// A sequence of tokens has a meaning exactly if it is an expression.
pub proof fn law_expressions_are_parsed(tokens: Seq<TokenView>)
    requires
        grammar::all_plain(tokens),
    ensures
        grammar::parse(tokens) is Ok <==> is_expression(tokens),
{
    if is_expression(tokens) {
        lemma_expression_parses(tokens);
    }
    if grammar::parse(tokens) is Ok {
        lemma_parsed_is_expression(tokens, tokens.len());
    }
}

proof fn lemma_references_of_plain(tokens: Seq<TokenView>, name: Seq<char>)
    requires
        grammar::all_plain(tokens),
    ensures
        grammar::all_references(tokens).contains(name) <==> tokens.contains(
            TokenView::SelectionReference(name),
        ),
    decreases tokens.len(),
{
    if tokens.len() > 0 {
        let before = tokens.drop_last();
        let last = tokens.last();
        let n = tokens.len() - 1;
        assert(grammar::is_plain(tokens[n]));
        assert forall|i: int| 0 <= i < before.len() implies grammar::is_plain(
            #[trigger] before[i],
        ) by {
            assert(grammar::is_plain(tokens[i]));
        }
        lemma_references_of_plain(before, name);
        let r = grammar::all_references(before);
        let all = grammar::all_references(tokens);
        assert(all == r + grammar::references(last));
        if all.contains(name) {
            let i = all.index_of(name);
            if i < r.len() {
                assert(r[i] == name);
                assert(r.contains(name));
                let j = before.index_of(TokenView::SelectionReference(name));
                assert(tokens[j] == TokenView::SelectionReference(name));
            } else {
                assert(grammar::references(last)[i - r.len()] == name);
                assert(tokens[n] == TokenView::SelectionReference(name));
            }
        }
        if tokens.contains(TokenView::SelectionReference(name)) {
            let j = tokens.index_of(TokenView::SelectionReference(name));
            if j < n {
                assert(before[j] == TokenView::SelectionReference(name));
                assert(before.contains(TokenView::SelectionReference(name)));
                let i = r.index_of(name);
                assert(all[i] == name);
            } else {
                assert(grammar::references(last) =~= seq![name]);
                assert(all[r.len() as int] == name);
            }
        }
    }
}

/// All of the given names are defined.
spec fn all_defined(used: Seq<Seq<char>>, names: Map<Seq<char>, NodeView>) -> bool {
    forall|i: int| 0 <= i < used.len() ==> names.contains_key(#[trigger] used[i])
}

proof fn lemma_all_defined_append(
    a: Seq<Seq<char>>,
    b: Seq<Seq<char>>,
    names: Map<Seq<char>, NodeView>,
)
    ensures
        all_defined(a + b, names) <==> all_defined(a, names) && all_defined(b, names),
{
    let all = a + b;
    if all_defined(all, names) {
        assert forall|i: int| 0 <= i < a.len() implies names.contains_key(#[trigger] a[i]) by {
            assert(names.contains_key(all[i]));
        }
        assert forall|i: int| 0 <= i < b.len() implies names.contains_key(#[trigger] b[i]) by {
            assert(names.contains_key(all[a.len() + i]));
        }
    }
}

proof fn lemma_tree_has_node(token: TokenView, names: Map<Seq<char>, NodeView>)
    requires
        grammar::is_tree(token),
    ensures
        condition::node_of(token, names) is Ok <==> all_defined(
            grammar::references(token),
            names,
        ),
    decreases token,
{
    match token {
        TokenView::SelectionReference(name) => {
            assert(grammar::references(token) =~= seq![name]);
            assert(seq![name][0] == name);
        },
        TokenView::AndContainer(sub) => lemma_trees_have_nodes(sub, names),
        TokenView::OrContainer(sub) => lemma_trees_have_nodes(sub, names),
        TokenView::NotContainer(sub) => {
            assert(grammar::is_tree(sub[0]));
            lemma_tree_has_node(sub[0], names);
            let none = Seq::<TokenView>::empty();
            assert(sub.drop_last() =~= none);
            assert(grammar::all_references(none) =~= Seq::<Seq<char>>::empty());
            assert(grammar::all_references(sub) == grammar::all_references(sub.drop_last())
                + grammar::references(sub[0]));
            assert(grammar::all_references(sub) =~= grammar::references(sub[0]));
            assert(grammar::references(token) == grammar::all_references(sub));
        },
        _ => {},
    }
}

proof fn lemma_trees_have_nodes(tokens: Seq<TokenView>, names: Map<Seq<char>, NodeView>)
    requires
        grammar::all_trees(tokens),
    ensures
        condition::nodes_of(tokens, names) is Ok <==> all_defined(
            grammar::all_references(tokens),
            names,
        ),
    decreases tokens,
{
    if tokens.len() > 0 {
        let n = tokens.len() - 1;
        assert forall|i: int| 0 <= i < n implies grammar::is_tree(
            #[trigger] tokens.drop_last()[i],
        ) by {
            assert(grammar::is_tree(tokens[i]));
        }
        lemma_trees_have_nodes(tokens.drop_last(), names);
        assert(grammar::is_tree(tokens[n]));
        lemma_tree_has_node(tokens.last(), names);
        lemma_all_defined_append(
            grammar::all_references(tokens.drop_last()),
            grammar::references(tokens.last()),
            names,
        );
    }
}

/// A text is a condition exactly if its tokens are an expression and all names in it are
/// defined.
pub proof fn law_conditions_are_compiled(text: Seq<char>, names: Map<Seq<char>, NodeView>)
    ensures
        condition::condition_of(text, names) is Ok <==> {
            &&& condition::tokens_of(text) matches Ok(tokens)
            &&& is_expression(tokens)
            &&& forall|i: int|
                0 <= i < tokens.len() ==> (#[trigger] tokens[i] matches
                    TokenView::SelectionReference(name) ==> names.contains_key(name))
        },
{
    if let Ok(tokens) = condition::tokens_of(text) {
        condition::lemma_tokens_plain(text);
        law_expressions_are_parsed(tokens);
        grammar::lemma_parse_tree(tokens);
        if let Ok(token) = grammar::parse(tokens) {
            let used = grammar::references(token);
            lemma_tree_has_node(token, names);
            if all_defined(used, names) {
                assert forall|i: int| 0 <= i < tokens.len() implies (#[trigger] tokens[i] matches
                    TokenView::SelectionReference(name) ==> names.contains_key(name)) by {
                    if let TokenView::SelectionReference(name) = tokens[i] {
                        lemma_references_of_plain(tokens, name);
                        assert(tokens.contains(tokens[i]));
                        let j = used.index_of(name);
                        assert(names.contains_key(used[j]));
                    }
                }
            } else {
                let j = choose|j: int|
                    0 <= j < used.len() && !names.contains_key(#[trigger] used[j]);
                assert(used.contains(used[j]));
                lemma_references_of_plain(tokens, used[j]);
                let i = tokens.index_of(TokenView::SelectionReference(used[j]));
                assert(tokens[i] == TokenView::SelectionReference(used[j]));
            }
        }
    }
}

/// A condition that cannot be compiled is reported as one.
pub proof fn law_wrong_condition(
    text: Seq<char>,
    msg: Seq<char>,
    names: Map<Seq<char>, NodeView>,
)
    requires
        condition::condition_of(condition::condition_part(text), names) == Err::<
            NodeView,
            Seq<char>,
        >(msg),
    ensures
        condition::compiled_condition(text, names) == Err::<NodeView, Seq<char>>(
            "condition parse error has occured. "@ + msg,
        ),
{
}

/// No two logical operators stand next to each other.
pub open spec fn operators_apart(tokens: Seq<TokenView>) -> bool {
    forall|i: int, j: int|
        0 <= i < tokens.len() && j == i + 1 && j < tokens.len() ==> !((
        #[trigger] tokens[i]).is_logical() && (#[trigger] tokens[j]).is_logical())
}

proof fn lemma_alternating(tokens: Seq<TokenView>)
    requires
        tokens.len() > 0,
        !tokens[0].is_logical(),
    ensures
        grammar::wrap_operands(tokens).len() > 0,
        !grammar::wrap_operands(tokens)[0].is_logical(),
        grammar::wrap_operands(tokens).last().is_logical() == tokens.last().is_logical(),
        !tokens.last().is_logical() ==> (grammar::alternating(grammar::wrap_operands(tokens))
            <==> operators_apart(tokens)),
    decreases tokens.len(), 0int,
{
    let n = grammar::operand_len(tokens);
    grammar::lemma_operand_len(tokens);
    let items = grammar::wrap_operands(tokens);
    let first = TokenView::OperandContainer(tokens.take(n));
    let rest = tokens.skip(n);
    assert(n > 0);
    assert(items == seq![first] + grammar::wrap_operands(rest));
    if rest.len() == 0 {
        assert(grammar::wrap_operands(rest) =~= Seq::<TokenView>::empty());
        assert(items =~= seq![first]);
    } else {
        let op = tokens[n];
        let more = rest.skip(1);
        assert(rest[0] == op);
        assert(more =~= tokens.skip(n + 1));
        let tail = grammar::wrap_operands(more);
        assert(grammar::wrap_operands(rest) == seq![op] + tail);
        assert(items =~= seq![first, op] + tail);
        if more.len() == 0 {
            assert(tail =~= Seq::<TokenView>::empty());
            assert(items.last() == op);
        } else {
            assert(more[0] == tokens[n + 1]);
            assert(more.last() == tokens.last());
            if more[0].is_logical() {
                assert(tail == seq![more[0]] + grammar::wrap_operands(more.skip(1)));
                assert(items[2] == more[0]);
                assert(tokens[n].is_logical() && tokens[n + 1].is_logical());
                lemma_last_item(more);
                assert(items.last() == tail.last());
            } else {
                lemma_alternating(more);
                assert(items.last() == tail.last());
                if !tokens.last().is_logical() {
                    if grammar::alternating(items) {
                        assert forall|i: int| 0 <= i < tail.len() implies (
                        #[trigger] tail[i]).is_logical() == (i % 2 == 1) by {
                            assert(items[i + 2] == tail[i]);
                            assert(items[i + 2].is_logical() == ((i + 2) % 2 == 1));
                        }
                        assert forall|i: int, j: int|
                            0 <= i < tokens.len() && j == i + 1 && j < tokens.len() implies !((
                        #[trigger] tokens[i]).is_logical() && (
                        #[trigger] tokens[j]).is_logical()) by {
                            if i > n {
                                assert(more[i - n - 1] == tokens[i]);
                                assert(more[j - n - 1] == tokens[j]);
                            }
                        }
                    }
                    if operators_apart(tokens) {
                        assert forall|i: int, j: int|
                            0 <= i < more.len() && j == i + 1 && j < more.len() implies !((
                        #[trigger] more[i]).is_logical() && (#[trigger] more[j]).is_logical()) by {
                            assert(more[i] == tokens[i + n + 1]);
                            assert(more[j] == tokens[j + n + 1]);
                        }
                        assert forall|i: int| 0 <= i < items.len() implies (
                        #[trigger] items[i]).is_logical() == (i % 2 == 1) by {
                            if i >= 2 {
                                assert(items[i] == tail[i - 2]);
                                assert(tail[i - 2].is_logical() == ((i - 2) % 2 == 1));
                            }
                        }
                    }
                }
            }
        }
    }
}

proof fn lemma_last_item(tokens: Seq<TokenView>)
    requires
        tokens.len() > 0,
    ensures
        grammar::wrap_operands(tokens).len() > 0,
        grammar::wrap_operands(tokens).last().is_logical() == tokens.last().is_logical(),
    decreases tokens.len(), 1int,
{
    if tokens[0].is_logical() {
        let rest = tokens.skip(1);
        let tail = grammar::wrap_operands(rest);
        assert(grammar::wrap_operands(tokens) == seq![tokens[0]] + tail);
        if rest.len() > 0 {
            lemma_last_item(rest);
            assert(rest.last() == tokens.last());
            assert((seq![tokens[0]] + tail).last() == tail.last());
        } else {
            assert(tail =~= Seq::<TokenView>::empty());
        }
    } else {
        lemma_alternating(tokens);
    }
}

/// The tokens of one level are joined exactly if there is one, neither the first nor the last
/// is a logical operator, and no two of them stand next to each other; otherwise this is what
/// is reported, in this order.
pub proof fn law_operators_are_joined(tokens: Seq<TokenView>)
    ensures
        tokens.len() == 0 ==> grammar::and_or(tokens) == Err::<TokenView, Seq<char>>(
            "unknown error."@,
        ),
        tokens.len() > 0 && (tokens[0].is_logical() || tokens.last().is_logical())
            ==> grammar::and_or(tokens) == Err::<TokenView, Seq<char>>(
            "illegal Logical Operator(and, or) was found."@,
        ),
        tokens.len() > 0 && !tokens[0].is_logical() && !tokens.last().is_logical()
            && !operators_apart(tokens) ==> grammar::and_or(tokens) == Err::<
            TokenView,
            Seq<char>,
        >("The use of logical operator(and, or) was wrong."@),
        tokens.len() > 0 && !tokens[0].is_logical() && !tokens.last().is_logical()
            && operators_apart(tokens) ==> grammar::and_or(tokens) is Ok,
{
    if tokens.len() > 0 {
        lemma_last_item(tokens);
        if !tokens[0].is_logical() {
            lemma_alternating(tokens);
        }
    }
}

/// An operand is one condition, or `not` and one condition; otherwise this is what is reported.
pub proof fn law_operands_are_read(sub: Seq<TokenView>, a: TokenView, b: TokenView)
    ensures
        !(a is Not) ==> grammar::operand(seq![a]) == Ok::<TokenView, Seq<char>>(a),
        !(a is Not) ==> grammar::operand(seq![TokenView::Not, a]) == Ok::<TokenView, Seq<char>>(
            TokenView::NotContainer(seq![a]),
        ),
        grammar::operand(seq![TokenView::Not]) == Err::<TokenView, Seq<char>>(
            "illegal not was found."@,
        ),
        grammar::operand(seq![TokenView::Not, TokenView::Not]) == Err::<TokenView, Seq<char>>(
            "not is continuous."@,
        ),
        !(a is Not) ==> grammar::operand(seq![a, b]) == Err::<TokenView, Seq<char>>(
            "unknown error. maybe it's because there are multiple name of selection node."@,
        ),
        sub.len() >= 3 ==> grammar::operand(sub) == Err::<TokenView, Seq<char>>(
            "unknown error. maybe it's because there are multiple name of selection node."@,
        ),
        sub.len() == 0 ==> grammar::operand(sub) == Err::<TokenView, Seq<char>>(
            "unknown error."@,
        ),
{
    assert(seq![TokenView::Not, a][0] is Not);
    assert(seq![TokenView::Not, a][1] == a);
}

/// How many more parentheses are opened than closed.
pub open spec fn balance(tokens: Seq<TokenView>) -> int
    decreases tokens.len(),
{
    if tokens.len() == 0 {
        0
    } else {
        balance(tokens.drop_last()) + (match tokens.last() {
            TokenView::LeftParenthesis => 1int,
            TokenView::RightParenthesis => -1int,
            _ => 0int,
        })
    }
}

pub proof fn lemma_balance_append(a: Seq<TokenView>, b: Seq<TokenView>)
    ensures
        balance(a + b) == balance(a) + balance(b),
    decreases b.len(),
{
    if b.len() == 0 {
        assert(a + b =~= a);
    } else {
        assert((a + b).drop_last() =~= a + b.drop_last());
        assert((a + b).last() == b.last());
        lemma_balance_append(a, b.drop_last());
    }
}

pub proof fn lemma_balance_one(token: TokenView)
    ensures
        balance(seq![token]) == (match token {
            TokenView::LeftParenthesis => 1int,
            TokenView::RightParenthesis => -1int,
            _ => 0int,
        }),
{
    let none = Seq::<TokenView>::empty();
    assert(seq![token].drop_last() =~= none);
    assert(balance(none) == 0);
}

/// The position where the open parentheses are closed is the first one where as many have been
/// closed as were open and have been opened.
pub proof fn law_closing(tokens: Seq<TokenView>, open: int)
    ensures
        match grammar::closing(tokens, open) {
            Some(at) => {
                &&& 0 <= at < tokens.len()
                &&& open + balance(tokens.take(at + 1)) == 0
                &&& forall|k: int|
                    0 < k <= at ==> open + balance(#[trigger] tokens.take(k)) != 0
            },
            None => forall|k: int|
                0 < k <= tokens.len() ==> open + balance(#[trigger] tokens.take(k)) != 0,
        },
    decreases tokens.len(),
{
    if tokens.len() > 0 {
        let first = tokens[0];
        let rest = tokens.skip(1);
        lemma_balance_one(first);
        let still = open + balance(seq![first]);
        assert(tokens.take(1) =~= seq![first]);
        assert forall|k: int| 0 < k <= rest.len() implies still + balance(#[trigger] rest.take(k))
            == open + balance(tokens.take(k + 1)) by {
            assert(tokens.take(k + 1) =~= seq![first] + rest.take(k));
            lemma_balance_append(seq![first], rest.take(k));
        }
        if still != 0 {
            law_closing(rest, still);
            match grammar::closing(rest, still) {
                Some(at) => {
                    assert(open + balance(tokens.take(at + 2)) == still + balance(
                        rest.take(at + 1),
                    ));
                    assert forall|k: int| 0 < k <= at + 1 implies open + balance(
                        #[trigger] tokens.take(k),
                    ) != 0 by {
                        if k > 1 {
                            assert(still + balance(rest.take(k - 1)) != 0);
                        }
                    }
                },
                None => {
                    assert forall|k: int| 0 < k <= tokens.len() implies open + balance(
                        #[trigger] tokens.take(k),
                    ) != 0 by {
                        if k > 1 {
                            assert(still + balance(rest.take(k - 1)) != 0);
                        }
                    }
                },
            }
        }
    }
}

/// A left parenthesis that no right parenthesis closes.
pub open spec fn stays_open(tokens: Seq<TokenView>, i: int) -> bool {
    &&& 0 <= i < tokens.len()
    &&& tokens[i] is LeftParenthesis
    &&& forall|j: int| i < j <= tokens.len() ==> balance(#[trigger] tokens.subrange(i, j)) > 0
}

/// Between two prefixes that differ by one token, the balance changes by one at most.
proof fn lemma_balance_steps(tokens: Seq<TokenView>, open: int, k: int)
    requires
        open > 0,
        0 <= k <= tokens.len(),
        forall|j: int| 0 < j <= k ==> open + balance(#[trigger] tokens.take(j)) != 0,
    ensures
        open + balance(tokens.take(k)) > 0,
    decreases k,
{
    if k == 0 {
        assert(tokens.take(0) =~= Seq::<TokenView>::empty());
    } else {
        lemma_balance_steps(tokens, open, k - 1);
        assert(tokens.take(k).drop_last() =~= tokens.take(k - 1));
        assert(open + balance(tokens.take(k)) != 0);
    }
}

proof fn lemma_stays_open(tokens: Seq<TokenView>)
    ensures
        grammar::wrap_parentheses(tokens) is Err <==> exists|i: int| #[trigger]
            stays_open(tokens, i),
        grammar::wrap_parentheses(tokens) matches Err(msg) ==> msg
            == "expected ')'. but not found."@,
    decreases tokens.len(),
{
    if tokens.len() == 0 {
        assert forall|i: int| !(#[trigger] stays_open(tokens, i)) by {}
    } else if tokens[0] is LeftParenthesis {
        let rest = tokens.skip(1);
        law_closing(rest, 1);
        grammar::lemma_closing(rest, 1);
        lemma_balance_one(tokens[0]);
        assert forall|k: int| 0 <= k <= rest.len() implies balance(tokens.subrange(0, k + 1)) == 1
            + balance(#[trigger] rest.take(k)) by {
            assert(tokens.subrange(0, k + 1) =~= seq![tokens[0]] + rest.take(k));
            lemma_balance_append(seq![tokens[0]], rest.take(k));
        }
        match grammar::closing(rest, 1) {
            None => {
                assert forall|j: int| 0 < j <= tokens.len() implies balance(
                    #[trigger] tokens.subrange(0, j),
                ) > 0 by {
                    lemma_balance_steps(rest, 1, j - 1);
                    assert(balance(tokens.subrange(0, (j - 1) + 1)) == 1 + balance(
                        rest.take(j - 1),
                    ));
                }
                assert(stays_open(tokens, 0));
            },
            Some(at) => {
                let n = at + 2;
                let after = tokens.skip(n);
                lemma_stays_open(after);
                assert(balance(tokens.subrange(0, (at + 1) + 1)) == 0) by {
                    assert(balance(rest.take(at + 1)) == -1);
                }
                if exists|i: int| #[trigger] stays_open(after, i) {
                    let i = choose|i: int| #[trigger] stays_open(after, i);
                    assert forall|j: int| i + n < j <= tokens.len() implies balance(
                        #[trigger] tokens.subrange(i + n, j),
                    ) > 0 by {
                        assert(after.subrange(i, j - n) =~= tokens.subrange(i + n, j));
                    }
                    assert(tokens[i + n] == after[i]);
                    assert(stays_open(tokens, i + n));
                }
                if exists|i: int| #[trigger] stays_open(tokens, i) {
                    let i = choose|i: int| #[trigger] stays_open(tokens, i);
                    if i < n {
                        assert(balance(tokens.subrange(i, n)) > 0) by {
                            if i == n - 1 {
                                assert(tokens[i] == rest[at]);
                            }
                        }
                        assert(tokens.subrange(0, n) =~= tokens.subrange(0, i) + tokens.subrange(
                            i,
                            n,
                        ));
                        lemma_balance_append(tokens.subrange(0, i), tokens.subrange(i, n));
                        if i > 0 {
                            lemma_balance_steps(rest, 1, i - 1);
                            assert(balance(tokens.subrange(0, (i - 1) + 1)) == 1 + balance(
                                rest.take(i - 1),
                            ));
                        } else {
                            assert(tokens.subrange(0, 0) =~= Seq::<TokenView>::empty());
                        }
                        assert(false);
                    }
                    assert(tokens[i] == after[i - n]);
                    assert forall|j: int| i - n < j <= after.len() implies balance(
                        #[trigger] after.subrange(i - n, j),
                    ) > 0 by {
                        assert(after.subrange(i - n, j) =~= tokens.subrange(i, j + n));
                    }
                    assert(stays_open(after, i - n));
                }
            },
        }
    } else {
        let after = tokens.skip(1);
        lemma_stays_open(after);
        if exists|i: int| #[trigger] stays_open(after, i) {
            let i = choose|i: int| #[trigger] stays_open(after, i);
            assert forall|j: int| i + 1 < j <= tokens.len() implies balance(
                #[trigger] tokens.subrange(i + 1, j),
            ) > 0 by {
                assert(after.subrange(i, j - 1) =~= tokens.subrange(i + 1, j));
            }
            assert(tokens[i + 1] == after[i]);
            assert(stays_open(tokens, i + 1));
        }
        if exists|i: int| #[trigger] stays_open(tokens, i) {
            let i = choose|i: int| #[trigger] stays_open(tokens, i);
            assert(i > 0);
            assert(tokens[i] == after[i - 1]);
            assert forall|j: int| i - 1 < j <= after.len() implies balance(
                #[trigger] after.subrange(i - 1, j),
            ) > 0 by {
                assert(after.subrange(i - 1, j) =~= tokens.subrange(i, j + 1));
            }
            assert(stays_open(after, i - 1));
        }
    }
}

/// A left parenthesis that stays open is what is reported first.
pub proof fn law_parenthesis_stays_open(tokens: Seq<TokenView>)
    ensures
        grammar::parse(tokens) == Err::<TokenView, Seq<char>>("expected ')'. but not found."@)
            <== exists|i: int| #[trigger] stays_open(tokens, i),
        !(exists|i: int| #[trigger] stays_open(tokens, i)) ==> grammar::wrap_parentheses(
            tokens,
        ) is Ok,
{
    lemma_stays_open(tokens);
}

/// What is reported next is a right parenthesis that closes none, then what is wrong with the
/// operators.
pub proof fn law_wrong_levels(tokens: Seq<TokenView>, wrapped: Seq<TokenView>)
    requires
        grammar::wrap_parentheses(tokens) == Ok::<Seq<TokenView>, Seq<char>>(wrapped),
    ensures
        wrapped.contains(TokenView::RightParenthesis) ==> grammar::parse(tokens) == Err::<
            TokenView,
            Seq<char>,
        >("expected '('. but not found."@),
        !wrapped.contains(TokenView::RightParenthesis) ==> (grammar::and_or(wrapped) matches Err(
            msg,
        ) ==> grammar::parse(tokens) == Err::<TokenView, Seq<char>>(msg)),
{
}

/// A name becomes a reference to the condition that it stands for; a name that stands for none
/// is reported.
pub proof fn law_node_of_name(name: Seq<char>, names: Map<Seq<char>, NodeView>)
    ensures
        names.contains_key(name) ==> condition::node_of(
            TokenView::SelectionReference(name),
            names,
        ) == Ok::<NodeView, Seq<char>>(NodeView::Ref(Box::new(names[name]))),
        !names.contains_key(name) ==> condition::node_of(
            TokenView::SelectionReference(name),
            names,
        ) == Err::<NodeView, Seq<char>>(name + " is not defined."@),
{
}

/// A negation becomes the negation of what it negates.
pub proof fn law_node_of_negation(token: TokenView, names: Map<Seq<char>, NodeView>)
    ensures
        condition::node_of(token, names) matches Ok(node) ==> condition::node_of(
            TokenView::NotContainer(seq![token]),
            names,
        ) == Ok::<NodeView, Seq<char>>(NodeView::Not(Box::new(node))),
        condition::node_of(token, names) matches Err(msg) ==> condition::node_of(
            TokenView::NotContainer(seq![token]),
            names,
        ) == Err::<NodeView, Seq<char>>(msg),
{
    assert(seq![token][0] == token);
    assert(TokenView::NotContainer(seq![token]).sub()[0] == token);
}

/// A conjunction or a disjunction of tokens becomes one of what the tokens become, in order;
/// what is wrong with the first token that something is wrong with is reported.
pub proof fn law_node_of_container(
    sub: Seq<TokenView>,
    nodes: Seq<NodeView>,
    i: int,
    msg: Seq<char>,
    names: Map<Seq<char>, NodeView>,
)
    ensures
        nodes.len() == sub.len() && (forall|j: int|
            0 <= j < sub.len() ==> condition::node_of(#[trigger] sub[j], names) == Ok::<
                NodeView,
                Seq<char>,
            >(nodes[j])) ==> condition::node_of(TokenView::AndContainer(sub), names) == Ok::<
            NodeView,
            Seq<char>,
        >(NodeView::And(nodes)) && condition::node_of(TokenView::OrContainer(sub), names) == Ok::<
            NodeView,
            Seq<char>,
        >(NodeView::Or(nodes)),
        0 <= i < sub.len() && condition::node_of(sub[i], names) == Err::<NodeView, Seq<char>>(msg)
            && (forall|j: int|
            0 <= j < i ==> condition::node_of(#[trigger] sub[j], names) is Ok)
            ==> condition::node_of(TokenView::AndContainer(sub), names) == Err::<
            NodeView,
            Seq<char>,
        >(msg) && condition::node_of(TokenView::OrContainer(sub), names) == Err::<
            NodeView,
            Seq<char>,
        >(msg),
{
    if nodes.len() == sub.len() && (forall|j: int|
        0 <= j < sub.len() ==> condition::node_of(#[trigger] sub[j], names) == Ok::<
            NodeView,
            Seq<char>,
        >(nodes[j])) {
        lemma_nodes(sub, nodes, names);
    }
    if 0 <= i < sub.len() && condition::node_of(sub[i], names) == Err::<NodeView, Seq<char>>(msg)
        && (forall|j: int| 0 <= j < i ==> condition::node_of(#[trigger] sub[j], names) is Ok) {
        lemma_first_error(sub, i, msg, names);
    }
}

proof fn lemma_nodes(
    sub: Seq<TokenView>,
    nodes: Seq<NodeView>,
    names: Map<Seq<char>, NodeView>,
)
    requires
        nodes.len() == sub.len(),
        forall|j: int|
            0 <= j < sub.len() ==> condition::node_of(#[trigger] sub[j], names) == Ok::<
                NodeView,
                Seq<char>,
            >(nodes[j]),
    ensures
        condition::nodes_of(sub, names) == Ok::<Seq<NodeView>, Seq<char>>(nodes),
    decreases sub.len(),
{
    if sub.len() == 0 {
        assert(nodes =~= Seq::<NodeView>::empty());
    } else {
        let n = sub.len() - 1;
        assert forall|j: int| 0 <= j < n implies condition::node_of(
            #[trigger] sub.drop_last()[j],
            names,
        ) == Ok::<NodeView, Seq<char>>(nodes.drop_last()[j]) by {
            assert(condition::node_of(sub[j], names) == Ok::<NodeView, Seq<char>>(nodes[j]));
        }
        lemma_nodes(sub.drop_last(), nodes.drop_last(), names);
        assert(condition::node_of(sub[n], names) == Ok::<NodeView, Seq<char>>(nodes[n]));
        assert(nodes.drop_last().push(nodes[n]) =~= nodes);
    }
}

proof fn lemma_first_error(
    sub: Seq<TokenView>,
    i: int,
    msg: Seq<char>,
    names: Map<Seq<char>, NodeView>,
)
    requires
        0 <= i < sub.len(),
        condition::node_of(sub[i], names) == Err::<NodeView, Seq<char>>(msg),
        forall|j: int| 0 <= j < i ==> condition::node_of(#[trigger] sub[j], names) is Ok,
    ensures
        condition::nodes_of(sub, names) == Err::<Seq<NodeView>, Seq<char>>(msg),
    decreases sub.len(),
{
    let before = sub.drop_last();
    assert forall|j: int| 0 <= j < i implies condition::node_of(
        #[trigger] before[j],
        names,
    ) is Ok by {
        assert(condition::node_of(sub[j], names) is Ok);
    }
    if i < sub.len() - 1 {
        lemma_first_error(before, i, msg, names);
    } else {
        let nodes = Seq::new(
            before.len(),
            |j: int| condition::node_of(before[j], names)->Ok_0,
        );
        lemma_nodes(before, nodes, names);
    }
}

} // verus!
