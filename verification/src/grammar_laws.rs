//! How expressions that are put together are parsed.
use vstd::prelude::*;

use crate::grammar;
use crate::token::TokenView;

verus! {

proof fn lemma_closing_append(a: Seq<TokenView>, b: Seq<TokenView>, open: int)
    requires
        grammar::closing(a, open) is Some,
    ensures
        grammar::closing(a + b, open) == grammar::closing(a, open),
    decreases a.len(),
{
    let still_open = match a[0] {
        TokenView::LeftParenthesis => open + 1,
        TokenView::RightParenthesis => open - 1,
        _ => open,
    };
    assert((a + b)[0] == a[0]);
    assert((a + b).skip(1) =~= a.skip(1) + b);
    if still_open != 0 {
        lemma_closing_append(a.skip(1), b, still_open);
    }
}

proof fn lemma_wrap_append(a: Seq<TokenView>, b: Seq<TokenView>)
    requires
        grammar::wrap_parentheses(a) is Ok,
    ensures
        grammar::wrap_parentheses(b) matches Ok(wb) ==> grammar::wrap_parentheses(a + b) == Ok::<
            Seq<TokenView>,
            Seq<char>,
        >(grammar::wrap_parentheses(a)->Ok_0 + wb),
    decreases a.len(),
{
    if a.len() == 0 {
        assert(a + b =~= b);
        if let Ok(wb) = grammar::wrap_parentheses(b) {
            assert(seq![] + wb =~= wb);
        }
    } else {
        assert((a + b)[0] == a[0]);
        if a[0] is LeftParenthesis {
            grammar::lemma_closing(a.skip(1), 1);
            let at = grammar::closing(a.skip(1), 1)->0;
            lemma_closing_append(a.skip(1), b, 1);
            assert((a + b).skip(1) =~= a.skip(1) + b);
            assert((a + b).skip(at + 2) =~= a.skip(at + 2) + b);
            assert((a + b).subrange(1, at + 1) =~= a.subrange(1, at + 1));
            lemma_wrap_append(a.skip(at + 2), b);
            if let Ok(wb) = grammar::wrap_parentheses(b) {
                let head = seq![TokenView::ParenthesisContainer(a.subrange(1, at + 1))];
                let rest = grammar::wrap_parentheses(a.skip(at + 2))->Ok_0;
                assert(head + (rest + wb) =~= (head + rest) + wb);
            }
        } else {
            assert((a + b).skip(1) =~= a.skip(1) + b);
            lemma_wrap_append(a.skip(1), b);
            if let Ok(wb) = grammar::wrap_parentheses(b) {
                let rest = grammar::wrap_parentheses(a.skip(1))->Ok_0;
                assert(seq![a[0]] + (rest + wb) =~= (seq![a[0]] + rest) + wb);
            }
        }
    }
}

proof fn lemma_operand_len_logical(a: Seq<TokenView>, op: TokenView, b: Seq<TokenView>)
    requires
        op.is_logical(),
    ensures
        grammar::operand_len(a + seq![op] + b) == grammar::operand_len(a),
    decreases a.len(),
{
    let all = a + seq![op] + b;
    if a.len() == 0 {
        assert(all[0] == op);
    } else {
        assert(all[0] == a[0]);
        if !a[0].is_logical() {
            assert(all.skip(1) =~= a.skip(1) + seq![op] + b);
            lemma_operand_len_logical(a.skip(1), op, b);
        }
    }
}

proof fn lemma_wrap_operands_logical(a: Seq<TokenView>, op: TokenView, b: Seq<TokenView>)
    requires
        op.is_logical(),
    ensures
        grammar::wrap_operands(a + seq![op] + b) == grammar::wrap_operands(a) + seq![op]
            + grammar::wrap_operands(b),
    decreases a.len(),
{
    let all = a + seq![op] + b;
    if a.len() == 0 {
        assert(all[0] == op);
        assert(all.skip(1) =~= b);
        assert(grammar::wrap_operands(a) =~= seq![]);
        assert(seq![op] + grammar::wrap_operands(b) =~= grammar::wrap_operands(a) + seq![op]
            + grammar::wrap_operands(b));
    } else {
        assert(all[0] == a[0]);
        let n = if a[0].is_logical() {
            1
        } else {
            grammar::operand_len(a)
        };
        grammar::lemma_operand_len(a);
        lemma_operand_len_logical(a, op, b);
        assert(all.skip(n) =~= a.skip(n) + seq![op] + b);
        assert(all.take(n) =~= a.take(n));
        lemma_wrap_operands_logical(a.skip(n), op, b);
        let head = if a[0].is_logical() {
            seq![a[0]]
        } else {
            seq![TokenView::OperandContainer(a.take(n))]
        };
        let rest = grammar::wrap_operands(a.skip(n));
        assert(head + (rest + seq![op] + grammar::wrap_operands(b)) =~= (head + rest) + seq![op]
            + grammar::wrap_operands(b));
    }
}

proof fn lemma_alternatives_or(a: Seq<TokenView>, b: Seq<TokenView>)
    requires
        a.len() % 2 == 1,
        b.len() % 2 == 1,
    ensures
        grammar::alternatives(a + seq![TokenView::Or] + b) == grammar::alternatives(a)
            + grammar::alternatives(b),
    decreases b.len(),
{
    let all = a + seq![TokenView::Or] + b;
    let n = all.len() - 2;
    assert(all.last() == b.last());
    if b.len() == 1 {
        assert(all.take(n) =~= a);
        assert(all[n] == TokenView::Or);
        assert(grammar::alternatives(a).push(b.last()) =~= grammar::alternatives(a) + b);
    } else {
        let m = b.len() - 2;
        assert(all.take(n) =~= a + seq![TokenView::Or] + b.take(m));
        assert(all[n] == b[m]);
        lemma_alternatives_or(a, b.take(m));
        let before = grammar::alternatives(b.take(m));
        grammar::lemma_alternatives_nonempty(b.take(m));
        let first = grammar::alternatives(a);
        assert((first + before).push(b.last()) =~= first + before.push(b.last()));
        assert((first + before).last() == before.last());
        let joined = TokenView::AndContainer(seq![before.last(), b.last()]);
        assert((first + before).drop_last().push(joined) =~= first + before.drop_last().push(
            joined,
        ));
    }
}

proof fn lemma_resolve_all_append(a: Seq<TokenView>, b: Seq<TokenView>)
    requires
        grammar::resolve_all(a) is Ok,
        grammar::resolve_all(b) is Ok,
    ensures
        grammar::resolve_all(a + b) == Ok::<Seq<TokenView>, Seq<char>>(
            grammar::resolve_all(a)->Ok_0 + grammar::resolve_all(b)->Ok_0,
        ),
    decreases b.len(),
{
    if b.len() == 0 {
        assert(a + b =~= a);
        assert(grammar::resolve_all(a)->Ok_0 + grammar::resolve_all(b)->Ok_0
            =~= grammar::resolve_all(a)->Ok_0);
    } else {
        assert((a + b).drop_last() =~= a + b.drop_last());
        lemma_resolve_all_append(a, b.drop_last());
        assert(grammar::resolve_all(a + b)->Ok_0 =~= grammar::resolve_all(a)->Ok_0
            + grammar::resolve_all(b)->Ok_0);
    }
}

proof fn lemma_open_all_append(a: Seq<TokenView>, b: Seq<TokenView>)
    requires
        grammar::open_all(a) is Ok,
        grammar::open_all(b) is Ok,
    ensures
        grammar::open_all(a + b) == Ok::<Seq<TokenView>, Seq<char>>(
            grammar::open_all(a)->Ok_0 + grammar::open_all(b)->Ok_0,
        ),
    decreases b.len(),
{
    if b.len() == 0 {
        assert(a + b =~= a);
        assert(grammar::open_all(a)->Ok_0 + grammar::open_all(b)->Ok_0 =~= grammar::open_all(
            a,
        )->Ok_0);
    } else {
        assert((a + b).drop_last() =~= a + b.drop_last());
        lemma_open_all_append(a, b.drop_last());
        assert(grammar::open_all(a + b)->Ok_0 =~= grammar::open_all(a)->Ok_0 + grammar::open_all(
            b,
        )->Ok_0);
    }
}

pub proof fn lemma_wrap_one(token: TokenView)
    requires
        !(token is LeftParenthesis),
    ensures
        grammar::wrap_parentheses(seq![token]) == Ok::<Seq<TokenView>, Seq<char>>(seq![token]),
{
    let one = seq![token];
    let none = Seq::<TokenView>::empty();
    assert(one.skip(1) =~= none);
    assert(grammar::wrap_parentheses(none) == Ok::<Seq<TokenView>, Seq<char>>(none));
    assert(seq![one[0]] + none =~= one);
}

proof fn lemma_resolve_one(token: TokenView)
    requires
        grammar::resolve(token) is Ok,
    ensures
        grammar::resolve_all(seq![token]) == Ok::<Seq<TokenView>, Seq<char>>(
            seq![grammar::resolve(token)->Ok_0],
        ),
{
    let one = seq![token];
    let none = Seq::<TokenView>::empty();
    assert(one.drop_last() =~= none);
    assert(grammar::resolve_all(none) == Ok::<Seq<TokenView>, Seq<char>>(none));
    assert(none.push(grammar::resolve(token)->Ok_0) =~= seq![grammar::resolve(token)->Ok_0]);
}

proof fn lemma_open_one(token: TokenView)
    requires
        grammar::open_parentheses(token) is Ok,
    ensures
        grammar::open_all(seq![token]) == Ok::<Seq<TokenView>, Seq<char>>(
            seq![grammar::open_parentheses(token)->Ok_0],
        ),
{
    let one = seq![token];
    let none = Seq::<TokenView>::empty();
    assert(one.drop_last() =~= none);
    assert(grammar::open_all(none) == Ok::<Seq<TokenView>, Seq<char>>(none));
    assert(none.push(grammar::open_parentheses(token)->Ok_0) =~= seq![
        grammar::open_parentheses(token)->Ok_0,
    ]);
}

/// A right parenthesis that closes `open` of the parentheses leaves the other `more` open.
proof fn lemma_closing_more(tokens: Seq<TokenView>, open: int, more: int)
    requires
        open >= 1,
        more >= 1,
        grammar::closing(tokens, open) is Some,
    ensures
        ({
            let at = grammar::closing(tokens, open)->0;
            grammar::closing(tokens, open + more) == (match grammar::closing(
                tokens.skip(at + 1),
                more,
            ) {
                Some(j) => Some(j + at + 1),
                None => None,
            })
        }),
    decreases tokens.len(),
{
    let still_open = match tokens[0] {
        TokenView::LeftParenthesis => open + 1,
        TokenView::RightParenthesis => open - 1,
        _ => open,
    };
    let rest = tokens.skip(1);
    let at = grammar::closing(tokens, open)->0;
    grammar::lemma_closing(tokens, open);
    if still_open != 0 {
        grammar::lemma_closing(rest, still_open);
        lemma_closing_more(rest, still_open, more);
        assert(rest.skip(at) =~= tokens.skip(at + 1));
    }
}

/// What is balanced opens and closes nothing.
proof fn lemma_closing_balanced(tokens: Seq<TokenView>, rest: Seq<TokenView>, open: int)
    requires
        open >= 1,
        grammar::parenthesised(tokens) is Ok,
    ensures
        grammar::closing(tokens + rest, open) == (match grammar::closing(rest, open) {
            Some(j) => Some(j + tokens.len()),
            None => None,
        }),
    decreases tokens.len(),
{
    let all = tokens + rest;
    if tokens.len() == 0 {
        assert(all =~= rest);
    } else {
        let wrapped = grammar::wrap_parentheses(tokens)->Ok_0;
        assert(all[0] == tokens[0]);
        assert(all.skip(1) =~= tokens.skip(1) + rest);
        if tokens[0] is LeftParenthesis {
            grammar::lemma_closing(tokens.skip(1), 1);
            let at = grammar::closing(tokens.skip(1), 1)->0;
            let after = tokens.skip(at + 2);
            let wrapped_after = grammar::wrap_parentheses(after)->Ok_0;
            assert(!wrapped_after.contains(TokenView::RightParenthesis)) by {
                if wrapped_after.contains(TokenView::RightParenthesis) {
                    let i = wrapped_after.index_of(TokenView::RightParenthesis);
                    assert(wrapped[i + 1] == TokenView::RightParenthesis);
                }
            }
            lemma_closing_append(tokens.skip(1), rest, 1);
            lemma_closing_more(all.skip(1), 1, open);
            assert(all.skip(1).skip(at + 1) =~= after + rest);
            lemma_closing_balanced(after, rest, open);
        } else {
            let after = tokens.skip(1);
            let wrapped_after = grammar::wrap_parentheses(after)->Ok_0;
            assert(wrapped[0] == tokens[0]);
            assert(wrapped.contains(wrapped[0]));
            assert(!wrapped_after.contains(TokenView::RightParenthesis)) by {
                if wrapped_after.contains(TokenView::RightParenthesis) {
                    let i = wrapped_after.index_of(TokenView::RightParenthesis);
                    assert(wrapped[i + 1] == TokenView::RightParenthesis);
                }
            }
            lemma_closing_balanced(after, rest, open);
        }
    }
}

/// An expression in parentheses.
pub open spec fn in_parentheses(tokens: Seq<TokenView>) -> Seq<TokenView> {
    seq![TokenView::LeftParenthesis] + tokens + seq![TokenView::RightParenthesis]
}

proof fn lemma_wrap_in_parentheses(tokens: Seq<TokenView>)
    requires
        grammar::parenthesised(tokens) is Ok,
    ensures
        grammar::wrap_parentheses(in_parentheses(tokens)) == Ok::<Seq<TokenView>, Seq<char>>(
            seq![TokenView::ParenthesisContainer(tokens)],
        ),
{
    let all = in_parentheses(tokens);
    let right = seq![TokenView::RightParenthesis];
    let none = Seq::<TokenView>::empty();
    let n = tokens.len() as int;
    assert(all[0] is LeftParenthesis);
    assert(all.skip(1) =~= tokens + right);
    assert(grammar::closing(right, 1) == Some(0int)) by {
        assert(right[0] is RightParenthesis);
    }
    lemma_closing_balanced(tokens, right, 1);
    assert(grammar::closing(all.skip(1), 1) == Some(n));
    assert(all.skip(n + 2) =~= none);
    assert(grammar::wrap_parentheses(none) == Ok::<Seq<TokenView>, Seq<char>>(none));
    assert(all.subrange(1, n + 1) =~= tokens);
    let container = seq![TokenView::ParenthesisContainer(tokens)];
    assert(container + none =~= container);
}

proof fn lemma_wrap_operands_single(tokens: Seq<TokenView>)
    requires
        tokens.len() > 0,
        forall|i: int| 0 <= i < tokens.len() ==> !(#[trigger] tokens[i]).is_logical(),
    ensures
        grammar::wrap_operands(tokens) == seq![TokenView::OperandContainer(tokens)],
{
    grammar::lemma_operand_len(tokens);
    let n = grammar::operand_len(tokens);
    if n < tokens.len() {
        assert(!tokens[n].is_logical());
    }
    assert(!tokens[0].is_logical());
    assert(tokens.take(n) =~= tokens);
    assert(tokens.skip(n) =~= Seq::<TokenView>::empty());
    assert(grammar::wrap_operands(Seq::<TokenView>::empty()) =~= Seq::<TokenView>::empty());
    let container = seq![TokenView::OperandContainer(tokens)];
    assert(container + Seq::<TokenView>::empty() =~= container);
}

/// An expression of one operand: outside parentheses it holds no `and` and no `or`.
pub open spec fn is_single(tokens: Seq<TokenView>) -> bool {
    grammar::wrap_parentheses(tokens) matches Ok(wrapped) && no_logical(wrapped)
}

pub open spec fn no_logical(tokens: Seq<TokenView>) -> bool {
    forall|i: int| 0 <= i < tokens.len() ==> !(#[trigger] tokens[i]).is_logical()
}

/// How an expression of one operand is parsed.
proof fn lemma_parse_single(tokens: Seq<TokenView>, wrapped: Seq<TokenView>, token: TokenView)
    requires
        grammar::wrap_parentheses(tokens) == Ok::<Seq<TokenView>, Seq<char>>(wrapped),
        !wrapped.contains(TokenView::RightParenthesis),
        wrapped.len() > 0,
        no_logical(wrapped),
        grammar::operand(wrapped) is Ok,
        grammar::open_parentheses(grammar::operand(wrapped)->Ok_0) == Ok::<TokenView, Seq<char>>(
            token,
        ),
    ensures
        grammar::parse(tokens) == Ok::<TokenView, Seq<char>>(
            TokenView::OrContainer(seq![token]),
        ),
{
    lemma_wrap_operands_single(wrapped);
    let operand = TokenView::OperandContainer(wrapped);
    let items = seq![operand];
    assert(grammar::alternatives(items) =~= items);
    assert(grammar::alternating(items)) by {
        assert(!items[0].is_logical());
    }
    lemma_resolve_one(operand);
    lemma_open_one(grammar::operand(wrapped)->Ok_0);
    lemma_parts_parse(
        tokens,
        wrapped,
        items,
        seq![grammar::operand(wrapped)->Ok_0],
        seq![token],
    );
}

/// The parts that an expression goes through while it is parsed.
pub proof fn lemma_parse_parts(tokens: Seq<TokenView>) -> (r: (
    Seq<TokenView>,
    Seq<TokenView>,
    Seq<TokenView>,
    Seq<TokenView>,
))
    requires
        grammar::parse(tokens) is Ok,
    ensures
        grammar::wrap_parentheses(tokens) == Ok::<Seq<TokenView>, Seq<char>>(r.0),
        !r.0.contains(TokenView::RightParenthesis),
        r.0.len() > 0,
        r.1 == grammar::wrap_operands(r.0),
        r.1.len() % 2 == 1,
        grammar::alternating(r.1),
        grammar::resolve_all(grammar::alternatives(r.1)) == Ok::<Seq<TokenView>, Seq<char>>(r.2),
        grammar::open_all(r.2) == Ok::<Seq<TokenView>, Seq<char>>(r.3),
        grammar::parse(tokens) == Ok::<TokenView, Seq<char>>(TokenView::OrContainer(r.3)),
{
    let wrapped = grammar::wrap_parentheses(tokens)->Ok_0;
    let items = grammar::wrap_operands(wrapped);
    assert(items.len() > 0);
    assert(items[items.len() - 1].is_logical() == ((items.len() - 1) % 2 == 1));
    let resolved = grammar::resolve_all(grammar::alternatives(items))->Ok_0;
    assert(grammar::resolve(TokenView::OrContainer(grammar::alternatives(items))) == Ok::<
        TokenView,
        Seq<char>,
    >(TokenView::OrContainer(resolved)));
    assert(grammar::open_parentheses(TokenView::OrContainer(resolved)) == grammar::parse(tokens));
    let opened = grammar::open_all(resolved)->Ok_0;
    (wrapped, items, resolved, opened)
}

/// The other way round: an expression that goes through these parts is parsed.
proof fn lemma_parts_parse(
    tokens: Seq<TokenView>,
    wrapped: Seq<TokenView>,
    items: Seq<TokenView>,
    resolved: Seq<TokenView>,
    opened: Seq<TokenView>,
)
    requires
        grammar::wrap_parentheses(tokens) == Ok::<Seq<TokenView>, Seq<char>>(wrapped),
        !wrapped.contains(TokenView::RightParenthesis),
        wrapped.len() > 0,
        items == grammar::wrap_operands(wrapped),
        items.len() % 2 == 1,
        grammar::alternating(items),
        grammar::resolve_all(grammar::alternatives(items)) == Ok::<Seq<TokenView>, Seq<char>>(
            resolved,
        ),
        grammar::open_all(resolved) == Ok::<Seq<TokenView>, Seq<char>>(opened),
    ensures
        grammar::parse(tokens) == Ok::<TokenView, Seq<char>>(TokenView::OrContainer(opened)),
{
    assert(!items[0].is_logical());
    assert(!items[items.len() - 1].is_logical());
    let alternatives = TokenView::OrContainer(grammar::alternatives(items));
    assert(grammar::and_or(wrapped) == Ok::<TokenView, Seq<char>>(alternatives));
    assert(grammar::resolve(alternatives) == Ok::<TokenView, Seq<char>>(
        TokenView::OrContainer(resolved),
    ));
    assert(grammar::open_parentheses(TokenView::OrContainer(resolved)) == Ok::<
        TokenView,
        Seq<char>,
    >(TokenView::OrContainer(opened)));
}

/// `or` between two expressions joins their alternatives.
pub proof fn law_parse_or(a: Seq<TokenView>, b: Seq<TokenView>)
    requires
        grammar::parse(a) is Ok,
        grammar::parse(b) is Ok,
    ensures
        grammar::parse(a + seq![TokenView::Or] + b) == Ok::<TokenView, Seq<char>>(
            TokenView::OrContainer(
                grammar::parse(a)->Ok_0.sub() + grammar::parse(b)->Ok_0.sub(),
            ),
        ),
{
    let (wa, ia, ra, oa) = lemma_parse_parts(a);
    let (wb, ib, rb, ob) = lemma_parse_parts(b);
    let or = seq![TokenView::Or];
    lemma_wrap_one(TokenView::Or);
    lemma_wrap_append(a, or);
    lemma_wrap_append(a + or, b);
    let w = wa + or + wb;
    assert(!w.contains(TokenView::RightParenthesis)) by {
        if w.contains(TokenView::RightParenthesis) {
            let i = w.index_of(TokenView::RightParenthesis);
            if i < wa.len() {
                assert(wa[i] == w[i]);
            } else if i > wa.len() {
                assert(wb[i - wa.len() - 1] == w[i]);
            }
        }
    }
    lemma_wrap_operands_logical(wa, TokenView::Or, wb);
    let items = ia + or + ib;
    assert(grammar::alternating(items)) by {
        assert forall|i: int| 0 <= i < items.len() implies (#[trigger] items[i]).is_logical() == (i
            % 2 == 1) by {
            if i < ia.len() {
                assert(items[i] == ia[i]);
            } else if i > ia.len() {
                assert(items[i] == ib[i - ia.len() - 1]);
            }
        }
    }
    lemma_alternatives_or(ia, ib);
    lemma_resolve_all_append(grammar::alternatives(ia), grammar::alternatives(ib));
    lemma_open_all_append(ra, rb);
    lemma_parts_parse(a + or + b, w, items, ra + rb, oa + ob);
}

/// Parentheses around an expression keep what it means.
pub proof fn law_parse_parentheses(tokens: Seq<TokenView>)
    requires
        grammar::parse(tokens) is Ok,
    ensures
        grammar::parse(in_parentheses(tokens)) == Ok::<TokenView, Seq<char>>(
            TokenView::OrContainer(seq![grammar::parse(tokens)->Ok_0]),
        ),
        is_single(in_parentheses(tokens)),
{
    let (wrapped, _, _, _) = lemma_parse_parts(tokens);
    lemma_wrap_in_parentheses(tokens);
    let container = TokenView::ParenthesisContainer(tokens);
    assert(grammar::operand(seq![container]) == Ok::<TokenView, Seq<char>>(container));
    lemma_parse_single(
        in_parentheses(tokens),
        seq![container],
        grammar::parse(tokens)->Ok_0,
    );
}

/// `not` in front of an expression in parentheses negates it.
pub proof fn law_parse_not(tokens: Seq<TokenView>)
    requires
        grammar::parse(tokens) is Ok,
    ensures
        grammar::parse(seq![TokenView::Not] + in_parentheses(tokens)) == Ok::<
            TokenView,
            Seq<char>,
        >(
            TokenView::OrContainer(
                seq![TokenView::NotContainer(seq![grammar::parse(tokens)->Ok_0])],
            ),
        ),
        is_single(seq![TokenView::Not] + in_parentheses(tokens)),
{
    let not = seq![TokenView::Not];
    let token = grammar::parse(tokens)->Ok_0;
    let (wrapped, _, _, _) = lemma_parse_parts(tokens);
    lemma_wrap_in_parentheses(tokens);
    lemma_wrap_one(TokenView::Not);
    lemma_wrap_append(not, in_parentheses(tokens));
    let container = TokenView::ParenthesisContainer(tokens);
    let both = not + seq![container];
    assert(both[0] is Not && both[1] == container);
    assert(grammar::operand(both) == Ok::<TokenView, Seq<char>>(
        TokenView::NotContainer(seq![container]),
    ));
    lemma_open_one(container);
    assert(!both.contains(TokenView::RightParenthesis));
    lemma_parse_single(not + in_parentheses(tokens), both, TokenView::NotContainer(seq![token]));
}

/// `not` in front of a name negates the condition of that name.
pub proof fn law_parse_not_name(name: Seq<char>)
    ensures
        grammar::parse(seq![TokenView::Not, TokenView::SelectionReference(name)]) == Ok::<
            TokenView,
            Seq<char>,
        >(
            TokenView::OrContainer(
                seq![TokenView::NotContainer(seq![TokenView::SelectionReference(name)])],
            ),
        ),
        is_single(seq![TokenView::Not, TokenView::SelectionReference(name)]),
{
    let not = seq![TokenView::Not];
    let reference = TokenView::SelectionReference(name);
    let both = seq![TokenView::Not, reference];
    assert(not + seq![reference] =~= both);
    lemma_wrap_one(TokenView::Not);
    lemma_wrap_one(reference);
    lemma_wrap_append(not, seq![reference]);
    assert(grammar::operand(both) == Ok::<TokenView, Seq<char>>(
        TokenView::NotContainer(seq![reference]),
    ));
    lemma_open_one(reference);
    assert(!both.contains(TokenView::RightParenthesis));
    lemma_parse_single(both, both, TokenView::NotContainer(seq![reference]));
}

/// A name means the condition of that name.
pub proof fn law_parse_name(name: Seq<char>)
    ensures
        grammar::parse(seq![TokenView::SelectionReference(name)]) == Ok::<TokenView, Seq<char>>(
            TokenView::OrContainer(seq![TokenView::SelectionReference(name)]),
        ),
        is_single(seq![TokenView::SelectionReference(name)]),
{
    let reference = TokenView::SelectionReference(name);
    lemma_wrap_one(reference);
    lemma_parse_single(seq![reference], seq![reference], reference);
}

/// `and` in front of an operand binds it to the last alternative before it, and so more
/// tightly than `or` does.
pub proof fn law_parse_and(a: Seq<TokenView>, b: Seq<TokenView>)
    requires
        grammar::parse(a) is Ok,
        grammar::parse(b) is Ok,
        is_single(b),
    ensures
        ({
            let alternatives = grammar::parse(a)->Ok_0.sub();
            let operand = grammar::parse(b)->Ok_0.sub();
            &&& alternatives.len() > 0
            &&& operand.len() == 1
            &&& grammar::parse(a + seq![TokenView::And] + b) == Ok::<TokenView, Seq<char>>(
                TokenView::OrContainer(
                    alternatives.drop_last().push(
                        TokenView::AndContainer(seq![alternatives.last(), operand[0]]),
                    ),
                ),
            )
        }),
{
    let (wa, ia, ra, oa) = lemma_parse_parts(a);
    let (wb, ib, rb, ob) = lemma_parse_parts(b);
    let and = seq![TokenView::And];
    lemma_wrap_one(TokenView::And);
    lemma_wrap_append(a, and);
    lemma_wrap_append(a + and, b);
    let w = wa + and + wb;
    assert(!w.contains(TokenView::RightParenthesis)) by {
        if w.contains(TokenView::RightParenthesis) {
            let i = w.index_of(TokenView::RightParenthesis);
            if i < wa.len() {
                assert(wa[i] == w[i]);
            } else if i > wa.len() {
                assert(wb[i - wa.len() - 1] == w[i]);
            }
        }
    }
    lemma_wrap_operands_logical(wa, TokenView::And, wb);
    lemma_wrap_operands_single(wb);
    let last = TokenView::OperandContainer(wb);
    let items = ia + and + ib;
    assert(grammar::alternating(items)) by {
        assert forall|i: int| 0 <= i < items.len() implies (#[trigger] items[i]).is_logical() == (i
            % 2 == 1) by {
            if i < ia.len() {
                assert(items[i] == ia[i]);
            }
        }
    }
    // The alternatives.
    let before = grammar::alternatives(ia);
    grammar::lemma_alternatives_nonempty(ia);
    assert(items.take(items.len() - 2) =~= ia);
    let pair = seq![before.last(), last];
    let joined = TokenView::AndContainer(pair);
    assert(grammar::alternatives(items) =~= before.drop_last().push(joined));
    // What the operands stand for.
    assert(grammar::alternatives(ib) =~= seq![last]);
    let none = Seq::<TokenView>::empty();
    assert(seq![last].drop_last() =~= none);
    assert(grammar::resolve_all(none) == Ok::<Seq<TokenView>, Seq<char>>(none));
    assert(grammar::resolve(last) is Ok);
    lemma_resolve_one(last);
    let y = grammar::resolve(last)->Ok_0;
    assert(rb == seq![y]);
    assert(grammar::resolve_all(before.drop_last()) is Ok);
    let rinit = grammar::resolve_all(before.drop_last())->Ok_0;
    let x = grammar::resolve(before.last())->Ok_0;
    assert(ra == rinit.push(x));
    lemma_resolve_one(before.last());
    lemma_resolve_all_append(seq![before.last()], seq![last]);
    assert(seq![before.last()] + seq![last] =~= pair);
    assert(seq![x] + seq![y] =~= seq![x, y]);
    let rjoined = TokenView::AndContainer(seq![x, y]);
    assert(grammar::resolve(joined) == Ok::<TokenView, Seq<char>>(rjoined));
    lemma_resolve_one(joined);
    lemma_resolve_all_append(before.drop_last(), seq![joined]);
    assert(before.drop_last() + seq![joined] =~= before.drop_last().push(joined));
    let resolved = rinit + seq![rjoined];
    // What stands in parentheses.
    assert(seq![y].drop_last() =~= none);
    assert(grammar::open_all(none) == Ok::<Seq<TokenView>, Seq<char>>(none));
    assert(grammar::open_parentheses(y) is Ok);
    lemma_open_one(y);
    let oy = grammar::open_parentheses(y)->Ok_0;
    assert(ob == seq![oy]);
    assert(ra.drop_last() =~= rinit);
    let oinit = grammar::open_all(rinit)->Ok_0;
    let ox = grammar::open_parentheses(x)->Ok_0;
    assert(oa == oinit.push(ox));
    lemma_open_one(x);
    lemma_open_all_append(seq![x], seq![y]);
    assert(seq![ox] + seq![oy] =~= seq![ox, oy]);
    let ojoined = TokenView::AndContainer(seq![ox, oy]);
    assert(grammar::open_parentheses(rjoined) == Ok::<TokenView, Seq<char>>(ojoined));
    lemma_open_one(rjoined);
    lemma_open_all_append(rinit, seq![rjoined]);
    lemma_parts_parse(a + and + b, w, items, resolved, oinit + seq![ojoined]);
    assert(oa.drop_last() =~= oinit);
    assert(oa.last() == ox);
    assert(oinit + seq![ojoined] =~= oa.drop_last().push(ojoined));
}

/// Once the parentheses have been wrapped, none is left outside the containers.
pub proof fn law_no_parenthesis_left(tokens: Seq<TokenView>)
    ensures
        grammar::parenthesised(tokens) matches Ok(wrapped) ==> forall|i: int|
            0 <= i < wrapped.len() ==> !(#[trigger] wrapped[i] is LeftParenthesis) && !(
            wrapped[i] is RightParenthesis),
{
    lemma_no_left_parenthesis(tokens);
    if let Ok(wrapped) = grammar::parenthesised(tokens) {
        assert forall|i: int| 0 <= i < wrapped.len() implies !(
        #[trigger] wrapped[i] is RightParenthesis) by {
            assert(wrapped.contains(wrapped[i]));
        }
    }
}

proof fn lemma_no_left_parenthesis(tokens: Seq<TokenView>)
    ensures
        grammar::wrap_parentheses(tokens) matches Ok(wrapped) ==> forall|i: int|
            0 <= i < wrapped.len() ==> !(#[trigger] wrapped[i] is LeftParenthesis),
    decreases tokens.len(),
{
    if tokens.len() > 0 {
        if tokens[0] is LeftParenthesis {
            grammar::lemma_closing(tokens.skip(1), 1);
            if let Some(at) = grammar::closing(tokens.skip(1), 1) {
                lemma_no_left_parenthesis(tokens.skip(at + 2));
            }
        } else {
            lemma_no_left_parenthesis(tokens.skip(1));
        }
    }
}

/// The tokens that stand in the containers for parentheses and outside them.
pub open spec fn unwrap_parentheses(tokens: Seq<TokenView>) -> Seq<TokenView>
    decreases tokens.len(),
{
    if tokens.len() == 0 {
        seq![]
    } else {
        (match tokens[0] {
            TokenView::ParenthesisContainer(sub) => in_parentheses(sub),
            token => seq![token],
        }) + unwrap_parentheses(tokens.skip(1))
    }
}

/// No token is a container for parentheses.
pub open spec fn none_wrapped(tokens: Seq<TokenView>) -> bool {
    forall|i: int| 0 <= i < tokens.len() ==> !(#[trigger] tokens[i] is ParenthesisContainer)
}

/// Wrapping parentheses loses nothing.
pub proof fn law_wrap_parentheses_keeps_tokens(tokens: Seq<TokenView>)
    requires
        none_wrapped(tokens),
    ensures
        grammar::wrap_parentheses(tokens) matches Ok(wrapped) ==> unwrap_parentheses(wrapped)
            == tokens,
    decreases tokens.len(),
{
    if tokens.len() == 0 {
        assert(unwrap_parentheses(seq![]) =~= tokens);
    } else if tokens[0] is LeftParenthesis {
        grammar::lemma_closing(tokens.skip(1), 1);
        if let Some(at) = grammar::closing(tokens.skip(1), 1) {
            let inner = tokens.subrange(1, at + 1);
            let rest = tokens.skip(at + 2);
            assert(tokens.skip(1)[at] == tokens[at + 1]);
            law_wrap_parentheses_keeps_tokens(rest);
            if let Ok(after) = grammar::wrap_parentheses(rest) {
                let wrapped = seq![TokenView::ParenthesisContainer(inner)] + after;
                assert(wrapped.skip(1) =~= after);
                assert(in_parentheses(inner) + rest =~= tokens);
            }
        }
    } else {
        assert(!(tokens[0] is ParenthesisContainer));
        law_wrap_parentheses_keeps_tokens(tokens.skip(1));
        if let Ok(after) = grammar::wrap_parentheses(tokens.skip(1)) {
            let wrapped = seq![tokens[0]] + after;
            assert(wrapped.skip(1) =~= after);
            assert(seq![tokens[0]] + tokens.skip(1) =~= tokens);
        }
    }
}

/// The tokens that stand in the containers for operands and outside them.
pub open spec fn unwrap_operands(tokens: Seq<TokenView>) -> Seq<TokenView>
    decreases tokens.len(),
{
    if tokens.len() == 0 {
        seq![]
    } else {
        (match tokens[0] {
            TokenView::OperandContainer(sub) => sub,
            token => seq![token],
        }) + unwrap_operands(tokens.skip(1))
    }
}

/// Grouping operands loses nothing.
pub proof fn law_wrap_operands_keeps_tokens(tokens: Seq<TokenView>)
    ensures
        unwrap_operands(grammar::wrap_operands(tokens)) == tokens,
    decreases tokens.len(),
{
    if tokens.len() == 0 {
        assert(unwrap_operands(seq![]) =~= tokens);
    } else if tokens[0].is_logical() {
        let after = grammar::wrap_operands(tokens.skip(1));
        law_wrap_operands_keeps_tokens(tokens.skip(1));
        assert((seq![tokens[0]] + after).skip(1) =~= after);
        assert(seq![tokens[0]] + tokens.skip(1) =~= tokens);
    } else {
        let n = grammar::operand_len(tokens);
        grammar::lemma_operand_len(tokens);
        let after = grammar::wrap_operands(tokens.skip(n));
        law_wrap_operands_keeps_tokens(tokens.skip(n));
        let container = TokenView::OperandContainer(tokens.take(n));
        assert((seq![container] + after).skip(1) =~= after);
        assert(tokens.take(n) + tokens.skip(n) =~= tokens);
    }
}

} // verus!
