//! The grammar of condition expressions: what a sequence of tokens means.
//!
//! An expression is parsed level by level. One level is what stands outside all parentheses
//! of a sequence of tokens; what stands inside them is parsed afterwards, in the same way.
use vstd::prelude::*;

use crate::token::TokenView;

verus! {

/// The position of the right parenthesis that brings the number of open parentheses, `open`
/// before the first token, down to zero.
pub open spec fn closing(tokens: Seq<TokenView>, open: int) -> Option<int>
    decreases tokens.len(),
{
    if tokens.len() == 0 {
        None
    } else {
        let still_open = match tokens[0] {
            TokenView::LeftParenthesis => open + 1,
            TokenView::RightParenthesis => open - 1,
            _ => open,
        };
        if still_open == 0 {
            Some(0)
        } else {
            match closing(tokens.skip(1), still_open) {
                Some(at) => Some(at + 1),
                None => None,
            }
        }
    }
}

pub proof fn lemma_closing(tokens: Seq<TokenView>, open: int)
    ensures
        closing(tokens, open) matches Some(at) ==> 0 <= at < tokens.len(),
        open > 0 ==> (closing(tokens, open) matches Some(at) ==> tokens[at] is RightParenthesis),
    decreases tokens.len(),
{
    if tokens.len() > 0 {
        let still_open = match tokens[0] {
            TokenView::LeftParenthesis => open + 1,
            TokenView::RightParenthesis => open - 1,
            _ => open,
        };
        lemma_closing(tokens.skip(1), still_open);
    }
}

/// The tokens with each outermost pair of parentheses, and what stands between them, replaced
/// by one container.
pub open spec fn wrap_parentheses(tokens: Seq<TokenView>) -> Result<Seq<TokenView>, Seq<char>>
    decreases tokens.len(),
{
    if tokens.len() == 0 {
        Ok(seq![])
    } else if tokens[0] is LeftParenthesis {
        match closing(tokens.skip(1), 1) {
            None => Err("expected ')'. but not found."@),
            Some(at) => {
                proof {
                    lemma_closing(tokens.skip(1), 1);
                }
                match wrap_parentheses(tokens.skip(at + 2)) {
                    Err(msg) => Err(msg),
                    Ok(rest) => Ok(
                        seq![TokenView::ParenthesisContainer(tokens.subrange(1, at + 1))] + rest,
                    ),
                }
            },
        }
    } else {
        match wrap_parentheses(tokens.skip(1)) {
            Err(msg) => Err(msg),
            Ok(rest) => Ok(seq![tokens[0]] + rest),
        }
    }
}

/// As [`wrap_parentheses`], and no right parenthesis may be left over.
pub open spec fn parenthesised(tokens: Seq<TokenView>) -> Result<Seq<TokenView>, Seq<char>> {
    match wrap_parentheses(tokens) {
        Err(msg) => Err(msg),
        Ok(wrapped) => if wrapped.contains(TokenView::RightParenthesis) {
            Err("expected '('. but not found."@)
        } else {
            Ok(wrapped)
        },
    }
}

/// The number of tokens before the first logical operator.
pub open spec fn operand_len(tokens: Seq<TokenView>) -> int
    decreases tokens.len(),
{
    if tokens.len() == 0 || tokens[0].is_logical() {
        0
    } else {
        1 + operand_len(tokens.skip(1))
    }
}

pub proof fn lemma_operand_len(tokens: Seq<TokenView>)
    ensures
        0 <= operand_len(tokens) <= tokens.len(),
        forall|i: int| 0 <= i < operand_len(tokens) ==> !(#[trigger] tokens[i]).is_logical(),
        operand_len(tokens) < tokens.len() ==> tokens[operand_len(tokens)].is_logical(),
    decreases tokens.len(),
{
    if tokens.len() > 0 && !tokens[0].is_logical() {
        lemma_operand_len(tokens.skip(1));
        assert forall|i: int| 0 <= i < operand_len(tokens) implies !(
        #[trigger] tokens[i]).is_logical() by {
            if i > 0 {
                assert(tokens[i] == tokens.skip(1)[i - 1]);
            }
        }
    }
}

/// The tokens with each longest run of tokens between logical operators put in a container.
pub open spec fn wrap_operands(tokens: Seq<TokenView>) -> Seq<TokenView>
    decreases tokens.len(),
{
    if tokens.len() == 0 {
        seq![]
    } else if tokens[0].is_logical() {
        seq![tokens[0]] + wrap_operands(tokens.skip(1))
    } else {
        let n = operand_len(tokens);
        proof {
            lemma_operand_len(tokens);
        }
        seq![TokenView::OperandContainer(tokens.take(n))] + wrap_operands(tokens.skip(n))
    }
}

/// The alternatives of `operand operator operand .. operand`: `and` binds its two neighbours,
/// from the left; `or` separates alternatives.
pub open spec fn alternatives(items: Seq<TokenView>) -> Seq<TokenView>
    decreases items.len(),
{
    if items.len() < 3 {
        items
    } else {
        let before = alternatives(items.take(items.len() - 2));
        let operand = items.last();
        if items[items.len() - 2] is Or {
            before.push(operand)
        } else {
            before.drop_last().push(TokenView::AndContainer(seq![before.last(), operand]))
        }
    }
}

/// Operands stand at the even positions and logical operators at the odd ones.
pub open spec fn alternating(items: Seq<TokenView>) -> bool {
    forall|i: int| 0 <= i < items.len() ==> (#[trigger] items[i]).is_logical() == (i % 2 == 1)
}

/// The tokens of one level as a disjunction of conjunctions.
pub open spec fn and_or(tokens: Seq<TokenView>) -> Result<TokenView, Seq<char>> {
    let items = wrap_operands(tokens);
    if tokens.len() == 0 {
        Err("unknown error."@)
    } else if items[0].is_logical() || items.last().is_logical() {
        Err("illegal Logical Operator(and, or) was found."@)
    } else if !alternating(items) {
        Err("The use of logical operator(and, or) was wrong."@)
    } else {
        Ok(TokenView::OrContainer(alternatives(items)))
    }
}

/// What one operand stands for: a single condition, or `not` and a single condition.
pub open spec fn operand(sub: Seq<TokenView>) -> Result<TokenView, Seq<char>> {
    if sub.len() >= 3 {
        Err("unknown error. maybe it's because there are multiple name of selection node."@)
    } else if sub.len() == 0 {
        Err("unknown error."@)
    } else if sub.len() == 1 {
        if sub[0] is Not {
            Err("illegal not was found."@)
        } else {
            Ok(sub[0])
        }
    } else if sub[0] is Not {
        if sub[1] is Not {
            Err("not is continuous."@)
        } else {
            Ok(TokenView::NotContainer(seq![sub[1]]))
        }
    } else {
        Err("unknown error. maybe it's because there are multiple name of selection node."@)
    }
}

/// A token with every operand in it, outside parentheses, replaced by what it stands for.
pub open spec fn resolve(token: TokenView) -> Result<TokenView, Seq<char>>
    decreases token,
{
    match token {
        TokenView::OperandContainer(sub) => operand(sub),
        TokenView::AndContainer(sub) => match resolve_all(sub) {
            Ok(s) => Ok(TokenView::AndContainer(s)),
            Err(msg) => Err(msg),
        },
        TokenView::OrContainer(sub) => match resolve_all(sub) {
            Ok(s) => Ok(TokenView::OrContainer(s)),
            Err(msg) => Err(msg),
        },
        TokenView::NotContainer(sub) => match resolve_all(sub) {
            Ok(s) => Ok(TokenView::NotContainer(s)),
            Err(msg) => Err(msg),
        },
        _ => Ok(token),
    }
}

/// [`resolve`] for each token; the first error counts.
pub open spec fn resolve_all(tokens: Seq<TokenView>) -> Result<Seq<TokenView>, Seq<char>>
    decreases tokens,
{
    if tokens.len() == 0 {
        Ok(seq![])
    } else {
        match resolve_all(tokens.drop_last()) {
            Err(msg) => Err(msg),
            Ok(before) => match resolve(tokens.last()) {
                Err(msg) => Err(msg),
                Ok(t) => Ok(before.push(t)),
            },
        }
    }
}

/// One level of an expression.
pub open spec fn level(tokens: Seq<TokenView>) -> Result<TokenView, Seq<char>> {
    match parenthesised(tokens) {
        Err(msg) => Err(msg),
        Ok(wrapped) => match and_or(wrapped) {
            Err(msg) => Err(msg),
            Ok(token) => resolve(token),
        },
    }
}

/// The number of tokens of the expression that went into a token.
pub open spec fn size(token: TokenView) -> nat
    decreases token,
{
    match token {
        TokenView::ParenthesisContainer(sub) => 2 + total(sub),
        TokenView::AndContainer(sub) => total(sub),
        TokenView::OrContainer(sub) => total(sub),
        TokenView::NotContainer(sub) => total(sub),
        TokenView::OperandContainer(sub) => total(sub),
        _ => 1,
    }
}

pub open spec fn total(tokens: Seq<TokenView>) -> nat
    decreases tokens,
{
    if tokens.len() == 0 {
        0
    } else {
        total(tokens.drop_last()) + size(tokens.last())
    }
}

pub proof fn lemma_total_concat(a: Seq<TokenView>, b: Seq<TokenView>)
    ensures
        total(a + b) == total(a) + total(b),
    decreases b.len(),
{
    if b.len() == 0 {
        assert(a + b =~= a);
    } else {
        assert((a + b).drop_last() =~= a + b.drop_last());
        lemma_total_concat(a, b.drop_last());
    }
}

pub proof fn lemma_total_one(t: TokenView)
    ensures
        total(seq![t]) == size(t),
{
    assert(seq![t].drop_last() =~= Seq::<TokenView>::empty());
    assert(total(Seq::<TokenView>::empty()) == 0);
}

pub proof fn lemma_total_split(tokens: Seq<TokenView>, n: int)
    requires
        0 <= n <= tokens.len(),
    ensures
        total(tokens) == total(tokens.take(n)) + total(tokens.skip(n)),
{
    lemma_total_concat(tokens.take(n), tokens.skip(n));
    assert(tokens.take(n) + tokens.skip(n) =~= tokens);
}

proof fn lemma_wrap_parentheses_total(tokens: Seq<TokenView>)
    ensures
        wrap_parentheses(tokens) matches Ok(w) ==> total(w) == total(tokens),
    decreases tokens.len(),
{
    if tokens.len() > 0 {
        lemma_total_split(tokens, 1);
        assert(tokens.take(1) =~= seq![tokens[0]]);
        lemma_total_one(tokens[0]);
        if tokens[0] is LeftParenthesis {
            lemma_closing(tokens.skip(1), 1);
            if let Some(at) = closing(tokens.skip(1), 1) {
                let inner = tokens.subrange(1, at + 1);
                let rest = tokens.skip(at + 2);
                lemma_wrap_parentheses_total(rest);
                lemma_total_split(tokens.skip(1), at);
                lemma_total_split(tokens.skip(at + 1), 1);
                assert(tokens.skip(1).take(at) =~= inner);
                assert(tokens.skip(1).skip(at) =~= tokens.skip(at + 1));
                assert(tokens.skip(at + 1).skip(1) =~= rest);
                assert(tokens.skip(at + 1).take(1) =~= seq![tokens[at + 1]]);
                lemma_total_one(tokens[at + 1]);
                assert(tokens[at + 1] == tokens.skip(1)[at]);
                if let Ok(w) = wrap_parentheses(rest) {
                    let container = TokenView::ParenthesisContainer(inner);
                    lemma_total_concat(seq![container], w);
                    lemma_total_one(container);
                }
            }
        } else {
            lemma_wrap_parentheses_total(tokens.skip(1));
            if let Ok(w) = wrap_parentheses(tokens.skip(1)) {
                lemma_total_concat(seq![tokens[0]], w);
            }
        }
    }
}

proof fn lemma_wrap_operands_total(tokens: Seq<TokenView>)
    ensures
        total(wrap_operands(tokens)) == total(tokens),
    decreases tokens.len(),
{
    if tokens.len() > 0 {
        if tokens[0].is_logical() {
            lemma_total_split(tokens, 1);
            assert(tokens.take(1) =~= seq![tokens[0]]);
            lemma_wrap_operands_total(tokens.skip(1));
            lemma_total_concat(seq![tokens[0]], wrap_operands(tokens.skip(1)));
        } else {
            let n = operand_len(tokens);
            lemma_operand_len(tokens);
            lemma_total_split(tokens, n);
            lemma_wrap_operands_total(tokens.skip(n));
            let container = TokenView::OperandContainer(tokens.take(n));
            lemma_total_concat(seq![container], wrap_operands(tokens.skip(n)));
            lemma_total_one(container);
        }
    }
}

pub proof fn lemma_alternatives_nonempty(items: Seq<TokenView>)
    requires
        items.len() > 0,
    ensures
        alternatives(items).len() > 0,
    decreases items.len(),
{
    if items.len() >= 3 {
        lemma_alternatives_nonempty(items.take(items.len() - 2));
    }
}

proof fn lemma_alternatives_total(items: Seq<TokenView>)
    ensures
        total(alternatives(items)) <= total(items),
    decreases items.len(),
{
    if items.len() >= 3 {
        let n = items.len() - 2;
        let before = alternatives(items.take(n));
        lemma_alternatives_total(items.take(n));
        lemma_alternatives_nonempty(items.take(n));
        lemma_total_split(items, n);
        lemma_total_split(items.skip(n), 1);
        assert(items.skip(n).skip(1) =~= seq![items.last()]);
        lemma_total_one(items.last());
        lemma_total_concat(before, seq![items.last()]);
        assert(before + seq![items.last()] =~= before.push(items.last()));
        let pair = seq![before.last(), items.last()];
        let joined = TokenView::AndContainer(pair);
        assert(pair =~= seq![before.last()] + seq![items.last()]);
        lemma_total_concat(seq![before.last()], seq![items.last()]);
        lemma_total_one(before.last());
        lemma_total_one(joined);
        lemma_total_concat(before.drop_last(), seq![joined]);
        assert(before.drop_last() + seq![joined] =~= before.drop_last().push(joined));
    }
}

proof fn lemma_resolve_size(token: TokenView)
    ensures
        resolve(token) matches Ok(t) ==> size(t) <= size(token),
    decreases token,
{
    match token {
        TokenView::OperandContainer(sub) => {
            if sub.len() == 1 {
                assert(sub =~= seq![sub[0]]);
                lemma_total_one(sub[0]);
            } else if sub.len() == 2 {
                assert(sub =~= seq![sub[0]] + seq![sub[1]]);
                lemma_total_concat(seq![sub[0]], seq![sub[1]]);
                lemma_total_one(sub[1]);
            }
        },
        TokenView::AndContainer(sub) => lemma_resolve_all_total(sub),
        TokenView::OrContainer(sub) => lemma_resolve_all_total(sub),
        TokenView::NotContainer(sub) => lemma_resolve_all_total(sub),
        _ => {},
    }
}

proof fn lemma_resolve_all_total(tokens: Seq<TokenView>)
    ensures
        resolve_all(tokens) matches Ok(s) ==> total(s) <= total(tokens),
    decreases tokens,
{
    if tokens.len() > 0 {
        lemma_resolve_all_total(tokens.drop_last());
        lemma_resolve_size(tokens.last());
        if let Ok(before) = resolve_all(tokens.drop_last()) {
            if let Ok(t) = resolve(tokens.last()) {
                assert(before.push(t).drop_last() =~= before);
            }
        }
    }
}

pub proof fn lemma_level_size(tokens: Seq<TokenView>)
    ensures
        level(tokens) matches Ok(t) ==> size(t) <= total(tokens),
{
    lemma_wrap_parentheses_total(tokens);
    if let Ok(wrapped) = parenthesised(tokens) {
        lemma_wrap_operands_total(wrapped);
        lemma_alternatives_total(wrap_operands(wrapped));
        if let Ok(token) = and_or(wrapped) {
            lemma_resolve_size(token);
        }
    }
}

/// What a sequence of tokens means: a tree of disjunctions, conjunctions, negations and
/// references; or why it means nothing.
pub open spec fn parse(tokens: Seq<TokenView>) -> Result<TokenView, Seq<char>>
    decreases total(tokens), 1int, tokens,
{
    match level(tokens) {
        Err(msg) => Err(msg),
        Ok(token) => {
            proof {
                lemma_level_size(tokens);
            }
            open_parentheses(token)
        },
    }
}

/// A token with what stands in parentheses parsed in its turn.
pub open spec fn open_parentheses(token: TokenView) -> Result<TokenView, Seq<char>>
    decreases size(token), 0int, token,
{
    match token {
        TokenView::ParenthesisContainer(sub) => parse(sub),
        TokenView::AndContainer(sub) => match open_all(sub) {
            Ok(s) => Ok(TokenView::AndContainer(s)),
            Err(msg) => Err(msg),
        },
        TokenView::OrContainer(sub) => match open_all(sub) {
            Ok(s) => Ok(TokenView::OrContainer(s)),
            Err(msg) => Err(msg),
        },
        TokenView::NotContainer(sub) => match open_all(sub) {
            Ok(s) => Ok(TokenView::NotContainer(s)),
            Err(msg) => Err(msg),
        },
        TokenView::OperandContainer(sub) => match open_all(sub) {
            Ok(s) => Ok(TokenView::OperandContainer(s)),
            Err(msg) => Err(msg),
        },
        _ => Ok(token),
    }
}

/// [`open_parentheses`] for each token; the first error counts.
pub open spec fn open_all(tokens: Seq<TokenView>) -> Result<Seq<TokenView>, Seq<char>>
    decreases total(tokens), 0int, tokens,
{
    if tokens.len() == 0 {
        Ok(seq![])
    } else {
        match open_all(tokens.drop_last()) {
            Err(msg) => Err(msg),
            Ok(before) => match open_parentheses(tokens.last()) {
                Err(msg) => Err(msg),
                Ok(t) => Ok(before.push(t)),
            },
        }
    }
}

/// A token as it comes out of the text of an expression.
pub open spec fn is_plain(token: TokenView) -> bool {
    match token {
        TokenView::LeftParenthesis => true,
        TokenView::RightParenthesis => true,
        TokenView::Not => true,
        TokenView::And => true,
        TokenView::Or => true,
        TokenView::SelectionReference(_) => true,
        _ => false,
    }
}

pub open spec fn all_plain(tokens: Seq<TokenView>) -> bool {
    forall|i: int| 0 <= i < tokens.len() ==> is_plain(#[trigger] tokens[i])
}

/// A tree whose inner nodes are disjunctions that are not empty, conjunctions of two conditions
/// and negations of one, and whose leaves are references.
pub open spec fn is_tree(token: TokenView) -> bool
    decreases token,
{
    match token {
        TokenView::SelectionReference(_) => true,
        TokenView::AndContainer(sub) => sub.len() == 2 && all_trees(sub),
        TokenView::OrContainer(sub) => sub.len() > 0 && all_trees(sub),
        TokenView::NotContainer(sub) => sub.len() == 1 && all_trees(sub),
        _ => false,
    }
}

pub open spec fn all_trees(tokens: Seq<TokenView>) -> bool
    decreases tokens,
{
    forall|i: int| 0 <= i < tokens.len() ==> is_tree(#[trigger] tokens[i])
}

/// A token of one level after the parentheses have been wrapped.
pub open spec fn is_unit(token: TokenView) -> bool {
    match token {
        TokenView::ParenthesisContainer(sub) => all_plain(sub),
        TokenView::LeftParenthesis => false,
        _ => is_plain(token),
    }
}

pub open spec fn all_units(tokens: Seq<TokenView>) -> bool {
    forall|i: int| 0 <= i < tokens.len() ==> is_unit(#[trigger] tokens[i])
}

/// No token is a right parenthesis or a logical operator.
pub open spec fn is_operand(tokens: Seq<TokenView>) -> bool {
    &&& all_units(tokens)
    &&& forall|i: int|
        0 <= i < tokens.len() ==> !(#[trigger] tokens[i]).is_logical() && !(
        tokens[i] is RightParenthesis)
}

/// An operand, or conjunctions of operands.
pub open spec fn is_conjunction(token: TokenView) -> bool
    decreases token,
{
    match token {
        TokenView::OperandContainer(sub) => is_operand(sub),
        TokenView::AndContainer(sub) => sub.len() == 2 && all_conjunctions(sub),
        _ => false,
    }
}

pub open spec fn all_conjunctions(tokens: Seq<TokenView>) -> bool
    decreases tokens,
{
    forall|i: int| 0 <= i < tokens.len() ==> is_conjunction(#[trigger] tokens[i])
}

/// A tree in which what stands in parentheses has not been parsed yet.
pub open spec fn is_closed_tree(token: TokenView) -> bool
    decreases token,
{
    match token {
        TokenView::SelectionReference(_) => true,
        TokenView::ParenthesisContainer(sub) => all_plain(sub),
        TokenView::AndContainer(sub) => sub.len() == 2 && all_closed_trees(sub),
        TokenView::OrContainer(sub) => sub.len() > 0 && all_closed_trees(sub),
        TokenView::NotContainer(sub) => sub.len() == 1 && all_closed_trees(sub),
        _ => false,
    }
}

pub open spec fn all_closed_trees(tokens: Seq<TokenView>) -> bool
    decreases tokens,
{
    forall|i: int| 0 <= i < tokens.len() ==> is_closed_tree(#[trigger] tokens[i])
}

proof fn lemma_wrap_parentheses_units(tokens: Seq<TokenView>)
    requires
        all_plain(tokens),
    ensures
        wrap_parentheses(tokens) matches Ok(w) ==> all_units(w),
    decreases tokens.len(),
{
    if tokens.len() > 0 {
        if tokens[0] is LeftParenthesis {
            lemma_closing(tokens.skip(1), 1);
            if let Some(at) = closing(tokens.skip(1), 1) {
                lemma_wrap_parentheses_units(tokens.skip(at + 2));
                assert(all_plain(tokens.subrange(1, at + 1)));
            }
        } else {
            lemma_wrap_parentheses_units(tokens.skip(1));
        }
    }
}

/// An item of one level: a logical operator or a filled operand.
pub open spec fn is_item(token: TokenView) -> bool {
    token.is_logical() || (token matches TokenView::OperandContainer(sub) && is_operand(sub))
}

pub open spec fn all_items(tokens: Seq<TokenView>) -> bool {
    forall|i: int| 0 <= i < tokens.len() ==> is_item(#[trigger] tokens[i])
}

proof fn lemma_wrap_operands_items(tokens: Seq<TokenView>)
    requires
        all_units(tokens),
        !tokens.contains(TokenView::RightParenthesis),
    ensures
        all_items(wrap_operands(tokens)),
        tokens.len() > 0 ==> wrap_operands(tokens).len() > 0,
    decreases tokens.len(),
{
    if tokens.len() > 0 {
        if tokens[0].is_logical() {
            assert forall|i: int| 0 <= i < tokens.len() - 1 implies tokens.skip(1)[i]
                != TokenView::RightParenthesis by {
                assert(tokens.contains(tokens[i + 1]));
            }
            lemma_wrap_operands_items(tokens.skip(1));
        } else {
            let n = operand_len(tokens);
            lemma_operand_len(tokens);
            assert forall|i: int| 0 <= i < tokens.len() implies !(
            #[trigger] tokens[i] is RightParenthesis) by {
                assert(tokens.contains(tokens[i]));
            }
            lemma_wrap_operands_items(tokens.skip(n));
            assert(is_operand(tokens.take(n)));
        }
    }
}

proof fn lemma_alternatives_conjunctions(items: Seq<TokenView>)
    requires
        items.len() > 0,
        items.len() % 2 == 1,
        all_items(items),
        alternating(items),
    ensures
        alternatives(items).len() > 0,
        all_conjunctions(alternatives(items)),
    decreases items.len(),
{
    lemma_alternatives_nonempty(items);
    if items.len() < 3 {
        assert(!items[0].is_logical());
        assert(is_item(items[0]));
    } else {
        let n = items.len() - 2;
        lemma_alternatives_conjunctions(items.take(n));
        let before = alternatives(items.take(n));
        let operand = items.last();
        assert(!items[items.len() - 1].is_logical());
        assert(is_item(items[items.len() - 1]));
        assert(is_conjunction(operand));
        assert(is_conjunction(before[before.len() - 1]));
        let pair = seq![before.last(), operand];
        assert(all_conjunctions(pair)) by {
            assert(is_conjunction(pair[0]));
            assert(is_conjunction(pair[1]));
        }
        assert(is_conjunction(TokenView::AndContainer(pair)));
    }
}

proof fn lemma_resolve_conjunction(token: TokenView)
    requires
        is_conjunction(token),
    ensures
        resolve(token) matches Ok(t) ==> is_closed_tree(t),
    decreases token,
{
    match token {
        TokenView::OperandContainer(sub) => {
            if sub.len() == 1 {
                assert(is_unit(sub[0]));
                assert(!sub[0].is_logical() && !(sub[0] is RightParenthesis));
            } else if sub.len() == 2 {
                assert(is_unit(sub[1]));
                assert(!sub[1].is_logical() && !(sub[1] is RightParenthesis));
                if let Ok(t) = operand(sub) {
                    let negated = seq![sub[1]];
                    assert(t == TokenView::NotContainer(negated));
                    assert(is_closed_tree(negated[0]));
                    assert(all_closed_trees(negated));
                }
            }
        },
        TokenView::AndContainer(sub) => {
            lemma_resolve_conjunctions(sub);
        },
        _ => {},
    }
}

proof fn lemma_resolve_conjunctions(tokens: Seq<TokenView>)
    requires
        all_conjunctions(tokens),
    ensures
        resolve_all(tokens) matches Ok(s) ==> s.len() == tokens.len() && all_closed_trees(s),
    decreases tokens,
{
    if tokens.len() > 0 {
        assert forall|i: int| 0 <= i < tokens.drop_last().len() implies is_conjunction(
            #[trigger] tokens.drop_last()[i],
        ) by {
            assert(is_conjunction(tokens[i]));
        }
        lemma_resolve_conjunctions(tokens.drop_last());
        assert(is_conjunction(tokens[tokens.len() - 1]));
        lemma_resolve_conjunction(tokens.last());
    }
}

/// The items of one level are logical operators and operands.
pub proof fn lemma_level_items(tokens: Seq<TokenView>)
    requires
        all_plain(tokens),
    ensures
        parenthesised(tokens) matches Ok(wrapped) ==> all_items(wrap_operands(wrapped)),
{
    lemma_wrap_parentheses_units(tokens);
    if let Ok(wrapped) = parenthesised(tokens) {
        lemma_wrap_operands_items(wrapped);
    }
}

proof fn lemma_level_closed(tokens: Seq<TokenView>)
    requires
        all_plain(tokens),
    ensures
        level(tokens) matches Ok(t) ==> is_closed_tree(t) && t is OrContainer,
{
    lemma_wrap_parentheses_units(tokens);
    if let Ok(wrapped) = parenthesised(tokens) {
        lemma_wrap_operands_items(wrapped);
        let items = wrap_operands(wrapped);
        if let Ok(token) = and_or(wrapped) {
            assert(items[items.len() - 1].is_logical() == ((items.len() - 1) % 2 == 1));
            lemma_alternatives_conjunctions(items);
            lemma_resolve_conjunctions(alternatives(items));
        }
    }
}

/// The names that a token refers to, in order.
pub open spec fn references(token: TokenView) -> Seq<Seq<char>>
    decreases token,
{
    match token {
        TokenView::SelectionReference(name) => seq![name],
        TokenView::ParenthesisContainer(sub) => all_references(sub),
        TokenView::AndContainer(sub) => all_references(sub),
        TokenView::OrContainer(sub) => all_references(sub),
        TokenView::NotContainer(sub) => all_references(sub),
        TokenView::OperandContainer(sub) => all_references(sub),
        _ => seq![],
    }
}

/// The names that some tokens refer to, in order.
pub open spec fn all_references(tokens: Seq<TokenView>) -> Seq<Seq<char>>
    decreases tokens,
{
    if tokens.len() == 0 {
        seq![]
    } else {
        all_references(tokens.drop_last()) + references(tokens.last())
    }
}

proof fn lemma_references_concat(a: Seq<TokenView>, b: Seq<TokenView>)
    ensures
        all_references(a + b) == all_references(a) + all_references(b),
    decreases b.len(),
{
    if b.len() == 0 {
        assert(a + b =~= a);
        assert(all_references(a) + all_references(b) =~= all_references(a));
    } else {
        assert((a + b).drop_last() =~= a + b.drop_last());
        lemma_references_concat(a, b.drop_last());
        assert(all_references(a + b) =~= all_references(a) + all_references(b));
    }
}

proof fn lemma_references_one(t: TokenView)
    ensures
        all_references(seq![t]) == references(t),
{
    let none = Seq::<TokenView>::empty();
    assert(seq![t].drop_last() =~= none);
    assert(all_references(none) =~= seq![]);
    assert(seq![] + references(t) =~= references(t));
}

proof fn lemma_references_split(tokens: Seq<TokenView>, n: int)
    requires
        0 <= n <= tokens.len(),
    ensures
        all_references(tokens) == all_references(tokens.take(n)) + all_references(tokens.skip(n)),
{
    lemma_references_concat(tokens.take(n), tokens.skip(n));
    assert(tokens.take(n) + tokens.skip(n) =~= tokens);
}

/// A token at the front.
proof fn lemma_references_first(t: TokenView, rest: Seq<TokenView>)
    ensures
        all_references(seq![t] + rest) == references(t) + all_references(rest),
{
    lemma_references_concat(seq![t], rest);
    lemma_references_one(t);
}

proof fn lemma_wrap_parentheses_references(tokens: Seq<TokenView>)
    ensures
        wrap_parentheses(tokens) matches Ok(w) ==> all_references(w) == all_references(tokens),
    decreases tokens.len(),
{
    if tokens.len() > 0 {
        assert(seq![tokens[0]] + tokens.skip(1) =~= tokens);
        lemma_references_first(tokens[0], tokens.skip(1));
        if tokens[0] is LeftParenthesis {
            lemma_closing(tokens.skip(1), 1);
            if let Some(at) = closing(tokens.skip(1), 1) {
                let inner = tokens.subrange(1, at + 1);
                let rest = tokens.skip(at + 2);
                lemma_wrap_parentheses_references(rest);
                lemma_references_split(tokens.skip(1), at);
                assert(tokens.skip(1).take(at) =~= inner);
                assert(tokens.skip(1).skip(at) =~= seq![tokens[at + 1]] + rest);
                assert(tokens[at + 1] == tokens.skip(1)[at]);
                lemma_references_first(tokens[at + 1], rest);
                assert(references(tokens[0]) =~= seq![]);
                assert(references(tokens[at + 1]) =~= seq![]);
                assert(all_references(tokens) =~= all_references(inner) + all_references(rest));
                if let Ok(w) = wrap_parentheses(rest) {
                    lemma_references_first(TokenView::ParenthesisContainer(inner), w);
                }
            }
        } else {
            lemma_wrap_parentheses_references(tokens.skip(1));
            if let Ok(w) = wrap_parentheses(tokens.skip(1)) {
                lemma_references_first(tokens[0], w);
            }
        }
    }
}

proof fn lemma_wrap_operands_references(tokens: Seq<TokenView>)
    ensures
        all_references(wrap_operands(tokens)) == all_references(tokens),
    decreases tokens.len(),
{
    if tokens.len() > 0 {
        if tokens[0].is_logical() {
            assert(seq![tokens[0]] + tokens.skip(1) =~= tokens);
            lemma_references_first(tokens[0], tokens.skip(1));
            lemma_wrap_operands_references(tokens.skip(1));
            lemma_references_first(tokens[0], wrap_operands(tokens.skip(1)));
        } else {
            let n = operand_len(tokens);
            lemma_operand_len(tokens);
            lemma_references_split(tokens, n);
            lemma_wrap_operands_references(tokens.skip(n));
            lemma_references_first(
                TokenView::OperandContainer(tokens.take(n)),
                wrap_operands(tokens.skip(n)),
            );
        }
    }
}

proof fn lemma_alternatives_references(items: Seq<TokenView>)
    requires
        items.len() % 2 == 1,
        alternating(items),
    ensures
        all_references(alternatives(items)) == all_references(items),
    decreases items.len(),
{
    if items.len() >= 3 {
        let n = items.len() - 2;
        let before = alternatives(items.take(n));
        let operator = items[n];
        let operand = items.last();
        lemma_alternatives_references(items.take(n));
        lemma_alternatives_nonempty(items.take(n));
        // The items: what comes before, the operator and the operand.
        lemma_references_split(items, n);
        assert(items.skip(n) =~= seq![operator] + seq![operand]);
        lemma_references_first(operator, seq![operand]);
        lemma_references_one(operand);
        assert(operator.is_logical());
        assert(references(operator) =~= seq![]);
        assert(all_references(items) =~= all_references(before) + references(operand));
        // The alternatives.
        lemma_references_concat(before, seq![operand]);
        assert(before + seq![operand] =~= before.push(operand));
        let pair = seq![before.last(), operand];
        let joined = TokenView::AndContainer(pair);
        assert(pair =~= seq![before.last()] + seq![operand]);
        lemma_references_first(before.last(), seq![operand]);
        lemma_references_concat(before.drop_last(), seq![joined]);
        lemma_references_one(joined);
        assert(before.drop_last() + seq![joined] =~= before.drop_last().push(joined));
        assert(all_references(before.drop_last()) + (references(before.last()) + references(
            operand,
        )) =~= all_references(before) + references(operand));
    }
}

proof fn lemma_resolve_references(token: TokenView)
    ensures
        resolve(token) matches Ok(t) ==> references(t) == references(token),
    decreases token,
{
    match token {
        TokenView::OperandContainer(sub) => {
            if sub.len() == 1 {
                assert(sub =~= seq![sub[0]]);
                lemma_references_one(sub[0]);
            } else if sub.len() == 2 {
                assert(sub =~= seq![sub[0]] + seq![sub[1]]);
                lemma_references_first(sub[0], seq![sub[1]]);
                if sub[0] is Not {
                    assert(references(sub[0]) =~= seq![]);
                    assert(all_references(sub) =~= all_references(seq![sub[1]]));
                }
            }
        },
        TokenView::AndContainer(sub) => lemma_resolve_all_references(sub),
        TokenView::OrContainer(sub) => lemma_resolve_all_references(sub),
        TokenView::NotContainer(sub) => lemma_resolve_all_references(sub),
        _ => {},
    }
}

proof fn lemma_resolve_all_references(tokens: Seq<TokenView>)
    ensures
        resolve_all(tokens) matches Ok(s) ==> all_references(s) == all_references(tokens),
    decreases tokens,
{
    if tokens.len() > 0 {
        lemma_resolve_all_references(tokens.drop_last());
        lemma_resolve_references(tokens.last());
        if let Ok(before) = resolve_all(tokens.drop_last()) {
            if let Ok(t) = resolve(tokens.last()) {
                assert(before.push(t).drop_last() =~= before);
            }
        }
    }
}

proof fn lemma_level_references(tokens: Seq<TokenView>)
    ensures
        level(tokens) matches Ok(t) ==> references(t) == all_references(tokens),
{
    lemma_wrap_parentheses_references(tokens);
    if let Ok(wrapped) = parenthesised(tokens) {
        let items = wrap_operands(wrapped);
        lemma_wrap_operands_references(wrapped);
        if let Ok(token) = and_or(wrapped) {
            assert(items.len() > 0);
            assert(items[items.len() - 1].is_logical() == ((items.len() - 1) % 2 == 1));
            lemma_alternatives_references(items);
            lemma_resolve_references(token);
        }
    }
}

/// Parsing keeps all references, and their order.
pub proof fn lemma_parse_references(tokens: Seq<TokenView>)
    ensures
        parse(tokens) matches Ok(t) ==> references(t) == all_references(tokens),
    decreases total(tokens), 1int, tokens,
{
    lemma_level_references(tokens);
    lemma_level_size(tokens);
    if let Ok(token) = level(tokens) {
        lemma_open_references(token);
    }
}

proof fn lemma_open_references(token: TokenView)
    ensures
        open_parentheses(token) matches Ok(t) ==> references(t) == references(token),
    decreases size(token), 0int, token,
{
    match token {
        TokenView::ParenthesisContainer(sub) => lemma_parse_references(sub),
        TokenView::AndContainer(sub) => lemma_open_all_references(sub),
        TokenView::OrContainer(sub) => lemma_open_all_references(sub),
        TokenView::NotContainer(sub) => lemma_open_all_references(sub),
        TokenView::OperandContainer(sub) => lemma_open_all_references(sub),
        _ => {},
    }
}

proof fn lemma_open_all_references(tokens: Seq<TokenView>)
    ensures
        open_all(tokens) matches Ok(s) ==> all_references(s) == all_references(tokens),
    decreases total(tokens), 0int, tokens,
{
    if tokens.len() > 0 {
        lemma_open_all_references(tokens.drop_last());
        lemma_open_references(tokens.last());
        if let Ok(before) = open_all(tokens.drop_last()) {
            if let Ok(t) = open_parentheses(tokens.last()) {
                assert(before.push(t).drop_last() =~= before);
            }
        }
    }
}

/// What an expression means is a disjunction, and a tree that refers to the same names as the
/// expression, in the same order.
pub proof fn lemma_parse_tree(tokens: Seq<TokenView>)
    requires
        all_plain(tokens),
    ensures
        parse(tokens) matches Ok(t) ==> is_tree(t) && t is OrContainer && references(t)
            == all_references(tokens),
    decreases total(tokens), 1int, tokens,
{
    lemma_parse_references(tokens);
    lemma_level_closed(tokens);
    lemma_level_size(tokens);
    if let Ok(token) = level(tokens) {
        lemma_open_tree(token);
    }
}

proof fn lemma_open_tree(token: TokenView)
    requires
        is_closed_tree(token),
    ensures
        open_parentheses(token) matches Ok(t) ==> is_tree(t) && (token is OrContainer
            ==> t is OrContainer),
    decreases size(token), 0int, token,
{
    match token {
        TokenView::ParenthesisContainer(sub) => {
            lemma_parse_tree(sub);
        },
        TokenView::AndContainer(sub) => {
            lemma_open_trees(sub);
        },
        TokenView::OrContainer(sub) => {
            lemma_open_trees(sub);
        },
        TokenView::NotContainer(sub) => {
            lemma_open_trees(sub);
        },
        _ => {},
    }
}

proof fn lemma_open_trees(tokens: Seq<TokenView>)
    requires
        all_closed_trees(tokens),
    ensures
        open_all(tokens) matches Ok(s) ==> s.len() == tokens.len() && all_trees(s),
    decreases total(tokens), 0int, tokens,
{
    if tokens.len() > 0 {
        assert forall|i: int| 0 <= i < tokens.drop_last().len() implies is_closed_tree(
            #[trigger] tokens.drop_last()[i],
        ) by {
            assert(is_closed_tree(tokens[i]));
        }
        lemma_open_trees(tokens.drop_last());
        assert(is_closed_tree(tokens[tokens.len() - 1]));
        lemma_open_tree(tokens.last());
    }
}

} // verus!
