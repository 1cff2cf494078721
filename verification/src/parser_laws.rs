//! What the single steps of compiling a condition do.
use vstd::prelude::*;

use crate::aggregation;
use crate::aggregation::AggregationTokenView;
use crate::condition;
use crate::expression_laws;
use crate::grammar;
use crate::grammar_laws;
use crate::matcher::MatcherView;
use crate::selection;
use crate::selection::NodeView;
use crate::text;
use crate::text_laws;
use crate::token::TokenView;

verus! {

/// Each lexeme of a condition stands for its token, and every other word for the condition of
/// that name.
pub proof fn law_lexemes(word: Seq<char>)
    ensures
        condition::token_of(seq!['(']) == TokenView::LeftParenthesis,
        condition::token_of(seq![')']) == TokenView::RightParenthesis,
        condition::token_of(seq![' ']) == TokenView::Space,
        condition::token_of(seq!['n', 'o', 't']) == TokenView::Not,
        condition::token_of(seq!['a', 'n', 'd']) == TokenView::And,
        condition::token_of(seq!['o', 'r']) == TokenView::Or,
        word != seq!['('] && word != seq![')'] && word != seq![' '] && word != seq!['n', 'o', 't']
            && word != seq!['a', 'n', 'd'] && word != seq!['o', 'r'] ==> condition::token_of(word)
            == TokenView::SelectionReference(word),
{
    reveal_strlit("(");
    reveal_strlit(")");
    reveal_strlit(" ");
    reveal_strlit("not");
    reveal_strlit("and");
    reveal_strlit("or");
    assert("("@ =~= seq!['(']);
    assert(")"@ =~= seq![')']);
    assert(" "@ =~= seq![' ']);
    assert("not"@ =~= seq!['n', 'o', 't']);
    assert("and"@ =~= seq!['a', 'n', 'd']);
    assert("or"@ =~= seq!['o', 'r']);
    assert(seq!['('][0] != seq![')'][0]);
    assert(seq!['('][0] != seq![' '][0]);
    assert(seq![')'][0] != seq![' '][0]);
    assert(seq!['n', 'o', 't'][0] != seq!['a', 'n', 'd'][0]);
    assert(seq!['n', 'o', 't'].len() == 3 && seq!['a', 'n', 'd'].len() == 3 && seq!['o', 'r'].len()
        == 2 && seq!['('].len() == 1 && seq![')'].len() == 1 && seq![' '].len() == 1);
}

/// The comparison operators are the five that compare.
pub proof fn law_comparison_operators(field: Seq<char>)
    ensures
        AggregationTokenView::EQ.is_cmp_op(),
        AggregationTokenView::LE.is_cmp_op(),
        AggregationTokenView::LT.is_cmp_op(),
        AggregationTokenView::GE.is_cmp_op(),
        AggregationTokenView::GT.is_cmp_op(),
        !AggregationTokenView::COUNT(field).is_cmp_op(),
        !AggregationTokenView::KEYWORD(field).is_cmp_op(),
        !AggregationTokenView::SPACE.is_cmp_op(),
        !AggregationTokenView::BY.is_cmp_op(),
{
}

/// What stands between `count(` and the first `)` behind it, without its blanks, is the field
/// that is counted.
pub proof fn law_counted_field(inner: Seq<char>, rest: Seq<char>)
    requires
        forall|i: int| 0 <= i < inner.len() ==> #[trigger] inner[i] != ')',
    ensures
        aggregation::aggregation_token_of("count("@ + (inner + seq![')'] + rest))
            == AggregationTokenView::COUNT((inner + rest).filter(|c: char| c != ' ')),
{
    reveal_strlit(")");
    assert(")"@ =~= seq![')']);
    let behind = inner + seq![')'] + rest;
    let word = "count("@ + behind;
    let n = "count("@.len() as int;
    assert(word.subrange(0, n) =~= "count("@);
    assert(word.take(n) =~= "count("@);
    assert(word.skip(n) =~= behind);
    assert(text::without_first(word, "count("@) == behind);
    let m = inner.len() as int;
    assert forall|j: int| 0 <= j < m implies !text::occurs_at(behind, ")"@, j) by {
        if text::occurs_at(behind, ")"@, j) {
            assert(behind.subrange(j, j + 1)[0] == behind[j]);
            assert(behind[j] == inner[j]);
        }
    }
    assert(behind.subrange(m, m + 1) =~= ")"@);
    text::lemma_without_first(behind, ")"@, m);
    assert(behind.take(m) + behind.skip(m + 1) =~= inner + rest);
    text_laws::law_without_char(inner + rest, ' ');
}

/// Each operator, `by` and the blank stand for their tokens, and every other word without
/// `count(` at its start for itself.
pub proof fn law_aggregation_lexemes(word: Seq<char>)
    ensures
        aggregation::aggregation_token_of(seq![' ']) == AggregationTokenView::SPACE,
        aggregation::aggregation_token_of(seq!['b', 'y']) == AggregationTokenView::BY,
        aggregation::aggregation_token_of(seq!['=', '=']) == AggregationTokenView::EQ,
        aggregation::aggregation_token_of(seq!['<', '=']) == AggregationTokenView::LE,
        aggregation::aggregation_token_of(seq!['>', '=']) == AggregationTokenView::GE,
        aggregation::aggregation_token_of(seq!['<']) == AggregationTokenView::LT,
        aggregation::aggregation_token_of(seq!['>']) == AggregationTokenView::GT,
        !"count("@.is_prefix_of(word) && word != seq![' '] && word != seq!['b', 'y'] && word
            != seq!['=', '='] && word != seq!['<', '='] && word != seq!['>', '='] && word
            != seq!['<'] && word != seq!['>'] ==> aggregation::aggregation_token_of(word)
            == AggregationTokenView::KEYWORD(word),
{
    reveal_strlit("count(");
    reveal_strlit(" ");
    reveal_strlit("by");
    reveal_strlit("==");
    reveal_strlit("<=");
    reveal_strlit(">=");
    reveal_strlit("<");
    reveal_strlit(">");
    assert(" "@ =~= seq![' ']);
    assert("by"@ =~= seq!['b', 'y']);
    assert("=="@ =~= seq!['=', '=']);
    assert("<="@ =~= seq!['<', '=']);
    assert(">="@ =~= seq!['>', '=']);
    assert("<"@ =~= seq!['<']);
    assert(">"@ =~= seq!['>']);
    assert(" "@[0] == ' ' && "<"@[0] == '<' && ">"@[0] == '>' && "by"@[0] == 'b' && "=="@[0]
        == '=' && "<="@[0] == '<' && ">="@[0] == '>');
    assert(" "@.len() == 1 && "<"@.len() == 1 && ">"@.len() == 1 && "by"@.len() == 2
        && "=="@.len() == 2 && "<="@.len() == 2 && ">="@.len() == 2 && "count("@.len() == 6);
}

/// An operand is resolved to what it stands for; what holds no operand stays as it is.
pub proof fn law_operand_is_resolved(sub: Seq<TokenView>, token: TokenView)
    ensures
        grammar::resolve(TokenView::OperandContainer(sub)) == grammar::operand(sub),
        !(token is OperandContainer || token is AndContainer || token is OrContainer
            || token is NotContainer) ==> grammar::resolve(token) == Ok::<TokenView, Seq<char>>(
            token,
        ),
{
}

/// The tokens of other containers are resolved one by one, and the first error counts.
pub proof fn law_containers_are_resolved(
    sub: Seq<TokenView>,
    done: Seq<TokenView>,
    i: int,
    msg: Seq<char>,
)
    ensures
        done.len() == sub.len() && (forall|j: int|
            0 <= j < sub.len() ==> grammar::resolve(#[trigger] sub[j]) == Ok::<
                TokenView,
                Seq<char>,
            >(done[j])) ==> {
            &&& grammar::resolve(TokenView::AndContainer(sub)) == Ok::<TokenView, Seq<char>>(
                TokenView::AndContainer(done),
            )
            &&& grammar::resolve(TokenView::OrContainer(sub)) == Ok::<TokenView, Seq<char>>(
                TokenView::OrContainer(done),
            )
            &&& grammar::resolve(TokenView::NotContainer(sub)) == Ok::<TokenView, Seq<char>>(
                TokenView::NotContainer(done),
            )
        },
        0 <= i < sub.len() && grammar::resolve(sub[i]) == Err::<TokenView, Seq<char>>(msg) && (
        forall|j: int| 0 <= j < i ==> grammar::resolve(#[trigger] sub[j]) is Ok) ==> {
            &&& grammar::resolve(TokenView::AndContainer(sub)) == Err::<TokenView, Seq<char>>(msg)
            &&& grammar::resolve(TokenView::OrContainer(sub)) == Err::<TokenView, Seq<char>>(msg)
            &&& grammar::resolve(TokenView::NotContainer(sub)) == Err::<TokenView, Seq<char>>(msg)
        },
{
    if done.len() == sub.len() && (forall|j: int|
        0 <= j < sub.len() ==> grammar::resolve(#[trigger] sub[j]) == Ok::<TokenView, Seq<char>>(
            done[j],
        )) {
        lemma_all_resolved(sub, done);
    }
    if 0 <= i < sub.len() && grammar::resolve(sub[i]) == Err::<TokenView, Seq<char>>(msg) && (
    forall|j: int| 0 <= j < i ==> grammar::resolve(#[trigger] sub[j]) is Ok) {
        lemma_first_unresolved(sub, i, msg);
    }
}

proof fn lemma_all_resolved(sub: Seq<TokenView>, done: Seq<TokenView>)
    requires
        done.len() == sub.len(),
        forall|j: int|
            0 <= j < sub.len() ==> grammar::resolve(#[trigger] sub[j]) == Ok::<
                TokenView,
                Seq<char>,
            >(done[j]),
    ensures
        grammar::resolve_all(sub) == Ok::<Seq<TokenView>, Seq<char>>(done),
    decreases sub.len(),
{
    if sub.len() == 0 {
        assert(done =~= Seq::<TokenView>::empty());
    } else {
        let n = sub.len() - 1;
        assert forall|j: int| 0 <= j < n implies grammar::resolve(#[trigger] sub.drop_last()[j])
            == Ok::<TokenView, Seq<char>>(done.drop_last()[j]) by {
            assert(grammar::resolve(sub[j]) == Ok::<TokenView, Seq<char>>(done[j]));
        }
        lemma_all_resolved(sub.drop_last(), done.drop_last());
        assert(grammar::resolve(sub[n]) == Ok::<TokenView, Seq<char>>(done[n]));
        assert(done.drop_last().push(done[n]) =~= done);
    }
}

proof fn lemma_first_unresolved(sub: Seq<TokenView>, i: int, msg: Seq<char>)
    requires
        0 <= i < sub.len(),
        grammar::resolve(sub[i]) == Err::<TokenView, Seq<char>>(msg),
        forall|j: int| 0 <= j < i ==> grammar::resolve(#[trigger] sub[j]) is Ok,
    ensures
        grammar::resolve_all(sub) == Err::<Seq<TokenView>, Seq<char>>(msg),
    decreases sub.len(),
{
    let before = sub.drop_last();
    assert forall|j: int| 0 <= j < i implies grammar::resolve(#[trigger] before[j]) is Ok by {
        assert(grammar::resolve(sub[j]) is Ok);
    }
    if i < sub.len() - 1 {
        lemma_first_unresolved(before, i, msg);
    } else {
        let done = Seq::new(before.len(), |j: int| grammar::resolve(before[j])->Ok_0);
        lemma_all_resolved(before, done);
    }
}

/// What stands in parentheses is parsed; what is no container stays as it is.
pub proof fn law_parentheses_are_opened(sub: Seq<TokenView>, token: TokenView)
    ensures
        grammar::open_parentheses(TokenView::ParenthesisContainer(sub)) == grammar::parse(sub),
        !(token is ParenthesisContainer || token is OperandContainer || token is AndContainer
            || token is OrContainer || token is NotContainer) ==> grammar::open_parentheses(token)
            == Ok::<TokenView, Seq<char>>(token),
{
}

/// The parentheses in the tokens of other containers are opened one by one, and the first error
/// counts.
pub proof fn law_containers_are_opened(
    sub: Seq<TokenView>,
    done: Seq<TokenView>,
    i: int,
    msg: Seq<char>,
)
    ensures
        done.len() == sub.len() && (forall|j: int|
            0 <= j < sub.len() ==> grammar::open_parentheses(#[trigger] sub[j]) == Ok::<
                TokenView,
                Seq<char>,
            >(done[j])) ==> {
            &&& grammar::open_parentheses(TokenView::AndContainer(sub)) == Ok::<
                TokenView,
                Seq<char>,
            >(TokenView::AndContainer(done))
            &&& grammar::open_parentheses(TokenView::OrContainer(sub)) == Ok::<
                TokenView,
                Seq<char>,
            >(TokenView::OrContainer(done))
            &&& grammar::open_parentheses(TokenView::NotContainer(sub)) == Ok::<
                TokenView,
                Seq<char>,
            >(TokenView::NotContainer(done))
            &&& grammar::open_parentheses(TokenView::OperandContainer(sub)) == Ok::<
                TokenView,
                Seq<char>,
            >(TokenView::OperandContainer(done))
        },
        0 <= i < sub.len() && grammar::open_parentheses(sub[i]) == Err::<TokenView, Seq<char>>(
            msg,
        ) && (forall|j: int| 0 <= j < i ==> grammar::open_parentheses(#[trigger] sub[j]) is Ok)
            ==> {
            &&& grammar::open_parentheses(TokenView::AndContainer(sub)) == Err::<
                TokenView,
                Seq<char>,
            >(msg)
            &&& grammar::open_parentheses(TokenView::OrContainer(sub)) == Err::<
                TokenView,
                Seq<char>,
            >(msg)
            &&& grammar::open_parentheses(TokenView::NotContainer(sub)) == Err::<
                TokenView,
                Seq<char>,
            >(msg)
            &&& grammar::open_parentheses(TokenView::OperandContainer(sub)) == Err::<
                TokenView,
                Seq<char>,
            >(msg)
        },
{
    if done.len() == sub.len() && (forall|j: int|
        0 <= j < sub.len() ==> grammar::open_parentheses(#[trigger] sub[j]) == Ok::<
            TokenView,
            Seq<char>,
        >(done[j])) {
        lemma_all_opened(sub, done);
    }
    if 0 <= i < sub.len() && grammar::open_parentheses(sub[i]) == Err::<TokenView, Seq<char>>(msg)
        && (forall|j: int| 0 <= j < i ==> grammar::open_parentheses(#[trigger] sub[j]) is Ok) {
        lemma_first_unopened(sub, i, msg);
    }
}

proof fn lemma_all_opened(sub: Seq<TokenView>, done: Seq<TokenView>)
    requires
        done.len() == sub.len(),
        forall|j: int|
            0 <= j < sub.len() ==> grammar::open_parentheses(#[trigger] sub[j]) == Ok::<
                TokenView,
                Seq<char>,
            >(done[j]),
    ensures
        grammar::open_all(sub) == Ok::<Seq<TokenView>, Seq<char>>(done),
    decreases sub.len(),
{
    if sub.len() == 0 {
        assert(done =~= Seq::<TokenView>::empty());
    } else {
        let n = sub.len() - 1;
        assert forall|j: int| 0 <= j < n implies grammar::open_parentheses(
            #[trigger] sub.drop_last()[j],
        ) == Ok::<TokenView, Seq<char>>(done.drop_last()[j]) by {
            assert(grammar::open_parentheses(sub[j]) == Ok::<TokenView, Seq<char>>(done[j]));
        }
        lemma_all_opened(sub.drop_last(), done.drop_last());
        assert(grammar::open_parentheses(sub[n]) == Ok::<TokenView, Seq<char>>(done[n]));
        assert(done.drop_last().push(done[n]) =~= done);
    }
}

proof fn lemma_first_unopened(sub: Seq<TokenView>, i: int, msg: Seq<char>)
    requires
        0 <= i < sub.len(),
        grammar::open_parentheses(sub[i]) == Err::<TokenView, Seq<char>>(msg),
        forall|j: int| 0 <= j < i ==> grammar::open_parentheses(#[trigger] sub[j]) is Ok,
    ensures
        grammar::open_all(sub) == Err::<Seq<TokenView>, Seq<char>>(msg),
    decreases sub.len(),
{
    let before = sub.drop_last();
    assert forall|j: int| 0 <= j < i implies grammar::open_parentheses(
        #[trigger] before[j],
    ) is Ok by {
        assert(grammar::open_parentheses(sub[j]) is Ok);
    }
    if i < sub.len() - 1 {
        lemma_first_unopened(before, i, msg);
    } else {
        let done = Seq::new(before.len(), |j: int| grammar::open_parentheses(before[j])->Ok_0);
        lemma_all_opened(before, done);
    }
}

/// A logical operator stays where it is, and the tokens up to the next one are one operand.
pub proof fn law_operands_are_grouped(
    op: TokenView,
    run: Seq<TokenView>,
    rest: Seq<TokenView>,
)
    ensures
        grammar::wrap_operands(Seq::empty()) == Seq::<TokenView>::empty(),
        op.is_logical() ==> grammar::wrap_operands(seq![op] + rest) == seq![op]
            + grammar::wrap_operands(rest),
        run.len() > 0 && grammar_laws::no_logical(run) && (rest.len() == 0
            || rest[0].is_logical()) ==> grammar::wrap_operands(run + rest) == seq![
            TokenView::OperandContainer(run),
        ] + grammar::wrap_operands(rest),
{
    assert((seq![op] + rest).skip(1) =~= rest);
    assert((seq![op] + rest)[0] == op);
    if run.len() > 0 && grammar_laws::no_logical(run) && (rest.len() == 0
        || rest[0].is_logical()) {
        let all = run + rest;
        let n = grammar::operand_len(all);
        grammar::lemma_operand_len(all);
        if n < run.len() {
            assert(all[n] == run[n]);
        } else if n > run.len() {
            assert(all[run.len() as int] == rest[0]);
        }
        assert(n == run.len());
        assert(all.take(n) =~= run);
        assert(all.skip(n) =~= rest);
        assert(all[0] == run[0]);
    }
}

/// As many parentheses are closed as are opened, and none before it is opened.
pub open spec fn is_balanced(tokens: Seq<TokenView>) -> bool {
    &&& expression_laws::balance(tokens) == 0
    &&& forall|k: int|
        0 <= k <= tokens.len() ==> expression_laws::balance(#[trigger] tokens.take(k)) >= 0
}

/// A token outside parentheses stays where it is, and a pair of parentheses and what stands
/// between them become one container.
pub proof fn law_parentheses_are_grouped(
    token: TokenView,
    inner: Seq<TokenView>,
    rest: Seq<TokenView>,
    wrapped: Seq<TokenView>,
)
    requires
        grammar::wrap_parentheses(rest) == Ok::<Seq<TokenView>, Seq<char>>(wrapped),
    ensures
        grammar::wrap_parentheses(Seq::empty()) == Ok::<Seq<TokenView>, Seq<char>>(Seq::empty()),
        !(token is LeftParenthesis) ==> grammar::wrap_parentheses(seq![token] + rest) == Ok::<
            Seq<TokenView>,
            Seq<char>,
        >(seq![token] + wrapped),
        is_balanced(inner) ==> grammar::wrap_parentheses(
            seq![TokenView::LeftParenthesis] + inner + seq![TokenView::RightParenthesis] + rest,
        ) == Ok::<Seq<TokenView>, Seq<char>>(
            seq![TokenView::ParenthesisContainer(inner)] + wrapped,
        ),
{
    assert((seq![token] + rest).skip(1) =~= rest);
    assert((seq![token] + rest)[0] == token);
    if is_balanced(inner) {
        let right = seq![TokenView::RightParenthesis];
        let all = seq![TokenView::LeftParenthesis] + inner + right + rest;
        let behind = all.skip(1);
        let n = inner.len() as int;
        assert(behind =~= inner + right + rest);
        expression_laws::law_closing(behind, 1);
        assert(behind.take(n + 1) =~= inner + right);
        expression_laws::lemma_balance_append(inner, right);
        expression_laws::lemma_balance_one(TokenView::RightParenthesis);
        assert(1 + expression_laws::balance(behind.take(n + 1)) == 0);
        assert forall|k: int| 0 <= k <= n implies 1 + expression_laws::balance(
            #[trigger] behind.take(k),
        ) != 0 by {
            assert(behind.take(k) =~= inner.take(k));
        }
        assert(grammar::closing(behind, 1) == Some(n));
        assert(all.subrange(1, n + 1) =~= inner);
        assert(all.skip(n + 2) =~= rest);
    }
}

/// The parentheses of a level are grouped, and a right parenthesis that is left over is
/// reported.
pub proof fn law_level_is_parenthesised(tokens: Seq<TokenView>)
    ensures
        match grammar::wrap_parentheses(tokens) {
            Err(msg) => grammar::parenthesised(tokens) == Err::<Seq<TokenView>, Seq<char>>(msg),
            Ok(wrapped) => {
                &&& (forall|i: int|
                    0 <= i < wrapped.len() ==> !(#[trigger] wrapped[i] is RightParenthesis))
                    ==> grammar::parenthesised(tokens) == Ok::<Seq<TokenView>, Seq<char>>(wrapped)
                &&& (exists|i: int|
                    0 <= i < wrapped.len() && #[trigger] wrapped[i] is RightParenthesis)
                    ==> grammar::parenthesised(tokens) == Err::<Seq<TokenView>, Seq<char>>(
                    "expected '('. but not found."@,
                )
            },
        },
{
    if let Ok(wrapped) = grammar::wrap_parentheses(tokens) {
        if exists|i: int| 0 <= i < wrapped.len() && #[trigger] wrapped[i] is RightParenthesis {
            let i = choose|i: int|
                0 <= i < wrapped.len() && #[trigger] wrapped[i] is RightParenthesis;
            assert(wrapped[i] == TokenView::RightParenthesis);
        }
    }
}

/// Joined operands: the first one alone, `or` adds one, and `and` binds one to the last.
pub proof fn law_operands_are_joined(items: Seq<TokenView>, a: TokenView, b: TokenView)
    requires
        items.len() % 2 == 1,
    ensures
        grammar::alternatives(seq![a]) == seq![a],
        grammar::alternatives(items.push(TokenView::Or).push(b)) == grammar::alternatives(
            items,
        ).push(b),
        grammar::alternatives(items.push(TokenView::And).push(b)) == grammar::alternatives(
            items,
        ).drop_last().push(
            TokenView::AndContainer(seq![grammar::alternatives(items).last(), b]),
        ),
{
    let or = items.push(TokenView::Or).push(b);
    let and = items.push(TokenView::And).push(b);
    assert(or.take(or.len() - 2) =~= items);
    assert(and.take(and.len() - 2) =~= items);
}

/// Tokens that are not made by parsing become no condition.
pub proof fn law_other_tokens_become_nothing(
    token: TokenView,
    sub: Seq<TokenView>,
    names: Map<Seq<char>, NodeView>,
)
    ensures
        !(token is SelectionReference || token is AndContainer || token is OrContainer
            || token is NotContainer) ==> condition::node_of(token, names) == Err::<
            NodeView,
            Seq<char>,
        >("unknown error"@),
        sub.len() > 1 ==> condition::node_of(TokenView::NotContainer(sub), names) == Err::<
            NodeView,
            Seq<char>,
        >("unknown error"@),
{
}

/// Where a negation that negates nothing comes up: in itself, and in what it is part of if
/// nothing is wrong with the tokens before it.
pub proof fn law_empty_negations(
    token: TokenView,
    sub: Seq<TokenView>,
    names: Map<Seq<char>, NodeView>,
)
    ensures
        condition::negates_nothing(TokenView::NotContainer(Seq::empty()), names),
        condition::negates_nothing(TokenView::NotContainer(seq![token]), names)
            == condition::negates_nothing(token, names),
        sub.len() > 1 ==> !condition::negates_nothing(TokenView::NotContainer(sub), names),
        !(token is NotContainer || token is AndContainer || token is OrContainer)
            ==> !condition::negates_nothing(token, names),
        !condition::negates_nothing(TokenView::AndContainer(Seq::empty()), names),
        !condition::negates_nothing(TokenView::OrContainer(Seq::empty()), names),
        condition::negates_nothing(TokenView::AndContainer(sub.push(token)), names) <==> {
            ||| condition::negates_nothing(TokenView::AndContainer(sub), names)
            ||| condition::node_of(TokenView::AndContainer(sub), names) is Ok
                && condition::negates_nothing(token, names)
        },
        condition::negates_nothing(TokenView::OrContainer(sub.push(token)), names) <==> {
            ||| condition::negates_nothing(TokenView::OrContainer(sub), names)
            ||| condition::node_of(TokenView::OrContainer(sub), names) is Ok
                && condition::negates_nothing(token, names)
        },
{
    let none = Seq::<TokenView>::empty();
    let more = sub.push(token);
    assert(seq![token][0] == token);
    assert(more.drop_last() =~= sub);
    assert(more.last() == token);
    assert(!condition::any_negates_nothing(none, names));
    assert(condition::negates_nothing(TokenView::AndContainer(none), names)
        == condition::any_negates_nothing(none, names));
    assert(condition::negates_nothing(TokenView::OrContainer(none), names)
        == condition::any_negates_nothing(none, names));
    assert(condition::negates_nothing(TokenView::AndContainer(sub), names)
        == condition::any_negates_nothing(sub, names));
    assert(condition::negates_nothing(TokenView::OrContainer(sub), names)
        == condition::any_negates_nothing(sub, names));
    assert(condition::negates_nothing(TokenView::AndContainer(more), names)
        == condition::any_negates_nothing(more, names));
    assert(condition::negates_nothing(TokenView::OrContainer(more), names)
        == condition::any_negates_nothing(more, names));
}

/// The matchers that keys can ask for, in the order in which they are tried.
pub proof fn law_matchers_are_tried()
    ensures
        selection::key_matchers().len() == 4,
        selection::key_matchers()[0] == MatcherView::Regex(None),
        selection::key_matchers()[1] == MatcherView::Minlength(0),
        selection::key_matchers()[2] == MatcherView::Regexes(Seq::empty()),
        selection::key_matchers()[3] == MatcherView::Whitelist(Seq::empty()),
{
}

} // verus!
