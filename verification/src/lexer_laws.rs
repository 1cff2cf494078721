//! How expressions that are put together are split into tokens.
use vstd::prelude::*;

use crate::condition;
use crate::grammar_laws;
use crate::pattern;
use crate::token::TokenView;

verus! {

/// A character that can continue no word.
pub open spec fn ends_word(text: Seq<char>) -> bool {
    text.len() == 0 || !pattern::word_char(text[0])
}

pub proof fn lemma_word_end_append(a: Seq<char>, b: Seq<char>, from: int)
    requires
        ends_word(b),
        0 <= from <= a.len(),
    ensures
        pattern::word_end(a + b, from) == pattern::word_end(a, from),
    decreases a.len() - from,
{
    if from < a.len() {
        assert((a + b)[from] == a[from]);
        lemma_word_end_append(a, b, from + 1);
    } else if b.len() > 0 {
        assert((a + b)[from] == b[0]);
    }
}

proof fn lemma_one_char_prefix(text: Seq<char>, word: Seq<char>, c: char)
    requires
        word == seq![c],
    ensures
        word.is_prefix_of(text) == (text.len() > 0 && text[0] == c),
{
    if text.len() > 0 && text[0] == c {
        assert(text.subrange(0, 1) =~= word);
    } else if word.is_prefix_of(text) {
        assert(text.subrange(0, 1)[0] == text[0]);
    }
}

proof fn lemma_lexeme_append(a: Seq<char>, b: Seq<char>)
    requires
        a.len() > 0,
        ends_word(b),
    ensures
        condition::lexeme(a + b) == condition::lexeme(a),
{
    reveal_strlit("(");
    reveal_strlit(")");
    reveal_strlit(" ");
    assert("("@ =~= seq!['(']);
    assert(")"@ =~= seq![')']);
    assert(" "@ =~= seq![' ']);
    let all = a + b;
    assert(all[0] == a[0]);
    lemma_one_char_prefix(a, "("@, '(');
    lemma_one_char_prefix(all, "("@, '(');
    lemma_one_char_prefix(a, ")"@, ')');
    lemma_one_char_prefix(all, ")"@, ')');
    lemma_one_char_prefix(a, " "@, ' ');
    lemma_one_char_prefix(all, " "@, ' ');
    lemma_word_end_append(a, b, 0);
    condition::lemma_word_end(a, 0);
    let n = pattern::word_end(a, 0);
    assert(all.take(n) =~= a.take(n));
}

/// Text that starts with no word character leaves the tokens in front of it alone. Blanks do,
/// and so do parentheses.
pub proof fn law_tokens_append(a: Seq<char>, b: Seq<char>)
    requires
        condition::tokens_of(a) is Ok,
        condition::tokens_of(b) is Ok,
        ends_word(b),
    ensures
        condition::tokens_of(a + b) == Ok::<Seq<TokenView>, Seq<char>>(
            condition::tokens_of(a)->Ok_0 + condition::tokens_of(b)->Ok_0,
        ),
    decreases a.len(),
{
    let tokens = condition::tokens_of(a)->Ok_0;
    let more = condition::tokens_of(b)->Ok_0;
    if a.len() == 0 {
        assert(a + b =~= b);
        assert(tokens + more =~= more);
    } else {
        lemma_lexeme_append(a, b);
        condition::lemma_lexeme(a);
        let word = condition::lexeme(a)->0;
        let n = word.len() as int;
        let rest = a.skip(n);
        assert((a + b).skip(n) =~= rest + b);
        law_tokens_append(rest, b);
        let rest_tokens = condition::tokens_of(rest)->Ok_0;
        let first = seq![condition::token_of(word)];
        assert(first + (rest_tokens + more) =~= (first + rest_tokens) + more);
    }
}

/// The tokens of one lexeme.
proof fn lemma_one_lexeme(word: Seq<char>)
    requires
        word.len() > 0,
        condition::lexeme(word) == Some(word),
    ensures
        condition::tokens_of(word) == Ok::<Seq<TokenView>, Seq<char>>(
            if condition::token_of(word) is Space {
                seq![]
            } else {
                seq![condition::token_of(word)]
            },
        ),
{
    let none = Seq::<char>::empty();
    assert(word.skip(word.len() as int) =~= none);
    assert(condition::tokens_of(none) == Ok::<Seq<TokenView>, Seq<char>>(seq![]));
    let first = seq![condition::token_of(word)];
    assert(first + Seq::<TokenView>::empty() =~= first);
}

/// A word: word characters, and at least one.
pub open spec fn is_word(text: Seq<char>) -> bool {
    text.len() > 0 && pattern::word_end(text, 0) == text.len()
}

proof fn lemma_word_tokens(word: Seq<char>)
    requires
        is_word(word),
    ensures
        condition::tokens_of(word) == Ok::<Seq<TokenView>, Seq<char>>(
            seq![condition::token_of(word)],
        ),
{
    reveal_strlit("(");
    reveal_strlit(")");
    reveal_strlit(" ");
    assert("("@ =~= seq!['(']);
    assert(")"@ =~= seq![')']);
    assert(" "@ =~= seq![' ']);
    lemma_one_char_prefix(word, "("@, '(');
    lemma_one_char_prefix(word, ")"@, ')');
    lemma_one_char_prefix(word, " "@, ' ');
    assert(pattern::word_char(word[0]));
    assert(word.take(word.len() as int) =~= word);
    lemma_one_lexeme(word);
}

proof fn lemma_word_end_all(text: Seq<char>, from: int)
    requires
        0 <= from <= text.len(),
        forall|i: int| from <= i < text.len() ==> pattern::word_char(#[trigger] text[i]),
    ensures
        pattern::word_end(text, from) == text.len(),
    decreases text.len() - from,
{
    if from < text.len() {
        assert(pattern::word_char(text[from]));
        lemma_word_end_all(text, from + 1);
    }
}

proof fn lemma_keyword_tokens(word: Seq<char>, token: TokenView)
    requires
        (word == "or"@ && token == TokenView::Or) || (word == "and"@ && token == TokenView::And)
            || (word == "not"@ && token == TokenView::Not),
    ensures
        condition::tokens_of(word) == Ok::<Seq<TokenView>, Seq<char>>(seq![token]),
{
    reveal_strlit("or");
    reveal_strlit("and");
    reveal_strlit("not");
    reveal_strlit("(");
    reveal_strlit(")");
    reveal_strlit(" ");
    lemma_word_end_all(word, 0);
    lemma_word_tokens(word);
    assert(word.len() != 1);
    assert("or"@[0] == 'o' && "and"@[0] == 'a' && "not"@[0] == 'n');
}

/// A blank in front of an expression makes no difference.
proof fn lemma_blank_tokens(text: Seq<char>)
    ensures
        condition::tokens_of(" "@ + text) == condition::tokens_of(text),
        ends_word(" "@ + text),
{
    reveal_strlit(" ");
    reveal_strlit("(");
    reveal_strlit(")");
    assert("("@ =~= seq!['(']);
    assert(")"@ =~= seq![')']);
    assert(" "@ =~= seq![' ']);
    let all = " "@ + text;
    assert(all[0] == ' ');
    lemma_one_char_prefix(all, "("@, '(');
    lemma_one_char_prefix(all, ")"@, ')');
    lemma_one_char_prefix(all, " "@, ' ');
    assert(all.skip(1) =~= text);
}

proof fn lemma_right_parenthesis_tokens()
    ensures
        condition::tokens_of(")"@) == Ok::<Seq<TokenView>, Seq<char>>(
            seq![TokenView::RightParenthesis],
        ),
        ends_word(")"@),
{
    reveal_strlit("(");
    reveal_strlit(")");
    assert("("@ =~= seq!['(']);
    assert(")"@ =~= seq![')']);
    lemma_one_char_prefix(")"@, "("@, '(');
    lemma_one_char_prefix(")"@, ")"@, ')');
    lemma_one_lexeme(")"@);
}

/// The tokens of an expression in parentheses.
pub proof fn law_parenthesis_tokens(text: Seq<char>)
    requires
        condition::tokens_of(text) is Ok,
    ensures
        condition::tokens_of("("@ + text + ")"@) == Ok::<Seq<TokenView>, Seq<char>>(
            grammar_laws::in_parentheses(condition::tokens_of(text)->Ok_0),
        ),
        ends_word("("@ + text + ")"@),
{
    reveal_strlit("(");
    assert("("@ =~= seq!['(']);
    lemma_right_parenthesis_tokens();
    law_tokens_append(text, ")"@);
    let tokens = condition::tokens_of(text)->Ok_0;
    let rest = text + ")"@;
    let all = "("@ + rest;
    assert("("@ + text + ")"@ =~= all);
    assert(all[0] == '(');
    lemma_one_char_prefix(all, "("@, '(');
    assert(all.skip(1) =~= rest);
    let left = seq![TokenView::LeftParenthesis];
    assert(left + (tokens + seq![TokenView::RightParenthesis]) =~= grammar_laws::in_parentheses(
        tokens,
    ));
}

/// The tokens of two expressions with a blank between them.
pub proof fn law_blank_tokens(a: Seq<char>, b: Seq<char>)
    requires
        condition::tokens_of(a) is Ok,
        condition::tokens_of(b) is Ok,
    ensures
        condition::tokens_of(a + " "@ + b) == Ok::<Seq<TokenView>, Seq<char>>(
            condition::tokens_of(a)->Ok_0 + condition::tokens_of(b)->Ok_0,
        ),
{
    lemma_blank_tokens(b);
    law_tokens_append(a, " "@ + b);
    assert(a + " "@ + b =~= a + (" "@ + b));
}

/// The tokens of two expressions with `or` between them.
pub proof fn law_or_tokens(a: Seq<char>, b: Seq<char>)
    requires
        condition::tokens_of(a) is Ok,
        condition::tokens_of(b) is Ok,
    ensures
        condition::tokens_of(a + " or "@ + b) == Ok::<Seq<TokenView>, Seq<char>>(
            condition::tokens_of(a)->Ok_0 + seq![TokenView::Or] + condition::tokens_of(b)->Ok_0,
        ),
{
    lemma_keyword_tokens("or"@, TokenView::Or);
    law_blank_tokens("or"@, b);
    law_blank_tokens(a, "or"@ + " "@ + b);
    assert(a + " or "@ + b =~= a + " "@ + ("or"@ + " "@ + b)) by {
        reveal_strlit(" ");
        reveal_strlit("or");
        reveal_strlit(" or ");
    }
    assert(condition::tokens_of(a)->Ok_0 + (seq![TokenView::Or] + condition::tokens_of(b)->Ok_0)
        =~= condition::tokens_of(a)->Ok_0 + seq![TokenView::Or] + condition::tokens_of(b)->Ok_0);
}

/// The tokens of two expressions with `and` between them.
pub proof fn law_and_tokens(a: Seq<char>, b: Seq<char>)
    requires
        condition::tokens_of(a) is Ok,
        condition::tokens_of(b) is Ok,
    ensures
        condition::tokens_of(a + " and "@ + b) == Ok::<Seq<TokenView>, Seq<char>>(
            condition::tokens_of(a)->Ok_0 + seq![TokenView::And] + condition::tokens_of(b)->Ok_0,
        ),
{
    lemma_keyword_tokens("and"@, TokenView::And);
    law_blank_tokens("and"@, b);
    law_blank_tokens(a, "and"@ + " "@ + b);
    assert(a + " and "@ + b =~= a + " "@ + ("and"@ + " "@ + b)) by {
        reveal_strlit(" ");
        reveal_strlit("and");
        reveal_strlit(" and ");
    }
    assert(condition::tokens_of(a)->Ok_0 + (seq![TokenView::And] + condition::tokens_of(b)->Ok_0)
        =~= condition::tokens_of(a)->Ok_0 + seq![TokenView::And] + condition::tokens_of(b)->Ok_0);
}

/// The tokens of an expression with `not` in front.
pub proof fn law_not_tokens(a: Seq<char>)
    requires
        condition::tokens_of(a) is Ok,
    ensures
        condition::tokens_of("not "@ + a) == Ok::<Seq<TokenView>, Seq<char>>(
            seq![TokenView::Not] + condition::tokens_of(a)->Ok_0,
        ),
{
    lemma_keyword_tokens("not"@, TokenView::Not);
    law_blank_tokens("not"@, a);
    assert("not "@ + a =~= "not"@ + " "@ + a) by {
        reveal_strlit(" ");
        reveal_strlit("not");
        reveal_strlit("not ");
    }
}

/// The tokens of a name that is a word and none of the operators.
pub proof fn law_name_tokens(name: Seq<char>)
    requires
        is_word(name),
        name != "and"@,
        name != "or"@,
        name != "not"@,
    ensures
        condition::tokens_of(name) == Ok::<Seq<TokenView>, Seq<char>>(
            seq![TokenView::SelectionReference(name)],
        ),
{
    reveal_strlit("(");
    reveal_strlit(")");
    reveal_strlit(" ");
    assert(pattern::word_char(name[0]));
    assert("("@[0] == '(' && ")"@[0] == ')' && " "@[0] == ' ');
    lemma_word_tokens(name);
}

/// A character that can stand in an expression.
pub open spec fn is_usable(c: char) -> bool {
    pattern::word_char(c) || c == '(' || c == ')' || c == ' '
}

pub open spec fn all_usable(text: Seq<char>) -> bool {
    forall|i: int| 0 <= i < text.len() ==> is_usable(#[trigger] text[i])
}

proof fn lemma_word_end_chars(text: Seq<char>, from: int)
    requires
        0 <= from <= text.len(),
    ensures
        forall|i: int|
            from <= i < pattern::word_end(text, from) ==> pattern::word_char(#[trigger] text[i]),
    decreases text.len() - from,
{
    if from < text.len() && pattern::word_char(text[from]) {
        lemma_word_end_chars(text, from + 1);
    }
}

proof fn lemma_lexeme_usable(text: Seq<char>)
    requires
        text.len() > 0,
    ensures
        is_usable(text[0]) <==> condition::lexeme(text) is Some,
        condition::lexeme(text) matches Some(word) ==> forall|i: int|
            0 <= i < word.len() ==> is_usable(#[trigger] text[i]),
{
    reveal_strlit("(");
    reveal_strlit(")");
    reveal_strlit(" ");
    assert("("@ =~= seq!['(']);
    assert(")"@ =~= seq![')']);
    assert(" "@ =~= seq![' ']);
    lemma_one_char_prefix(text, "("@, '(');
    lemma_one_char_prefix(text, ")"@, ')');
    lemma_one_char_prefix(text, " "@, ' ');
    condition::lemma_word_end(text, 0);
    condition::lemma_word_end(text, 1);
    lemma_word_end_chars(text, 0);
}

/// An expression can be split into tokens exactly if each of its characters is a word
/// character, a parenthesis or a blank.
pub proof fn law_usable_characters(text: Seq<char>)
    ensures
        condition::tokens_of(text) is Ok <==> all_usable(text),
    decreases text.len(),
{
    if text.len() > 0 {
        lemma_lexeme_usable(text);
        condition::lemma_lexeme(text);
        match condition::lexeme(text) {
            None => {
                assert(!is_usable(text[0]));
            },
            Some(word) => {
                let n = word.len() as int;
                let rest = text.skip(n);
                law_usable_characters(rest);
                if all_usable(text) {
                    assert forall|i: int| 0 <= i < rest.len() implies is_usable(
                        #[trigger] rest[i],
                    ) by {
                        assert(is_usable(text[n + i]));
                    }
                }
                if all_usable(rest) {
                    assert forall|i: int| 0 <= i < text.len() implies is_usable(
                        #[trigger] text[i],
                    ) by {
                        if i >= n {
                            assert(is_usable(rest[i - n]));
                        }
                    }
                }
            },
        }
    }
}

/// A word is made of word characters.
pub proof fn lemma_word_chars(word: Seq<char>)
    requires
        is_word(word),
    ensures
        forall|i: int| 0 <= i < word.len() ==> pattern::word_char(#[trigger] word[i]),
{
    lemma_word_end_chars(word, 0);
}

/// A word lacks every character that is no word character.
pub proof fn law_word_lacks(word: Seq<char>, c: char)
    requires
        is_word(word),
        !pattern::word_char(c),
    ensures
        forall|i: int| 0 <= i < word.len() ==> #[trigger] word[i] != c,
{
    lemma_word_end_chars(word, 0);
}

} // verus!
