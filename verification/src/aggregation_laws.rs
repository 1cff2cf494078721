//! What aggregation conditions that are written out mean.
use vstd::prelude::*;

use crate::aggregation;
use crate::aggregation::{AggregationTokenView, AggregationView};
use crate::condition;
use crate::condition_laws;
use crate::lexer_laws;
use crate::pattern;
use crate::text;

verus! {

proof fn lemma_prefix_head(part: Seq<char>, text: Seq<char>)
    requires
        part.len() > 0,
    ensures
        part.is_prefix_of(text) ==> text.len() > 0 && text[0] == part[0],
        part.is_prefix_of(text) && part.len() > 1 ==> text.len() > 1 && text[1] == part[1],
{
    if part.is_prefix_of(text) {
        assert(text.subrange(0, part.len() as int)[0] == text[0]);
        if part.len() > 1 {
            assert(text.subrange(0, part.len() as int)[1] == text[1]);
        }
    }
}

/// The prefixes that the first lexeme is told by, as far as the first character tells them.
proof fn lemma_first_chars(text: Seq<char>)
    ensures
        "count("@.is_prefix_of(text) ==> text.len() > 0 && text[0] == 'c',
        " "@.is_prefix_of(text) ==> text.len() > 0 && text[0] == ' ',
        "by"@.is_prefix_of(text) ==> text.len() > 0 && text[0] == 'b',
        "=="@.is_prefix_of(text) ==> text.len() > 0 && text[0] == '=',
        "<="@.is_prefix_of(text) ==> text.len() > 1 && text[0] == '<' && text[1] == '=',
        ">="@.is_prefix_of(text) ==> text.len() > 1 && text[0] == '>' && text[1] == '=',
        "<"@.is_prefix_of(text) ==> text.len() > 0 && text[0] == '<',
        ">"@.is_prefix_of(text) ==> text.len() > 0 && text[0] == '>',
{
    reveal_strlit("count(");
    reveal_strlit(" ");
    reveal_strlit("by");
    reveal_strlit("==");
    reveal_strlit("<=");
    reveal_strlit(">=");
    reveal_strlit("<");
    reveal_strlit(">");
    lemma_prefix_head("count("@, text);
    lemma_prefix_head(" "@, text);
    lemma_prefix_head("by"@, text);
    lemma_prefix_head("=="@, text);
    lemma_prefix_head("<="@, text);
    lemma_prefix_head(">="@, text);
    lemma_prefix_head("<"@, text);
    lemma_prefix_head(">"@, text);
}

proof fn lemma_starts(part: Seq<char>, rest: Seq<char>)
    ensures
        part.is_prefix_of(part + rest),
        (part + rest).skip(part.len() as int) == rest,
{
    assert((part + rest).subrange(0, part.len() as int) =~= part);
    assert((part + rest).skip(part.len() as int) =~= rest);
}

/// `tokens` are the tokens of `text`.
#[verifier::opaque]
pub open spec fn lexes(text: Seq<char>, tokens: Seq<AggregationTokenView>) -> bool {
    aggregation::aggregation_tokens_of(text) == Ok::<Seq<AggregationTokenView>, Seq<char>>(tokens)
}

/// A lexeme at the start of a text, and the tokens of the rest.
proof fn lemma_first_token(word: Seq<char>, rest: Seq<char>, tokens: Seq<AggregationTokenView>)
    requires
        word.len() > 0,
        aggregation::aggregation_lexeme(word + rest) == Some(word),
        lexes(rest, tokens),
    ensures
        lexes(
            word + rest,
            if aggregation::aggregation_token_of(word) is SPACE {
                tokens
            } else {
                seq![aggregation::aggregation_token_of(word)] + tokens
            },
        ),
{
    reveal(lexes);
    lemma_starts(word, rest);
}

/// A blank makes no difference.
proof fn lemma_blank(rest: Seq<char>, tokens: Seq<AggregationTokenView>)
    requires
        lexes(rest, tokens),
    ensures
        lexes(" "@ + rest, tokens),
{
    lemma_first_chars(" "@ + rest);
    lemma_first_chars(" "@);
    lemma_starts(" "@, rest);
    assert((" "@ + rest)[0] == ' ' && " "@[0] == ' ' && " "@.len() == 1) by {
        reveal_strlit(" ");
    }
    lemma_first_token(" "@, rest, tokens);
}

/// How a comparison operator is written.
pub open spec fn operator_text(op: AggregationTokenView) -> Seq<char> {
    match op {
        AggregationTokenView::EQ => "=="@,
        AggregationTokenView::LE => "<="@,
        AggregationTokenView::GE => ">="@,
        AggregationTokenView::LT => "<"@,
        _ => ">"@,
    }
}

proof fn lemma_operator(
    op: AggregationTokenView,
    rest: Seq<char>,
    tokens: Seq<AggregationTokenView>,
)
    requires
        op.is_cmp_op(),
        rest.len() > 0,
        rest[0] == ' ',
        lexes(rest, tokens),
    ensures
        lexes(operator_text(op) + rest, seq![op] + tokens),
{
    let word = operator_text(op);
    let all = word + rest;
    lemma_first_chars(all);
    lemma_first_chars(word);
    lemma_starts(word, rest);
    reveal_strlit(" ");
    reveal_strlit("by");
    reveal_strlit("==");
    reveal_strlit("<=");
    reveal_strlit(">=");
    reveal_strlit("<");
    reveal_strlit(">");
    assert(all[0] == word[0]);
    assert(word.len() == 1 ==> all[1] == ' ');
    assert(word.len() == 2 ==> word[1] == '=');
    assert(aggregation::aggregation_lexeme(all) == Some(word));
    assert(aggregation::aggregation_token_of(word) == op);
    lemma_first_token(word, rest, tokens);
}

/// A field name or a number: a word that does not start with `by`.
pub open spec fn is_keyword(word: Seq<char>) -> bool {
    lexer_laws::is_word(word) && !"by"@.is_prefix_of(word)
}

proof fn lemma_keyword(word: Seq<char>, rest: Seq<char>, tokens: Seq<AggregationTokenView>)
    requires
        is_keyword(word),
        rest.len() == 0 || rest[0] == ' ',
        lexes(rest, tokens),
    ensures
        lexes(word + rest, seq![AggregationTokenView::KEYWORD(word)] + tokens),
{
    let all = word + rest;
    lemma_first_chars(all);
    lemma_first_chars(word);
    lexer_laws::lemma_word_end_append(word, rest, 0);
    assert(all.take(word.len() as int) =~= word);
    lexer_laws::law_word_lacks(word, '(');
    lexer_laws::law_word_lacks(word, ' ');
    lexer_laws::law_word_lacks(word, '=');
    lexer_laws::law_word_lacks(word, '<');
    lexer_laws::law_word_lacks(word, '>');
    assert(all[0] == word[0]);
    lemma_no_count(word, rest);
    assert(!"by"@.is_prefix_of(all)) by {
        reveal_strlit("by");
        if "by"@.is_prefix_of(all) {
            lemma_prefix_head("by"@, all);
            if word.len() == 1 {
                assert(all[1] == rest[0]);
                assert(pattern::word_char('y'));
            } else {
                assert(word.subrange(0, 2) =~= "by"@);
            }
        }
    }
    assert(" "@.len() == 1 && " "@[0] == ' ' && "=="@[0] == '=' && "<="@[0] == '<' && ">="@[0]
        == '>' && "<"@[0] == '<' && ">"@[0] == '>') by {
        reveal_strlit(" ");
        reveal_strlit("==");
        reveal_strlit("<=");
        reveal_strlit(">=");
        reveal_strlit("<");
        reveal_strlit(">");
    }
    assert(word != "by"@) by {
        if word == "by"@ {
            assert("by"@.subrange(0, "by"@.len() as int) =~= "by"@);
        }
    }
    assert(aggregation::aggregation_lexeme(all) == Some(word));
    assert(aggregation::aggregation_token_of(word) == AggregationTokenView::KEYWORD(word));
    lemma_first_token(word, rest, tokens);
}

/// A word with a blank or nothing behind it is no `count(..)`.
proof fn lemma_no_count(word: Seq<char>, rest: Seq<char>)
    requires
        lexer_laws::is_word(word),
        rest.len() == 0 || rest[0] == ' ',
    ensures
        !"count("@.is_prefix_of(word),
        !"count("@.is_prefix_of(word + rest),
{
    reveal_strlit("count(");
    let all = word + rest;
    lexer_laws::law_word_lacks(word, '(');
    if "count("@.is_prefix_of(word) {
        assert(word.subrange(0, 6)[5] == word[5]);
    }
    if "count("@.is_prefix_of(all) {
        let head = all.subrange(0, 6);
        assert(head[0] == all[0] && head[1] == all[1] && head[2] == all[2] && head[3] == all[3]
            && head[4] == all[4] && head[5] == all[5]);
        if word.len() > 5 {
            assert(all[5] == word[5]);
        } else {
            assert(all[word.len() as int] == rest[0]);
        }
    }
}

proof fn lemma_without_first_at_start(part: Seq<char>, rest: Seq<char>)
    ensures
        text::without_first(part + rest, part) == rest,
{
    lemma_starts(part, rest);
    assert((part + rest).take(part.len() as int) =~= part);
}

proof fn lemma_without_char_none(text: Seq<char>, c: char)
    requires
        forall|i: int| 0 <= i < text.len() ==> #[trigger] text[i] != c,
    ensures
        text::without_char(text, c) == text,
    decreases text.len(),
{
    if text.len() > 0 {
        assert(text[text.len() - 1] != c);
        lemma_without_char_none(text.drop_last(), c);
        assert(text.drop_last().push(text.last()) =~= text);
    } else {
        assert(text =~= seq![]);
    }
}

/// A name for a field, or none.
pub open spec fn is_field(field: Seq<char>) -> bool {
    field.len() == 0 || lexer_laws::is_word(field)
}

/// How `count` is written.
pub open spec fn count_text(field: Seq<char>) -> Seq<char> {
    "count("@ + field + ")"@
}

proof fn lemma_count_field(field: Seq<char>)
    requires
        is_field(field),
    ensures
        aggregation::count_field(count_text(field)) == field,
{
    reveal_strlit(")");
    if field.len() > 0 {
        lexer_laws::law_word_lacks(field, ')');
        lexer_laws::law_word_lacks(field, ' ');
    }
    let inner = field + ")"@;
    assert(count_text(field) =~= "count("@ + inner);
    lemma_without_first_at_start("count("@, inner);
    let n = field.len() as int;
    assert forall|j: int| 0 <= j < n implies !text::occurs_at(inner, ")"@, j) by {
        if text::occurs_at(inner, ")"@, j) {
            assert(inner.subrange(j, j + 1)[0] == inner[j]);
            assert(inner[j] == field[j]);
        }
    }
    assert(inner.subrange(n, n + 1) =~= ")"@);
    text::lemma_without_first(inner, ")"@, n);
    assert(inner.take(n) + inner.skip(n + 1) =~= field);
    lemma_without_char_none(field, ' ');
}

proof fn lemma_word_end_at(text: Seq<char>, from: int, end: int)
    requires
        0 <= from <= end <= text.len(),
        forall|i: int| from <= i < end ==> pattern::word_char(#[trigger] text[i]),
        end < text.len() ==> !pattern::word_char(text[end]),
    ensures
        pattern::word_end(text, from) == end,
    decreases end - from,
{
    if from < end {
        assert(pattern::word_char(text[from]));
        lemma_word_end_at(text, from + 1, end);
    }
}

proof fn lemma_count(field: Seq<char>, rest: Seq<char>, tokens: Seq<AggregationTokenView>)
    requires
        is_field(field),
        lexes(rest, tokens),
    ensures
        lexes(count_text(field) + rest, seq![AggregationTokenView::COUNT(field)] + tokens),
{
    let word = count_text(field);
    let all = word + rest;
    let n = 6 + field.len() as int;
    assert("count("@.len() == 6 && ")"@.len() == 1 && ")"@[0] == ')') by {
        reveal_strlit("count(");
        reveal_strlit(")");
    }
    assert(all =~= "count("@ + (field + ")"@ + rest));
    lemma_starts("count("@, field + ")"@ + rest);
    assert(word =~= "count("@ + (field + ")"@));
    lemma_starts("count("@, field + ")"@);
    assert(all[n] == ')');
    if field.len() > 0 {
        lexer_laws::lemma_word_chars(field);
        lexer_laws::law_word_lacks(field, ' ');
        assert(all[6] == field[0]);
        assert forall|i: int| 6 <= i < n implies pattern::word_char(#[trigger] all[i]) by {
            assert(all[i] == field[i - 6]);
        }
    }
    assert(pattern::blank_end(all, 6) == 6);
    lemma_word_end_at(all, 6, n);
    assert(pattern::blank_end(all, n) == n);
    assert(all.take(n + 1) =~= word);
    assert(pattern::count_match(all) == Some(word));
    lemma_count_field(field);
    lemma_first_token(word, rest, tokens);
}

/// How a comparison with a number is written.
pub open spec fn comparison_text(op: AggregationTokenView, num: Seq<char>) -> Seq<char> {
    operator_text(op) + " "@ + num
}

/// A number in the range of the comparisons, as it is written.
pub open spec fn is_number(num: Seq<char>) -> bool {
    lexer_laws::is_word(num) && text::int32_of(num) is Some
}

proof fn lemma_comparison(op: AggregationTokenView, num: Seq<char>)
    requires
        op.is_cmp_op(),
        is_number(num),
    ensures
        lexes(comparison_text(op, num), seq![op, AggregationTokenView::KEYWORD(num)]),
{
    let none = Seq::<char>::empty();
    let keyword = AggregationTokenView::KEYWORD(num);
    let no_tokens = Seq::<AggregationTokenView>::empty();
    lexer_laws::lemma_word_chars(num);
    assert(is_keyword(num)) by {
        reveal_strlit("by");
        lemma_prefix_head("by"@, num);
        assert(num[0] == '+' || num[0] == '-' || text::is_digit(num[0]));
    }
    assert(lexes(none, no_tokens)) by {
        reveal(lexes);
    }
    lemma_keyword(num, none, no_tokens);
    assert(num + none =~= num);
    assert(seq![keyword] + no_tokens =~= seq![keyword]);
    lemma_blank(num, seq![keyword]);
    assert((" "@ + num)[0] == ' ') by {
        reveal_strlit(" ");
    }
    lemma_operator(op, " "@ + num, seq![keyword]);
    assert(comparison_text(op, num) =~= operator_text(op) + (" "@ + num));
    assert(seq![op] + seq![keyword] =~= seq![op, keyword]);
}

/// What the part of a condition behind the pipe means.
pub open spec fn part_meaning(part: Seq<char>) -> Result<AggregationView, Seq<char>> {
    match aggregation::aggregation_tokens_of(part) {
        Err(msg) => Err(msg),
        Ok(tokens) => aggregation::parse_aggregation(tokens),
    }
}

/// The name of a field that is counted.
pub open spec fn field_name(field: Seq<char>) -> Option<Seq<char>> {
    if field.len() == 0 {
        None
    } else {
        Some(field)
    }
}

/// The tokens of `count(field) op num`.
pub open spec fn count_tokens(field: Seq<char>, op: AggregationTokenView, num: Seq<char>) -> Seq<
    AggregationTokenView,
> {
    seq![AggregationTokenView::COUNT(field), op, AggregationTokenView::KEYWORD(num)]
}

proof fn lemma_count_tokens(field: Seq<char>, op: AggregationTokenView, num: Seq<char>)
    requires
        is_field(field),
        op.is_cmp_op(),
        is_number(num),
    ensures
        lexes(
            " "@ + count_text(field) + " "@ + comparison_text(op, num),
            count_tokens(field, op, num),
        ),
{
    let comparison = comparison_text(op, num);
    let compared = seq![op, AggregationTokenView::KEYWORD(num)];
    lemma_comparison(op, num);
    lemma_blank(comparison, compared);
    lemma_count(field, " "@ + comparison, compared);
    let counted = count_text(field) + (" "@ + comparison);
    assert(seq![AggregationTokenView::COUNT(field)] + compared =~= count_tokens(field, op, num));
    lemma_blank(counted, count_tokens(field, op, num));
    assert(" "@ + count_text(field) + " "@ + comparison =~= " "@ + counted);
}

proof fn lemma_parse_count(field: Seq<char>, op: AggregationTokenView, num: Seq<char>)
    requires
        op.is_cmp_op(),
        text::int32_of(num) is Some,
    ensures
        aggregation::parse_aggregation(count_tokens(field, op, num)) == Ok::<
            AggregationView,
            Seq<char>,
        >(
            AggregationView {
                field_name: field_name(field),
                by_field_name: None,
                cmp_op: op,
                cmp_num: text::int32_of(num)->0,
            },
        ),
{
    let tokens = count_tokens(field, op, num);
    assert(tokens.skip(1) =~= seq![op, AggregationTokenView::KEYWORD(num)]);
}

/// `count(field) op num` means a comparison of the count with the number.
pub proof fn law_count(field: Seq<char>, op: AggregationTokenView, num: Seq<char>)
    requires
        is_field(field),
        op.is_cmp_op(),
        is_number(num),
    ensures
        part_meaning(" "@ + count_text(field) + " "@ + comparison_text(op, num)) == Ok::<
            AggregationView,
            Seq<char>,
        >(
            AggregationView {
                field_name: field_name(field),
                by_field_name: None,
                cmp_op: op,
                cmp_num: text::int32_of(num)->0,
            },
        ),
{
    lemma_count_tokens(field, op, num);
    lemma_parse_count(field, op, num);
    reveal(lexes);
}

/// The tokens of `count(field) by other op num`.
pub open spec fn count_by_tokens(
    field: Seq<char>,
    other: Seq<char>,
    op: AggregationTokenView,
    num: Seq<char>,
) -> Seq<AggregationTokenView> {
    seq![
        AggregationTokenView::COUNT(field),
        AggregationTokenView::BY,
        AggregationTokenView::KEYWORD(other),
        op,
        AggregationTokenView::KEYWORD(num),
    ]
}

proof fn lemma_by_tokens(other: Seq<char>, op: AggregationTokenView, num: Seq<char>)
    requires
        is_keyword(other),
        op.is_cmp_op(),
        is_number(num),
    ensures
        lexes(
            " by "@ + other + " "@ + comparison_text(op, num),
            seq![
                AggregationTokenView::BY,
                AggregationTokenView::KEYWORD(other),
                op,
                AggregationTokenView::KEYWORD(num),
            ],
        ),
{
    let comparison = comparison_text(op, num);
    let compared = seq![op, AggregationTokenView::KEYWORD(num)];
    let grouped = seq![AggregationTokenView::KEYWORD(other)] + compared;
    let by = seq![AggregationTokenView::BY] + grouped;
    lemma_comparison(op, num);
    lemma_blank(comparison, compared);
    assert((" "@ + comparison)[0] == ' ') by {
        reveal_strlit(" ");
    }
    lemma_keyword(other, " "@ + comparison, compared);
    let grouped_text = other + (" "@ + comparison);
    lemma_blank(grouped_text, grouped);
    lemma_by(" "@ + grouped_text, grouped);
    let by_text = "by"@ + (" "@ + grouped_text);
    lemma_blank(by_text, by);
    assert(" by "@ =~= " "@ + "by"@ + " "@) by {
        reveal_strlit(" ");
        reveal_strlit("by");
        reveal_strlit(" by ");
    }
    assert(" by "@ + other + " "@ + comparison =~= " "@ + by_text);
    assert(by =~= seq![
        AggregationTokenView::BY,
        AggregationTokenView::KEYWORD(other),
        op,
        AggregationTokenView::KEYWORD(num),
    ]);
}

proof fn lemma_count_by_tokens(
    field: Seq<char>,
    other: Seq<char>,
    op: AggregationTokenView,
    num: Seq<char>,
)
    requires
        is_field(field),
        is_keyword(other),
        op.is_cmp_op(),
        is_number(num),
    ensures
        lexes(
            " "@ + count_text(field) + " by "@ + other + " "@ + comparison_text(op, num),
            count_by_tokens(field, other, op, num),
        ),
{
    let by_text = " by "@ + other + " "@ + comparison_text(op, num);
    let by = seq![
        AggregationTokenView::BY,
        AggregationTokenView::KEYWORD(other),
        op,
        AggregationTokenView::KEYWORD(num),
    ];
    lemma_by_tokens(other, op, num);
    lemma_count(field, by_text, by);
    assert(seq![AggregationTokenView::COUNT(field)] + by =~= count_by_tokens(
        field,
        other,
        op,
        num,
    ));
    lemma_blank(count_text(field) + by_text, count_by_tokens(field, other, op, num));
    assert(" "@ + count_text(field) + " by "@ + other + " "@ + comparison_text(op, num) =~= " "@ + (
    count_text(field) + by_text));
}

proof fn lemma_parse_count_by(
    field: Seq<char>,
    other: Seq<char>,
    op: AggregationTokenView,
    num: Seq<char>,
)
    requires
        op.is_cmp_op(),
        text::int32_of(num) is Some,
    ensures
        aggregation::parse_aggregation(count_by_tokens(field, other, op, num)) == Ok::<
            AggregationView,
            Seq<char>,
        >(
            AggregationView {
                field_name: field_name(field),
                by_field_name: Some(other),
                cmp_op: op,
                cmp_num: text::int32_of(num)->0,
            },
        ),
{
    let tokens = count_by_tokens(field, other, op, num);
    assert(tokens.skip(3) =~= seq![op, AggregationTokenView::KEYWORD(num)]);
}

/// `count(field) by other op num` means a comparison of the counts for each value of the other
/// field with the number. The name of the other field must not start with `by`, which would be
/// taken for the word in front of it.
pub proof fn law_count_by(
    field: Seq<char>,
    other: Seq<char>,
    op: AggregationTokenView,
    num: Seq<char>,
)
    requires
        is_field(field),
        is_keyword(other),
        op.is_cmp_op(),
        is_number(num),
    ensures
        part_meaning(
            " "@ + count_text(field) + " by "@ + other + " "@ + comparison_text(op, num),
        ) == Ok::<AggregationView, Seq<char>>(
            AggregationView {
                field_name: field_name(field),
                by_field_name: Some(other),
                cmp_op: op,
                cmp_num: text::int32_of(num)->0,
            },
        ),
{
    lemma_count_by_tokens(field, other, op, num);
    lemma_parse_count_by(field, other, op, num);
    reveal(lexes);
}

/// What stands behind the pipe of a condition is what its aggregation condition means.
pub proof fn law_behind_pipe(text: Seq<char>, part: Seq<char>)
    requires
        condition_laws::lacks(text, '|'),
        condition_laws::lacks(part, '\n'),
    ensures
        part_meaning(part) matches Ok(info) ==> aggregation::compiled_aggregation(
            text + seq!['|'] + part,
        ) == Ok::<Option<AggregationView>, Seq<char>>(Some(info)),
        part_meaning(part) matches Err(msg) ==> aggregation::compiled_aggregation(
            text + seq!['|'] + part,
        ) == Err::<Option<AggregationView>, Seq<char>>(
            "aggregation condition parse error has occurred. "@ + msg,
        ),
{
    condition_laws::law_pipe(text, part, Map::empty());
}

proof fn lemma_by(rest: Seq<char>, tokens: Seq<AggregationTokenView>)
    requires
        lexes(rest, tokens),
    ensures
        lexes("by"@ + rest, seq![AggregationTokenView::BY] + tokens),
{
    let all = "by"@ + rest;
    lemma_first_chars(all);
    lemma_first_chars("by"@);
    lemma_starts("by"@, rest);
    assert(all[0] == 'b' && "by"@[0] == 'b' && "by"@.len() == 2) by {
        reveal_strlit("by");
    }
    assert(" "@.len() == 1) by {
        reveal_strlit(" ");
    }
    assert("by"@ != " "@);
    lemma_first_token("by"@, rest, tokens);
}

/// The tokens of what comes behind a token, with the token in front.
pub open spec fn after(
    token: AggregationTokenView,
    rest: Result<Seq<AggregationTokenView>, Seq<char>>,
) -> Result<Seq<AggregationTokenView>, Seq<char>> {
    match rest {
        Ok(tokens) => Ok(seq![token] + tokens),
        Err(msg) => Err(msg),
    }
}

proof fn lemma_token_first(word: Seq<char>, rest: Seq<char>)
    requires
        word.len() > 0,
        aggregation::aggregation_lexeme(word + rest) == Some(word),
    ensures
        aggregation::aggregation_token_of(word) is SPACE ==> aggregation::aggregation_tokens_of(
            word + rest,
        ) == aggregation::aggregation_tokens_of(rest),
        !(aggregation::aggregation_token_of(word) is SPACE)
            ==> aggregation::aggregation_tokens_of(word + rest) == after(
            aggregation::aggregation_token_of(word),
            aggregation::aggregation_tokens_of(rest),
        ),
{
    lemma_starts(word, rest);
}

/// An empty text has no tokens, and a blank is none.
pub proof fn law_blank_is_no_token(rest: Seq<char>)
    ensures
        aggregation::aggregation_tokens_of(Seq::empty()) == Ok::<
            Seq<AggregationTokenView>,
            Seq<char>,
        >(Seq::empty()),
        aggregation::aggregation_tokens_of(seq![' '] + rest) == aggregation::aggregation_tokens_of(
            rest,
        ),
{
    assert(" "@ =~= seq![' ']) by {
        reveal_strlit(" ");
    }
    lemma_first_chars(" "@ + rest);
    lemma_first_chars(" "@);
    lemma_starts(" "@, rest);
    assert((" "@ + rest)[0] == ' ' && " "@[0] == ' ' && " "@.len() == 1);
    lemma_token_first(" "@, rest);
}

/// `by` is a token, whatever stands behind it.
pub proof fn law_by_is_a_token(rest: Seq<char>)
    ensures
        aggregation::aggregation_tokens_of(seq!['b', 'y'] + rest) == after(
            AggregationTokenView::BY,
            aggregation::aggregation_tokens_of(rest),
        ),
{
    assert("by"@ =~= seq!['b', 'y']) by {
        reveal_strlit("by");
    }
    let all = "by"@ + rest;
    lemma_first_chars(all);
    lemma_first_chars("by"@);
    lemma_starts("by"@, rest);
    assert(all[0] == 'b' && "by"@[0] == 'b' && "by"@.len() == 2);
    assert(" "@.len() == 1) by {
        reveal_strlit(" ");
    }
    assert("by"@ != " "@);
    lemma_token_first("by"@, rest);
}

/// A comparison operator is a token. One of a single character is not followed by `=`.
pub proof fn law_operator_is_a_token(op: AggregationTokenView, rest: Seq<char>)
    requires
        op is EQ || op is LE || op is GE || ((op is LT || op is GT) && (rest.len() == 0 || rest[0]
            != '=')),
    ensures
        aggregation::aggregation_tokens_of(
            (match op {
                AggregationTokenView::EQ => seq!['=', '='],
                AggregationTokenView::LE => seq!['<', '='],
                AggregationTokenView::GE => seq!['>', '='],
                AggregationTokenView::LT => seq!['<'],
                _ => seq!['>'],
            }) + rest,
        ) == after(op, aggregation::aggregation_tokens_of(rest)),
{
    let word = operator_text(op);
    let all = word + rest;
    lemma_first_chars(all);
    lemma_first_chars(word);
    lemma_starts(word, rest);
    reveal_strlit(" ");
    reveal_strlit("by");
    reveal_strlit("==");
    reveal_strlit("<=");
    reveal_strlit(">=");
    reveal_strlit("<");
    reveal_strlit(">");
    assert("=="@ =~= seq!['=', '=']);
    assert("<="@ =~= seq!['<', '=']);
    assert(">="@ =~= seq!['>', '=']);
    assert("<"@ =~= seq!['<']);
    assert(">"@ =~= seq!['>']);
    assert(all[0] == word[0]);
    assert(word.len() == 1 && rest.len() > 0 ==> all[1] == rest[0]);
    assert(word.len() == 1 && rest.len() == 0 ==> all.len() == 1);
    assert(word.len() == 2 ==> word[1] == '=');
    assert(aggregation::aggregation_lexeme(all) == Some(word));
    assert(aggregation::aggregation_token_of(word) == op);
    lemma_token_first(word, rest);
}

/// Any other word is a token, unless it is a `count` with a parenthesis behind it.
pub proof fn law_keyword_is_a_token(word: Seq<char>, rest: Seq<char>)
    requires
        is_keyword(word),
        lexer_laws::ends_word(rest),
        rest.len() == 0 || rest[0] != '(',
    ensures
        aggregation::aggregation_tokens_of(word + rest) == after(
            AggregationTokenView::KEYWORD(word),
            aggregation::aggregation_tokens_of(rest),
        ),
{
    let all = word + rest;
    lemma_first_chars(all);
    lemma_first_chars(word);
    lexer_laws::lemma_word_end_append(word, rest, 0);
    assert(all.take(word.len() as int) =~= word);
    lexer_laws::law_word_lacks(word, '(');
    lexer_laws::law_word_lacks(word, ' ');
    lexer_laws::law_word_lacks(word, '=');
    lexer_laws::law_word_lacks(word, '<');
    lexer_laws::law_word_lacks(word, '>');
    assert(all[0] == word[0]);
    lemma_no_count_word(word, rest);
    assert(!"by"@.is_prefix_of(all)) by {
        reveal_strlit("by");
        if "by"@.is_prefix_of(all) {
            lemma_prefix_head("by"@, all);
            if word.len() == 1 {
                assert(all[1] == rest[0]);
                assert(pattern::word_char('y'));
            } else {
                assert(word.subrange(0, 2) =~= "by"@);
            }
        }
    }
    assert(" "@.len() == 1 && " "@[0] == ' ' && "=="@[0] == '=' && "<="@[0] == '<' && ">="@[0]
        == '>' && "<"@[0] == '<' && ">"@[0] == '>') by {
        reveal_strlit(" ");
        reveal_strlit("==");
        reveal_strlit("<=");
        reveal_strlit(">=");
        reveal_strlit("<");
        reveal_strlit(">");
    }
    assert(word != "by"@) by {
        if word == "by"@ {
            assert("by"@.subrange(0, "by"@.len() as int) =~= "by"@);
        }
    }
    assert(aggregation::aggregation_lexeme(all) == Some(word));
    assert(aggregation::aggregation_token_of(word) == AggregationTokenView::KEYWORD(word));
    lemma_token_first(word, rest);
}

/// A word without a parenthesis behind it is no `count(..)`.
proof fn lemma_no_count_word(word: Seq<char>, rest: Seq<char>)
    requires
        lexer_laws::is_word(word),
        lexer_laws::ends_word(rest),
        rest.len() == 0 || rest[0] != '(',
    ensures
        !"count("@.is_prefix_of(word),
        !"count("@.is_prefix_of(word + rest),
{
    reveal_strlit("count(");
    let all = word + rest;
    lexer_laws::law_word_lacks(word, '(');
    if "count("@.is_prefix_of(word) {
        assert(word.subrange(0, 6)[5] == word[5]);
    }
    if "count("@.is_prefix_of(all) {
        let head = all.subrange(0, 6);
        assert(head[0] == all[0] && head[1] == all[1] && head[2] == all[2] && head[3] == all[3]
            && head[4] == all[4] && head[5] == all[5]);
        if word.len() > 5 {
            assert(all[5] == word[5]);
        } else {
            let n = word.len() as int;
            assert(all[n] == rest[0]);
            assert(pattern::word_char('c') && pattern::word_char('o') && pattern::word_char('u')
                && pattern::word_char('n') && pattern::word_char('t'));
        }
    }
}

/// Nothing but blanks.
pub open spec fn blank(text: Seq<char>) -> bool {
    forall|i: int| 0 <= i < text.len() ==> #[trigger] text[i] == ' '
}

proof fn lemma_blank_end_at(text: Seq<char>, from: int, end: int)
    requires
        0 <= from <= end <= text.len(),
        forall|i: int| from <= i < end ==> #[trigger] text[i] == ' ',
        end < text.len() ==> text[end] != ' ',
    ensures
        pattern::blank_end(text, from) == end,
    decreases end - from,
{
    if from < end {
        assert(text[from] == ' ');
        lemma_blank_end_at(text, from + 1, end);
    }
}

proof fn lemma_without_blanks(a: Seq<char>, field: Seq<char>, b: Seq<char>)
    requires
        blank(a),
        blank(b),
        forall|i: int| 0 <= i < field.len() ==> #[trigger] field[i] != ' ',
    ensures
        text::without_char(a + field + b, ' ') == field,
    decreases a.len() + field.len() + b.len(),
{
    let all = a + field + b;
    if b.len() > 0 {
        assert(b[b.len() - 1] == ' ');
        assert(all.last() == ' ');
        assert(all.drop_last() =~= a + field + b.drop_last());
        lemma_without_blanks(a, field, b.drop_last());
    } else if field.len() > 0 {
        let last = field.last();
        assert(field[field.len() - 1] != ' ');
        assert(all.last() == last);
        assert(all.drop_last() =~= a + field.drop_last() + b);
        lemma_without_blanks(a, field.drop_last(), b);
        assert(field.drop_last().push(last) =~= field);
    } else if a.len() > 0 {
        assert(a[a.len() - 1] == ' ');
        assert(all.last() == ' ');
        assert(all.drop_last() =~= a.drop_last() + field + b);
        lemma_without_blanks(a.drop_last(), field, b);
    } else {
        assert(all =~= seq![]);
        assert(field =~= seq![]);
    }
}

proof fn lemma_blank_count_field(a: Seq<char>, field: Seq<char>, b: Seq<char>)
    requires
        is_field(field),
        blank(a),
        blank(b),
    ensures
        aggregation::count_field("count("@ + (a + field + b + ")"@)) == field,
{
    reveal_strlit(")");
    if field.len() > 0 {
        lexer_laws::law_word_lacks(field, ')');
        lexer_laws::law_word_lacks(field, ' ');
    }
    let padded = a + field + b;
    let inner = padded + ")"@;
    lemma_without_first_at_start("count("@, inner);
    let n = padded.len() as int;
    assert forall|j: int| 0 <= j < n implies !text::occurs_at(inner, ")"@, j) by {
        if text::occurs_at(inner, ")"@, j) {
            assert(inner.subrange(j, j + 1)[0] == inner[j]);
            if j < a.len() {
                assert(inner[j] == a[j]);
            } else if j < a.len() + field.len() {
                assert(inner[j] == field[j - a.len()]);
            } else {
                assert(inner[j] == b[j - a.len() - field.len()]);
            }
        }
    }
    assert(inner.subrange(n, n + 1) =~= ")"@);
    text::lemma_without_first(inner, ")"@, n);
    assert(inner.take(n) + inner.skip(n + 1) =~= padded);
    lemma_without_blanks(a, field, b);
}

/// `count` with a field in its parentheses is a token, and blanks around the field make no
/// difference.
pub proof fn law_count_is_a_token(
    a: Seq<char>,
    field: Seq<char>,
    b: Seq<char>,
    rest: Seq<char>,
)
    requires
        is_field(field),
        blank(a),
        blank(b),
        field.len() == 0 ==> b.len() == 0,
    ensures
        aggregation::aggregation_tokens_of("count("@ + (a + field + b + ")"@) + rest) == after(
            AggregationTokenView::COUNT(field),
            aggregation::aggregation_tokens_of(rest),
        ),
{
    let word = "count("@ + (a + field + b + ")"@);
    let all = word + rest;
    let x = 6 + a.len() as int;
    let y = x + field.len() as int;
    let z = y + b.len() as int;
    assert("count("@.len() == 6 && ")"@.len() == 1 && ")"@[0] == ')') by {
        reveal_strlit("count(");
        reveal_strlit(")");
    }
    assert(all =~= "count("@ + (a + field + b + ")"@ + rest));
    lemma_starts("count("@, a + field + b + ")"@ + rest);
    lemma_starts("count("@, a + field + b + ")"@);
    assert(all[z] == ')');
    assert forall|i: int| 6 <= i < x implies #[trigger] all[i] == ' ' by {
        assert(all[i] == a[i - 6]);
    }
    assert forall|i: int| y <= i < z implies #[trigger] all[i] == ' ' by {
        assert(all[i] == b[i - y]);
    }
    if field.len() > 0 {
        lexer_laws::lemma_word_chars(field);
        lexer_laws::law_word_lacks(field, ' ');
        assert forall|i: int| x <= i < y implies pattern::word_char(#[trigger] all[i]) by {
            assert(all[i] == field[i - x]);
        }
        assert(all[x] == field[0]);
    } else {
        assert(x == z);
    }
    lemma_blank_end_at(all, 6, x);
    assert(!pattern::word_char(' ') && !pattern::word_char(')'));
    assert(y < z ==> all[y] == ' ');
    lemma_word_end_at(all, x, y);
    lemma_blank_end_at(all, y, z);
    assert(all.take(z + 1) =~= word);
    assert(pattern::count_match(all) == Some(word));
    lemma_blank_count_field(a, field, b);
    lemma_token_first(word, rest);
}

/// A text that no token can start with is reported.
pub proof fn law_unusable_character(text: Seq<char>)
    requires
        text.len() > 0,
        lexer_laws::ends_word(text),
        text[0] != ' ',
        text[0] != '<',
        text[0] != '>',
        text[0] != '=' || text.len() == 1 || text[1] != '=',
    ensures
        aggregation::aggregation_tokens_of(text) == Err::<Seq<AggregationTokenView>, Seq<char>>(
            "An unusable character was found."@,
        ),
{
    lemma_first_chars(text);
    assert(!"=="@.is_prefix_of(text)) by {
        reveal_strlit("==");
        lemma_prefix_head("=="@, text);
    }
    assert(pattern::word_char('c') && pattern::word_char('b'));
}

/// What the tokens of an aggregation condition have to be: `count`, perhaps `by` and a field,
/// a comparison operator and a number, and nothing else.
pub proof fn law_aggregation_is_parsed(tokens: Seq<AggregationTokenView>, info: AggregationView)
    ensures
        aggregation::parse_aggregation(tokens) == Ok::<AggregationView, Seq<char>>(info) <==> {
            let n = tokens.len();
            let op = tokens[n - 2];
            &&& n == 3 || n == 5
            &&& tokens[0] matches AggregationTokenView::COUNT(field)
            &&& info.field_name == (if field == Seq::<char>::empty() {
                None
            } else {
                Some(field)
            })
            &&& n == 3 ==> info.by_field_name is None
            &&& n == 5 ==> tokens[1] is BY && (tokens[2] matches AggregationTokenView::KEYWORD(by)
                && info.by_field_name == Some(by))
            &&& op is EQ || op is LE || op is LT || op is GE || op is GT
            &&& info.cmp_op == op
            &&& tokens[n - 1] matches AggregationTokenView::KEYWORD(num)
            &&& text::int32_of(num) == Some(info.cmp_num)
        },
{
    if tokens.len() > 0 {
        if let AggregationTokenView::COUNT(field) = tokens[0] {
            if field.len() == 0 {
                assert(field =~= Seq::<char>::empty());
            }
        }
    }
}

/// What is wrong with an aggregation condition, from the front to the back.
pub proof fn law_wrong_aggregation(tokens: Seq<AggregationTokenView>)
    ensures
        tokens.len() == 0 ==> aggregation::parse_aggregation(tokens) == Err::<
            AggregationView,
            Seq<char>,
        >("There are no strings after pipe(|)."@),
        tokens.len() > 0 && !(tokens[0] is COUNT) ==> aggregation::parse_aggregation(tokens)
            == Err::<AggregationView, Seq<char>>("aggregation condition can use count only."@),
        tokens.len() > 1 && tokens[0] is COUNT && tokens[1] is BY && (tokens.len() == 2 || !(
        tokens[2] is KEYWORD)) ==> aggregation::parse_aggregation(tokens) == Err::<
            AggregationView,
            Seq<char>,
        >("by keyword needs field name like 'by EventID'"@),
{
}

/// What is wrong with the comparison of an aggregation condition.
pub proof fn law_wrong_comparison(tokens: Seq<AggregationTokenView>, n: int)
    requires
        tokens.len() >= n,
        tokens.len() > 0,
        tokens[0] is COUNT,
        (n == 1 && (tokens.len() == 1 || !(tokens[1] is BY))) || (n == 3 && tokens[1] is BY
            && tokens[2] is KEYWORD),
    ensures
        ({
            let op = tokens[n];
            let compares = tokens.len() > n && (op is EQ || op is LE || op is LT || op is GE
                || op is GT);
            let number = tokens.len() > n + 1 && (tokens[n + 1] matches
                AggregationTokenView::KEYWORD(num) && text::int32_of(num) is Some);
            &&& !compares ==> aggregation::parse_aggregation(tokens) == Err::<
                AggregationView,
                Seq<char>,
            >("count keyword needs compare operator and number like '> 3'"@)
            &&& compares && !number ==> aggregation::parse_aggregation(tokens) == Err::<
                AggregationView,
                Seq<char>,
            >("compare operator needs a number like '> 3'."@)
            &&& compares && number && tokens.len() > n + 2 ==> aggregation::parse_aggregation(
                tokens,
            ) == Err::<AggregationView, Seq<char>>("unnecessary word was found."@)
        }),
{
    let rest = tokens.skip(n);
    assert(rest.len() == tokens.len() - n);
    if rest.len() > 0 {
        assert(rest[0] == tokens[n]);
    }
    if rest.len() > 1 {
        assert(rest[1] == tokens[n + 1]);
    }
}

/// The aggregation condition ends with the line that it stands in; what stands on the lines
/// below belongs to the condition again.
pub proof fn law_pipe_ends_with_the_line(text: Seq<char>, part: Seq<char>, below: Seq<char>)
    requires
        condition_laws::lacks(text, '|'),
        condition_laws::lacks(part, '\n'),
    ensures
        condition::condition_part(text + seq!['|'] + part + (seq!['\n'] + below)) == text + (
        seq!['\n'] + below),
        aggregation::aggregation_part(text + seq!['|'] + part + (seq!['\n'] + below)) == Some(
            part,
        ),
{
    let all = text + seq!['|'] + part + (seq!['\n'] + below);
    let n = text.len() as int;
    let m = n + 1 + part.len();
    text::lemma_find_char(all, '|', 0);
    let start = text::find_char(all, '|', 0);
    assert(all[n] == '|');
    if start < n {
        assert(all[start] == text[start]);
    }
    assert(start == n);
    text::lemma_find_char(all, '\n', n);
    let end = text::find_char(all, '\n', n);
    assert(all[m] == '\n');
    if end < m {
        if end > n {
            assert(all[end] == part[end - n - 1]);
        }
    }
    assert(end == m);
    assert(all.take(n) =~= text);
    assert(all.skip(m) =~= seq!['\n'] + below);
    assert(all.subrange(n + 1, m) =~= part);
}

} // verus!
