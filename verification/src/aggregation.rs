//! The compiler of aggregation conditions, the part of a condition behind the pipe.
use vstd::prelude::*;
use vstd::string::StrSliceExecFns;

use crate::condition;
use crate::pattern;
use crate::pattern::{find_first, Pattern};
use crate::text;
use crate::text::{concat2, parse_i32, remove_char, remove_first, starts_with, text_eq};

verus! {

/// Model of an [`AggregationConditionToken`].
pub enum AggregationTokenView {
    COUNT(Seq<char>),
    SPACE,
    BY,
    EQ,
    LE,
    LT,
    GE,
    GT,
    KEYWORD(Seq<char>),
}

impl AggregationTokenView {
    pub open spec fn is_cmp_op(self) -> bool {
        self is EQ || self is LE || self is LT || self is GE || self is GT
    }
}

/// A token of an aggregation condition.
#[derive(Debug)]
pub enum AggregationConditionToken {
    /// `count`, with the field in its parentheses.
    COUNT(String),
    SPACE,
    BY,
    EQ,
    LE,
    LT,
    GE,
    GT,
    /// Any other word: a field name or a number.
    KEYWORD(String),
}

impl View for AggregationConditionToken {
    type V = AggregationTokenView;

    open spec fn view(&self) -> AggregationTokenView {
        match self {
            AggregationConditionToken::COUNT(field) => AggregationTokenView::COUNT(field@),
            AggregationConditionToken::SPACE => AggregationTokenView::SPACE,
            AggregationConditionToken::BY => AggregationTokenView::BY,
            AggregationConditionToken::EQ => AggregationTokenView::EQ,
            AggregationConditionToken::LE => AggregationTokenView::LE,
            AggregationConditionToken::LT => AggregationTokenView::LT,
            AggregationConditionToken::GE => AggregationTokenView::GE,
            AggregationConditionToken::GT => AggregationTokenView::GT,
            AggregationConditionToken::KEYWORD(word) => AggregationTokenView::KEYWORD(word@),
        }
    }
}

impl Clone for AggregationConditionToken {
    fn clone(&self) -> (r: Self)
        ensures
            r@ == self@,
    {
        match self {
            AggregationConditionToken::COUNT(field) => AggregationConditionToken::COUNT(
                field.clone(),
            ),
            AggregationConditionToken::SPACE => AggregationConditionToken::SPACE,
            AggregationConditionToken::BY => AggregationConditionToken::BY,
            AggregationConditionToken::EQ => AggregationConditionToken::EQ,
            AggregationConditionToken::LE => AggregationConditionToken::LE,
            AggregationConditionToken::LT => AggregationConditionToken::LT,
            AggregationConditionToken::GE => AggregationConditionToken::GE,
            AggregationConditionToken::GT => AggregationConditionToken::GT,
            AggregationConditionToken::KEYWORD(word) => AggregationConditionToken::KEYWORD(
                word.clone(),
            ),
        }
    }
}

/// Model of an [`AggregationParseInfo`].
pub struct AggregationView {
    pub field_name: Option<Seq<char>>,
    pub by_field_name: Option<Seq<char>>,
    pub cmp_op: AggregationTokenView,
    pub cmp_num: i32,
}

/// An aggregation condition, such as `count(field) by other > 3`.
#[derive(Debug)]
pub struct AggregationParseInfo {
    /// The field in the parentheses of `count`.
    pub _field_name: Option<String>,
    /// The field behind `by`.
    pub _by_field_name: Option<String>,
    /// The comparison.
    pub _cmp_op: AggregationConditionToken,
    /// The number to compare with.
    pub _cmp_num: i32,
}

impl View for AggregationParseInfo {
    type V = AggregationView;

    open spec fn view(&self) -> AggregationView {
        AggregationView {
            field_name: text::text_of(self._field_name),
            by_field_name: text::text_of(self._by_field_name),
            cmp_op: self._cmp_op@,
            cmp_num: self._cmp_num,
        }
    }
}

/// The tokens that a sequence of [`AggregationConditionToken`]s stands for.
pub open spec fn aggregation_views(tokens: Seq<AggregationConditionToken>) -> Seq<
    AggregationTokenView,
> {
    Seq::new(tokens.len(), |i: int| tokens[i]@)
}

/// The first lexeme of an aggregation condition. An operator of two characters goes before its
/// first character, and `by` before a longer word.
pub open spec fn aggregation_lexeme(text: Seq<char>) -> Option<Seq<char>> {
    if pattern::count_match(text) is Some {
        pattern::count_match(text)
    } else if " "@.is_prefix_of(text) {
        Some(" "@)
    } else if "by"@.is_prefix_of(text) {
        Some("by"@)
    } else if "=="@.is_prefix_of(text) {
        Some("=="@)
    } else if "<="@.is_prefix_of(text) {
        Some("<="@)
    } else if ">="@.is_prefix_of(text) {
        Some(">="@)
    } else if "<"@.is_prefix_of(text) {
        Some("<"@)
    } else if ">"@.is_prefix_of(text) {
        Some(">"@)
    } else {
        pattern::word_match(text)
    }
}

/// What stands in the parentheses of `count(..)`, without blanks.
pub open spec fn count_field(word: Seq<char>) -> Seq<char> {
    text::without_char(text::without_first(text::without_first(word, "count("@), ")"@), ' ')
}

/// The token that a lexeme stands for.
pub open spec fn aggregation_token_of(word: Seq<char>) -> AggregationTokenView {
    if "count("@.is_prefix_of(word) {
        AggregationTokenView::COUNT(count_field(word))
    } else if word == " "@ {
        AggregationTokenView::SPACE
    } else if word == "by"@ {
        AggregationTokenView::BY
    } else if word == "=="@ {
        AggregationTokenView::EQ
    } else if word == "<="@ {
        AggregationTokenView::LE
    } else if word == ">="@ {
        AggregationTokenView::GE
    } else if word == "<"@ {
        AggregationTokenView::LT
    } else if word == ">"@ {
        AggregationTokenView::GT
    } else {
        AggregationTokenView::KEYWORD(word)
    }
}

pub proof fn lemma_blank_end(text: Seq<char>, from: int)
    ensures
        from <= pattern::blank_end(text, from),
        0 <= from <= text.len() ==> pattern::blank_end(text, from) <= text.len(),
    decreases text.len() - from,
{
    if 0 <= from < text.len() && text[from] == ' ' {
        lemma_blank_end(text, from + 1);
    }
}

pub proof fn lemma_aggregation_lexeme(text: Seq<char>)
    ensures
        aggregation_lexeme(text) matches Some(word) ==> 0 < word.len() <= text.len(),
{
    reveal_strlit("count(");
    reveal_strlit(" ");
    reveal_strlit("by");
    reveal_strlit("==");
    reveal_strlit("<=");
    reveal_strlit(">=");
    reveal_strlit("<");
    reveal_strlit(">");
    condition::lemma_word_end(text, 0);
    if pattern::count_match(text) is Some {
        lemma_blank_end(text, 6);
        condition::lemma_word_end(text, pattern::blank_end(text, 6));
        lemma_blank_end(text, pattern::word_end(text, pattern::blank_end(text, 6)));
    }
}

/// The tokens of an aggregation condition. Blanks separate words and are dropped.
pub open spec fn aggregation_tokens_of(text: Seq<char>) -> Result<
    Seq<AggregationTokenView>,
    Seq<char>,
>
    decreases text.len(),
{
    if text.len() == 0 {
        Ok(seq![])
    } else {
        match aggregation_lexeme(text) {
            None => Err("An unusable character was found."@),
            Some(word) => {
                proof {
                    lemma_aggregation_lexeme(text);
                }
                match aggregation_tokens_of(text.skip(word.len() as int)) {
                    Err(msg) => Err(msg),
                    Ok(rest) => if aggregation_token_of(word) is SPACE {
                        Ok(rest)
                    } else {
                        Ok(seq![aggregation_token_of(word)] + rest)
                    },
                }
            },
        }
    }
}

/// The comparison that ends an aggregation condition: an operator and a number.
pub open spec fn comparison(
    field_name: Option<Seq<char>>,
    by_field_name: Option<Seq<char>>,
    tokens: Seq<AggregationTokenView>,
) -> Result<AggregationView, Seq<char>> {
    if tokens.len() == 0 || !tokens[0].is_cmp_op() {
        Err("count keyword needs compare operator and number like '> 3'"@)
    } else if tokens.len() == 1 || !(tokens[1] is KEYWORD) || text::int32_of(
        tokens[1]->KEYWORD_0,
    ) is None {
        Err("compare operator needs a number like '> 3'."@)
    } else if tokens.len() > 2 {
        Err("unnecessary word was found."@)
    } else {
        Ok(
            AggregationView {
                field_name,
                by_field_name,
                cmp_op: tokens[0],
                cmp_num: text::int32_of(tokens[1]->KEYWORD_0)->0,
            },
        )
    }
}

/// What the tokens of an aggregation condition mean: `count(field)`, then perhaps `by` and a
/// field, then a comparison.
pub open spec fn parse_aggregation(tokens: Seq<AggregationTokenView>) -> Result<
    AggregationView,
    Seq<char>,
> {
    if tokens.len() == 0 {
        Err("There are no strings after pipe(|)."@)
    } else if !(tokens[0] is COUNT) {
        Err("aggregation condition can use count only."@)
    } else {
        let field = tokens[0]->COUNT_0;
        let field_name = if field.len() == 0 {
            None
        } else {
            Some(field)
        };
        if tokens.len() > 1 && tokens[1] is BY {
            if tokens.len() > 2 && tokens[2] is KEYWORD {
                comparison(field_name, Some(tokens[2]->KEYWORD_0), tokens.skip(3))
            } else {
                Err("by keyword needs field name like 'by EventID'"@)
            }
        } else {
            comparison(field_name, None, tokens.skip(1))
        }
    }
}

/// The part of a condition behind the first `|`, up to the end of the line.
pub open spec fn aggregation_part(text: Seq<char>) -> Option<Seq<char>> {
    let start = text::find_char(text, '|', 0);
    if start < text.len() {
        Some(text.subrange(start + 1, text::find_char(text, '\n', start)))
    } else {
        None
    }
}

/// The aggregation condition of a condition; `None` where there is no pipe.
pub open spec fn aggregation_of(text: Seq<char>) -> Result<Option<AggregationView>, Seq<char>> {
    match aggregation_part(text) {
        None => Ok(None),
        Some(part) => match aggregation_tokens_of(part) {
            Err(msg) => Err(msg),
            Ok(tokens) => match parse_aggregation(tokens) {
                Err(msg) => Err(msg),
                Ok(info) => Ok(Some(info)),
            },
        },
    }
}

/// As [`aggregation_of`], with the message of an error marked as one of aggregation conditions.
pub open spec fn compiled_aggregation(text: Seq<char>) -> Result<
    Option<AggregationView>,
    Seq<char>,
> {
    match aggregation_of(text) {
        Ok(info) => Ok(info),
        Err(msg) => Err("aggregation condition parse error has occurred. "@ + msg),
    }
}

pub open spec fn aggregation_view(info: Option<AggregationParseInfo>) -> Option<AggregationView> {
    match info {
        Some(i) => Some(i@),
        None => None,
    }
}

pub open spec fn aggregation_result(r: Result<Option<AggregationParseInfo>, String>) -> Result<
    Option<AggregationView>,
    Seq<char>,
> {
    match r {
        Ok(info) => Ok(aggregation_view(info)),
        Err(msg) => Err(msg@),
    }
}

pub open spec fn aggregation_tokens_result(
    r: Result<Vec<AggregationConditionToken>, String>,
) -> Result<Seq<AggregationTokenView>, Seq<char>> {
    match r {
        Ok(tokens) => Ok(aggregation_views(tokens@)),
        Err(msg) => Err(msg@),
    }
}

/// Compiles aggregation conditions. Its view is what tells the lexemes, in the order of trial.
#[derive(Debug)]
pub struct AggegationConditionCompiler {
    regex_patterns: Vec<Pattern>,
}

impl View for AggegationConditionCompiler {
    type V = Seq<Seq<char>>;

    closed spec fn view(&self) -> Seq<Seq<char>> {
        self.regex_patterns@.map_values(|p: Pattern| p@)
    }
}

impl AggegationConditionCompiler {
    #[verifier::type_invariant]
    closed spec fn wf(self) -> bool {
        &&& self.regex_patterns@.len() == 9
        &&& self.regex_patterns@[0]@ == "^count\\( *\\w* *\\)"@
        &&& self.regex_patterns@[1]@ == "^ "@
        &&& self.regex_patterns@[2]@ == "^by"@
        &&& self.regex_patterns@[3]@ == "^=="@
        &&& self.regex_patterns@[4]@ == "^<="@
        &&& self.regex_patterns@[5]@ == "^>="@
        &&& self.regex_patterns@[6]@ == "^<"@
        &&& self.regex_patterns@[7]@ == "^>"@
        &&& self.regex_patterns@[8]@ == "^\\w+"@
    }

    pub fn new() -> (r: Self)
        ensures
            r@ == seq![
                "^count\\( *\\w* *\\)"@,
                "^ "@,
                "^by"@,
                "^=="@,
                "^<="@,
                "^>="@,
                "^<"@,
                "^>"@,
                "^\\w+"@,
            ],
    {
        let mut regex_patterns: Vec<Pattern> = Vec::new();
        regex_patterns.push(Pattern::new("^count\\( *\\w* *\\)").unwrap());
        regex_patterns.push(Pattern::new("^ ").unwrap());
        regex_patterns.push(Pattern::new("^by").unwrap());
        regex_patterns.push(Pattern::new("^==").unwrap());
        regex_patterns.push(Pattern::new("^<=").unwrap());
        regex_patterns.push(Pattern::new("^>=").unwrap());
        regex_patterns.push(Pattern::new("^<").unwrap());
        regex_patterns.push(Pattern::new("^>").unwrap());
        regex_patterns.push(Pattern::new("^\\w+").unwrap());
        let r = AggegationConditionCompiler { regex_patterns };
        assert(r@ =~= seq![
            "^count\\( *\\w* *\\)"@,
            "^ "@,
            "^by"@,
            "^=="@,
            "^<="@,
            "^>="@,
            "^<"@,
            "^>"@,
            "^\\w+"@,
        ]);
        r
    }

    /// Compiles the aggregation part of a condition.
    pub fn compile(&self, condition_str: String) -> (r: Result<
        Option<AggregationParseInfo>,
        String,
    >)
        ensures
            aggregation_result(r) == compiled_aggregation(condition_str@),
    {
        match self.compile_body(condition_str) {
            Ok(info) => Ok(info),
            Err(msg) => Err(
                concat2("aggregation condition parse error has occurred. ", msg.as_str()),
            ),
        }
    }

    /// As [`AggegationConditionCompiler::compile`], with the bare message of an error.
    pub fn compile_body(&self, condition_str: String) -> (r: Result<
        Option<AggregationParseInfo>,
        String,
    >)
        ensures
            aggregation_result(r) == aggregation_of(condition_str@),
    {
        let re_pipe = Pattern::new("\\|.*").unwrap();
        match re_pipe.first_match(condition_str.as_str()) {
            None => Ok(None),
            Some(captured) => {
                let aggregation_str = remove_first(captured.as_str(), "|");
                proof {
                    lemma_pipe_removed(condition_str@, captured@);
                }
                let tokens = self.tokenize(aggregation_str)?;
                self.parse(tokens)
            },
        }
    }

    /// The first lexeme of `text`.
    fn next_lexeme(&self, text: &str) -> (r: Option<String>)
        ensures
            text::text_of(r) == aggregation_lexeme(text@),
    {
        let found = find_first(&self.regex_patterns, text);
        proof {
            use_type_invariant(self);
            let patterns = self.regex_patterns@;
            let n = choose|n: int|
                #[trigger] pattern::tried(patterns, text@, n, text::text_of(found));
            assert(n > 0 ==> pattern::fixed_pattern_rule(patterns[0]@, text@, None));
            assert(n > 1 ==> pattern::fixed_pattern_rule(patterns[1]@, text@, None));
            assert(n > 2 ==> pattern::fixed_pattern_rule(patterns[2]@, text@, None));
            assert(n > 3 ==> pattern::fixed_pattern_rule(patterns[3]@, text@, None));
            assert(n > 4 ==> pattern::fixed_pattern_rule(patterns[4]@, text@, None));
            assert(n > 5 ==> pattern::fixed_pattern_rule(patterns[5]@, text@, None));
            assert(n > 6 ==> pattern::fixed_pattern_rule(patterns[6]@, text@, None));
            assert(n > 7 ==> pattern::fixed_pattern_rule(patterns[7]@, text@, None));
            assert(n > 8 ==> pattern::fixed_pattern_rule(patterns[8]@, text@, None));
        }
        found
    }

    /// Splits an aggregation condition into its tokens.
    pub fn tokenize(&self, condition_str: String) -> (r: Result<
        Vec<AggregationConditionToken>,
        String,
    >)
        ensures
            aggregation_tokens_result(r) == aggregation_tokens_of(condition_str@),
    {
        let mut cur_condition_str: String = condition_str.clone();
        let mut tokens: Vec<AggregationConditionToken> = Vec::new();
        assert(aggregation_views(tokens@) =~= seq![]);
        while !cur_condition_str.as_str().is_empty()
            invariant
                match aggregation_tokens_of(cur_condition_str@) {
                    Ok(rest) => {
                        &&& aggregation_tokens_of(condition_str@) matches Ok(all)
                        &&& all =~= aggregation_views(tokens@) + rest
                    },
                    Err(msg) => aggregation_tokens_of(condition_str@) == Err::<
                        Seq<AggregationTokenView>,
                        Seq<char>,
                    >(msg),
                },
            decreases cur_condition_str@.len(),
        {
            proof {
                lemma_aggregation_lexeme(cur_condition_str@);
            }
            let found = self.next_lexeme(cur_condition_str.as_str());
            if found.is_none() {
                return Err("An unusable character was found.".to_owned());
            }
            let mached_str = found.unwrap();
            let n = cur_condition_str.as_str().unicode_len();
            let m = mached_str.as_str().unicode_len();
            let token = self.to_enum(mached_str);
            let rest = cur_condition_str.as_str().substring_char(m, n).to_owned();
            assert(rest@ =~= cur_condition_str@.skip(m as int));
            cur_condition_str = rest;
            if let AggregationConditionToken::SPACE = token {
                continue;
            }
            let ghost before = tokens@;
            tokens.push(token);
            assert(aggregation_views(tokens@) =~= aggregation_views(before).push(token@));
        }
        assert(cur_condition_str@ =~= seq![]);
        Ok(tokens)
    }

    /// Whether a token is a comparison operator.
    pub fn is_cmp_op(&self, token: &AggregationConditionToken) -> (r: bool)
        ensures
            r == token@.is_cmp_op(),
    {
        match token {
            AggregationConditionToken::EQ => true,
            AggregationConditionToken::LE => true,
            AggregationConditionToken::LT => true,
            AggregationConditionToken::GE => true,
            AggregationConditionToken::GT => true,
            _ => false,
        }
    }

    /// Parses the tokens of an aggregation condition.
    pub fn parse(&self, tokens: Vec<AggregationConditionToken>) -> (r: Result<
        Option<AggregationParseInfo>,
        String,
    >)
        ensures
            aggregation_result(r) == (match parse_aggregation(aggregation_views(tokens@)) {
                Ok(info) => Ok(Some(info)),
                Err(msg) => Err(msg),
            }),
    {
        let ghost views = aggregation_views(tokens@);
        if tokens.is_empty() {
            return Err("There are no strings after pipe(|).".to_owned());
        }
        let mut count_field_name: Option<String> = None;
        assert(views[0] == tokens@[0]@);
        if let AggregationConditionToken::COUNT(field_name) = &tokens[0] {
            if !field_name.as_str().is_empty() {
                count_field_name = Some(field_name.clone());
            }
        } else {
            return Err("aggregation condition can use count only.".to_owned());
        }
        if tokens.len() == 1 {
            return Err("count keyword needs compare operator and number like '> 3'".to_owned());
        }
        assert(views[1] == tokens@[1]@);
        let mut by_field_name: Option<String> = None;
        let mut next: usize = 1;
        if let AggregationConditionToken::BY = &tokens[1] {
            if tokens.len() == 2 {
                return Err("by keyword needs field name like 'by EventID'".to_owned());
            }
            assert(views[2] == tokens@[2]@);
            if let AggregationConditionToken::KEYWORD(keyword) = &tokens[2] {
                by_field_name = Some(keyword.clone());
                next = 3;
            } else {
                return Err("by keyword needs field name like 'by EventID'".to_owned());
            }
        }
        let ghost at = position_of(next);
        let ghost rest = views.skip(at);
        if next >= tokens.len() {
            return Err("count keyword needs compare operator and number like '> 3'".to_owned());
        }
        assert(rest[0] == tokens@[at]@);
        if !self.is_cmp_op(&tokens[next]) {
            return Err("count keyword needs compare operator and number like '> 3'".to_owned());
        }
        let cmp_token = tokens[next].clone();
        if tokens.len() - next == 1 {
            return Err("compare operator needs a number like '> 3'.".to_owned());
        }
        assert(rest[1] == tokens@[next + 1]@);
        let cmp_number: i32 = if let AggregationConditionToken::KEYWORD(number) = &tokens[next
            + 1] {
            match parse_i32(number.as_str()) {
                Some(n) => n,
                None => {
                    return Err("compare operator needs a number like '> 3'.".to_owned());
                },
            }
        } else {
            return Err("compare operator needs a number like '> 3'.".to_owned());
        };
        if tokens.len() - next > 2 {
            return Err("unnecessary word was found.".to_owned());
        }
        Ok(
            Some(
                AggregationParseInfo {
                    _field_name: count_field_name,
                    _by_field_name: by_field_name,
                    _cmp_op: cmp_token,
                    _cmp_num: cmp_number,
                },
            ),
        )
    }

    /// The token that a lexeme stands for.
    pub fn to_enum(&self, token: String) -> (r: AggregationConditionToken)
        ensures
            r@ == aggregation_token_of(token@),
    {
        if starts_with(token.as_str(), "count(") {
            let without_count = remove_first(token.as_str(), "count(");
            let without_close = remove_first(without_count.as_str(), ")");
            let count_field = remove_char(without_close.as_str(), ' ');
            AggregationConditionToken::COUNT(count_field)
        } else if text_eq(token.as_str(), " ") {
            AggregationConditionToken::SPACE
        } else if text_eq(token.as_str(), "by") {
            AggregationConditionToken::BY
        } else if text_eq(token.as_str(), "==") {
            AggregationConditionToken::EQ
        } else if text_eq(token.as_str(), "<=") {
            AggregationConditionToken::LE
        } else if text_eq(token.as_str(), ">=") {
            AggregationConditionToken::GE
        } else if text_eq(token.as_str(), "<") {
            AggregationConditionToken::LT
        } else if text_eq(token.as_str(), ">") {
            AggregationConditionToken::GT
        } else {
            AggregationConditionToken::KEYWORD(token)
        }
    }
}

spec fn position_of(i: usize) -> int {
    i as int
}

proof fn lemma_pipe_removed(text: Seq<char>, captured: Seq<char>)
    requires
        pattern::pipe_match(text) == Some(captured),
    ensures
        aggregation_part(text) == Some(text::without_first(captured, "|"@)),
{
    reveal_strlit("|");
    let start = text::find_char(text, '|', 0);
    let end = text::find_char(text, '\n', start);
    text::lemma_find_char(text, '|', 0);
    text::lemma_find_char(text, '\n', start);
    assert(captured[0] == '|');
    assert(captured.subrange(0, 1) =~= "|"@);
    assert(text::occurs_at(captured, "|"@, 0));
    text::lemma_without_first(captured, "|"@, 0);
    assert(captured.take(0) + captured.skip(1) =~= text.subrange(start + 1, end));
}

} // verus!
