//! The compiler of condition expressions.
use std::sync::Arc;

use vstd::prelude::*;
use vstd::string::StrSliceExecFns;

use crate::grammar;
use crate::pattern;
use crate::pattern::{find_first, Pattern};
use crate::selection;
use crate::selection::{
    AndSelectionNode, NodeView, NotSelectionNode, OrSelectionNode, RefSelectionNode, SelectionNode,
};
use crate::table::TextTable;
use crate::text;
use crate::text::{concat2, remove_first, text_eq};
use crate::token;
use crate::token::{ConditionToken, TokenView};

verus! {

/// The first lexeme of a condition expression: a parenthesis, a blank or a word.
pub open spec fn lexeme(text: Seq<char>) -> Option<Seq<char>> {
    if "("@.is_prefix_of(text) {
        Some("("@)
    } else if ")"@.is_prefix_of(text) {
        Some(")"@)
    } else if " "@.is_prefix_of(text) {
        Some(" "@)
    } else {
        pattern::word_match(text)
    }
}

/// The token that a lexeme stands for.
pub open spec fn token_of(word: Seq<char>) -> TokenView {
    if word == "("@ {
        TokenView::LeftParenthesis
    } else if word == ")"@ {
        TokenView::RightParenthesis
    } else if word == " "@ {
        TokenView::Space
    } else if word == "not"@ {
        TokenView::Not
    } else if word == "and"@ {
        TokenView::And
    } else if word == "or"@ {
        TokenView::Or
    } else {
        TokenView::SelectionReference(word)
    }
}

pub proof fn lemma_word_end(text: Seq<char>, from: int)
    requires
        0 <= from <= text.len(),
    ensures
        from <= pattern::word_end(text, from) <= text.len(),
    decreases text.len() - from,
{
    if from < text.len() {
        lemma_word_end(text, from + 1);
    }
}

pub proof fn lemma_lexeme(text: Seq<char>)
    ensures
        lexeme(text) matches Some(word) ==> 0 < word.len() <= text.len() && word == text.take(
            word.len() as int,
        ),
{
    reveal_strlit("(");
    reveal_strlit(")");
    reveal_strlit(" ");
    lemma_word_end(text, 0);
    if let Some(word) = lexeme(text) {
        assert(word =~= text.take(word.len() as int));
    }
}

/// The tokens of a condition expression. Blanks separate words and are dropped.
pub open spec fn tokens_of(text: Seq<char>) -> Result<Seq<TokenView>, Seq<char>>
    decreases text.len(),
{
    if text.len() == 0 {
        Ok(seq![])
    } else {
        match lexeme(text) {
            None => Err("An unusable character was found."@),
            Some(word) => {
                proof {
                    lemma_lexeme(text);
                }
                match tokens_of(text.skip(word.len() as int)) {
                    Err(msg) => Err(msg),
                    Ok(rest) => if token_of(word) is Space {
                        Ok(rest)
                    } else {
                        Ok(seq![token_of(word)] + rest)
                    },
                }
            },
        }
    }
}

/// A condition without its aggregation part, which runs from the first `|` to the end of the
/// line.
pub open spec fn condition_part(text: Seq<char>) -> Seq<char> {
    let start = text::find_char(text, '|', 0);
    if start < text.len() {
        text.take(start) + text.skip(text::find_char(text, '\n', start))
    } else {
        text
    }
}

pub open spec fn token_result(r: Result<ConditionToken, String>) -> Result<TokenView, Seq<char>> {
    match r {
        Ok(token) => Ok(token@),
        Err(msg) => Err(msg@),
    }
}

pub open spec fn tokens_result(r: Result<Vec<ConditionToken>, String>) -> Result<
    Seq<TokenView>,
    Seq<char>,
> {
    match r {
        Ok(tokens) => Ok(token::token_views(tokens@)),
        Err(msg) => Err(msg@),
    }
}

proof fn lemma_resolve_all_prefix(tokens: Seq<TokenView>, n: int)
    requires
        0 <= n <= tokens.len(),
        grammar::resolve_all(tokens.take(n)) is Err,
    ensures
        grammar::resolve_all(tokens) == grammar::resolve_all(tokens.take(n)),
    decreases tokens.len(),
{
    if n < tokens.len() {
        assert(tokens.drop_last().take(n) =~= tokens.take(n));
        lemma_resolve_all_prefix(tokens.drop_last(), n);
    } else {
        assert(tokens.take(n) =~= tokens);
    }
}

proof fn lemma_open_all_prefix(tokens: Seq<TokenView>, n: int)
    requires
        0 <= n <= tokens.len(),
        grammar::open_all(tokens.take(n)) is Err,
    ensures
        grammar::open_all(tokens) == grammar::open_all(tokens.take(n)),
    decreases tokens.len(),
{
    if n < tokens.len() {
        assert(tokens.drop_last().take(n) =~= tokens.take(n));
        lemma_open_all_prefix(tokens.drop_last(), n);
    } else {
        assert(tokens.take(n) =~= tokens);
    }
}

proof fn lemma_operand_run(tokens: Seq<TokenView>, n: int)
    requires
        0 < n <= tokens.len(),
        forall|j: int| 0 <= j < n ==> !(#[trigger] tokens[j]).is_logical(),
        n < tokens.len() ==> tokens[n].is_logical(),
    ensures
        grammar::operand_len(tokens) == n,
        grammar::wrap_operands(tokens) == seq![TokenView::OperandContainer(tokens.take(n))]
            + grammar::wrap_operands(tokens.skip(n)),
{
    grammar::lemma_operand_len(tokens);
    let m = grammar::operand_len(tokens);
    if m < n {
        assert(!tokens[m].is_logical());
    } else if m > n {
        assert(!tokens[n].is_logical());
    }
    assert(!tokens[0].is_logical());
}

proof fn lemma_wrap_operands_nonempty(tokens: Seq<TokenView>)
    requires
        tokens.len() > 0,
    ensures
        grammar::wrap_operands(tokens).len() > 0,
{
}

proof fn lemma_total_member(tokens: Seq<TokenView>, i: int)
    requires
        0 <= i < tokens.len(),
    ensures
        grammar::size(tokens[i]) <= grammar::total(tokens),
    decreases tokens.len(),
{
    if i < tokens.len() - 1 {
        lemma_total_member(tokens.drop_last(), i);
    }
}

/// The aggregation part is the first occurrence of its text.
proof fn lemma_condition_part(text: Seq<char>)
    ensures
        pattern::pipe_match(text) matches Some(part) ==> text::without_first(text, part)
            == condition_part(text),
{
    let start = text::find_char(text, '|', 0);
    text::lemma_find_char(text, '|', 0);
    if let Some(part) = pattern::pipe_match(text) {
        let end = text::find_char(text, '\n', start);
        text::lemma_find_char(text, '\n', start);
        assert(end > start);
        assert forall|j: int| 0 <= j < start implies !text::occurs_at(text, part, j) by {
            if text::occurs_at(text, part, j) {
                assert(text.subrange(j, j + part.len())[0] == text[j]);
            }
        }
        text::lemma_without_first(text, part, start);
        assert(text::occurs_at(text, part, start));
    }
}

/// The condition that a name stands for.
pub open spec fn name_views(names: Map<Seq<char>, Arc<SelectionNode>>) -> Map<
    Seq<char>,
    NodeView,
> {
    names.map_values(|node: Arc<SelectionNode>| node@)
}

pub proof fn lemma_tokens_plain(text: Seq<char>)
    ensures
        tokens_of(text) matches Ok(tokens) ==> grammar::all_plain(tokens),
    decreases text.len(),
{
    lemma_lexeme(text);
    if text.len() > 0 {
        if let Some(word) = lexeme(text) {
            lemma_tokens_plain(text.skip(word.len() as int));
        }
    }
}

/// The condition that a parsed expression stands for.
pub open spec fn node_of(token: TokenView, names: Map<Seq<char>, NodeView>) -> Result<
    NodeView,
    Seq<char>,
>
    decreases token,
{
    match token {
        TokenView::SelectionReference(name) => if names.contains_key(name) {
            Ok(NodeView::Ref(Box::new(names[name])))
        } else {
            Err(name + " is not defined."@)
        },
        TokenView::AndContainer(sub) => match nodes_of(sub, names) {
            Ok(nodes) => Ok(NodeView::And(nodes)),
            Err(msg) => Err(msg),
        },
        TokenView::OrContainer(sub) => match nodes_of(sub, names) {
            Ok(nodes) => Ok(NodeView::Or(nodes)),
            Err(msg) => Err(msg),
        },
        TokenView::NotContainer(sub) => if sub.len() == 1 {
            match node_of(sub[0], names) {
                Ok(node) => Ok(NodeView::Not(Box::new(node))),
                Err(msg) => Err(msg),
            }
        } else {
            Err("unknown error"@)
        },
        _ => Err("unknown error"@),
    }
}

/// [`node_of`] for each token; the first error counts.
pub open spec fn nodes_of(tokens: Seq<TokenView>, names: Map<Seq<char>, NodeView>) -> Result<
    Seq<NodeView>,
    Seq<char>,
>
    decreases tokens,
{
    if tokens.len() == 0 {
        Ok(seq![])
    } else {
        match nodes_of(tokens.drop_last(), names) {
            Err(msg) => Err(msg),
            Ok(before) => match node_of(tokens.last(), names) {
                Err(msg) => Err(msg),
                Ok(node) => Ok(before.push(node)),
            },
        }
    }
}

/// While a token is turned into a condition, a negation comes up that negates nothing.
pub open spec fn negates_nothing(token: TokenView, names: Map<Seq<char>, NodeView>) -> bool
    decreases token,
{
    match token {
        TokenView::AndContainer(sub) => any_negates_nothing(sub, names),
        TokenView::OrContainer(sub) => any_negates_nothing(sub, names),
        TokenView::NotContainer(sub) => sub.len() == 0 || (sub.len() == 1 && negates_nothing(
            sub[0],
            names,
        )),
        _ => false,
    }
}

/// [`negates_nothing`] for one of the tokens that come before the first error.
pub open spec fn any_negates_nothing(
    tokens: Seq<TokenView>,
    names: Map<Seq<char>, NodeView>,
) -> bool
    decreases tokens,
{
    if tokens.len() == 0 {
        false
    } else {
        any_negates_nothing(tokens.drop_last(), names) || (nodes_of(
            tokens.drop_last(),
            names,
        ) is Ok && negates_nothing(tokens.last(), names))
    }
}

proof fn lemma_tree_negates(token: TokenView, names: Map<Seq<char>, NodeView>)
    requires
        grammar::is_tree(token),
    ensures
        !negates_nothing(token, names),
    decreases token,
{
    match token {
        TokenView::AndContainer(sub) => lemma_trees_negate(sub, names),
        TokenView::OrContainer(sub) => lemma_trees_negate(sub, names),
        TokenView::NotContainer(sub) => {
            assert(grammar::is_tree(sub[0]));
            lemma_tree_negates(sub[0], names);
        },
        _ => {},
    }
}

proof fn lemma_trees_negate(tokens: Seq<TokenView>, names: Map<Seq<char>, NodeView>)
    requires
        grammar::all_trees(tokens),
    ensures
        !any_negates_nothing(tokens, names),
    decreases tokens,
{
    if tokens.len() > 0 {
        assert forall|i: int| 0 <= i < tokens.len() - 1 implies grammar::is_tree(
            #[trigger] tokens.drop_last()[i],
        ) by {
            assert(grammar::is_tree(tokens[i]));
        }
        lemma_trees_negate(tokens.drop_last(), names);
        assert(grammar::is_tree(tokens[tokens.len() - 1]));
        lemma_tree_negates(tokens.last(), names);
    }
}

proof fn lemma_any_negates_prefix(
    tokens: Seq<TokenView>,
    names: Map<Seq<char>, NodeView>,
    n: int,
)
    requires
        0 <= n <= tokens.len(),
        !any_negates_nothing(tokens, names),
    ensures
        !any_negates_nothing(tokens.take(n), names),
    decreases tokens.len(),
{
    if n < tokens.len() {
        assert(tokens.drop_last().take(n) =~= tokens.take(n));
        lemma_any_negates_prefix(tokens.drop_last(), names, n);
    } else {
        assert(tokens.take(n) =~= tokens);
    }
}

proof fn lemma_nodes_of_prefix(tokens: Seq<TokenView>, names: Map<Seq<char>, NodeView>, n: int)
    requires
        0 <= n <= tokens.len(),
        nodes_of(tokens.take(n), names) is Err,
    ensures
        nodes_of(tokens, names) == nodes_of(tokens.take(n), names),
    decreases tokens.len(),
{
    if n < tokens.len() {
        assert(tokens.drop_last().take(n) =~= tokens.take(n));
        lemma_nodes_of_prefix(tokens.drop_last(), names, n);
    } else {
        assert(tokens.take(n) =~= tokens);
    }
}

/// The condition that an expression without an aggregation part stands for.
pub open spec fn condition_of(text: Seq<char>, names: Map<Seq<char>, NodeView>) -> Result<
    NodeView,
    Seq<char>,
> {
    match tokens_of(text) {
        Err(msg) => Err(msg),
        Ok(tokens) => match grammar::parse(tokens) {
            Err(msg) => Err(msg),
            Ok(token) => node_of(token, names),
        },
    }
}

/// The condition that the part of an expression outside its aggregation part stands for.
pub open spec fn compiled_condition(text: Seq<char>, names: Map<Seq<char>, NodeView>) -> Result<
    NodeView,
    Seq<char>,
> {
    match condition_of(condition_part(text), names) {
        Ok(node) => Ok(node),
        Err(msg) => Err("condition parse error has occured. "@ + msg),
    }
}

pub open spec fn node_result(r: Result<SelectionNode, String>) -> Result<NodeView, Seq<char>> {
    match r {
        Ok(node) => Ok(node@),
        Err(msg) => Err(msg@),
    }
}

/// Compiles conditions. Its view is what tells the lexemes, in the order of trial.
#[derive(Debug)]
pub struct ConditionCompiler {
    regex_patterns: Vec<Pattern>,
}

impl View for ConditionCompiler {
    type V = Seq<Seq<char>>;

    closed spec fn view(&self) -> Seq<Seq<char>> {
        self.regex_patterns@.map_values(|p: Pattern| p@)
    }
}

impl ConditionCompiler {
    #[verifier::type_invariant]
    closed spec fn wf(self) -> bool {
        &&& self.regex_patterns@.len() == 4
        &&& self.regex_patterns@[0]@ == "^\\("@
        &&& self.regex_patterns@[1]@ == "^\\)"@
        &&& self.regex_patterns@[2]@ == "^ "@
        &&& self.regex_patterns@[3]@ == "^\\w+"@
    }

    pub fn new() -> (r: Self)
        ensures
            r@ == seq!["^\\("@, "^\\)"@, "^ "@, "^\\w+"@],
    {
        let mut regex_patterns: Vec<Pattern> = Vec::new();
        regex_patterns.push(Pattern::new("^\\(").unwrap());
        regex_patterns.push(Pattern::new("^\\)").unwrap());
        regex_patterns.push(Pattern::new("^ ").unwrap());
        regex_patterns.push(Pattern::new("^\\w+").unwrap());
        let r = ConditionCompiler { regex_patterns };
        assert(r@ =~= seq!["^\\("@, "^\\)"@, "^ "@, "^\\w+"@]);
        r
    }

    /// The token that a lexeme stands for.
    pub fn to_enum(&self, token: String) -> (r: ConditionToken)
        ensures
            r@ == token_of(token@),
    {
        if text_eq(token.as_str(), "(") {
            ConditionToken::LeftParenthesis
        } else if text_eq(token.as_str(), ")") {
            ConditionToken::RightParenthesis
        } else if text_eq(token.as_str(), " ") {
            ConditionToken::Space
        } else if text_eq(token.as_str(), "not") {
            ConditionToken::Not
        } else if text_eq(token.as_str(), "and") {
            ConditionToken::And
        } else if text_eq(token.as_str(), "or") {
            ConditionToken::Or
        } else {
            ConditionToken::SelectionReference(token)
        }
    }

    /// The first lexeme of `text`.
    fn next_lexeme(&self, text: &str) -> (r: Option<String>)
        ensures
            text::text_of(r) == lexeme(text@),
    {
        let found = find_first(&self.regex_patterns, text);
        proof {
            use_type_invariant(self);
            let n = choose|n: int|
                #[trigger] pattern::tried(self.regex_patterns@, text@, n, text::text_of(found));
            assert(n > 0 ==> pattern::fixed_pattern_rule(self.regex_patterns@[0]@, text@, None));
            assert(n > 1 ==> pattern::fixed_pattern_rule(self.regex_patterns@[1]@, text@, None));
            assert(n > 2 ==> pattern::fixed_pattern_rule(self.regex_patterns@[2]@, text@, None));
            assert(n > 3 ==> pattern::fixed_pattern_rule(self.regex_patterns@[3]@, text@, None));
        }
        found
    }

    /// Splits a condition expression into its tokens.
    pub fn tokenize(&self, condition_str: &String) -> (r: Result<Vec<ConditionToken>, String>)
        ensures
            tokens_result(r) == tokens_of(condition_str@),
    {
        let mut cur_condition_str: String = condition_str.clone();
        let mut tokens: Vec<ConditionToken> = Vec::new();
        assert(token::token_views(tokens@) =~= seq![]);
        while !cur_condition_str.as_str().is_empty()
            invariant
                match tokens_of(cur_condition_str@) {
                    Ok(rest) => {
                        &&& tokens_of(condition_str@) matches Ok(all)
                        &&& all =~= token::token_views(tokens@) + rest
                    },
                    Err(msg) => tokens_of(condition_str@) == Err::<Seq<TokenView>, Seq<char>>(msg),
                },
            decreases cur_condition_str@.len(),
        {
            proof {
                lemma_lexeme(cur_condition_str@);
            }
            let found = self.next_lexeme(cur_condition_str.as_str());
            if found.is_none() {
                return Err("An unusable character was found.".to_owned());
            }
            let mached_str = found.unwrap();
            let token = self.to_enum(mached_str.clone());
            let n = cur_condition_str.as_str().unicode_len();
            let m = mached_str.as_str().unicode_len();
            let rest = cur_condition_str.as_str().substring_char(m, n).to_owned();
            assert(rest@ =~= cur_condition_str@.skip(m as int));
            cur_condition_str = rest;
            if let ConditionToken::Space = token {
                continue;
            }
            let ghost before = tokens@;
            tokens.push(token);
            assert(token::token_views(tokens@) =~= token::token_views(before).push(token@));
        }
        assert(cur_condition_str@ =~= seq![]);
        Ok(tokens)
    }

    /// Whether a token is `and` or `or`.
    pub fn is_logical(&self, token: &ConditionToken) -> (r: bool)
        ensures
            r == token@.is_logical(),
    {
        match token {
            ConditionToken::And => true,
            ConditionToken::Or => true,
            _ => false,
        }
    }

    /// The position of the right parenthesis that belongs to the left one before `from`.
    fn find_closing(&self, tokens: &Vec<ConditionToken>, from: usize) -> (r: Option<usize>)
        requires
            1 <= from <= tokens@.len(),
        ensures
            match r {
                Some(at) => from <= at < tokens@.len() && grammar::closing(
                    token::token_views(tokens@).skip(from as int),
                    1,
                ) == Some(at - from),
                None => grammar::closing(token::token_views(tokens@).skip(from as int), 1) is None,
            },
    {
        let ghost views = token::token_views(tokens@);
        let n = tokens.len();
        let mut left_cnt: usize = 1;
        let mut right_cnt: usize = 0;
        let mut i: usize = from;
        while i < n
            invariant
                views == token::token_views(tokens@),
                n == tokens@.len(),
                1 <= from <= i <= n,
                right_cnt < left_cnt,
                left_cnt <= i - from + 1,
                grammar::closing(views.skip(from as int), 1) == (match grammar::closing(
                    views.skip(i as int),
                    left_cnt - right_cnt,
                ) {
                    Some(at) => Some(at + i - from),
                    None => None,
                }),
            decreases n - i,
        {
            assert(views.skip(i as int)[0] == tokens@[i as int]@);
            assert(views.skip(i as int).skip(1) =~= views.skip(i + 1));
            if let ConditionToken::LeftParenthesis = tokens[i] {
                left_cnt = left_cnt + 1;
            } else if let ConditionToken::RightParenthesis = tokens[i] {
                right_cnt = right_cnt + 1;
            }
            if left_cnt == right_cnt {
                return Some(i);
            }
            i = i + 1;
        }
        None
    }

    /// Replaces each outermost pair of parentheses, and what stands between them, by a
    /// container.
    pub fn parse_parenthesis(&self, tokens: Vec<ConditionToken>) -> (r: Result<
        Vec<ConditionToken>,
        String,
    >)
        ensures
            tokens_result(r) == grammar::parenthesised(token::token_views(tokens@)),
    {
        let ghost views = token::token_views(tokens@);
        let n = tokens.len();
        let mut ret: Vec<ConditionToken> = Vec::new();
        let mut i: usize = 0;
        assert(views.skip(0) =~= views);
        assert(token::token_views(ret@) =~= seq![]);
        while i < n
            invariant
                views == token::token_views(tokens@),
                n == tokens@.len(),
                i <= n,
                match grammar::wrap_parentheses(views.skip(i as int)) {
                    Ok(rest) => {
                        &&& grammar::wrap_parentheses(views) matches Ok(all)
                        &&& all =~= token::token_views(ret@) + rest
                    },
                    Err(msg) => grammar::wrap_parentheses(views) == Err::<
                        Seq<TokenView>,
                        Seq<char>,
                    >(msg),
                },
            decreases n - i,
        {
            let ghost before = ret@;
            assert(views.skip(i as int)[0] == tokens@[i as int]@);
            assert(views.skip(i as int).skip(1) =~= views.skip(i + 1));
            let is_left = match &tokens[i] {
                ConditionToken::LeftParenthesis => true,
                _ => false,
            };
            if !is_left {
                ret.push(tokens[i].clone());
                assert(token::token_views(ret@) =~= token::token_views(before).push(
                    views[i as int],
                ));
                i = i + 1;
                continue;
            }
            match self.find_closing(&tokens, i + 1) {
                None => {
                    return Err("expected ')'. but not found.".to_owned());
                },
                Some(at) => {
                    let mut sub_tokens: Vec<ConditionToken> = Vec::new();
                    for k in i + 1..at
                        invariant
                            views == token::token_views(tokens@),
                            i + 1 <= k <= at < tokens@.len(),
                            token::token_views(sub_tokens@) =~= views.subrange(i + 1, k as int),
                    {
                        let ghost inner = sub_tokens@;
                        sub_tokens.push(tokens[k].clone());
                        assert(token::token_views(sub_tokens@) =~= token::token_views(inner).push(
                            views[k as int],
                        ));
                    }
                    assert(views.skip(i as int).subrange(1, at - i) =~= views.subrange(
                        i + 1,
                        at as int,
                    ));
                    assert(views.skip(i as int).skip(at - i + 1) =~= views.skip(at + 1));
                    ret.push(ConditionToken::ParenthesisContainer(sub_tokens));
                    assert(token::token_views(ret@) =~= token::token_views(before).push(
                        TokenView::ParenthesisContainer(views.subrange(i + 1, at as int)),
                    ));
                    i = at + 1;
                },
            }
        }
        assert(views.skip(n as int) =~= seq![]);
        for k in 0..ret.len()
            invariant
                grammar::wrap_parentheses(views) == Ok::<Seq<TokenView>, Seq<char>>(
                    token::token_views(ret@),
                ),
                views == token::token_views(tokens@),
                forall|j: int|
                    0 <= j < k ==> !(
                    #[trigger] token::token_views(ret@)[j] is RightParenthesis),
        {
            if let ConditionToken::RightParenthesis = ret[k] {
                assert(token::token_views(ret@)[k as int] == TokenView::RightParenthesis);
                return Err("expected '('. but not found.".to_owned());
            }
        }
        Ok(ret)
    }

    /// Puts each run of tokens between logical operators in a container.
    pub fn to_operand_container(&self, tokens: Vec<ConditionToken>) -> (r: Result<
        Vec<ConditionToken>,
        String,
    >)
        ensures
            tokens_result(r) == Ok::<Seq<TokenView>, Seq<char>>(
                grammar::wrap_operands(token::token_views(tokens@)),
            ),
    {
        let ghost views = token::token_views(tokens@);
        let mut ret: Vec<ConditionToken> = Vec::new();
        let mut grouped_operands: Vec<ConditionToken> = Vec::new();
        assert(views.skip(0) =~= views);
        assert(token::token_views(ret@) =~= seq![]);
        for i in 0..tokens.len()
            invariant
                views == token::token_views(tokens@),
                grouped_operands@.len() <= i,
                token::token_views(grouped_operands@) =~= views.subrange(
                    i - grouped_operands@.len(),
                    i as int,
                ),
                forall|j: int|
                    i - grouped_operands@.len() <= j < i ==> !(#[trigger] views[j]).is_logical(),
                grammar::wrap_operands(views) =~= token::token_views(ret@) + grammar::wrap_operands(
                    views.skip(i - grouped_operands@.len()),
                ),
        {
            let ghost before = ret@;
            let ghost grouped = grouped_operands@;
            let ghost start = i - grouped.len();
            assert(views[i as int] == tokens@[i as int]@);
            assert(views.skip(i as int).skip(1) =~= views.skip(i + 1));
            if self.is_logical(&tokens[i]) {
                if grouped_operands.is_empty() {
                    ret.push(tokens[i].clone());
                    assert(token::token_views(ret@) =~= token::token_views(before).push(
                        views[i as int],
                    ));
                } else {
                    proof {
                        lemma_operand_run(views.skip(start), i - start);
                        assert(views.skip(start).take(i - start) =~= views.subrange(
                            start,
                            i as int,
                        ));
                        assert(views.skip(start).skip(i - start) =~= views.skip(i as int));
                    }
                    ret.push(ConditionToken::OperandContainer(grouped_operands));
                    ret.push(tokens[i].clone());
                    assert(token::token_views(ret@) =~= token::token_views(before).push(
                        TokenView::OperandContainer(views.subrange(start, i as int)),
                    ).push(views[i as int]));
                    grouped_operands = Vec::new();
                }
            } else {
                grouped_operands.push(tokens[i].clone());
                assert(token::token_views(grouped_operands@) =~= token::token_views(grouped).push(
                    views[i as int],
                ));
            }
        }
        let ghost n = views.len();
        let ghost start = n - grouped_operands@.len();
        if !grouped_operands.is_empty() {
            let ghost before = ret@;
            proof {
                lemma_operand_run(views.skip(start), n - start);
                assert(views.skip(start).take(n - start) =~= views.subrange(start, n as int));
                assert(views.skip(start).skip(n - start) =~= seq![]);
            }
            ret.push(ConditionToken::OperandContainer(grouped_operands));
            assert(token::token_views(ret@) =~= token::token_views(before).push(
                TokenView::OperandContainer(views.subrange(start, n as int)),
            ));
        } else {
            assert(views.skip(start) =~= seq![]);
        }
        assert(token::token_views(ret@) =~= grammar::wrap_operands(views));
        Ok(ret)
    }

    /// Parses the logical operators of one level.
    pub fn parse_and_or_operator(&self, tokens: Vec<ConditionToken>) -> (r: Result<
        ConditionToken,
        String,
    >)
        ensures
            token_result(r) == grammar::and_or(token::token_views(tokens@)),
    {
        if tokens.len() == 0 {
            return Err("unknown error.".to_owned());
        }
        let ghost source = token::token_views(tokens@);
        let containers = self.to_operand_container(tokens)?;
        let ghost items = token::token_views(containers@);
        proof {
            lemma_wrap_operands_nonempty(source);
        }
        let n = containers.len();
        assert(items[0] == containers@[0]@);
        assert(items.last() == containers@[n - 1]@);
        if self.is_logical(&containers[0]) || self.is_logical(&containers[n - 1]) {
            return Err("illegal Logical Operator(and, or) was found.".to_owned());
        }
        for i in 0..n
            invariant
                items == token::token_views(containers@),
                items == grammar::wrap_operands(source),
                source == token::token_views(tokens@),
                source.len() > 0,
                n == containers@.len(),
                !items[0].is_logical(),
                !items.last().is_logical(),
                forall|j: int| 0 <= j < i ==> (#[trigger] items[j]).is_logical() == (j % 2 == 1),
        {
            assert(items[i as int] == containers@[i as int]@);
            if (i % 2 == 1) != self.is_logical(&containers[i]) {
                assert(!grammar::alternating(items));
                return Err("The use of logical operator(and, or) was wrong.".to_owned());
            }
        }
        assert(n % 2 == 1) by {
            assert(items[n - 1].is_logical() == ((n - 1) % 2 == 1));
        }
        let mut operands: Vec<ConditionToken> = Vec::new();
        operands.push(containers[0].clone());
        assert(token::token_views(operands@) =~= items.take(1));
        let mut k: usize = 1;
        while k < n
            invariant
                items == token::token_views(containers@),
                n == containers@.len(),
                1 <= k <= n,
                n % 2 == 1,
                k % 2 == 1,
                grammar::alternating(items),
                token::token_views(operands@) =~= grammar::alternatives(items.take(k as int)),
            decreases n - k,
        {
            let ghost before = token::token_views(operands@);
            proof {
                let head = items.take(k + 2);
                assert(head.take(head.len() - 2) =~= items.take(k as int));
                assert(head.last() == containers@[k + 1]@);
                assert(head[head.len() - 2] == containers@[k as int]@);
                grammar::lemma_alternatives_nonempty(items.take(k as int));
                assert(items[k as int].is_logical());
            }
            if let ConditionToken::Or = containers[k] {
                operands.push(containers[k + 1].clone());
                assert(token::token_views(operands@) =~= before.push(items[k + 1]));
            } else {
                let ghost all = operands@;
                let mut and_operands: Vec<ConditionToken> = Vec::new();
                let last = operands.pop().unwrap();
                assert(token::token_views(operands@) =~= before.drop_last());
                assert(last@ == before.last());
                and_operands.push(last);
                and_operands.push(containers[k + 1].clone());
                assert(token::token_views(and_operands@) =~= seq![before.last(), items[k + 1]]);
                let ghost rest = operands@;
                operands.push(ConditionToken::AndContainer(and_operands));
                assert(token::token_views(operands@) =~= token::token_views(rest).push(
                    TokenView::AndContainer(seq![before.last(), items[k + 1]]),
                ));
            }
            k = k + 2;
        }
        assert(items.take(n as int) =~= items);
        Ok(ConditionToken::OrContainer(operands))
    }

    /// Replaces the operands of one level by what they stand for.
    pub fn parse_operand_container(&self, parent_token: ConditionToken) -> (r: Result<
        ConditionToken,
        String,
    >)
        ensures
            token_result(r) == grammar::resolve(parent_token@),
        decreases parent_token@,
    {
        if let ConditionToken::OperandContainer(sub_tokens) = parent_token {
            if sub_tokens.len() >= 3 {
                return Err(
                    "unknown error. maybe it's because there are multiple name of selection node.".to_owned(),
                );
            }
            if sub_tokens.len() == 0 {
                return Err("unknown error.".to_owned());
            }
            assert(token::token_views(sub_tokens@)[0] == sub_tokens@[0]@);
            if sub_tokens.len() == 1 {
                if let ConditionToken::Not = sub_tokens[0] {
                    return Err("illegal not was found.".to_owned());
                }
                return Ok(sub_tokens[0].clone());
            }
            assert(token::token_views(sub_tokens@)[1] == sub_tokens@[1]@);
            if let ConditionToken::Not = sub_tokens[0] {
                if let ConditionToken::Not = sub_tokens[1] {
                    return Err("not is continuous.".to_owned());
                }
                let mut negated: Vec<ConditionToken> = Vec::new();
                negated.push(sub_tokens[1].clone());
                assert(token::token_views(negated@) =~= seq![sub_tokens@[1]@]);
                return Ok(ConditionToken::NotContainer(negated));
            }
            return Err(
                "unknown error. maybe it's because there are multiple name of selection node.".to_owned(),
            );
        }
        let sub_tokens = parent_token.sub_tokens_without_parenthesis();
        if sub_tokens.len() == 0 {
            assert(parent_token@.sub() =~= seq![] || parent_token@ is ParenthesisContainer);
            return Ok(parent_token);
        }
        let ghost subs = token::token_views(sub_tokens@);
        let mut new_sub_tokens: Vec<ConditionToken> = Vec::new();
        assert(subs.take(0) =~= seq![]);
        assert(token::token_views(new_sub_tokens@) =~= seq![]);
        for i in 0..sub_tokens.len()
            invariant
                subs == token::token_views(sub_tokens@),
                subs == parent_token@.sub(),
                !(parent_token@ is ParenthesisContainer),
                !(parent_token@ is OperandContainer),
                grammar::resolve_all(subs.take(i as int)) == Ok::<Seq<TokenView>, Seq<char>>(
                    token::token_views(new_sub_tokens@),
                ),
        {
            let ghost before = new_sub_tokens@;
            assert(subs[i as int] == sub_tokens@[i as int]@);
            assert(decreases_to!(parent_token@ => subs[i as int]));
            assert(subs.take(i + 1).drop_last() =~= subs.take(i as int));
            match self.parse_operand_container(sub_tokens[i].clone()) {
                Err(msg) => {
                    proof {
                        lemma_resolve_all_prefix(subs, i + 1);
                    }
                    return Err(msg);
                },
                Ok(new_sub_token) => {
                    new_sub_tokens.push(new_sub_token);
                    assert(token::token_views(new_sub_tokens@) =~= token::token_views(before).push(
                        new_sub_token@,
                    ));
                },
            }
        }
        assert(subs.take(subs.len() as int) =~= subs);
        Ok(parent_token.replace_subtoken(new_sub_tokens))
    }

    /// Parses a sequence of tokens.
    pub fn parse(&self, tokens: Vec<ConditionToken>) -> (r: Result<ConditionToken, String>)
        ensures
            token_result(r) == grammar::parse(token::token_views(tokens@)),
        decreases grammar::total(token::token_views(tokens@)), 1int, token::token_views(tokens@),
    {
        let ghost views = token::token_views(tokens@);
        proof {
            grammar::lemma_level_size(views);
        }
        let tokens = self.parse_parenthesis(tokens)?;
        let token = self.parse_and_or_operator(tokens)?;
        let token = self.parse_operand_container(token)?;
        self.parse_rest_parenthesis(token)
    }

    /// Parses what stands in parentheses.
    pub fn parse_rest_parenthesis(&self, token: ConditionToken) -> (r: Result<
        ConditionToken,
        String,
    >)
        ensures
            token_result(r) == grammar::open_parentheses(token@),
        decreases grammar::size(token@), 0int, token@,
    {
        if let ConditionToken::ParenthesisContainer(sub_token) = token {
            return self.parse(sub_token);
        }
        let sub_tokens = token.sub_tokens();
        if sub_tokens.len() == 0 {
            assert(token@.sub() =~= seq![]);
            return Ok(token);
        }
        let ghost subs = token::token_views(sub_tokens@);
        let mut new_sub_tokens: Vec<ConditionToken> = Vec::new();
        assert(subs.take(0) =~= seq![]);
        assert(token::token_views(new_sub_tokens@) =~= seq![]);
        for i in 0..sub_tokens.len()
            invariant
                subs == token::token_views(sub_tokens@),
                subs == token@.sub(),
                !(token@ is ParenthesisContainer),
                grammar::open_all(subs.take(i as int)) == Ok::<Seq<TokenView>, Seq<char>>(
                    token::token_views(new_sub_tokens@),
                ),
        {
            let ghost before = new_sub_tokens@;
            assert(subs[i as int] == sub_tokens@[i as int]@);
            assert(decreases_to!(token@ => subs[i as int]));
            proof {
                lemma_total_member(subs, i as int);
            }
            assert(subs.take(i + 1).drop_last() =~= subs.take(i as int));
            match self.parse_rest_parenthesis(sub_tokens[i].clone()) {
                Err(msg) => {
                    proof {
                        lemma_open_all_prefix(subs, i + 1);
                    }
                    return Err(msg);
                },
                Ok(new_token) => {
                    new_sub_tokens.push(new_token);
                    assert(token::token_views(new_sub_tokens@) =~= token::token_views(before).push(
                        new_token@,
                    ));
                },
            }
        }
        assert(subs.take(subs.len() as int) =~= subs);
        Ok(token.replace_subtoken(new_sub_tokens))
    }

    /// The condition that a parsed expression stands for. `name_2_node` holds the conditions
    /// that can be referred to.
    pub fn to_selectnode(
        &self,
        token: ConditionToken,
        name_2_node: &TextTable<Arc<SelectionNode>>,
    ) -> (r: Result<SelectionNode, String>)
        requires
            !negates_nothing(token@, name_views(name_2_node@)),
        ensures
            node_result(r) == node_of(token@, name_views(name_2_node@)),
        decreases token@, 1int,
    {
        match token {
            ConditionToken::SelectionReference(selection_name) => match name_2_node.get(
                selection_name.as_str(),
            ) {
                None => Err(concat2(selection_name.as_str(), " is not defined.")),
                Some(selection_node) => Ok(
                    SelectionNode::Ref(RefSelectionNode::new(Arc::clone(selection_node))),
                ),
            },
            ConditionToken::AndContainer(sub_tokens) => {
                let mut select_and_node = AndSelectionNode::new();
                select_and_node.child_nodes = self.to_selectnodes(&sub_tokens, name_2_node)?;
                Ok(SelectionNode::And(select_and_node))
            },
            ConditionToken::OrContainer(sub_tokens) => {
                let mut select_or_node = OrSelectionNode::new();
                select_or_node.child_nodes = self.to_selectnodes(&sub_tokens, name_2_node)?;
                Ok(SelectionNode::Or(select_or_node))
            },
            ConditionToken::NotContainer(sub_tokens) => {
                if sub_tokens.len() > 1 {
                    return Err("unknown error".to_owned());
                }
                assert(token::token_views(sub_tokens@)[0] == sub_tokens@[0]@);
                let select_sub_node = self.to_selectnode(sub_tokens[0].clone(), name_2_node)?;
                Ok(SelectionNode::Not(NotSelectionNode::new(Box::new(select_sub_node))))
            },
            _ => Err("unknown error".to_owned()),
        }
    }

    fn to_selectnodes(
        &self,
        tokens: &Vec<ConditionToken>,
        name_2_node: &TextTable<Arc<SelectionNode>>,
    ) -> (r: Result<Vec<SelectionNode>, String>)
        requires
            !any_negates_nothing(token::token_views(tokens@), name_views(name_2_node@)),
        ensures
            match r {
                Ok(nodes) => nodes_of(token::token_views(tokens@), name_views(name_2_node@))
                    == Ok::<Seq<NodeView>, Seq<char>>(selection::node_views(nodes@)),
                Err(msg) => nodes_of(token::token_views(tokens@), name_views(name_2_node@))
                    == Err::<Seq<NodeView>, Seq<char>>(msg@),
            },
        decreases token::token_views(tokens@), 0int,
    {
        let ghost views = token::token_views(tokens@);
        let ghost names = name_views(name_2_node@);
        let mut nodes: Vec<SelectionNode> = Vec::new();
        assert(selection::node_views(nodes@) =~= seq![]);
        assert(views.take(0) =~= seq![]);
        for i in 0..tokens.len()
            invariant
                views == token::token_views(tokens@),
                names == name_views(name_2_node@),
                !any_negates_nothing(views, names),
                nodes_of(views.take(i as int), names) == Ok::<Seq<NodeView>, Seq<char>>(
                    selection::node_views(nodes@),
                ),
        {
            let ghost before = nodes@;
            assert(views[i as int] == tokens@[i as int]@);
            assert(decreases_to!(views => views[i as int]));
            assert(views.take(i + 1).drop_last() =~= views.take(i as int));
            proof {
                lemma_any_negates_prefix(views, names, i + 1);
            }
            match self.to_selectnode(tokens[i].clone(), name_2_node) {
                Err(msg) => {
                    proof {
                        lemma_nodes_of_prefix(views, names, i + 1);
                    }
                    return Err(msg);
                },
                Ok(node) => {
                    nodes.push(node);
                    assert(selection::node_views(nodes@) =~= selection::node_views(before).push(
                        node@,
                    ));
                },
            }
        }
        assert(views.take(views.len() as int) =~= views);
        Ok(nodes)
    }

    /// The condition that an expression without an aggregation part stands for.
    pub fn compile_condition_body(
        &self,
        condition_str: String,
        name_2_node: &TextTable<Arc<SelectionNode>>,
    ) -> (r: Result<SelectionNode, String>)
        ensures
            node_result(r) == condition_of(condition_str@, name_views(name_2_node@)),
    {
        let tokens = self.tokenize(&condition_str)?;
        proof {
            lemma_tokens_plain(condition_str@);
            grammar::lemma_parse_tree(token::token_views(tokens@));
        }
        let parsed = self.parse(tokens)?;
        proof {
            lemma_tree_negates(parsed@, name_views(name_2_node@));
        }
        self.to_selectnode(parsed, name_2_node)
    }

    /// The condition that an expression stands for. Its aggregation part is passed over.
    pub fn compile_condition(
        &self,
        condition_str: String,
        name_2_node: &TextTable<Arc<SelectionNode>>,
    ) -> (r: Result<SelectionNode, String>)
        ensures
            node_result(r) == compiled_condition(condition_str@, name_views(name_2_node@)),
    {
        let re_pipe = Pattern::new("\\|.*").unwrap();
        let condition_body = match re_pipe.first_match(condition_str.as_str()) {
            Some(captured) => {
                proof {
                    lemma_condition_part(condition_str@);
                }
                remove_first(condition_str.as_str(), captured.as_str())
            },
            None => condition_str.clone(),
        };
        match self.compile_condition_body(condition_body, name_2_node) {
            Ok(node) => Ok(node),
            Err(msg) => Err(concat2("condition parse error has occured. ", msg.as_str())),
        }
    }
}

} // verus!
