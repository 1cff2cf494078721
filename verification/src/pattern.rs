//! Regular expressions. The `regex` crate compiles and applies them; a [`Pattern`] is the
//! text of one that compiles.
use regex::Regex;
use vstd::prelude::*;

use crate::text;

verus! {

/// Whether `regex::Regex::new` accepts `pattern`.
pub uninterp spec fn regex_valid(pattern: Seq<char>) -> bool;

/// The text of the whole match that `regex::Regex::captures` finds in `text`.
pub uninterp spec fn regex_first_match(pattern: Seq<char>, text: Seq<char>) -> Option<Seq<char>>;

/// The texts of the matches that `regex::Regex::find_iter` yields on `text`, in order.
pub uninterp spec fn regex_matches(pattern: Seq<char>, text: Seq<char>) -> Seq<Seq<char>>;

/// A character of the class `\w`. In ASCII these are the letters, the digits and `_`.
pub open spec fn word_char(c: char) -> bool {
    if c <= '\x7f' {
        text::is_digit(c) || ('A' <= c && c <= 'Z') || ('a' <= c && c <= 'z') || c == '_'
    } else {
        regex_first_match("^\\w+"@, seq![c]) is Some
    }
}

/// The end of the run of word characters that starts at `from`.
pub open spec fn word_end(text: Seq<char>, from: int) -> int
    decreases text.len() - from,
{
    if 0 <= from < text.len() && word_char(text[from]) {
        word_end(text, from + 1)
    } else {
        from
    }
}

/// The end of the run of blanks that starts at `from`.
pub open spec fn blank_end(text: Seq<char>, from: int) -> int
    decreases text.len() - from,
{
    if 0 <= from < text.len() && text[from] == ' ' {
        blank_end(text, from + 1)
    } else {
        from
    }
}

/// What `^` followed by a literal matches.
pub open spec fn literal_match(literal: Seq<char>, text: Seq<char>) -> Option<Seq<char>> {
    if literal.is_prefix_of(text) {
        Some(literal)
    } else {
        None
    }
}

/// What `^\w+` matches: the longest non-empty run of word characters at the start.
pub open spec fn word_match(text: Seq<char>) -> Option<Seq<char>> {
    if word_end(text, 0) > 0 {
        Some(text.take(word_end(text, 0)))
    } else {
        None
    }
}

/// What `^count\( *\w* *\)` matches: `count(`, blanks, a word that may be empty, blanks and `)`.
pub open spec fn count_match(text: Seq<char>) -> Option<Seq<char>> {
    let end = blank_end(text, word_end(text, blank_end(text, 6)));
    if "count("@.is_prefix_of(text) && end < text.len() && text[end] == ')' {
        Some(text.take(end + 1))
    } else {
        None
    }
}

/// What `\|.*` matches: from the first `|` to the end of its line.
pub open spec fn pipe_match(text: Seq<char>) -> Option<Seq<char>> {
    let start = text::find_char(text, '|', 0);
    if start < text.len() {
        Some(text.subrange(start, text::find_char(text, '\n', start)))
    } else {
        None
    }
}

/// The patterns that the two condition compilers are made of.
pub open spec fn is_fixed_pattern(pattern: Seq<char>) -> bool {
    ||| pattern == "^\\("@
    ||| pattern == "^\\)"@
    ||| pattern == "^ "@
    ||| pattern == "^\\w+"@
    ||| pattern == "^count\\( *\\w* *\\)"@
    ||| pattern == "^by"@
    ||| pattern == "^=="@
    ||| pattern == "^<="@
    ||| pattern == "^>="@
    ||| pattern == "^<"@
    ||| pattern == "^>"@
    ||| pattern == "\\|.*"@
}

/// What the fixed patterns match.
pub open spec fn fixed_pattern_rule(
    pattern: Seq<char>,
    text: Seq<char>,
    found: Option<Seq<char>>,
) -> bool {
    &&& pattern == "^\\("@ ==> found == literal_match("("@, text)
    &&& pattern == "^\\)"@ ==> found == literal_match(")"@, text)
    &&& pattern == "^ "@ ==> found == literal_match(" "@, text)
    &&& pattern == "^by"@ ==> found == literal_match("by"@, text)
    &&& pattern == "^=="@ ==> found == literal_match("=="@, text)
    &&& pattern == "^<="@ ==> found == literal_match("<="@, text)
    &&& pattern == "^>="@ ==> found == literal_match(">="@, text)
    &&& pattern == "^<"@ ==> found == literal_match("<"@, text)
    &&& pattern == "^>"@ ==> found == literal_match(">"@, text)
    &&& pattern == "^\\w+"@ ==> found == word_match(text)
    &&& pattern == "^count\\( *\\w* *\\)"@ ==> found == count_match(text)
    &&& pattern == "\\|.*"@ ==> found == pipe_match(text)
}

/// `regex::Regex::new`, reduced to whether it accepts the pattern. It accepts each of the
/// fixed patterns; which others it accepts is named [`regex_valid`].
#[verifier::external_body]
fn compiles(pattern: &str) -> (r: bool)
    ensures
        r == regex_valid(pattern@),
        is_fixed_pattern(pattern@) ==> r,
{
    Regex::new(pattern).is_ok()
}

/// `regex::Regex::captures`, reduced to the text of group 0, the whole leftmost match. For the
/// fixed patterns the match is stated; for any other it is named [`regex_first_match`].
#[verifier::external_body]
fn captured_text(pattern: &str, text: &str) -> (r: Option<String>)
    requires
        regex_valid(pattern@),
    ensures
        text::text_of(r) == regex_first_match(pattern@, text@),
        fixed_pattern_rule(pattern@, text@, text::text_of(r)),
{
    let re = Regex::new(pattern).unwrap();
    re.captures(text).map(|c| c.get(0).unwrap().as_str().to_string())
}

/// `regex::Regex::find_iter`: the texts of the successive matches, named [`regex_matches`].
#[verifier::external_body]
fn match_texts(pattern: &str, text: &str) -> (r: Vec<String>)
    requires
        regex_valid(pattern@),
    ensures
        text::texts(r@) == regex_matches(pattern@, text@),
{
    let re = Regex::new(pattern).unwrap();
    re.find_iter(text).map(|m| m.as_str().to_string()).collect()
}

/// `regex::Regex::is_match`: whether there is a match anywhere in the text.
#[verifier::external_body]
fn has_match(pattern: &str, text: &str) -> (r: bool)
    requires
        regex_valid(pattern@),
    ensures
        r == (regex_first_match(pattern@, text@) is Some),
{
    Regex::new(pattern).unwrap().is_match(text)
}

/// A regular expression that compiles.
#[derive(Debug)]
pub struct Pattern {
    text: String,
}

impl View for Pattern {
    type V = Seq<char>;

    closed spec fn view(&self) -> Seq<char> {
        self.text@
    }
}

impl Pattern {
    #[verifier::type_invariant]
    closed spec fn wf(self) -> bool {
        regex_valid(self.text@)
    }

    /// The pattern with the given text, if it is a valid regular expression.
    pub fn new(text: &str) -> (r: Option<Pattern>)
        ensures
            r is Some <==> regex_valid(text@),
            is_fixed_pattern(text@) ==> r is Some,
            r matches Some(p) ==> p@ == text@,
    {
        if compiles(text) {
            Some(Pattern { text: text.to_owned() })
        } else {
            None
        }
    }

    pub fn as_str(&self) -> (r: &str)
        ensures
            r@ == self@,
    {
        self.text.as_str()
    }

    /// The text of the leftmost match.
    pub fn first_match(&self, text: &str) -> (r: Option<String>)
        ensures
            text::text_of(r) == regex_first_match(self@, text@),
            fixed_pattern_rule(self@, text@, text::text_of(r)),
    {
        proof {
            use_type_invariant(self);
        }
        captured_text(self.text.as_str(), text)
    }

    /// The texts of all matches.
    pub fn matches(&self, text: &str) -> (r: Vec<String>)
        ensures
            text::texts(r@) == regex_matches(self@, text@),
    {
        proof {
            use_type_invariant(self);
        }
        match_texts(self.text.as_str(), text)
    }

    /// Whether the pattern matches somewhere in `text`.
    pub fn is_match(&self, text: &str) -> (r: bool)
        ensures
            r == (regex_first_match(self@, text@) is Some),
    {
        proof {
            use_type_invariant(self);
        }
        has_match(self.text.as_str(), text)
    }
}

/// `n` patterns do not match and the next one gives `found`, or there is no next one.
pub open spec fn tried(
    patterns: Seq<Pattern>,
    text: Seq<char>,
    n: int,
    found: Option<Seq<char>>,
) -> bool {
    &&& 0 <= n <= patterns.len()
    &&& forall|j: int|
        0 <= j < n ==> {
            &&& regex_first_match((#[trigger] patterns[j])@, text) is None
            &&& fixed_pattern_rule(patterns[j]@, text, None)
        }
    &&& match found {
        Some(_) => {
            &&& n < patterns.len()
            &&& regex_first_match(patterns[n]@, text) == found
            &&& fixed_pattern_rule(patterns[n]@, text, found)
        },
        None => n == patterns.len(),
    }
}

/// The match of the first pattern that matches.
pub fn find_first(patterns: &Vec<Pattern>, text: &str) -> (r: Option<String>)
    ensures
        exists|n: int| #[trigger] tried(patterns@, text@, n, text::text_of(r)),
{
    for i in 0..patterns.len()
        invariant
            forall|j: int|
                0 <= j < i ==> {
                    &&& regex_first_match((#[trigger] patterns@[j])@, text@) is None
                    &&& fixed_pattern_rule(patterns@[j]@, text@, None)
                },
    {
        let found = patterns[i].first_match(text);
        if found.is_some() {
            assert(tried(patterns@, text@, i as int, text::text_of(found)));
            return found;
        }
    }
    assert(tried(patterns@, text@, patterns@.len() as int, None));
    None
}

} // verus!
