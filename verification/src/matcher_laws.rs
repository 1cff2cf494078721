//! To which values the matchers apply, and what they are set up to.
use vstd::prelude::*;

use crate::event::ValueView;
use crate::matcher;
use crate::matcher::MatcherView;
use crate::pattern;
use crate::text;
use crate::text_laws;
use crate::utils;
use crate::yaml::YamlView;

verus! {

/// A string or a number, and how it is written.
pub open spec fn reads(value: ValueView, text: Seq<char>) -> bool {
    match value {
        ValueView::String(s) => s == text,
        ValueView::Number(n) => n.text() == text,
        _ => false,
    }
}

/// A value that matchers of texts do not apply to: it is missing, or neither a string nor a
/// number.
pub open spec fn no_text(value: Option<ValueView>) -> bool {
    match value {
        None => true,
        Some(v) => !(v is String) && !(v is Number),
    }
}

/// `startswith` applies exactly to the values that are the text and something behind it.
pub proof fn law_starts_with(part: Seq<char>, value: ValueView, text: Seq<char>)
    requires
        reads(value, text),
    ensures
        MatcherView::StartsWith(part).matches(Some(value)) <==> exists|rest: Seq<char>|
            #[trigger] (part + rest) == text,
{
    if MatcherView::StartsWith(part).matches(Some(value)) {
        assert(part + text.skip(part.len() as int) =~= text) by {
            assert(text.subrange(0, part.len() as int) =~= part);
            assert forall|i: int| 0 <= i < text.len() implies (part + text.skip(
                part.len() as int,
            ))[i] == text[i] by {
                if i < part.len() {
                    assert(text.subrange(0, part.len() as int)[i] == text[i]);
                }
            }
        }
    }
    if exists|rest: Seq<char>| #[trigger] (part + rest) == text {
        let rest = choose|rest: Seq<char>| #[trigger] (part + rest) == text;
        assert((part + rest).subrange(0, part.len() as int) =~= part);
    }
}

/// `endswith` applies exactly to the values that are the text and something in front of it.
pub proof fn law_ends_with(part: Seq<char>, value: ValueView, text: Seq<char>)
    requires
        reads(value, text),
    ensures
        MatcherView::EndsWith(part).matches(Some(value)) <==> exists|rest: Seq<char>|
            #[trigger] (rest + part) == text,
{
    if MatcherView::EndsWith(part).matches(Some(value)) {
        let n = text.len() - part.len();
        assert(text.subrange(n, text.len() as int) =~= part);
        assert(text.take(n) + part =~= text) by {
            assert forall|i: int| 0 <= i < text.len() implies (text.take(n) + part)[i]
                == text[i] by {
                if i >= n {
                    assert(text.subrange(n, text.len() as int)[i - n] == text[i]);
                }
            }
        }
    }
    if exists|rest: Seq<char>| #[trigger] (rest + part) == text {
        let rest = choose|rest: Seq<char>| #[trigger] (rest + part) == text;
        assert((rest + part).subrange(rest.len() as int, text.len() as int) =~= part);
    }
}

/// `contains` applies exactly to the values that are the text with something around it.
pub proof fn law_contains(part: Seq<char>, value: ValueView, text: Seq<char>)
    requires
        reads(value, text),
    ensures
        MatcherView::Contains(part).matches(Some(value)) <==> exists|a: Seq<char>, b: Seq<char>|
            #[trigger] (a + part + b) == text,
{
    text_laws::law_occurs(text, part);
}

/// A value meets every minimum up to the number of its characters, and none beyond.
pub proof fn law_minimum_length(min_len: int, value: ValueView, text: Seq<char>)
    requires
        reads(value, text),
    ensures
        MatcherView::Minlength(min_len).matches(Some(value)) <==> min_len <= text.len(),
{
}

/// Comparisons of texts apply to strings and numbers only.
pub proof fn law_texts_are_compared_only(
    part: Seq<char>,
    min_len: int,
    rows: Seq<Seq<Seq<char>>>,
    value: Option<ValueView>,
)
    requires
        no_text(value),
    ensures
        !MatcherView::StartsWith(part).matches(value),
        !MatcherView::EndsWith(part).matches(value),
        !MatcherView::Contains(part).matches(value),
        !MatcherView::Minlength(min_len).matches(value),
        !MatcherView::Regexes(rows).matches(value),
{
}

/// A regular expression applies to a string, a number or a boolean exactly if one of its
/// matches in the value is all of the value.
pub proof fn law_regex(re: Seq<char>, value: ValueView, text: Seq<char>)
    requires
        reads(value, text) || (value matches ValueView::Bool(b) && text == text::bool_text(b)),
    ensures
        MatcherView::Regex(Some(re)).matches(Some(value)) <==> exists|i: int|
            0 <= i < pattern::regex_matches(re, text).len() && (#[trigger] pattern::regex_matches(
                re,
                text,
            )[i]) == text,
{
}

/// A regular expression applies to nothing else, a missing value included.
pub proof fn law_regex_needs_a_text(re: Seq<char>, value: Option<ValueView>)
    requires
        no_text(value),
        value matches Some(v) ==> !(v is Bool),
    ensures
        !MatcherView::Regex(Some(re)).matches(value),
{
}

/// Without a regular expression, exactly the values that are missing, null or the empty string
/// match.
pub proof fn law_absence(value: ValueView)
    ensures
        MatcherView::Regex(None).matches(None),
        MatcherView::Regex(None).matches(Some(value)) <==> value == ValueView::Null || value
            == ValueView::String(seq![]),
{
    if let ValueView::String(s) = value {
        if s.len() == 0 {
            assert(s =~= seq![]);
        }
    }
}

/// A regular expression that is not empty and matches somewhere in a text.
pub open spec fn matches_somewhere(re: Seq<char>, text: Seq<char>) -> bool {
    &&& re != Seq::<char>::empty()
    &&& pattern::regex_valid(re)
    &&& pattern::regex_first_match(re, text) is Some
}

/// A list of exceptions lets a string, a number or a boolean through exactly if no regular
/// expression at the start of its rows matches somewhere in it.
pub proof fn law_whitelist(rows: Seq<Seq<Seq<char>>>, value: ValueView, text: Seq<char>)
    requires
        reads(value, text) || (value matches ValueView::Bool(b) && text == text::bool_text(b)),
    ensures
        MatcherView::Whitelist(rows).matches(Some(value)) <==> forall|i: int|
            0 <= i < rows.len() && (#[trigger] rows[i]).len() > 0 ==> !matches_somewhere(
                rows[i][0],
                text,
            ),
{
    if MatcherView::Whitelist(rows).matches(Some(value)) {
        assert forall|i: int| 0 <= i < rows.len() && (
        #[trigger] rows[i]).len() > 0 implies !matches_somewhere(rows[i][0], text) by {
            assert(utils::cell(rows[i], 0) == rows[i][0]);
            if rows[i][0].len() == 0 {
                assert(rows[i][0] =~= Seq::<char>::empty());
            }
            assert(!utils::found_in(utils::cell(rows[i], 0), text));
        }
    } else {
        let i = choose|i: int|
            0 <= i < rows.len() && utils::found_in(utils::cell(#[trigger] rows[i], 0), text);
        assert(rows[i].len() > 0);
        assert(matches_somewhere(rows[i][0], text));
    }
}

/// A list of exceptions lets everything else through.
pub proof fn law_whitelist_of_other_values(rows: Seq<Seq<Seq<char>>>, value: Option<ValueView>)
    requires
        no_text(value),
        value matches Some(v) ==> !(v is Bool),
    ensures
        MatcherView::Whitelist(rows).matches(value),
{
}

/// A row of a list of regular expressions applies to a text: its kind is `kind`, its regular
/// expression matches somewhere in the text, and it has a remark.
pub open spec fn row_applies(row: Seq<Seq<char>>, text: Seq<char>, kind: Seq<char>) -> bool {
    &&& row.len() >= 3
    &&& row[0] == kind
    &&& matches_somewhere(row[1], text)
    &&& row[2] != Seq::<char>::empty()
}

proof fn lemma_row_applies(row: Seq<Seq<char>>, text: Seq<char>, kind: nat)
    ensures
        utils::regex_hit(row, text, kind) <==> row_applies(row, text, text::decimal_nat(kind)),
{
    if row.len() >= 3 {
        if row[2].len() == 0 {
            assert(row[2] =~= Seq::<char>::empty());
        }
        if row[1].len() == 0 {
            assert(row[1] =~= Seq::<char>::empty());
        }
    }
}

/// What is reported of a text is the remark of each row that applies to it, in the order of the
/// rows and with a line feed behind each.
pub proof fn law_report(
    rows: Seq<Seq<Seq<char>>>,
    row: Seq<Seq<char>>,
    text: Seq<char>,
    kind: nat,
)
    ensures
        utils::regex_report(Seq::empty(), text, kind) == Seq::<char>::empty(),
        row_applies(row, text, text::decimal_nat(kind)) ==> utils::regex_report(
            rows.push(row),
            text,
            kind,
        ) == utils::regex_report(rows, text, kind) + row[2] + seq!['\n'],
        !row_applies(row, text, text::decimal_nat(kind)) ==> utils::regex_report(
            rows.push(row),
            text,
            kind,
        ) == utils::regex_report(rows, text, kind),
{
    reveal_strlit("\n");
    assert("\n"@ =~= seq!['\n']);
    lemma_row_applies(row, text, kind);
    assert(rows.push(row).drop_last() =~= rows);
}

/// A list of regular expressions applies to a value exactly if one of its rows of kind `0` does.
pub proof fn law_regexes(rows: Seq<Seq<Seq<char>>>, value: ValueView, text: Seq<char>)
    requires
        reads(value, text),
    ensures
        MatcherView::Regexes(rows).matches(Some(value)) <==> exists|i: int|
            0 <= i < rows.len() && row_applies(#[trigger] rows[i], text, seq!['0']),
{
    text_laws::law_one_digit(0);
    assert(text::decimal_nat(0) =~= seq!['0']);
    utils::lemma_regex_report(rows, text, 0);
    if exists|i: int| 0 <= i < rows.len() && utils::regex_hit(#[trigger] rows[i], text, 0) {
        let i = choose|i: int|
            0 <= i < rows.len() && utils::regex_hit(#[trigger] rows[i], text, 0);
        lemma_row_applies(rows[i], text, 0);
        assert(row_applies(rows[i], text, seq!['0']));
    }
    if exists|i: int| 0 <= i < rows.len() && row_applies(#[trigger] rows[i], text, seq!['0']) {
        let i = choose|i: int|
            0 <= i < rows.len() && row_applies(#[trigger] rows[i], text, seq!['0']);
        lemma_row_applies(rows[i], text, 0);
        assert(utils::regex_hit(rows[i], text, 0));
    }
}

/// How the scalars of a rule are written.
pub open spec fn scalar(given: YamlView, text: Seq<char>) -> bool {
    match given {
        YamlView::String(s) => s == text,
        YamlView::Real(r) => r == text,
        YamlView::Integer(i) => text::decimal(i) == text,
        YamlView::Boolean(b) => text::bool_text(b) == text,
        _ => false,
    }
}

/// A value that is null or no scalar.
pub open spec fn no_scalar(given: YamlView) -> bool {
    match given {
        YamlView::String(_) => false,
        YamlView::Real(_) => false,
        YamlView::Integer(_) => false,
        YamlView::Boolean(_) => false,
        _ => true,
    }
}

/// A regular expression that is valid is taken over; another one is reported, and the matcher
/// stays what it was.
pub proof fn law_regex_is_set_up(
    re: Option<Seq<char>>,
    keys: Seq<Seq<char>>,
    given: YamlView,
    text: Seq<char>,
    files: Map<Seq<char>, Seq<Seq<Seq<char>>>>,
)
    requires
        scalar(given, text),
    ensures
        pattern::regex_valid(text) ==> MatcherView::Regex(re).set_up(keys, given, files) == (
            MatcherView::Regex(Some(text)),
            Seq::<Seq<char>>::empty(),
        ),
        !pattern::regex_valid(text) ==> MatcherView::Regex(re).set_up(keys, given, files) == (
            MatcherView::Regex(re),
            seq![
                "cannot parse regex. [regex:"@ + text + ", key:"@ + matcher::key_path(keys) + "]"@,
            ],
        ),
{
}

/// The text for `startswith`, `endswith` and `contains` is taken over as it is written.
pub proof fn law_part_is_set_up(
    part: Seq<char>,
    keys: Seq<Seq<char>>,
    given: YamlView,
    text: Seq<char>,
    files: Map<Seq<char>, Seq<Seq<Seq<char>>>>,
)
    requires
        scalar(given, text),
    ensures
        MatcherView::StartsWith(part).set_up(keys, given, files) == (
            MatcherView::StartsWith(text),
            Seq::<Seq<char>>::empty(),
        ),
        MatcherView::EndsWith(part).set_up(keys, given, files) == (
            MatcherView::EndsWith(text),
            Seq::<Seq<char>>::empty(),
        ),
        MatcherView::Contains(part).set_up(keys, given, files) == (
            MatcherView::Contains(text),
            Seq::<Seq<char>>::empty(),
        ),
{
}

/// Null clears a regular expression and leaves the text of the other matchers alone.
pub proof fn law_null_is_set_up(
    re: Option<Seq<char>>,
    part: Seq<char>,
    keys: Seq<Seq<char>>,
    files: Map<Seq<char>, Seq<Seq<Seq<char>>>>,
)
    ensures
        MatcherView::Regex(re).set_up(keys, YamlView::Null, files) == (
            MatcherView::Regex(None),
            Seq::<Seq<char>>::empty(),
        ),
        MatcherView::StartsWith(part).set_up(keys, YamlView::Null, files) == (
            MatcherView::StartsWith(part),
            Seq::<Seq<char>>::empty(),
        ),
        MatcherView::EndsWith(part).set_up(keys, YamlView::Null, files) == (
            MatcherView::EndsWith(part),
            Seq::<Seq<char>>::empty(),
        ),
        MatcherView::Contains(part).set_up(keys, YamlView::Null, files) == (
            MatcherView::Contains(part),
            Seq::<Seq<char>>::empty(),
        ),
{
}

/// What is neither null nor a scalar is reported, and the matcher stays what it was.
pub proof fn law_other_values_are_reported(
    m: MatcherView,
    keys: Seq<Seq<char>>,
    given: YamlView,
    files: Map<Seq<char>, Seq<Seq<Seq<char>>>>,
)
    requires
        m is Regex || m is StartsWith || m is EndsWith || m is Contains,
        no_scalar(given),
        !(given is Null),
    ensures
        m.set_up(keys, given, files) == (
            m,
            seq!["unknown error occured. [key:"@ + matcher::key_path(keys) + "]"@],
        ),
{
}

/// A minimum length is an integer; anything else is reported.
pub proof fn law_minimum_is_set_up(
    min_len: int,
    keys: Seq<Seq<char>>,
    given: YamlView,
    n: int,
    files: Map<Seq<char>, Seq<Seq<Seq<char>>>>,
)
    ensures
        MatcherView::Minlength(min_len).set_up(keys, YamlView::Integer(n), files) == (
            MatcherView::Minlength(n),
            Seq::<Seq<char>>::empty(),
        ),
        !(given is Integer) ==> MatcherView::Minlength(min_len).set_up(keys, given, files) == (
            MatcherView::Minlength(min_len),
            seq!["min_length value should be Integer. [key:"@ + matcher::key_path(keys) + "]"@],
        ),
{
}

/// A list is the content of the file that a string or a number names.
pub proof fn law_list_is_set_up(
    rows: Seq<Seq<Seq<char>>>,
    keys: Seq<Seq<char>>,
    given: YamlView,
    name: Seq<char>,
    files: Map<Seq<char>, Seq<Seq<Seq<char>>>>,
)
    requires
        scalar(given, name),
        !(given is Boolean),
        files.contains_key(name),
    ensures
        MatcherView::Regexes(rows).set_up(keys, given, files) == (
            MatcherView::Regexes(files[name]),
            Seq::<Seq<char>>::empty(),
        ),
        MatcherView::Whitelist(rows).set_up(keys, given, files) == (
            MatcherView::Whitelist(files[name]),
            Seq::<Seq<char>>::empty(),
        ),
{
}

/// A list whose file cannot be read is reported.
pub proof fn law_unread_list_is_reported(
    rows: Seq<Seq<Seq<char>>>,
    keys: Seq<Seq<char>>,
    given: YamlView,
    name: Seq<char>,
    files: Map<Seq<char>, Seq<Seq<Seq<char>>>>,
)
    requires
        scalar(given, name),
        !(given is Boolean),
        !files.contains_key(name),
    ensures
        MatcherView::Regexes(rows).set_up(keys, given, files) == (
            MatcherView::Regexes(rows),
            seq!["cannot read regexes file. [key:"@ + matcher::key_path(keys) + "]"@],
        ),
        MatcherView::Whitelist(rows).set_up(keys, given, files) == (
            MatcherView::Whitelist(rows),
            seq!["cannot read whitelist file. [key:"@ + matcher::key_path(keys) + "]"@],
        ),
{
}

/// A list that is named by neither a string nor a number is reported.
pub proof fn law_unnamed_list_is_reported(
    rows: Seq<Seq<Seq<char>>>,
    keys: Seq<Seq<char>>,
    given: YamlView,
    files: Map<Seq<char>, Seq<Seq<Seq<char>>>>,
)
    requires
        no_scalar(given) || given is Boolean,
    ensures
        MatcherView::Regexes(rows).set_up(keys, given, files) == (
            MatcherView::Regexes(rows),
            seq!["regexes value should be String. [key:"@ + matcher::key_path(keys) + "]"@],
        ),
        MatcherView::Whitelist(rows).set_up(keys, given, files) == (
            MatcherView::Whitelist(rows),
            seq!["whitelist value should be String. [key:"@ + matcher::key_path(keys) + "]"@],
        ),
{
}

/// The place of a leaf names its keys in order, each behind an arrow.
pub proof fn law_key_path(keys: Seq<Seq<char>>, key: Seq<char>)
    ensures
        matcher::key_path(Seq::empty()) == "detection -> selection"@,
        matcher::key_path(keys.push(key)) == matcher::key_path(keys) + " -> "@ + key,
{
    assert(keys.push(key).drop_last() =~= keys);
}

/// A result is a success exactly if there is no message, and an error holds the messages one by
/// one otherwise.
pub proof fn law_reports(r: Result<(), Vec<String>>, messages: Seq<Seq<char>>)
    requires
        matcher::reports(r, messages),
    ensures
        r is Ok <==> messages.len() == 0,
        r matches Err(e) ==> e@.len() == messages.len() && forall|i: int|
            0 <= i < messages.len() ==> (#[trigger] e@[i])@ == messages[i],
{
    if let Err(e) = r {
        assert(text::texts(e@).len() == e@.len());
        assert forall|i: int| 0 <= i < messages.len() implies (#[trigger] e@[i])@
            == messages[i] by {
            assert(text::texts(e@)[i] == e@[i]@);
        }
    }
}

/// A text is in a list of exceptions exactly if the regular expression at the start of a row
/// matches somewhere in it.
pub proof fn law_whitelisted(rows: Seq<Seq<Seq<char>>>, text: Seq<char>)
    ensures
        utils::whitelisted(rows, text) <==> exists|i: int|
            0 <= i < rows.len() && (#[trigger] rows[i]).len() > 0 && matches_somewhere(
                rows[i][0],
                text,
            ),
{
    law_whitelist(rows, ValueView::String(text), text);
    assert(utils::whitelisted(rows, text) <==> !MatcherView::Whitelist(rows).matches(
        Some(ValueView::String(text)),
    ));
}

/// A regular expression matches all of a text exactly if one of its matches is the text.
pub proof fn law_full_match(re: Seq<char>, text: Seq<char>)
    ensures
        matcher::full_match(re, text) <==> exists|i: int|
            0 <= i < pattern::regex_matches(re, text).len() && (#[trigger] pattern::regex_matches(
                re,
                text,
            )[i]) == text,
{
}

/// Which matcher is the one for which keys: the regular expression for no key or `regex`, the
/// other three for their names, and those that options ask for for none.
pub proof fn law_targets(
    re: Option<Seq<char>>,
    n: int,
    rows: Seq<Seq<Seq<char>>>,
    part: Seq<char>,
    keys: Seq<Seq<char>>,
)
    ensures
        matcher::is_target(MatcherView::Regex(re), keys) <==> keys.len() == 0 || (keys.len() == 1
            && keys[0] == "regex"@),
        matcher::is_target(MatcherView::Minlength(n), keys) <==> keys.len() == 1 && keys[0]
            == "min_length"@,
        matcher::is_target(MatcherView::Regexes(rows), keys) <==> keys.len() == 1 && keys[0]
            == "regexes"@,
        matcher::is_target(MatcherView::Whitelist(rows), keys) <==> keys.len() == 1 && keys[0]
            == "whitelist"@,
        !matcher::is_target(MatcherView::StartsWith(part), keys),
        !matcher::is_target(MatcherView::EndsWith(part), keys),
        !matcher::is_target(MatcherView::Contains(part), keys),
{
    if keys.len() == 1 {
        assert(keys =~= seq![keys[0]]);
        assert(seq!["regex"@][0] == "regex"@);
        assert(seq!["min_length"@][0] == "min_length"@);
        assert(seq!["regexes"@][0] == "regexes"@);
        assert(seq!["whitelist"@][0] == "whitelist"@);
    } else {
        assert(seq!["regex"@].len() == 1);
        assert(seq!["min_length"@].len() == 1);
        assert(seq!["regexes"@].len() == 1);
        assert(seq!["whitelist"@].len() == 1);
    }
}

} // verus!
