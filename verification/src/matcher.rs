//! The comparisons that the leaves of a selection make with the values of an event record.
use vstd::prelude::*;
use vstd::string::StrSliceExecFns;

use crate::event;
use crate::event::{Value, ValueView};
use crate::pattern;
use crate::pattern::Pattern;
use crate::table::TextTable;
use crate::text;
use crate::text::{clone_texts, concat2, contains, ends_with, starts_with, text_eq};
use crate::utils;
use crate::utils::{check_regex, check_whitelist};
use crate::yaml::{Yaml, YamlView};

verus! {

/// Where in a rule a leaf stands.
pub open spec fn key_path(keys: Seq<Seq<char>>) -> Seq<char>
    decreases keys.len(),
{
    if keys.len() == 0 {
        "detection -> selection"@
    } else {
        key_path(keys.drop_last()) + " -> "@ + keys.last()
    }
}

/// Where in a rule the leaf stands that the given keys lead to.
pub fn concat_selection_key(key_list: &Vec<String>) -> (r: String)
    ensures
        r@ == key_path(text::texts(key_list@)),
{
    let mut acc = "detection -> selection".to_owned();
    let ghost keys = text::texts(key_list@);
    for i in 0..key_list.len()
        invariant
            keys == text::texts(key_list@),
            acc@ == key_path(keys.take(i as int)),
    {
        assert(keys.take(i + 1).drop_last() =~= keys.take(i as int));
        acc = concat2(concat2(acc.as_str(), " -> ").as_str(), key_list[i].as_str());
    }
    assert(keys.take(key_list@.len() as int) =~= keys);
    acc
}

/// A result reports exactly the given messages, and success if there are none.
pub open spec fn reports(r: Result<(), Vec<String>>, messages: Seq<Seq<char>>) -> bool {
    match r {
        Ok(_) => messages.len() == 0,
        Err(e) => messages.len() > 0 && text::texts(e@) == messages,
    }
}

/// A message about a leaf: `head`, where the leaf stands, and `]`.
pub open spec fn leaf_message(head: Seq<char>, keys: Seq<Seq<char>>) -> Seq<Seq<char>> {
    seq![head + key_path(keys) + "]"@]
}

fn leaf_error(head: &str, key_list: &Vec<String>) -> (r: Result<(), Vec<String>>)
    ensures
        reports(r, leaf_message(head@, text::texts(key_list@))),
{
    let message = concat2(concat2(head, concat_selection_key(key_list).as_str()).as_str(), "]");
    let messages = vec![message];
    assert(text::texts(messages@) =~= leaf_message(head@, text::texts(key_list@)));
    Err(messages)
}

/// The rows of the files that can be read.
pub open spec fn file_views(files: Map<Seq<char>, Vec<Vec<String>>>) -> Map<
    Seq<char>,
    Seq<Seq<Seq<char>>>,
> {
    files.map_values(|rows: Vec<Vec<String>>| text::rows(rows@))
}

/// The text of a string or a number.
pub open spec fn written(value: Option<ValueView>) -> Option<Seq<char>> {
    match value {
        Some(ValueView::String(s)) => Some(s),
        Some(ValueView::Number(n)) => Some(n.text()),
        _ => None,
    }
}

fn written_text(value: Option<&Value>) -> (r: Option<String>)
    ensures
        text::text_of(r) == written(event::value_view(value)),
{
    match value {
        Some(Value::String(s)) => Some(s.clone()),
        Some(Value::Number(n)) => Some(n.text()),
        _ => None,
    }
}

fn clone_rows(rows: &Vec<Vec<String>>) -> (r: Vec<Vec<String>>)
    ensures
        text::rows(r@) == text::rows(rows@),
{
    let mut r: Vec<Vec<String>> = Vec::new();
    for i in 0..rows.len()
        invariant
            r@.len() == i,
            forall|j: int|
                0 <= j < i ==> text::texts((#[trigger] r@[j])@) == text::texts(rows@[j]@),
    {
        let row = clone_texts(&rows[i]);
        r.push(row);
    }
    assert(text::rows(r@) =~= text::rows(rows@));
    r
}

/// Model of a [`LeafMatcher`].
pub enum MatcherView {
    /// The regular expression, or none where the value is to be absent.
    Regex(Option<Seq<char>>),
    Minlength(int),
    Regexes(Seq<Seq<Seq<char>>>),
    Whitelist(Seq<Seq<Seq<char>>>),
    StartsWith(Seq<char>),
    EndsWith(Seq<char>),
    Contains(Seq<char>),
}

/// There is no value, or it is null or the empty string.
pub open spec fn absent(value: Option<ValueView>) -> bool {
    match value {
        None => true,
        Some(ValueView::Null) => true,
        Some(ValueView::String(s)) => s.len() == 0,
        _ => false,
    }
}

/// One of the matches of the regular expression `re` in `text` is all of `text`.
pub open spec fn full_match(re: Seq<char>, text: Seq<char>) -> bool {
    pattern::regex_matches(re, text).contains(text)
}

/// What a regular expression without options says of a value.
pub open spec fn regex_match(re: Option<Seq<char>>, value: Option<ValueView>) -> bool {
    match re {
        None => absent(value),
        Some(re) => match value {
            Some(v) => v.text() is Some && full_match(re, v.text()->0),
            None => false,
        },
    }
}

impl MatcherView {
    /// The matcher applies to the value of an event record.
    pub open spec fn matches(self, value: Option<ValueView>) -> bool {
        match self {
            MatcherView::Regex(re) => regex_match(re, value),
            MatcherView::Minlength(min_len) => written(value) is Some && written(value)->0.len()
                >= min_len,
            MatcherView::Regexes(rows) => written(value) is Some && utils::regex_report(
                rows,
                written(value)->0,
                0,
            ).len() > 0,
            MatcherView::Whitelist(rows) => match value {
                Some(v) => v.text() is Some ==> !utils::whitelisted(rows, v.text()->0),
                None => true,
            },
            MatcherView::StartsWith(part) => written(value) is Some && part.is_prefix_of(
                written(value)->0,
            ),
            MatcherView::EndsWith(part) => written(value) is Some && part.is_suffix_of(
                written(value)->0,
            ),
            MatcherView::Contains(part) => written(value) is Some && text::occurs(
                written(value)->0,
                part,
            ),
        }
    }

    /// The matcher after it has been set up with the value that the rule gives, and the
    /// messages about what is wrong with that value.
    pub open spec fn set_up(
        self,
        keys: Seq<Seq<char>>,
        value: YamlView,
        files: Map<Seq<char>, Seq<Seq<Seq<char>>>>,
    ) -> (MatcherView, Seq<Seq<char>>) {
        match self {
            MatcherView::Regex(re) => {
                let (re, messages) = regex_set_up(re, keys, value);
                (MatcherView::Regex(re), messages)
            },
            MatcherView::Minlength(min_len) => match value {
                YamlView::Integer(i) => (MatcherView::Minlength(i), seq![]),
                _ => (
                    self,
                    leaf_message("min_length value should be Integer. [key:"@, keys),
                ),
            },
            MatcherView::Regexes(rows) => {
                let (rows, messages) = file_set_up(
                    rows,
                    keys,
                    value,
                    files,
                    "regexes value should be String. [key:"@,
                    "cannot read regexes file. [key:"@,
                );
                (MatcherView::Regexes(rows), messages)
            },
            MatcherView::Whitelist(rows) => {
                let (rows, messages) = file_set_up(
                    rows,
                    keys,
                    value,
                    files,
                    "whitelist value should be String. [key:"@,
                    "cannot read whitelist file. [key:"@,
                );
                (MatcherView::Whitelist(rows), messages)
            },
            MatcherView::StartsWith(part) => {
                let (part, messages) = part_set_up(part, keys, value);
                (MatcherView::StartsWith(part), messages)
            },
            MatcherView::EndsWith(part) => {
                let (part, messages) = part_set_up(part, keys, value);
                (MatcherView::EndsWith(part), messages)
            },
            MatcherView::Contains(part) => {
                let (part, messages) = part_set_up(part, keys, value);
                (MatcherView::Contains(part), messages)
            },
        }
    }
}

pub open spec fn regex_set_up(
    re: Option<Seq<char>>,
    keys: Seq<Seq<char>>,
    value: YamlView,
) -> (Option<Seq<char>>, Seq<Seq<char>>) {
    if value is Null {
        (None, seq![])
    } else {
        match value.scalar_text() {
            None => (re, leaf_message("unknown error occured. [key:"@, keys)),
            Some(text) => if pattern::regex_valid(text) {
                (Some(text), seq![])
            } else {
                (re, leaf_message("cannot parse regex. [regex:"@ + text + ", key:"@, keys))
            },
        }
    }
}

pub open spec fn file_set_up(
    rows: Seq<Seq<Seq<char>>>,
    keys: Seq<Seq<char>>,
    value: YamlView,
    files: Map<Seq<char>, Seq<Seq<Seq<char>>>>,
    no_name: Seq<char>,
    no_file: Seq<char>,
) -> (Seq<Seq<Seq<char>>>, Seq<Seq<char>>) {
    match value.file_name() {
        None => (rows, leaf_message(no_name, keys)),
        Some(name) => if files.contains_key(name) {
            (files[name], seq![])
        } else {
            (rows, leaf_message(no_file, keys))
        },
    }
}

pub open spec fn part_set_up(part: Seq<char>, keys: Seq<Seq<char>>, value: YamlView) -> (
    Seq<char>,
    Seq<Seq<char>>,
) {
    if value is Null {
        (part, seq![])
    } else {
        match value.scalar_text() {
            None => (part, leaf_message("unknown error occured. [key:"@, keys)),
            Some(text) => (text, seq![]),
        }
    }
}

/// Compares the whole text of a value with a regular expression.
#[derive(Debug)]
pub struct RegexMatcher {
    /// None where the rule gives null: then the value has to be absent.
    pub re: Option<Pattern>,
}

pub open spec fn pattern_view(re: Option<Pattern>) -> Option<Seq<char>> {
    match re {
        Some(p) => Some(p@),
        None => None,
    }
}

impl View for RegexMatcher {
    type V = Option<Seq<char>>;

    open spec fn view(&self) -> Option<Seq<char>> {
        pattern_view(self.re)
    }
}

impl RegexMatcher {
    pub fn new() -> (r: RegexMatcher)
        ensures
            r@ is None,
    {
        RegexMatcher { re: None }
    }

    pub fn is_regex_fullmatch(&self, re: &Pattern, value: String) -> (r: bool)
        ensures
            r == full_match(re@, value@),
    {
        let found = re.matches(value.as_str());
        let ghost matches = pattern::regex_matches(re@, value@);
        for i in 0..found.len()
            invariant
                matches == text::texts(found@),
                matches == pattern::regex_matches(re@, value@),
                forall|j: int| 0 <= j < i ==> matches[j] != value@,
        {
            assert(matches[i as int] == found@[i as int]@);
            if found[i] == value {
                return true;
            }
        }
        false
    }

    pub fn is_target_key(&self, key_list: &Vec<String>) -> (r: bool)
        ensures
            r == (key_list@.len() == 0 || text::texts(key_list@) == seq!["regex"@]),
    {
        if key_list.is_empty() {
            return true;
        }
        is_only_key(key_list, "regex")
    }

    pub fn init(&mut self, key_list: &Vec<String>, select_value: &Yaml) -> (r: Result<
        (),
        Vec<String>,
    >)
        ensures
            final(self)@ == regex_set_up(old(self)@, text::texts(key_list@), select_value@).0,
            reports(r, regex_set_up(old(self)@, text::texts(key_list@), select_value@).1),
    {
        if select_value.is_null() {
            self.re = None;
            return Ok(());
        }
        match select_value.scalar_string() {
            None => leaf_error("unknown error occured. [key:", key_list),
            Some(text) => match Pattern::new(text.as_str()) {
                None => {
                    let head = concat2(
                        concat2("cannot parse regex. [regex:", text.as_str()).as_str(),
                        ", key:",
                    );
                    leaf_error(head.as_str(), key_list)
                },
                Some(re) => {
                    self.re = Some(re);
                    Ok(())
                },
            },
        }
    }

    pub fn is_match(&self, event_value: Option<&Value>) -> (r: bool)
        ensures
            r == regex_match(self@, event::value_view(event_value)),
    {
        match &self.re {
            None => match event_value {
                None => true,
                Some(Value::Null) => true,
                Some(Value::String(s)) => s.as_str().is_empty(),
                _ => false,
            },
            Some(re) => match event_value {
                None => false,
                Some(value) => match value.text() {
                    Some(text) => self.is_regex_fullmatch(re, text),
                    None => false,
                },
            },
        }
    }
}

/// Whether `name` is the only key.
fn is_only_key(key_list: &Vec<String>, name: &str) -> (r: bool)
    ensures
        r == (text::texts(key_list@) == seq![name@]),
{
    if key_list.len() != 1 {
        assert(text::texts(key_list@).len() != seq![name@].len());
        return false;
    }
    let r = text_eq(key_list[0].as_str(), name);
    assert(text::texts(key_list@)[0] == key_list@[0]@);
    if r {
        assert(text::texts(key_list@) =~= seq![name@]);
    } else {
        assert(text::texts(key_list@)[0] != seq![name@][0]);
    }
    r
}

/// Asks for a minimum number of characters.
#[derive(Debug)]
pub struct MinlengthMatcher {
    pub min_len: i64,
}

impl MinlengthMatcher {
    pub fn new() -> (r: MinlengthMatcher)
        ensures
            r.min_len == 0,
    {
        MinlengthMatcher { min_len: 0 }
    }

    pub fn is_target_key(&self, key_list: &Vec<String>) -> (r: bool)
        ensures
            r == (text::texts(key_list@) == seq!["min_length"@]),
    {
        is_only_key(key_list, "min_length")
    }

    pub fn init(&mut self, key_list: &Vec<String>, select_value: &Yaml) -> (r: Result<
        (),
        Vec<String>,
    >)
        ensures
            match select_value@ {
                YamlView::Integer(i) => r is Ok && final(self).min_len == i,
                _ => {
                    &&& *final(self) == *old(self)
                    &&& reports(
                        r,
                        leaf_message(
                            "min_length value should be Integer. [key:"@,
                            text::texts(key_list@),
                        ),
                    )
                },
            },
    {
        match select_value.as_i64() {
            None => leaf_error("min_length value should be Integer. [key:", key_list),
            Some(min_length) => {
                self.min_len = min_length;
                Ok(())
            },
        }
    }

    pub fn is_match(&self, event_value: Option<&Value>) -> (r: bool)
        ensures
            r == MatcherView::Minlength(self.min_len as int).matches(
                event::value_view(event_value),
            ),
    {
        match written_text(event_value) {
            Some(text) => self.min_len <= 0 || text.as_str().unicode_len() as u64
                >= self.min_len as u64,
            None => false,
        }
    }
}

/// Compares a value with the regular expressions of a file.
#[derive(Debug)]
pub struct RegexesFileMatcher {
    pub regexes_csv_content: Vec<Vec<String>>,
}

impl View for RegexesFileMatcher {
    type V = Seq<Seq<Seq<char>>>;

    open spec fn view(&self) -> Seq<Seq<Seq<char>>> {
        text::rows(self.regexes_csv_content@)
    }
}

impl RegexesFileMatcher {
    pub fn new() -> (r: RegexesFileMatcher)
        ensures
            r@ == Seq::<Seq<Seq<char>>>::empty(),
    {
        let r = RegexesFileMatcher { regexes_csv_content: Vec::new() };
        assert(r@ =~= Seq::<Seq<Seq<char>>>::empty());
        r
    }

    pub fn is_target_key(&self, key_list: &Vec<String>) -> (r: bool)
        ensures
            r == (text::texts(key_list@) == seq!["regexes"@]),
    {
        is_only_key(key_list, "regexes")
    }

    /// `csv_files` holds the rows of the files that can be read.
    pub fn init(
        &mut self,
        key_list: &Vec<String>,
        select_value: &Yaml,
        csv_files: &TextTable<Vec<Vec<String>>>,
    ) -> (r: Result<(), Vec<String>>)
        ensures
            ({
                let (rows, messages) = file_set_up(
                    old(self)@,
                    text::texts(key_list@),
                    select_value@,
                    file_views(csv_files@),
                    "regexes value should be String. [key:"@,
                    "cannot read regexes file. [key:"@,
                );
                final(self)@ == rows && reports(r, messages)
            }),
    {
        match select_value.file_string() {
            None => leaf_error("regexes value should be String. [key:", key_list),
            Some(name) => match csv_files.get(name.as_str()) {
                None => leaf_error("cannot read regexes file. [key:", key_list),
                Some(csv_content) => {
                    self.regexes_csv_content = clone_rows(csv_content);
                    Ok(())
                },
            },
        }
    }

    pub fn is_match(&self, event_value: Option<&Value>) -> (r: bool)
        ensures
            r == MatcherView::Regexes(self@).matches(event::value_view(event_value)),
    {
        match written_text(event_value) {
            Some(text) => !check_regex(
                text.as_str(),
                0,
                &self.regexes_csv_content,
            ).as_str().is_empty(),
            None => false,
        }
    }
}

/// Applies to the values that no regular expression of a file matches.
#[derive(Debug)]
pub struct WhitelistFileMatcher {
    pub whitelist_csv_content: Vec<Vec<String>>,
}

impl View for WhitelistFileMatcher {
    type V = Seq<Seq<Seq<char>>>;

    open spec fn view(&self) -> Seq<Seq<Seq<char>>> {
        text::rows(self.whitelist_csv_content@)
    }
}

impl WhitelistFileMatcher {
    pub fn new() -> (r: WhitelistFileMatcher)
        ensures
            r@ == Seq::<Seq<Seq<char>>>::empty(),
    {
        let r = WhitelistFileMatcher { whitelist_csv_content: Vec::new() };
        assert(r@ =~= Seq::<Seq<Seq<char>>>::empty());
        r
    }

    pub fn is_target_key(&self, key_list: &Vec<String>) -> (r: bool)
        ensures
            r == (text::texts(key_list@) == seq!["whitelist"@]),
    {
        is_only_key(key_list, "whitelist")
    }

    /// `csv_files` holds the rows of the files that can be read.
    pub fn init(
        &mut self,
        key_list: &Vec<String>,
        select_value: &Yaml,
        csv_files: &TextTable<Vec<Vec<String>>>,
    ) -> (r: Result<(), Vec<String>>)
        ensures
            ({
                let (rows, messages) = file_set_up(
                    old(self)@,
                    text::texts(key_list@),
                    select_value@,
                    file_views(csv_files@),
                    "whitelist value should be String. [key:"@,
                    "cannot read whitelist file. [key:"@,
                );
                final(self)@ == rows && reports(r, messages)
            }),
    {
        match select_value.file_string() {
            None => leaf_error("whitelist value should be String. [key:", key_list),
            Some(name) => match csv_files.get(name.as_str()) {
                None => leaf_error("cannot read whitelist file. [key:", key_list),
                Some(csv_content) => {
                    self.whitelist_csv_content = clone_rows(csv_content);
                    Ok(())
                },
            },
        }
    }

    pub fn is_match(&self, event_value: Option<&Value>) -> (r: bool)
        ensures
            r == MatcherView::Whitelist(self@).matches(event::value_view(event_value)),
    {
        match event_value {
            Some(value) => match value.text() {
                Some(text) => !check_whitelist(text.as_str(), &self.whitelist_csv_content),
                None => true,
            },
            None => true,
        }
    }
}

/// The text that the rule gives for one of the matchers below, `old_part` where it gives null.
fn init_part(old_part: &str, key_list: &Vec<String>, select_value: &Yaml) -> (r: Result<
    String,
    Vec<String>,
>)
    ensures
        ({
            let (part, messages) = part_set_up(
                old_part@,
                text::texts(key_list@),
                select_value@,
            );
            match r {
                Ok(s) => messages.len() == 0 && s@ == part,
                Err(e) => messages.len() > 0 && text::texts(e@) == messages && part == old_part@,
            }
        }),
{
    if select_value.is_null() {
        return Ok(old_part.to_owned());
    }
    match select_value.scalar_string() {
        None => match leaf_error("unknown error occured. [key:", key_list) {
            Ok(_) => Ok(old_part.to_owned()),
            Err(e) => Err(e),
        },
        Some(text) => Ok(text),
    }
}

/// Asks for a text at the start of the value.
#[derive(Debug)]
pub struct StartsWithMatcher {
    pub start_text: String,
}

impl StartsWithMatcher {
    pub fn new() -> (r: StartsWithMatcher)
        ensures
            r.start_text@ == Seq::<char>::empty(),
    {
        StartsWithMatcher { start_text: String::new() }
    }

    /// No key asks for this matcher: the option `startswith` does.
    pub fn is_target_key(&self, _key_list: &Vec<String>) -> (r: bool)
        ensures
            !r,
    {
        false
    }

    pub fn init(&mut self, key_list: &Vec<String>, select_value: &Yaml) -> (r: Result<
        (),
        Vec<String>,
    >)
        ensures
            final(self).start_text@ == part_set_up(
                old(self).start_text@,
                text::texts(key_list@),
                select_value@,
            ).0,
            reports(
                r,
                part_set_up(old(self).start_text@, text::texts(key_list@), select_value@).1,
            ),
    {
        match init_part(self.start_text.as_str(), key_list, select_value) {
            Ok(part) => {
                self.start_text = part;
                Ok(())
            },
            Err(e) => Err(e),
        }
    }

    pub fn is_match(&self, event_value: Option<&Value>) -> (r: bool)
        ensures
            r == MatcherView::StartsWith(self.start_text@).matches(event::value_view(event_value)),
    {
        match written_text(event_value) {
            Some(text) => starts_with(text.as_str(), self.start_text.as_str()),
            None => false,
        }
    }
}

/// Asks for a text at the end of the value.
#[derive(Debug)]
pub struct EndsWithMatcher {
    pub end_text: String,
}

impl EndsWithMatcher {
    pub fn new() -> (r: EndsWithMatcher)
        ensures
            r.end_text@ == Seq::<char>::empty(),
    {
        EndsWithMatcher { end_text: String::new() }
    }

    /// No key asks for this matcher: the option `endswith` does.
    pub fn is_target_key(&self, _key_list: &Vec<String>) -> (r: bool)
        ensures
            !r,
    {
        false
    }

    pub fn init(&mut self, key_list: &Vec<String>, select_value: &Yaml) -> (r: Result<
        (),
        Vec<String>,
    >)
        ensures
            final(self).end_text@ == part_set_up(
                old(self).end_text@,
                text::texts(key_list@),
                select_value@,
            ).0,
            reports(
                r,
                part_set_up(old(self).end_text@, text::texts(key_list@), select_value@).1,
            ),
    {
        match init_part(self.end_text.as_str(), key_list, select_value) {
            Ok(part) => {
                self.end_text = part;
                Ok(())
            },
            Err(e) => Err(e),
        }
    }

    pub fn is_match(&self, event_value: Option<&Value>) -> (r: bool)
        ensures
            r == MatcherView::EndsWith(self.end_text@).matches(event::value_view(event_value)),
    {
        match written_text(event_value) {
            Some(text) => ends_with(text.as_str(), self.end_text.as_str()),
            None => false,
        }
    }
}

/// Asks for a text anywhere in the value.
#[derive(Debug)]
pub struct ContainsMatcher {
    pub pattern: String,
}

impl ContainsMatcher {
    pub fn new() -> (r: ContainsMatcher)
        ensures
            r.pattern@ == Seq::<char>::empty(),
    {
        ContainsMatcher { pattern: String::new() }
    }

    /// No key asks for this matcher: the option `contains` does.
    pub fn is_target_key(&self, _key_list: &Vec<String>) -> (r: bool)
        ensures
            !r,
    {
        false
    }

    pub fn init(&mut self, key_list: &Vec<String>, select_value: &Yaml) -> (r: Result<
        (),
        Vec<String>,
    >)
        ensures
            final(self).pattern@ == part_set_up(
                old(self).pattern@,
                text::texts(key_list@),
                select_value@,
            ).0,
            reports(
                r,
                part_set_up(old(self).pattern@, text::texts(key_list@), select_value@).1,
            ),
    {
        match init_part(self.pattern.as_str(), key_list, select_value) {
            Ok(part) => {
                self.pattern = part;
                Ok(())
            },
            Err(e) => Err(e),
        }
    }

    pub fn is_match(&self, event_value: Option<&Value>) -> (r: bool)
        ensures
            r == MatcherView::Contains(self.pattern@).matches(event::value_view(event_value)),
    {
        match written_text(event_value) {
            Some(text) => contains(text.as_str(), self.pattern.as_str()),
            None => false,
        }
    }
}

/// How a leaf compares the value of an event record.
#[derive(Debug)]
pub enum LeafMatcher {
    Regex(RegexMatcher),
    Minlength(MinlengthMatcher),
    Regexes(RegexesFileMatcher),
    Whitelist(WhitelistFileMatcher),
    StartsWith(StartsWithMatcher),
    EndsWith(EndsWithMatcher),
    Contains(ContainsMatcher),
}

impl View for LeafMatcher {
    type V = MatcherView;

    open spec fn view(&self) -> MatcherView {
        match *self {
            LeafMatcher::Regex(m) => MatcherView::Regex(m@),
            LeafMatcher::Minlength(m) => MatcherView::Minlength(m.min_len as int),
            LeafMatcher::Regexes(m) => MatcherView::Regexes(m@),
            LeafMatcher::Whitelist(m) => MatcherView::Whitelist(m@),
            LeafMatcher::StartsWith(m) => MatcherView::StartsWith(m.start_text@),
            LeafMatcher::EndsWith(m) => MatcherView::EndsWith(m.end_text@),
            LeafMatcher::Contains(m) => MatcherView::Contains(m.pattern@),
        }
    }
}

/// A matcher is the one for a leaf with the given keys behind its first key.
pub open spec fn is_target(matcher: MatcherView, keys: Seq<Seq<char>>) -> bool {
    match matcher {
        MatcherView::Regex(_) => keys.len() == 0 || keys == seq!["regex"@],
        MatcherView::Minlength(_) => keys == seq!["min_length"@],
        MatcherView::Regexes(_) => keys == seq!["regexes"@],
        MatcherView::Whitelist(_) => keys == seq!["whitelist"@],
        _ => false,
    }
}

impl LeafMatcher {
    pub fn is_target_key(&self, key_list: &Vec<String>) -> (r: bool)
        ensures
            r == is_target(self@, text::texts(key_list@)),
    {
        match self {
            LeafMatcher::Regex(m) => m.is_target_key(key_list),
            LeafMatcher::Minlength(m) => m.is_target_key(key_list),
            LeafMatcher::Regexes(m) => m.is_target_key(key_list),
            LeafMatcher::Whitelist(m) => m.is_target_key(key_list),
            LeafMatcher::StartsWith(m) => m.is_target_key(key_list),
            LeafMatcher::EndsWith(m) => m.is_target_key(key_list),
            LeafMatcher::Contains(m) => m.is_target_key(key_list),
        }
    }

    pub fn is_match(&self, event_value: Option<&Value>) -> (r: bool)
        ensures
            r == self@.matches(event::value_view(event_value)),
    {
        match self {
            LeafMatcher::Regex(m) => m.is_match(event_value),
            LeafMatcher::Minlength(m) => m.is_match(event_value),
            LeafMatcher::Regexes(m) => m.is_match(event_value),
            LeafMatcher::Whitelist(m) => m.is_match(event_value),
            LeafMatcher::StartsWith(m) => m.is_match(event_value),
            LeafMatcher::EndsWith(m) => m.is_match(event_value),
            LeafMatcher::Contains(m) => m.is_match(event_value),
        }
    }

    /// `csv_files` holds the rows of the files that can be read.
    pub fn init(
        &mut self,
        key_list: &Vec<String>,
        select_value: &Yaml,
        csv_files: &TextTable<Vec<Vec<String>>>,
    ) -> (r: Result<(), Vec<String>>)
        ensures
            ({
                let (matcher, messages) = old(self)@.set_up(
                    text::texts(key_list@),
                    select_value@,
                    file_views(csv_files@),
                );
                final(self)@ == matcher && reports(r, messages)
            }),
    {
        match self {
            LeafMatcher::Regex(m) => m.init(key_list, select_value),
            LeafMatcher::Minlength(m) => m.init(key_list, select_value),
            LeafMatcher::Regexes(m) => m.init(key_list, select_value, csv_files),
            LeafMatcher::Whitelist(m) => m.init(key_list, select_value, csv_files),
            LeafMatcher::StartsWith(m) => m.init(key_list, select_value),
            LeafMatcher::EndsWith(m) => m.init(key_list, select_value),
            LeafMatcher::Contains(m) => m.init(key_list, select_value),
        }
    }
}

} // verus!
