//! Event records and the values that rules look up in them.
use vstd::prelude::*;
use vstd::string::StrSliceExecFns;

use crate::table::TextTable;
use crate::text;
use crate::text::{bool_to_string, decimal_i64, decimal_u64, position, text_eq, to_chars};

verus! {

/// Model of a [`Number`].
pub enum NumberView {
    PosInt(nat),
    NegInt(int),
    Float(Seq<char>),
}

impl NumberView {
    /// How the number is written.
    pub open spec fn text(self) -> Seq<char> {
        match self {
            NumberView::PosInt(n) => text::decimal_nat(n),
            NumberView::NegInt(n) => text::decimal(n),
            NumberView::Float(text) => text,
        }
    }

    /// The number is an integer in the range of `i64`.
    pub open spec fn is_i64(self) -> bool {
        match self {
            NumberView::PosInt(n) => n <= i64::MAX,
            NumberView::NegInt(_) => true,
            NumberView::Float(_) => false,
        }
    }
}

/// A number of an event record.
#[derive(Debug)]
pub enum Number {
    PosInt(u64),
    /// A negative integer.
    NegInt(i64),
    /// A floating-point number, as it is written.
    Float(String),
}

impl View for Number {
    type V = NumberView;

    open spec fn view(&self) -> NumberView {
        match *self {
            Number::PosInt(n) => NumberView::PosInt(n as nat),
            Number::NegInt(n) => NumberView::NegInt(n as int),
            Number::Float(text) => NumberView::Float(text@),
        }
    }
}

impl Number {
    pub fn text(&self) -> (r: String)
        ensures
            r@ == self@.text(),
    {
        match self {
            Number::PosInt(n) => decimal_u64(*n),
            Number::NegInt(n) => decimal_i64(*n),
            Number::Float(text) => text.clone(),
        }
    }

    pub fn is_i64(&self) -> (r: bool)
        ensures
            r == self@.is_i64(),
    {
        match self {
            Number::PosInt(n) => *n <= i64::MAX as u64,
            Number::NegInt(_) => true,
            Number::Float(_) => false,
        }
    }
}

/// Model of a [`Value`].
pub enum ValueView {
    Null,
    Bool(bool),
    Number(NumberView),
    String(Seq<char>),
    Array(Seq<ValueView>),
    Object(Seq<(Seq<char>, ValueView)>),
}

impl ValueView {
    /// How a boolean, a number or a string is written.
    pub open spec fn text(self) -> Option<Seq<char>> {
        match self {
            ValueView::Bool(b) => Some(text::bool_text(b)),
            ValueView::Number(n) => Some(n.text()),
            ValueView::String(s) => Some(s),
            _ => None,
        }
    }

    /// The value of a member of an object.
    pub open spec fn member(self, name: Seq<char>) -> Option<ValueView> {
        match self {
            ValueView::Object(members) => member_value(members, name),
            _ => None,
        }
    }

    /// The value at the end of a path, a sequence of member names that dots separate.
    pub open spec fn at_path(self, path: Seq<char>) -> Option<ValueView>
        decreases path.len(),
    {
        let dot = text::find_char(path, '.', 0);
        if 0 <= dot < path.len() {
            match self.member(path.take(dot)) {
                Some(value) => value.at_path(path.skip(dot + 1)),
                None => None,
            }
        } else {
            self.member(path)
        }
    }
}

/// The value of the first member called `name`.
pub open spec fn member_value(members: Seq<(Seq<char>, ValueView)>, name: Seq<char>) -> Option<
    ValueView,
>
    decreases members.len(),
{
    if members.len() == 0 {
        None
    } else if members[0].0 == name {
        Some(members[0].1)
    } else {
        member_value(members.skip(1), name)
    }
}

/// An event record, or a part of one.
#[derive(Debug)]
pub enum Value {
    Null,
    Bool(bool),
    Number(Number),
    String(String),
    Array(Vec<Value>),
    Object(Vec<(String, Value)>),
}

impl Value {
    pub open spec fn model(self) -> ValueView
        decreases self,
    {
        match self {
            Value::Null => ValueView::Null,
            Value::Bool(b) => ValueView::Bool(b),
            Value::Number(n) => ValueView::Number(n@),
            Value::String(s) => ValueView::String(s@),
            Value::Array(items) => ValueView::Array(value_views(items@)),
            Value::Object(members) => ValueView::Object(member_views(members@)),
        }
    }
}

pub open spec fn value_views(items: Seq<Value>) -> Seq<ValueView>
    decreases items,
{
    Seq::new(
        items.len(),
        |i: int|
            if 0 <= i < items.len() {
                items[i].model()
            } else {
                ValueView::Null
            },
    )
}

pub open spec fn member_views(members: Seq<(String, Value)>) -> Seq<(Seq<char>, ValueView)>
    decreases members,
{
    Seq::new(
        members.len(),
        |i: int|
            if 0 <= i < members.len() {
                (members[i].0@, members[i].1.model())
            } else {
                (seq![], ValueView::Null)
            },
    )
}

impl View for Value {
    type V = ValueView;

    open spec fn view(&self) -> ValueView {
        self.model()
    }
}

pub open spec fn value_view(value: Option<&Value>) -> Option<ValueView> {
    match value {
        Some(v) => Some(v@),
        None => None,
    }
}

impl Value {
    /// How a boolean, a number or a string is written.
    pub fn text(&self) -> (r: Option<String>)
        ensures
            match r {
                Some(s) => self@.text() == Some(s@),
                None => self@.text() is None,
            },
    {
        match self {
            Value::Bool(b) => Some(bool_to_string(*b)),
            Value::Number(n) => Some(n.text()),
            Value::String(s) => Some(s.clone()),
            _ => None,
        }
    }

    /// The value of a member of an object.
    pub fn member(&self, name: &str) -> (r: Option<&Value>)
        ensures
            value_view(r) == self@.member(name@),
    {
        if let Value::Object(members) = self {
            let ghost views = member_views(members@);
            assert(views.skip(0) =~= views);
            for i in 0..members.len()
                invariant
                    views == member_views(members@),
                    self@ == ValueView::Object(views),
                    member_value(views, name@) == member_value(views.skip(i as int), name@),
            {
                assert(views.skip(i as int)[0] == (members@[i as int].0@, members@[i as int].1@));
                assert(views.skip(i as int).skip(1) =~= views.skip(i + 1));
                if text_eq(members[i].0.as_str(), name) {
                    return Some(&members[i].1);
                }
            }
        }
        None
    }

    /// The value at the end of a path of member names that dots separate.
    pub fn at_path(&self, path: &str) -> (r: Option<&Value>)
        ensures
            value_view(r) == self@.at_path(path@),
        decreases path@.len(),
    {
        let chars = to_chars(path);
        let dot = position(&chars, '.');
        if dot < chars.len() {
            let first = path.substring_char(0, dot);
            let rest = path.substring_char(dot + 1, chars.len());
            assert(first@ =~= path@.take(dot as int));
            assert(rest@ =~= path@.skip(dot + 1));
            match self.member(first) {
                Some(value) => value.at_path(rest),
                None => None,
            }
        } else {
            self.member(path)
        }
    }
}

/// The texts of a table of texts.
pub open spec fn alias_views(aliases: Map<Seq<char>, String>) -> Map<Seq<char>, Seq<char>> {
    aliases.map_values(|path: String| path@)
}

/// The path that a key stands for: what the key is an alias of, or else the key itself.
pub open spec fn path_of(key: Seq<char>, aliases: Map<Seq<char>, Seq<char>>) -> Seq<char> {
    if aliases.contains_key(key) {
        aliases[key]
    } else {
        key
    }
}

/// The value that a key stands for in an event record.
pub open spec fn event_value(
    key: Seq<char>,
    event: ValueView,
    aliases: Map<Seq<char>, Seq<char>>,
) -> Option<ValueView> {
    event.at_path(path_of(key, aliases))
}

/// Looks up the value of a key in an event record. The key is a path or an alias of one.
pub fn get_event_value<'a>(key: &str, event: &'a Value, aliases: &TextTable<String>) -> (r: Option<
    &'a Value,
>)
    ensures
        value_view(r) == event_value(key@, event@, alias_views(aliases@)),
{
    match aliases.get(key) {
        Some(path) => event.at_path(path.as_str()),
        None => event.at_path(key),
    }
}

} // verus!
