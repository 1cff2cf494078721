//! YAML documents, as far as rules need them.
use vstd::prelude::*;

use crate::text;
use crate::text::{bool_to_string, decimal_i64, text_eq};

verus! {

/// Model of a [`Yaml`].
pub enum YamlView {
    Real(Seq<char>),
    Integer(int),
    String(Seq<char>),
    Boolean(bool),
    Array(Seq<YamlView>),
    Hash(Seq<(YamlView, YamlView)>),
    Alias(int),
    Null,
    BadValue,
}

impl YamlView {
    /// The value of the first entry of a hash whose key is the string `key`; `BadValue` where
    /// there is none.
    pub open spec fn index(self, key: Seq<char>) -> YamlView {
        match self {
            YamlView::Hash(entries) => entry_value(entries, key),
            _ => YamlView::BadValue,
        }
    }

    /// The text of a scalar: a boolean, a number or a string.
    pub open spec fn scalar_text(self) -> Option<Seq<char>> {
        match self {
            YamlView::Boolean(b) => Some(text::bool_text(b)),
            YamlView::Integer(i) => Some(text::decimal(i)),
            YamlView::Real(r) => Some(r),
            YamlView::String(s) => Some(s),
            _ => None,
        }
    }

    /// The text of a scalar that can name a file: a number or a string.
    pub open spec fn file_name(self) -> Option<Seq<char>> {
        match self {
            YamlView::Boolean(_) => None,
            _ => self.scalar_text(),
        }
    }
}

/// The value of the first entry whose key is the string `key`.
pub open spec fn entry_value(entries: Seq<(YamlView, YamlView)>, key: Seq<char>) -> YamlView
    decreases entries.len(),
{
    if entries.len() == 0 {
        YamlView::BadValue
    } else if entries[0].0 == YamlView::String(key) {
        entries[0].1
    } else {
        entry_value(entries.skip(1), key)
    }
}

/// A YAML node. A hash keeps its entries in the order of the document.
#[derive(Debug)]
pub enum Yaml {
    /// A floating-point number, as it is written.
    Real(String),
    Integer(i64),
    String(String),
    Boolean(bool),
    Array(Vec<Yaml>),
    Hash(Vec<(Yaml, Yaml)>),
    Alias(usize),
    Null,
    /// What is found where there is nothing.
    BadValue,
}

impl Yaml {
    pub open spec fn model(self) -> YamlView
        decreases self,
    {
        match self {
            Yaml::Real(r) => YamlView::Real(r@),
            Yaml::Integer(i) => YamlView::Integer(i as int),
            Yaml::String(s) => YamlView::String(s@),
            Yaml::Boolean(b) => YamlView::Boolean(b),
            Yaml::Array(items) => YamlView::Array(yaml_views(items@)),
            Yaml::Hash(entries) => YamlView::Hash(entry_views(entries@)),
            Yaml::Alias(n) => YamlView::Alias(n as int),
            Yaml::Null => YamlView::Null,
            Yaml::BadValue => YamlView::BadValue,
        }
    }
}

pub open spec fn yaml_views(items: Seq<Yaml>) -> Seq<YamlView>
    decreases items,
{
    Seq::new(
        items.len(),
        |i: int|
            if 0 <= i < items.len() {
                items[i].model()
            } else {
                YamlView::Null
            },
    )
}

pub open spec fn entry_views(entries: Seq<(Yaml, Yaml)>) -> Seq<(YamlView, YamlView)>
    decreases entries,
{
    Seq::new(
        entries.len(),
        |i: int|
            if 0 <= i < entries.len() {
                (entries[i].0.model(), entries[i].1.model())
            } else {
                (YamlView::Null, YamlView::Null)
            },
    )
}

impl View for Yaml {
    type V = YamlView;

    open spec fn view(&self) -> YamlView {
        self.model()
    }
}

impl Clone for Yaml {
    fn clone(&self) -> (r: Self)
        ensures
            r@ == self@,
        decreases self,
    {
        match self {
            Yaml::Real(r) => Yaml::Real(r.clone()),
            Yaml::Integer(i) => Yaml::Integer(*i),
            Yaml::String(s) => Yaml::String(s.clone()),
            Yaml::Boolean(b) => Yaml::Boolean(*b),
            Yaml::Array(items) => Yaml::Array(clone_items(items)),
            Yaml::Hash(entries) => Yaml::Hash(clone_entries(entries)),
            Yaml::Alias(n) => Yaml::Alias(*n),
            Yaml::Null => Yaml::Null,
            Yaml::BadValue => Yaml::BadValue,
        }
    }
}

fn clone_items(items: &Vec<Yaml>) -> (r: Vec<Yaml>)
    ensures
        yaml_views(r@) == yaml_views(items@),
    decreases items,
{
    let mut r: Vec<Yaml> = Vec::new();
    for i in 0..items.len()
        invariant
            r@.len() == i,
            forall|j: int| 0 <= j < i ==> (#[trigger] r@[j])@ == items@[j]@,
    {
        assert(decreases_to!(items => items@[i as int]));
        r.push(items[i].clone());
    }
    assert(yaml_views(r@) =~= yaml_views(items@));
    r
}

fn clone_entries(entries: &Vec<(Yaml, Yaml)>) -> (r: Vec<(Yaml, Yaml)>)
    ensures
        entry_views(r@) == entry_views(entries@),
    decreases entries,
{
    let mut r: Vec<(Yaml, Yaml)> = Vec::new();
    for i in 0..entries.len()
        invariant
            r@.len() == i,
            forall|j: int|
                0 <= j < i ==> (#[trigger] r@[j]).0@ == entries@[j].0@ && r@[j].1@
                    == entries@[j].1@,
    {
        assert(decreases_to!(entries => entries@[i as int]));
        assert(decreases_to!(entries@[i as int] => entries@[i as int].0));
        assert(decreases_to!(entries@[i as int] => entries@[i as int].1));
        let key = entries[i].0.clone();
        let value = entries[i].1.clone();
        r.push((key, value));
    }
    assert(entry_views(r@) =~= entry_views(entries@));
    r
}

impl Yaml {
    pub fn as_str(&self) -> (r: Option<&str>)
        ensures
            match r {
                Some(s) => self@ == YamlView::String(s@),
                None => !(self@ is String),
            },
    {
        match self {
            Yaml::String(s) => Some(s.as_str()),
            _ => None,
        }
    }

    pub fn as_i64(&self) -> (r: Option<i64>)
        ensures
            match r {
                Some(i) => self@ == YamlView::Integer(i as int),
                None => !(self@ is Integer),
            },
    {
        match self {
            Yaml::Integer(i) => Some(*i),
            _ => None,
        }
    }

    pub fn as_hash(&self) -> (r: Option<&Vec<(Yaml, Yaml)>>)
        ensures
            match r {
                Some(entries) => *self == Yaml::Hash(*entries) && self@ == YamlView::Hash(
                    entry_views(entries@),
                ),
                None => !(self@ is Hash),
            },
    {
        match self {
            Yaml::Hash(entries) => Some(entries),
            _ => None,
        }
    }

    pub fn is_null(&self) -> (r: bool)
        ensures
            r == (self@ is Null),
    {
        match self {
            Yaml::Null => true,
            _ => false,
        }
    }

    pub fn is_badvalue(&self) -> (r: bool)
        ensures
            r == (self@ is BadValue),
    {
        match self {
            Yaml::BadValue => true,
            _ => false,
        }
    }

    /// The value of the entry of a hash whose key is the string `key`.
    pub fn index(&self, key: &str) -> (r: &Yaml)
        ensures
            r@ == self@.index(key@),
    {
        if let Yaml::Hash(entries) = self {
            let ghost views = entry_views(entries@);
            assert(views.skip(0) =~= views);
            for i in 0..entries.len()
                invariant
                    views == entry_views(entries@),
                    entry_value(views, key@) == entry_value(views.skip(i as int), key@),
                    self@ == YamlView::Hash(views),
            {
                assert(views.skip(i as int)[0] == (entries@[i as int].0@, entries@[i as int].1@));
                assert(views.skip(i as int).skip(1) =~= views.skip(i + 1));
                if let Some(name) = entries[i].0.as_str() {
                    if text_eq(name, key) {
                        return &entries[i].1;
                    }
                }
            }
        }
        &Yaml::BadValue
    }

    /// The text of a boolean, a number or a string.
    pub fn scalar_string(&self) -> (r: Option<String>)
        ensures
            match r {
                Some(s) => self@.scalar_text() == Some(s@),
                None => self@.scalar_text() is None,
            },
    {
        match self {
            Yaml::Boolean(b) => Some(bool_to_string(*b)),
            Yaml::Integer(i) => Some(decimal_i64(*i)),
            Yaml::Real(r) => Some(r.clone()),
            Yaml::String(s) => Some(s.clone()),
            _ => None,
        }
    }

    /// The text of a number or a string.
    pub fn file_string(&self) -> (r: Option<String>)
        ensures
            match r {
                Some(s) => self@.file_name() == Some(s@),
                None => self@.file_name() is None,
            },
    {
        match self {
            Yaml::Boolean(_) => None,
            _ => self.scalar_string(),
        }
    }
}

} // verus!
