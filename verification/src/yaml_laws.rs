//! What is found in YAML documents, and how scalars are written.
use vstd::prelude::*;

use crate::text;
use crate::yaml;
use crate::yaml::{Yaml, YamlView};

verus! {

proof fn lemma_entry(entries: Seq<(YamlView, YamlView)>, i: int, key: Seq<char>)
    requires
        0 <= i < entries.len(),
        entries[i].0 == YamlView::String(key),
        forall|j: int| 0 <= j < i ==> (#[trigger] entries[j]).0 != YamlView::String(key),
    ensures
        yaml::entry_value(entries, key) == entries[i].1,
    decreases i,
{
    if i > 0 {
        assert(entries[0].0 != YamlView::String(key));
        let rest = entries.skip(1);
        assert forall|j: int| 0 <= j < i - 1 implies (#[trigger] rest[j]).0
            != YamlView::String(key) by {
            assert(entries[j + 1].0 != YamlView::String(key));
        }
        lemma_entry(rest, i - 1, key);
    }
}

proof fn lemma_no_entry(entries: Seq<(YamlView, YamlView)>, key: Seq<char>)
    requires
        forall|j: int|
            0 <= j < entries.len() ==> (#[trigger] entries[j]).0 != YamlView::String(key),
    ensures
        yaml::entry_value(entries, key) == YamlView::BadValue,
    decreases entries.len(),
{
    if entries.len() > 0 {
        assert(entries[0].0 != YamlView::String(key));
        let rest = entries.skip(1);
        assert forall|j: int| 0 <= j < rest.len() implies (#[trigger] rest[j]).0
            != YamlView::String(key) by {
            assert(entries[j + 1].0 != YamlView::String(key));
        }
        lemma_no_entry(rest, key);
    }
}

/// A key finds the value of the first entry that has it.
pub proof fn law_entry_is_found(entries: Seq<(YamlView, YamlView)>, i: int, key: Seq<char>)
    requires
        0 <= i < entries.len(),
        entries[i].0 == YamlView::String(key),
        forall|j: int| 0 <= j < i ==> (#[trigger] entries[j]).0 != YamlView::String(key),
    ensures
        YamlView::Hash(entries).index(key) == entries[i].1,
{
    lemma_entry(entries, i, key);
}

/// A key that no entry has finds nothing.
pub proof fn law_missing_entry(entries: Seq<(YamlView, YamlView)>, key: Seq<char>)
    requires
        forall|j: int|
            0 <= j < entries.len() ==> (#[trigger] entries[j]).0 != YamlView::String(key),
    ensures
        YamlView::Hash(entries).index(key) == YamlView::BadValue,
{
    lemma_no_entry(entries, key);
}

/// Only hashes have entries.
pub proof fn law_only_hashes_have_entries(value: YamlView, key: Seq<char>)
    requires
        !(value is Hash),
    ensures
        value.index(key) == YamlView::BadValue,
{
}

/// How scalars are written.
pub proof fn law_scalars_are_written(s: Seq<char>, i: int, b: bool, other: YamlView)
    ensures
        YamlView::String(s).scalar_text() == Some(s),
        YamlView::Real(s).scalar_text() == Some(s),
        YamlView::Integer(i).scalar_text() == Some(text::decimal(i)),
        YamlView::Boolean(b).scalar_text() == Some(text::bool_text(b)),
        other is Array || other is Hash || other is Alias || other is Null || other is BadValue
            ==> other.scalar_text() is None,
{
}

/// A file is named by a string or a number.
pub proof fn law_files_are_named(s: Seq<char>, i: int, other: YamlView)
    ensures
        YamlView::String(s).file_name() == Some(s),
        YamlView::Real(s).file_name() == Some(s),
        YamlView::Integer(i).file_name() == Some(text::decimal(i)),
        !(other is String || other is Real || other is Integer) ==> other.file_name() is None,
{
}

/// The model of a scalar holds what the scalar holds.
pub proof fn law_scalar_model(s: String, i: i64, b: bool, n: usize)
    ensures
        Yaml::String(s)@ == YamlView::String(s@),
        Yaml::Real(s)@ == YamlView::Real(s@),
        Yaml::Integer(i)@ == YamlView::Integer(i as int),
        Yaml::Boolean(b)@ == YamlView::Boolean(b),
        Yaml::Alias(n)@ == YamlView::Alias(n as int),
        Yaml::Null@ == YamlView::Null,
        Yaml::BadValue@ == YamlView::BadValue,
{
}

/// The model of an array holds the models of the items, one by one.
pub proof fn law_array_model(items: Vec<Yaml>)
    ensures
        Yaml::Array(items)@ matches YamlView::Array(views) && views.len() == items@.len()
            && forall|i: int| 0 <= i < views.len() ==> (#[trigger] views[i]) == items@[i]@,
{
    let views = yaml::yaml_views(items@);
    assert(Yaml::Array(items)@ == YamlView::Array(views));
    assert forall|i: int| 0 <= i < views.len() implies (#[trigger] views[i]) == items@[i]@ by {
        assert(views[i] == items@[i].model());
    }
}

/// The model of a hash holds the models of the entries, one by one.
pub proof fn law_hash_model(entries: Vec<(Yaml, Yaml)>)
    ensures
        Yaml::Hash(entries)@ matches YamlView::Hash(views) && views.len() == entries@.len()
            && forall|i: int|
            0 <= i < views.len() ==> (#[trigger] views[i]) == (
                entries@[i].0@,
                entries@[i].1@,
            ),
{
    let views = yaml::entry_views(entries@);
    assert(Yaml::Hash(entries)@ == YamlView::Hash(views));
    assert forall|i: int| 0 <= i < views.len() implies (#[trigger] views[i]) == (
        entries@[i].0@,
        entries@[i].1@,
    ) by {
        assert(views[i] == (entries@[i].0.model(), entries@[i].1.model()));
    }
}

} // verus!
