//! What is found in event records, and how it is written.
use vstd::prelude::*;

use crate::event;
use crate::event::{NumberView, ValueView};
use crate::text;

verus! {

proof fn lemma_member(members: Seq<(Seq<char>, ValueView)>, i: int)
    requires
        0 <= i < members.len(),
        forall|j: int| 0 <= j < i ==> (#[trigger] members[j]).0 != members[i].0,
    ensures
        event::member_value(members, members[i].0) == Some(members[i].1),
    decreases i,
{
    if i > 0 {
        assert(members[0].0 != members[i].0);
        let rest = members.skip(1);
        assert forall|j: int| 0 <= j < i - 1 implies (#[trigger] rest[j]).0 != rest[i - 1].0 by {
            assert(members[j + 1].0 != members[i].0);
        }
        lemma_member(rest, i - 1);
    }
}

proof fn lemma_no_member(members: Seq<(Seq<char>, ValueView)>, name: Seq<char>)
    requires
        forall|j: int| 0 <= j < members.len() ==> (#[trigger] members[j]).0 != name,
    ensures
        event::member_value(members, name) is None,
    decreases members.len(),
{
    if members.len() > 0 {
        assert(members[0].0 != name);
        let rest = members.skip(1);
        assert forall|j: int| 0 <= j < rest.len() implies (#[trigger] rest[j]).0 != name by {
            assert(members[j + 1].0 != name);
        }
        lemma_no_member(rest, name);
    }
}

/// The value of a member is the one that stands by its name.
pub proof fn law_member_is_found(members: Seq<(Seq<char>, ValueView)>, i: int)
    requires
        0 <= i < members.len(),
        forall|j: int| 0 <= j < i ==> (#[trigger] members[j]).0 != members[i].0,
    ensures
        ValueView::Object(members).member(members[i].0) == Some(members[i].1),
{
    lemma_member(members, i);
}

/// A name that no member has finds nothing.
pub proof fn law_missing_member(members: Seq<(Seq<char>, ValueView)>, name: Seq<char>)
    requires
        forall|j: int| 0 <= j < members.len() ==> (#[trigger] members[j]).0 != name,
    ensures
        ValueView::Object(members).member(name) is None,
{
    lemma_no_member(members, name);
}

/// Only objects have members.
pub proof fn law_only_objects_have_members(value: ValueView, name: Seq<char>)
    requires
        !(value is Object),
    ensures
        value.member(name) is None,
{
}

/// A path without a dot is the name of a member.
pub proof fn law_path_of_one_name(value: ValueView, name: Seq<char>)
    requires
        !name.contains('.'),
    ensures
        value.at_path(name) == value.member(name),
{
    text::lemma_find_char(name, '.', 0);
    let dot = text::find_char(name, '.', 0);
    if dot < name.len() {
        assert(name.contains(name[dot]));
    }
}

/// The first name of a path leads to a member, and the rest of the path goes on from there.
pub proof fn law_path_goes_on(value: ValueView, name: Seq<char>, rest: Seq<char>)
    requires
        !name.contains('.'),
    ensures
        value.member(name) matches Some(inner) ==> value.at_path(name + seq!['.'] + rest)
            == inner.at_path(rest),
        value.member(name) is None ==> value.at_path(name + seq!['.'] + rest) is None,
{
    let path = name + seq!['.'] + rest;
    let n = name.len() as int;
    text::lemma_find_char(path, '.', 0);
    let dot = text::find_char(path, '.', 0);
    assert(path[n] == '.');
    if dot < n {
        assert(name[dot] == path[dot]);
        assert(name.contains(name[dot]));
    }
    assert(dot == n);
    assert(path.take(n) =~= name);
    assert(path.skip(n + 1) =~= rest);
}

/// A key is looked up as the path that it is an alias of, or else as a path.
pub proof fn law_key_is_looked_up(
    key: Seq<char>,
    event: ValueView,
    aliases: Map<Seq<char>, Seq<char>>,
)
    ensures
        aliases.contains_key(key) ==> event::event_value(key, event, aliases) == event.at_path(
            aliases[key],
        ),
        !aliases.contains_key(key) ==> event::event_value(key, event, aliases) == event.at_path(
            key,
        ),
{
}

/// How values are written: strings as they are, numbers and booleans in their usual notation,
/// and nothing else at all.
pub proof fn law_values_are_written(
    s: Seq<char>,
    b: bool,
    n: nat,
    m: int,
    items: Seq<ValueView>,
    members: Seq<(Seq<char>, ValueView)>,
)
    ensures
        ValueView::String(s).text() == Some(s),
        ValueView::Bool(b).text() == Some(text::bool_text(b)),
        ValueView::Number(NumberView::PosInt(n)).text() == Some(text::decimal_nat(n)),
        ValueView::Number(NumberView::NegInt(m)).text() == Some(text::decimal(m)),
        ValueView::Number(NumberView::Float(s)).text() == Some(s),
        ValueView::Null.text() is None,
        ValueView::Array(items).text() is None,
        ValueView::Object(members).text() is None,
{
}

/// Which numbers are integers of 64 bits with a sign.
pub proof fn law_signed_integers(n: nat, m: int, s: Seq<char>)
    ensures
        NumberView::PosInt(n).is_i64() <==> n < 0x8000_0000_0000_0000,
        NumberView::NegInt(m).is_i64(),
        !NumberView::Float(s).is_i64(),
{
}

} // verus!
