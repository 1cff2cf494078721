//! Checks of a text against lists of regular expressions.
use vstd::prelude::*;

use crate::pattern;
use crate::pattern::Pattern;
use crate::text;
use crate::text::{concat2, decimal_u64};

verus! {

/// A cell of a row; rows that are too short have empty cells.
pub open spec fn cell(row: Seq<Seq<char>>, i: int) -> Seq<char> {
    if 0 <= i < row.len() {
        row[i]
    } else {
        seq![]
    }
}

/// `regex` is a regular expression, not an empty one, that matches somewhere in `text`.
pub open spec fn found_in(regex: Seq<char>, text: Seq<char>) -> bool {
    &&& regex.len() > 0
    &&& pattern::regex_valid(regex)
    &&& pattern::regex_first_match(regex, text) is Some
}

/// A row of kind `kind`, regular expression and remark applies to `text`.
pub open spec fn regex_hit(row: Seq<Seq<char>>, text: Seq<char>, kind: nat) -> bool {
    &&& cell(row, 0) == text::decimal_nat(kind)
    &&& found_in(cell(row, 1), text)
    &&& cell(row, 2).len() > 0
}

/// The remarks of the rows that apply to `text`, each on a line of its own.
pub open spec fn regex_report(rows: Seq<Seq<Seq<char>>>, text: Seq<char>, kind: nat) -> Seq<char>
    decreases rows.len(),
{
    if rows.len() == 0 {
        seq![]
    } else {
        let before = regex_report(rows.drop_last(), text, kind);
        if regex_hit(rows.last(), text, kind) {
            before + cell(rows.last(), 2) + "\n"@
        } else {
            before
        }
    }
}

/// Some row of a list starts with a regular expression that matches somewhere in `text`.
pub open spec fn whitelisted(rows: Seq<Seq<Seq<char>>>, text: Seq<char>) -> bool {
    exists|i: int| 0 <= i < rows.len() && found_in(cell(#[trigger] rows[i], 0), text)
}

/// A list of regular expressions reports something of a text exactly if one of its rows
/// applies to the text.
pub proof fn lemma_regex_report(rows: Seq<Seq<Seq<char>>>, text: Seq<char>, kind: nat)
    ensures
        regex_report(rows, text, kind).len() > 0 <==> exists|i: int|
            0 <= i < rows.len() && regex_hit(#[trigger] rows[i], text, kind),
    decreases rows.len(),
{
    if rows.len() > 0 {
        lemma_regex_report(rows.drop_last(), text, kind);
        if regex_hit(rows.last(), text, kind) {
            assert(regex_hit(rows[rows.len() - 1], text, kind));
        } else if regex_report(rows, text, kind).len() > 0 {
            let i = choose|i: int|
                0 <= i < rows.drop_last().len() && regex_hit(
                    #[trigger] rows.drop_last()[i],
                    text,
                    kind,
                );
            assert(regex_hit(rows[i], text, kind));
        } else {
            assert forall|i: int| 0 <= i < rows.len() implies !regex_hit(
                #[trigger] rows[i],
                text,
                kind,
            ) by {
                if i < rows.len() - 1 {
                    assert(!regex_hit(rows.drop_last()[i], text, kind));
                }
            }
        }
    }
}

fn cell_text(row: &Vec<String>, i: usize) -> (r: String)
    ensures
        r@ == cell(text::texts(row@), i as int),
{
    if i < row.len() {
        row[i].clone()
    } else {
        let r = String::new();
        assert(r@ =~= seq![]);
        r
    }
}

fn finds(regex: &str, target: &str) -> (r: bool)
    ensures
        r == found_in(regex@, target@),
{
    if regex.is_empty() {
        return false;
    }
    match Pattern::new(regex) {
        Some(p) => p.is_match(target),
        None => false,
    }
}

/// The remarks of all rows of kind `kind` whose regular expression matches somewhere in
/// `target`, each followed by a line feed. A row holds the kind, the regular expression and
/// the remark; rows without a valid regular expression or without a remark are passed over.
pub fn check_regex(target: &str, kind: u64, regex_list: &Vec<Vec<String>>) -> (r: String)
    ensures
        r@ == regex_report(text::rows(regex_list@), target@, kind as nat),
{
    let mut report = String::new();
    let kind_text = decimal_u64(kind);
    let ghost rows = text::rows(regex_list@);
    assert(report@ =~= seq![]);
    for i in 0..regex_list.len()
        invariant
            rows == text::rows(regex_list@),
            kind_text@ == text::decimal_nat(kind as nat),
            report@ == regex_report(rows.take(i as int), target@, kind as nat),
    {
        let line = &regex_list[i];
        assert(rows.take(i + 1).drop_last() =~= rows.take(i as int));
        assert(rows.take(i + 1).last() == text::texts(line@));
        let line_kind = cell_text(line, 0);
        let regex = cell_text(line, 1);
        let remark = cell_text(line, 2);
        if line_kind == kind_text && finds(regex.as_str(), target) && !remark.as_str().is_empty() {
            report = concat2(concat2(report.as_str(), remark.as_str()).as_str(), "\n");
        }
    }
    assert(rows.take(regex_list@.len() as int) =~= rows);
    report
}

/// Whether a row of `whitelist` starts with a regular expression that matches somewhere in
/// `target`.
pub fn check_whitelist(target: &str, whitelist: &Vec<Vec<String>>) -> (r: bool)
    ensures
        r == whitelisted(text::rows(whitelist@), target@),
{
    let ghost rows = text::rows(whitelist@);
    for i in 0..whitelist.len()
        invariant
            rows == text::rows(whitelist@),
            forall|j: int| 0 <= j < i ==> !found_in(cell(#[trigger] rows[j], 0), target@),
    {
        let regex = cell_text(&whitelist[i], 0);
        assert(rows[i as int] == text::texts(whitelist@[i as int]@));
        if finds(regex.as_str(), target) {
            return true;
        }
    }
    false
}

} // verus!
