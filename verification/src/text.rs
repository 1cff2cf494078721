//! Text operations, specified over sequences of characters.
use vstd::prelude::*;
use vstd::string::{StrSliceExecFns, StringExecFns};

verus! {

/// `String::push` appends one character to the end of the string.
pub assume_specification[ std::string::String::push ](s: &mut std::string::String, c: char)
    ensures
        final(s)@ == old(s)@.push(c),
;

/// The texts held by a sequence of strings.
pub open spec fn texts(v: Seq<String>) -> Seq<Seq<char>> {
    Seq::new(v.len(), |i: int| v[i]@)
}

/// The text of a string, where there is one.
pub open spec fn text_of(s: Option<String>) -> Option<Seq<char>> {
    match s {
        Some(t) => Some(t@),
        None => None,
    }
}

/// The cells of a table of strings.
pub open spec fn rows(v: Seq<Vec<String>>) -> Seq<Seq<Seq<char>>> {
    Seq::new(v.len(), |i: int| texts(v[i]@))
}

/// `part` occurs in `text` at position `k`.
pub open spec fn occurs_at(text: Seq<char>, part: Seq<char>, k: int) -> bool {
    &&& 0 <= k
    &&& k + part.len() <= text.len()
    &&& text.subrange(k, k + part.len()) == part
}

/// `part` occurs somewhere in `text`.
pub open spec fn occurs(text: Seq<char>, part: Seq<char>) -> bool {
    exists|k: int| occurs_at(text, part, k)
}

/// The first position of `text` at or after `from` that holds `c`, or the length of `text`.
pub open spec fn find_char(text: Seq<char>, c: char, from: int) -> int
    decreases text.len() - from,
{
    if 0 <= from < text.len() && text[from] != c {
        find_char(text, c, from + 1)
    } else {
        from
    }
}

pub proof fn lemma_find_char(text: Seq<char>, c: char, from: int)
    requires
        0 <= from <= text.len(),
    ensures
        from <= find_char(text, c, from) <= text.len(),
        forall|i: int| from <= i < find_char(text, c, from) ==> #[trigger] text[i] != c,
        find_char(text, c, from) < text.len() ==> text[find_char(text, c, from)] == c,
    decreases text.len() - from,
{
    if from < text.len() && text[from] != c {
        lemma_find_char(text, c, from + 1);
    }
}

/// `text` without the first occurrence of `part`; all of `text` when there is none.
pub open spec fn without_first(text: Seq<char>, part: Seq<char>) -> Seq<char>
    decreases text.len(),
{
    if part.len() <= text.len() && text.take(part.len() as int) == part {
        text.skip(part.len() as int)
    } else if text.len() == 0 {
        text
    } else {
        seq![text[0]] + without_first(text.skip(1), part)
    }
}

/// `text` without any `c`.
pub open spec fn without_char(text: Seq<char>, c: char) -> Seq<char>
    decreases text.len(),
{
    if text.len() == 0 {
        seq![]
    } else if text.last() == c {
        without_char(text.drop_last(), c)
    } else {
        without_char(text.drop_last(), c).push(text.last())
    }
}

pub open spec fn digit_char(d: int) -> char {
    (48 + d) as u8 as char
}

/// Decimal digits of a natural number, without leading zeros.
pub open spec fn decimal_nat(n: nat) -> Seq<char>
    decreases n,
{
    if n < 10 {
        seq![digit_char(n as int)]
    } else {
        decimal_nat(n / 10).push(digit_char((n % 10) as int))
    }
}

/// Decimal notation of an integer.
pub open spec fn decimal(n: int) -> Seq<char> {
    if n < 0 {
        seq!['-'] + decimal_nat((-n) as nat)
    } else {
        decimal_nat(n as nat)
    }
}

pub open spec fn bool_text(b: bool) -> Seq<char> {
    if b {
        "true"@
    } else {
        "false"@
    }
}

pub open spec fn is_digit(c: char) -> bool {
    '0' <= c && c <= '9'
}

pub open spec fn all_digits(text: Seq<char>) -> bool {
    forall|i: int| 0 <= i < text.len() ==> is_digit(#[trigger] text[i])
}

/// The number that a sequence of decimal digits denotes.
pub open spec fn digits_value(digits: Seq<char>) -> int
    decreases digits.len(),
{
    if digits.len() == 0 {
        0
    } else {
        digits_value(digits.drop_last()) * 10 + (digits.last() as int - '0' as int)
    }
}

/// The 32-bit number that `text` denotes: an optional sign and at least one decimal digit.
pub open spec fn int32_of(text: Seq<char>) -> Option<i32> {
    let signed = text.len() > 0 && (text[0] == '+' || text[0] == '-');
    let digits = if signed {
        text.skip(1)
    } else {
        text
    };
    let value = if signed && text[0] == '-' {
        -digits_value(digits)
    } else {
        digits_value(digits)
    };
    if digits.len() > 0 && all_digits(digits) && i32::MIN <= value <= i32::MAX {
        Some(value as i32)
    } else {
        None
    }
}

proof fn lemma_decimal_digits(n: nat)
    ensures
        decimal_nat(n).len() > 0,
        all_digits(decimal_nat(n)),
        digits_value(decimal_nat(n)) == n,
    decreases n,
{
    let digits = decimal_nat(n);
    if n < 10 {
        assert(digits.drop_last() =~= seq![]);
        assert(digits_value(seq![]) == 0);
        assert(is_digit(digits[0]));
    } else {
        lemma_decimal_digits(n / 10);
        assert(digits.drop_last() =~= decimal_nat(n / 10));
        assert(is_digit(digits.last()));
        assert forall|i: int| 0 <= i < digits.len() implies is_digit(#[trigger] digits[i]) by {
            if i < digits.len() - 1 {
                assert(is_digit(decimal_nat(n / 10)[i]));
            }
        }
    }
}

/// A number that is written out reads back as itself.
pub proof fn law_decimal_reads_back(n: i32)
    ensures
        int32_of(decimal(n as int)) == Some(n),
{
    if n < 0 {
        lemma_decimal_digits((-n) as nat);
        assert(decimal(n as int).skip(1) =~= decimal_nat((-n) as nat));
    } else {
        lemma_decimal_digits(n as nat);
        assert(is_digit(decimal_nat(n as nat)[0]));
    }
}

pub fn text_eq(a: &str, b: &str) -> (r: bool)
    ensures
        r == (a@ == b@),
{
    a.to_owned() == b.to_owned()
}

pub fn to_chars(s: &str) -> (r: Vec<char>)
    ensures
        r@ == s@,
{
    let mut r: Vec<char> = Vec::new();
    for c in it: s.chars()
        invariant
            it.seq() == s@,
            r@ == s@.take(it.index() as int),
    {
        assert(s@.take(it.index() as int + 1) =~= s@.take(it.index() as int).push(c));
        r.push(c);
    }
    assert(r@ =~= s@);
    r
}

/// A copy of some strings.
pub fn clone_texts(list: &Vec<String>) -> (r: Vec<String>)
    ensures
        self::texts(r@) == self::texts(list@),
{
    let mut r: Vec<String> = Vec::new();
    for i in 0..list.len()
        invariant
            r@ == list@.take(i as int),
    {
        r.push(list[i].clone());
        assert(r@ =~= list@.take(i + 1));
    }
    assert(r@ =~= list@);
    r
}

pub fn concat2(a: &str, b: &str) -> (r: String)
    ensures
        r@ == a@ + b@,
{
    let mut r = a.to_owned();
    r.append(b);
    r
}

/// Whether `part` stands in `text` at position `k`.
fn chars_at(text: &Vec<char>, part: &Vec<char>, k: usize) -> (r: bool)
    requires
        k + part@.len() <= text@.len(),
    ensures
        r == occurs_at(text@, part@, k as int),
{
    let n = text.len();
    for i in 0..part.len()
        invariant
            k + part@.len() <= text@.len() == n,
            forall|j: int| 0 <= j < i ==> #[trigger] part@[j] == text@[k + j],
    {
        if text[k + i] != part[i] {
            assert(text@.subrange(k as int, k + part@.len())[i as int] == text@[k + i]);
            return false;
        }
    }
    assert(text@.subrange(k as int, k + part@.len()) =~= part@);
    true
}

pub fn starts_with(text: &str, part: &str) -> (r: bool)
    ensures
        r == part@.is_prefix_of(text@),
{
    let t = to_chars(text);
    let p = to_chars(part);
    if p.len() > t.len() {
        return false;
    }
    let r = chars_at(&t, &p, 0);
    assert(t@.subrange(0, p@.len() as int) =~= t@.take(p@.len() as int));
    r
}

pub fn ends_with(text: &str, part: &str) -> (r: bool)
    ensures
        r == part@.is_suffix_of(text@),
{
    let t = to_chars(text);
    let p = to_chars(part);
    if p.len() > t.len() {
        return false;
    }
    chars_at(&t, &p, t.len() - p.len())
}

pub fn contains(text: &str, part: &str) -> (r: bool)
    ensures
        r == occurs(text@, part@),
{
    let t = to_chars(text);
    let p = to_chars(part);
    if p.len() > t.len() {
        return false;
    }
    let mut k: usize = 0;
    while k <= t.len() - p.len()
        invariant
            t@ == text@,
            p@ == part@,
            p@.len() <= t@.len(),
            k <= t@.len() - p@.len() + 1,
            t@.len() <= usize::MAX,
            forall|j: int| 0 <= j < k ==> !occurs_at(text@, part@, j),
        decreases t@.len() - p@.len() + 1 - k,
    {
        if chars_at(&t, &p, k) {
            return true;
        }
        if k == t.len() - p.len() {
            return false;
        }
        k = k + 1;
    }
    false
}

pub proof fn lemma_without_first(text: Seq<char>, part: Seq<char>, k: int)
    requires
        0 <= k <= text.len(),
        forall|j: int| 0 <= j < k ==> !occurs_at(text, part, j),
    ensures
        occurs_at(text, part, k) ==> without_first(text, part) == text.take(k) + text.skip(
            k + part.len(),
        ),
        k == text.len() && !occurs_at(text, part, k) ==> without_first(text, part) == text,
    decreases text.len(),
{
    if part.len() <= text.len() {
        assert(text.subrange(0, part.len() as int) =~= text.take(part.len() as int));
    }
    if k == 0 {
        assert(text.take(0) + text.skip(part.len() as int) =~= text.skip(part.len() as int));
    } else {
        assert(!occurs_at(text, part, 0));
        let rest = text.skip(1);
        assert forall|j: int| 0 <= j < rest.len() && j + part.len() <= rest.len() implies (
        #[trigger] occurs_at(rest, part, j) == occurs_at(text, part, j + 1)) by {
            assert(rest.subrange(j, j + part.len()) =~= text.subrange(
                j + 1,
                j + 1 + part.len(),
            ));
        }
        assert forall|j: int| 0 <= j < k - 1 implies !occurs_at(rest, part, j) by {
            assert(!occurs_at(text, part, j + 1));
        }
        lemma_without_first(rest, part, k - 1);
        if occurs_at(text, part, k) {
            assert(rest.subrange(k - 1, k - 1 + part.len()) =~= text.subrange(k, k + part.len()));
            assert(occurs_at(rest, part, k - 1));
            assert(seq![text[0]] + (rest.take(k - 1) + rest.skip(k - 1 + part.len())) =~= text.take(
                k,
            ) + text.skip(k + part.len()));
        } else if k == text.len() {
            if part.len() == 0 {
                assert(text.subrange(k, k) =~= part);
            }
            assert(seq![text[0]] + rest =~= text);
        }
    }
}

/// `text` without the first occurrence of `part`.
pub fn remove_first(text: &str, part: &str) -> (r: String)
    ensures
        r@ == without_first(text@, part@),
{
    let t = to_chars(text);
    let p = to_chars(part);
    let n = t.len();
    let m = p.len();
    let mut k: usize = 0;
    while k < n && n - k >= m
        invariant
            t@ == text@,
            p@ == part@,
            n == t@.len(),
            m == p@.len(),
            k <= n,
            forall|j: int| 0 <= j < k ==> !occurs_at(text@, part@, j),
        decreases n - k,
    {
        if chars_at(&t, &p, k) {
            proof {
                lemma_without_first(text@, part@, k as int);
            }
            let before = text.substring_char(0, k);
            let after = text.substring_char(k + m, n);
            assert(text@.subrange(0, k as int) =~= text@.take(k as int));
            assert(text@.subrange(k + m, n as int) =~= text@.skip(k + m));
            return concat2(before, after);
        }
        k = k + 1;
    }
    proof {
        assert forall|j: int| 0 <= j < n implies !occurs_at(text@, part@, j) by {}
        lemma_without_first(text@, part@, n as int);
        if occurs_at(text@, part@, n as int) {
            assert(text@.take(n as int) + text@.skip(n as int) =~= text@);
        }
    }
    text.to_owned()
}

/// `text` without any `c`.
pub fn remove_char(text: &str, c: char) -> (r: String)
    ensures
        r@ == without_char(text@, c),
{
    let t = to_chars(text);
    let mut r = String::new();
    for i in 0..t.len()
        invariant
            r@ == without_char(t@.take(i as int), c),
    {
        assert(t@.take(i + 1).drop_last() =~= t@.take(i as int));
        if t[i] != c {
            r.push(t[i]);
        }
    }
    assert(t@.take(t@.len() as int) =~= t@);
    r
}

/// Position of the first `c` in `text`, or the length of `text`.
pub fn position(text: &Vec<char>, c: char) -> (r: usize)
    ensures
        r == find_char(text@, c, 0),
        r <= text@.len(),
        forall|i: int| 0 <= i < r ==> text@[i] != c,
        r < text@.len() ==> text@[r as int] == c,
{
    let mut i: usize = 0;
    while i < text.len() && text[i] != c
        invariant
            i <= text@.len(),
            find_char(text@, c, i as int) == find_char(text@, c, 0),
            forall|j: int| 0 <= j < i ==> text@[j] != c,
        decreases text@.len() - i,
    {
        i = i + 1;
    }
    i
}

/// The 32-bit number that `text` denotes.
pub fn parse_i32(text: &str) -> (r: Option<i32>)
    ensures
        r == int32_of(text@),
{
    let t = to_chars(text);
    let n = t.len();
    let signed = n > 0 && (t[0] == '+' || t[0] == '-');
    let negative = n > 0 && t[0] == '-';
    let start: usize = if signed {
        1
    } else {
        0
    };
    let ghost digits = if signed {
        text@.skip(1)
    } else {
        text@
    };
    assert(digits =~= text@.skip(start as int));
    if start == n {
        return None;
    }
    let mut i: usize = start;
    let mut value: i64 = 0;
    let mut large = false;
    assert(digits.take(0) =~= seq![]);
    while i < n
        invariant
            t@ == text@,
            n == t@.len(),
            start <= i <= n,
            signed == (text@.len() > 0 && (text@[0] == '+' || text@[0] == '-')),
            digits == (if signed {
                text@.skip(1)
            } else {
                text@
            }),
            digits == text@.skip(start as int),
            forall|j: int| 0 <= j < i - start ==> is_digit(#[trigger] digits[j]),
            0 <= value <= 0x8000_0000,
            !large ==> value == digits_value(digits.take(i - start)),
            large ==> digits_value(digits.take(i - start)) > 0x8000_0000,
        decreases n - i,
    {
        let c = t[i];
        assert(digits[i - start] == c);
        if !('0' <= c && c <= '9') {
            assert(!is_digit(digits[i - start]));
            assert(!all_digits(digits));
            return None;
        }
        assert(digits.take(i - start + 1).drop_last() =~= digits.take(i - start));
        let next: i64 = value * 10 + (c as u32 as i64 - 48);
        if large || next > 0x8000_0000 {
            large = true;
        } else {
            value = next;
        }
        i = i + 1;
    }
    assert(digits.take(n - start) =~= digits);
    if large {
        return None;
    }
    if negative {
        Some((-value) as i32)
    } else if value == 0x8000_0000 {
        None
    } else {
        Some(value as i32)
    }
}

pub fn decimal_u64(n: u64) -> (r: String)
    ensures
        r@ == decimal_nat(n as nat),
    decreases n,
{
    if n < 10 {
        let mut r = String::new();
        r.push((48u8 + n as u8) as char);
        assert(r@ =~= decimal_nat(n as nat));
        r
    } else {
        let mut r = decimal_u64(n / 10);
        r.push((48u8 + (n % 10) as u8) as char);
        r
    }
}

pub fn decimal_i64(n: i64) -> (r: String)
    ensures
        r@ == decimal(n as int),
{
    if n < 0 {
        proof {
            reveal_strlit("-");
        }
        let magnitude: u64 = (-(n + 1)) as u64 + 1;
        assert("-"@ =~= seq!['-']);
        concat2("-", decimal_u64(magnitude).as_str())
    } else {
        decimal_u64(n as u64)
    }
}

pub fn bool_to_string(b: bool) -> (r: String)
    ensures
        r@ == bool_text(b),
{
    if b {
        "true".to_owned()
    } else {
        "false".to_owned()
    }
}

} // verus!
