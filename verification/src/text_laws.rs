//! What texts that are searched, cut and written have to do with the texts they come from.
use vstd::prelude::*;

use crate::text;

verus! {

/// A text occurs wherever it stands between two others, and nowhere else.
pub proof fn law_occurs(whole: Seq<char>, part: Seq<char>)
    ensures
        text::occurs(whole, part) <==> exists|a: Seq<char>, b: Seq<char>|
            #[trigger] (a + part + b) == whole,
{
    if text::occurs(whole, part) {
        let k = choose|k: int| text::occurs_at(whole, part, k);
        let a = whole.take(k);
        let b = whole.skip(k + part.len());
        assert(a + part + b =~= whole) by {
            assert forall|i: int| 0 <= i < whole.len() implies (a + part + b)[i] == whole[i] by {
                if k <= i < k + part.len() {
                    assert(whole.subrange(k, k + part.len())[i - k] == whole[i]);
                }
            }
        }
    }
    if exists|a: Seq<char>, b: Seq<char>| #[trigger] (a + part + b) == whole {
        let (a, b) = choose|a: Seq<char>, b: Seq<char>| #[trigger] (a + part + b) == whole;
        let k = a.len() as int;
        assert((a + part + b).subrange(k, k + part.len()) =~= part);
        assert(text::occurs_at(whole, part, k));
    }
}

/// The first occurrence of a text is cut out, and what stands before and behind it is kept.
pub proof fn law_first_occurrence_is_cut(before: Seq<char>, part: Seq<char>, after: Seq<char>)
    requires
        forall|a: Seq<char>, b: Seq<char>|
            #[trigger] (a + part + b) == before + part + after ==> a.len() >= before.len(),
    ensures
        text::without_first(before + part + after, part) == before + after,
{
    let whole = before + part + after;
    let k = before.len() as int;
    assert forall|j: int| 0 <= j < k implies !text::occurs_at(whole, part, j) by {
        if text::occurs_at(whole, part, j) {
            let a = whole.take(j);
            let b = whole.skip(j + part.len());
            assert forall|i: int| 0 <= i < whole.len() implies (a + part + b)[i] == whole[i] by {
                if j <= i < j + part.len() {
                    assert(whole.subrange(j, j + part.len())[i - j] == whole[i]);
                }
            }
            assert(a + part + b =~= whole);
        }
    }
    assert(whole.subrange(k, k + part.len()) =~= part);
    text::lemma_without_first(whole, part, k);
    assert(whole.take(k) + whole.skip(k + part.len()) =~= before + after);
}

/// A text that does not hold the part is left alone.
pub proof fn law_nothing_is_cut(whole: Seq<char>, part: Seq<char>)
    requires
        !text::occurs(whole, part),
    ensures
        text::without_first(whole, part) == whole,
{
    assert forall|j: int| !text::occurs_at(whole, part, j) by {}
    text::lemma_without_first(whole, part, whole.len() as int);
}

/// Taking a character out keeps all other characters, in order.
pub proof fn law_without_char(whole: Seq<char>, c: char)
    ensures
        text::without_char(whole, c) == whole.filter(|x: char| x != c),
    decreases whole.len(),
{
    reveal(Seq::filter);
    if whole.len() > 0 {
        law_without_char(whole.drop_last(), c);
    }
}

/// A number of one digit is written as that digit.
pub proof fn law_one_digit(n: nat)
    requires
        n < 10,
    ensures
        text::decimal_nat(n).len() == 1,
        text::decimal_nat(n)[0] as int == '0' as int + n,
{
}

/// Ten times a number and a digit is written as the number and then the digit.
pub proof fn law_next_digit(n: nat, d: nat)
    requires
        n > 0,
        d < 10,
    ensures
        text::decimal_nat(10 * n + d) == text::decimal_nat(n) + text::decimal_nat(d),
{
    let m: nat = 10 * n + d;
    assert(m / 10 == n && m % 10 == d);
    assert(text::decimal_nat(m) =~= text::decimal_nat(n) + text::decimal_nat(d));
}

/// A negative number is written as its opposite with `-` in front.
pub proof fn law_negative(n: int)
    ensures
        n >= 0 ==> text::decimal(n) == text::decimal_nat(n as nat),
        n < 0 ==> text::decimal(n) == seq!['-'] + text::decimal_nat((-n) as nat),
{
}

/// How booleans are written.
pub proof fn law_booleans()
    ensures
        text::bool_text(true) == seq!['t', 'r', 'u', 'e'],
        text::bool_text(false) == seq!['f', 'a', 'l', 's', 'e'],
{
    reveal_strlit("true");
    reveal_strlit("false");
    assert("true"@ =~= seq!['t', 'r', 'u', 'e']);
    assert("false"@ =~= seq!['f', 'a', 'l', 's', 'e']);
}

/// One more digit makes ten times the number, and the digit.
pub proof fn law_digits_value(digits: Seq<char>, c: char)
    ensures
        text::digits_value(Seq::<char>::empty()) == 0,
        text::digits_value(digits.push(c)) == 10 * text::digits_value(digits) + (c as int
            - '0' as int),
{
    assert(digits.push(c).drop_last() =~= digits);
}

/// The characters of a text are all decimal digits, and there is at least one.
pub open spec fn is_digits(digits: Seq<char>) -> bool {
    digits.len() > 0 && forall|i: int|
        0 <= i < digits.len() ==> '0' <= #[trigger] digits[i] && digits[i] <= '9'
}

proof fn lemma_is_digits(digits: Seq<char>)
    ensures
        is_digits(digits) <==> digits.len() > 0 && text::all_digits(digits),
{
    if is_digits(digits) {
        assert forall|i: int| 0 <= i < digits.len() implies text::is_digit(
            #[trigger] digits[i],
        ) by {}
    }
    if digits.len() > 0 && text::all_digits(digits) {
        assert forall|i: int| 0 <= i < digits.len() implies '0' <= #[trigger] digits[i]
            && digits[i] <= '9' by {
            assert(text::is_digit(digits[i]));
        }
    }
}

/// A number is read from decimal digits, with or without a sign, if it fits in 32 bits.
pub proof fn law_number_is_read(digits: Seq<char>, n: i32)
    requires
        is_digits(digits),
    ensures
        text::int32_of(digits) == Some(n) <==> text::digits_value(digits) == n,
        text::int32_of(seq!['+'] + digits) == Some(n) <==> text::digits_value(digits) == n,
        text::int32_of(seq!['-'] + digits) == Some(n) <==> -text::digits_value(digits) == n,
{
    lemma_is_digits(digits);
    assert((seq!['+'] + digits).skip(1) =~= digits);
    assert((seq!['-'] + digits).skip(1) =~= digits);
    assert('0' <= digits[0]);
}

/// A number is read from nothing but decimal digits, with or without a sign.
pub proof fn law_only_numbers_are_read(whole: Seq<char>)
    ensures
        text::int32_of(whole) is Some ==> is_digits(whole) || (whole.len() > 0 && (whole[0] == '+'
            || whole[0] == '-') && is_digits(whole.skip(1))),
{
    lemma_is_digits(whole);
    if whole.len() > 0 {
        lemma_is_digits(whole.skip(1));
    }
}

} // verus!
