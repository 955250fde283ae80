//! Amounts as a reader expects them: two decimal places, thousands apart.

use vstd::prelude::*;
use vstd::string::*;

use crate::chars::{bytes_of, text_bytes};
use crate::decimal::{Amount, Dec};
use crate::text::{chars_of, string_of};

verus! {

/// The position of the first point, or the length of a text without one.
pub open spec fn point_at(s: Seq<char>) -> int
    decreases s.len(),
{
    if s.len() == 0 || s[0] == '.' {
        0
    } else {
        1 + point_at(s.drop_first())
    }
}

/// The digits with a comma before every third one from the end, where `n`
/// is how many there are in all.
pub open spec fn grouped(digits: Seq<char>, n: int) -> Seq<char>
    decreases digits.len(),
{
    if digits.len() == 0 {
        Seq::empty()
    } else {
        let i = digits.len() - 1;
        let before = grouped(digits.drop_last(), n);
        if i > 0 && (n - i) % 3 == 0 {
            before.push(',').push(digits.last())
        } else {
            before.push(digits.last())
        }
    }
}

/// The length of the sign at the beginning of a text.
pub open spec fn sign_len(s: Seq<char>) -> int {
    if s.len() > 0 && (s[0] == '-' || s[0] == '+') {
        1
    } else {
        0
    }
}

/// The text with commas between the thousands of its whole part.
pub open spec fn with_commas(s: Seq<char>) -> Seq<char> {
    let whole = s.take(point_at(s));
    let sign = whole.take(sign_len(whole));
    let digits = whole.skip(sign_len(whole));
    sign + grouped(digits, text_bytes(digits) as int) + s.skip(point_at(s))
}

proof fn lemma_point_at(s: Seq<char>)
    ensures
        0 <= point_at(s) <= s.len(),
    decreases s.len(),
{
    if s.len() > 0 && s[0] != '.' {
        lemma_point_at(s.drop_first());
    }
}

/// Insert thousands separators into the integer part of an already
/// formatted decimal string, preserving any leading sign.
pub fn group_money(s: &str) -> (out: String)
    ensures
        out@ == with_commas(s@),
{
    let chars: Vec<char> = chars_of(s);
    let mut point: usize = 0;
    assert(chars@.skip(0) =~= chars@);
    while point < chars.len() && chars[point] != '.'
        invariant
            point <= chars.len(),
            point_at(chars@) == point + point_at(chars@.skip(point as int)),
        decreases chars.len() - point,
    {
        assert(chars@.skip(point as int).drop_first() =~= chars@.skip(point + 1));
        point = point + 1;
    }
    assert(point_at(chars@) == point);
    let ghost whole = chars@.take(point as int);
    let signs: usize = if point > 0 && (chars[0] == '-' || chars[0] == '+') {
        1
    } else {
        0
    };
    assert(signs == sign_len(whole));
    let ghost digits = whole.skip(signs as int);
    let mut held: Vec<char> = Vec::new();
    for i in signs..point
        invariant
            signs <= point <= chars.len(),
            digits == chars@.take(point as int).skip(signs as int),
            held@ == digits.take(i - signs),
    {
        held.push(chars[i]);
        assert(digits.take(i + 1 - signs) =~= digits.take(i - signs).push(chars@[i as int]));
    }
    assert(digits.take(digits.len() as int) =~= digits);
    let n: u128 = bytes_of(&held);
    proof {
        lemma_bytes(digits);
    }
    let mut out: Vec<char> = Vec::new();
    if signs == 1 {
        out.push(chars[0]);
    }
    let ghost sign = whole.take(signs as int);
    assert(out@ =~= sign);
    assert(out@ =~= sign + grouped(digits.take(0), n as int));
    for i in 0..held.len()
        invariant
            held@ == digits,
            n >= held.len(),
            out@ == sign + grouped(digits.take(i as int), n as int),
    {
        assert(digits.take(i + 1).drop_last() =~= digits.take(i as int));
        if i > 0 && (n - i as u128) % 3 == 0 {
            out.push(',');
        }
        out.push(held[i]);
        assert(out@ =~= sign + grouped(digits.take(i + 1), n as int));
    }
    assert(digits.take(digits.len() as int) =~= digits);
    let ghost front = out@;
    let ghost rest = chars@.skip(point as int);
    assert(out@ =~= front + rest.take(0));
    for i in point..chars.len()
        invariant
            point <= chars.len(),
            rest == chars@.skip(point as int),
            out@ == front + rest.take(i - point),
    {
        out.push(chars[i]);
        assert(out@ =~= front + rest.take(i + 1 - point));
    }
    assert(rest.take(rest.len() as int) =~= rest);
    string_of(&out)
}

proof fn lemma_bytes(s: Seq<char>)
    ensures
        s.len() <= text_bytes(s),
    decreases s.len(),
{
    if s.len() > 0 {
        lemma_bytes(s.drop_last());
    }
}

/// The amount with two decimal places and its thousands apart.
pub open spec fn money_text(d: Dec) -> Seq<char> {
    with_commas(d.text(2))
}

/// The amount with its sign, two decimal places and its thousands apart.
pub open spec fn signed_money_text(d: Dec) -> Seq<char> {
    with_commas(
        if d.mantissa < 0 {
            d.text(2)
        } else {
            seq!['+'] + d.text(2)
        },
    )
}

/// The amount with two decimal places and its thousands apart.
pub fn fmt_money(d: Amount) -> (s: String)
    ensures
        s@ == money_text(d@),
{
    group_money(d.to_money_text().as_str())
}

/// The amount with its sign, two decimal places and its thousands apart.
pub fn fmt_signed_money(d: &Amount) -> (s: String)
    ensures
        s@ == signed_money_text(d@),
{
    if d.is_negative() {
        group_money(d.to_money_text().as_str())
    } else {
        let mut s = "+".to_owned();
        s.append(d.to_money_text().as_str());
        proof {
            reveal_strlit("+");
            assert("+"@ =~= seq!['+']);
        }
        group_money(s.as_str())
    }
}

/// The text without its commas.
pub open spec fn without_commas(s: Seq<char>) -> Seq<char>
    decreases s.len(),
{
    if s.len() == 0 {
        Seq::empty()
    } else if s.last() == ',' {
        without_commas(s.drop_last())
    } else {
        without_commas(s.drop_last()).push(s.last())
    }
}

proof fn lemma_without_commas_push(s: Seq<char>, c: char)
    ensures
        without_commas(s.push(c)) == (if c == ',' {
            without_commas(s)
        } else {
            without_commas(s).push(c)
        }),
{
    assert(s.push(c).drop_last() =~= s);
}

proof fn lemma_without_commas_concat(a: Seq<char>, b: Seq<char>)
    ensures
        without_commas(a + b) == without_commas(a) + without_commas(b),
    decreases b.len(),
{
    if b.len() == 0 {
        assert(a + b =~= a);
        assert(without_commas(a) + without_commas(b) =~= without_commas(a));
    } else {
        lemma_without_commas_concat(a, b.drop_last());
        assert((a + b).drop_last() =~= a + b.drop_last());
        assert(without_commas(a + b) =~= without_commas(a) + without_commas(b));
    }
}

proof fn lemma_grouped_commas(digits: Seq<char>, n: int)
    ensures
        without_commas(grouped(digits, n)) == without_commas(digits),
    decreases digits.len(),
{
    if digits.len() > 0 {
        let before = grouped(digits.drop_last(), n);
        lemma_grouped_commas(digits.drop_last(), n);
        lemma_without_commas_push(before, ',');
        lemma_without_commas_push(before.push(','), digits.last());
        lemma_without_commas_push(before, digits.last());
    }
}

/// Grouping adds commas and changes nothing else.
pub proof fn law_grouping_adds_commas_alone(s: Seq<char>)
    ensures
        without_commas(with_commas(s)) == without_commas(s),
{
    lemma_point_at(s);
    let whole = s.take(point_at(s));
    let sign = whole.take(sign_len(whole));
    let digits = whole.skip(sign_len(whole));
    let rest = s.skip(point_at(s));
    let n = text_bytes(digits) as int;
    lemma_grouped_commas(digits, n);
    lemma_without_commas_concat(sign + grouped(digits, n), rest);
    lemma_without_commas_concat(sign, grouped(digits, n));
    lemma_without_commas_concat(sign + digits, rest);
    lemma_without_commas_concat(sign, digits);
    assert(s =~= sign + digits + rest);
}

} // verus!
