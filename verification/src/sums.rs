//! Sums of amounts.

use vstd::prelude::*;

use crate::decimal::{lemma_plus_exact, lemma_plus_wf, Amount, Dec};

verus! {

/// The sum of the amounts, added one after the other to nothing, or nothing
/// where one of the sums is out of range.
pub open spec fn total(s: Seq<Dec>) -> Option<Dec>
    decreases s.len(),
{
    if s.len() == 0 {
        Some(Dec::zero())
    } else {
        match total(s.drop_last()) {
            Some(t) => t.plus(s.last()),
            None => None,
        }
    }
}

/// The sum of the amounts in units of the smallest decimal place.
pub open spec fn units_total(s: Seq<Dec>) -> int
    decreases s.len(),
{
    if s.len() == 0 {
        0
    } else {
        units_total(s.drop_last()) + s.last().units()
    }
}

/// Whether adding up the amounts needs no rounding.
pub open spec fn adds_up_exactly(s: Seq<Dec>) -> bool
    decreases s.len(),
{
    if s.len() == 0 {
        true
    } else {
        &&& adds_up_exactly(s.drop_last())
        &&& total(s.drop_last()) matches Some(t) && t.adds_exactly(s.last())
    }
}

/// Whether these are amounts.
pub open spec fn all_wf(s: Seq<Dec>) -> bool {
    forall|i: int| 0 <= i < s.len() ==> (#[trigger] s[i]).wf()
}

/// The amounts with the opposite sign.
pub open spec fn all_negated(s: Seq<Dec>) -> Seq<Dec> {
    Seq::new(s.len(), |i: int| s[i].negated())
}

/// The sum with one amount more.
pub proof fn lemma_total_push(s: Seq<Dec>, d: Dec)
    ensures
        total(s.push(d)) == (match total(s) {
            Some(t) => t.plus(d),
            None => None,
        }),
        units_total(s.push(d)) == units_total(s) + d.units(),
        adds_up_exactly(s.push(d)) == (adds_up_exactly(s) && (total(s) matches Some(t)
            && t.adds_exactly(d))),
{
    assert(s.push(d).drop_last() =~= s);
}

/// What adds up does so at every point on the way.
pub proof fn lemma_total_prefix(s: Seq<Dec>, n: int)
    requires
        total(s) is Some,
        0 <= n <= s.len(),
    ensures
        total(s.take(n)) is Some,
    decreases s.len(),
{
    if n == s.len() {
        assert(s.take(n) =~= s);
    } else {
        lemma_total_prefix(s.drop_last(), n);
        assert(s.drop_last().take(n) =~= s.take(n));
    }
}

/// A sum of amounts is an amount.
pub proof fn lemma_total_wf(s: Seq<Dec>)
    requires
        all_wf(s),
    ensures
        total(s) matches Some(t) ==> t.wf(),
    decreases s.len(),
{
    if s.len() > 0 {
        assert forall|i: int| 0 <= i < s.drop_last().len() implies (#[trigger] s.drop_last()[i]).wf() by {
            assert(s.drop_last()[i] == s[i]);
        }
        lemma_total_wf(s.drop_last());
        if let Some(t) = total(s.drop_last()) {
            lemma_plus_wf(t, s.last());
        }
    }
}

/// A sum without rounding is the sum.
pub proof fn lemma_total_exact(s: Seq<Dec>)
    requires
        all_wf(s),
        adds_up_exactly(s),
    ensures
        total(s) matches Some(t) && t.wf() && t.units() == units_total(s),
    decreases s.len(),
{
    if s.len() == 0 {
        assert(0 * crate::decimal::pow10(28) == 0) by (nonlinear_arith);
    } else {
        assert forall|i: int| 0 <= i < s.drop_last().len() implies (#[trigger] s.drop_last()[i]).wf() by {
            assert(s.drop_last()[i] == s[i]);
        }
        lemma_total_exact(s.drop_last());
        lemma_plus_exact(total(s.drop_last()).unwrap(), s.last());
    }
}

/// The sum of the amounts, added one after the other to `start`.
pub open spec fn total_from(start: Option<Dec>, s: Seq<Dec>) -> Option<Dec>
    decreases s.len(),
{
    if s.len() == 0 {
        start
    } else {
        match total_from(start, s.drop_last()) {
            Some(t) => t.plus(s.last()),
            None => None,
        }
    }
}

/// The sum with one amount more.
pub proof fn lemma_total_from_push(start: Option<Dec>, s: Seq<Dec>, d: Dec)
    ensures
        total_from(start, s.push(d)) == (match total_from(start, s) {
            Some(t) => t.plus(d),
            None => None,
        }),
{
    assert(s.push(d).drop_last() =~= s);
}

/// What is out of range stays so.
pub proof fn lemma_total_from_none(s: Seq<Dec>)
    ensures
        total_from(None, s) is None,
    decreases s.len(),
{
    if s.len() > 0 {
        lemma_total_from_none(s.drop_last());
    }
}

/// The sum of two lists of amounts goes on from the first with the second.
pub proof fn lemma_total_from_concat(start: Option<Dec>, a: Seq<Dec>, b: Seq<Dec>)
    ensures
        total_from(start, a + b) == total_from(total_from(start, a), b),
    decreases b.len(),
{
    if b.len() == 0 {
        assert(a + b =~= a);
    } else {
        lemma_total_from_concat(start, a, b.drop_last());
        assert((a + b).drop_last() =~= a + b.drop_last());
    }
}

/// The sum starts from nothing.
pub proof fn lemma_total_from_zero(s: Seq<Dec>)
    ensures
        total(s) == total_from(Some(Dec::zero()), s),
    decreases s.len(),
{
    if s.len() > 0 {
        lemma_total_from_zero(s.drop_last());
    }
}

/// The units of two lists of amounts add up.
pub proof fn lemma_units_concat(a: Seq<Dec>, b: Seq<Dec>)
    ensures
        units_total(a + b) == units_total(a) + units_total(b),
    decreases b.len(),
{
    if b.len() == 0 {
        assert(a + b =~= a);
    } else {
        lemma_units_concat(a, b.drop_last());
        assert((a + b).drop_last() =~= a + b.drop_last());
    }
}

/// The units of the opposite amounts are the opposite.
pub proof fn lemma_units_negated(s: Seq<Dec>)
    ensures
        units_total(all_negated(s)) == -units_total(s),
    decreases s.len(),
{
    if s.len() > 0 {
        lemma_units_negated(s.drop_last());
        assert(all_negated(s).drop_last() =~= all_negated(s.drop_last()));
        lemma_negated_units(s.last());
    }
}

/// The opposite of an amount has the opposite units.
pub proof fn lemma_negated_units(d: Dec)
    ensures
        d.negated().units() == -d.units(),
{
    let p = crate::decimal::pow10((crate::decimal::MAX_SCALE - d.scale) as nat) as int;
    let m = d.mantissa;
    assert((-m) * p == -(m * p)) by (nonlinear_arith);
}

/// The amounts.
pub open spec fn decs(s: Seq<Amount>) -> Seq<Dec> {
    Seq::new(s.len(), |i: int| s[i]@)
}

/// The sum of the amounts, or nothing where one of the sums on the way is
/// out of range.
pub fn checked_total_of(amounts: &Vec<Amount>) -> (sum: Option<Amount>)
    ensures
        total(decs(amounts@)) == (match sum {
            Some(s) => Some(s@),
            None => None,
        }),
{
    let mut sum: Amount = Amount::zero();
    for i in 0..amounts.len()
        invariant
            total(decs(amounts@).take(i as int)) == Some(sum@),
    {
        let ghost s = decs(amounts@);
        proof {
            lemma_total_push(s.take(i as int), s[i as int]);
            assert(s.take(i + 1) =~= s.take(i as int).push(s[i as int]));
        }
        match sum.checked_plus(&amounts[i]) {
            Some(next) => {
                sum = next;
            },
            None => {
                proof {
                    if total(s) is Some {
                        lemma_total_prefix(s, i + 1);
                    }
                }
                return None;
            },
        }
    }
    assert(decs(amounts@).take(amounts@.len() as int) =~= decs(amounts@));
    Some(sum)
}

/// The sum of the amounts.
pub fn total_of(amounts: &Vec<Amount>) -> (sum: Amount)
    requires
        total(decs(amounts@)) is Some,
    ensures
        total(decs(amounts@)) == Some(sum@),
{
    checked_total_of(amounts).unwrap()
}

} // verus!
