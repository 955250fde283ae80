//! What holds of fiscal years: where their periods begin and end, and which
//! closes and boundaries they go by.

use vstd::prelude::*;

use crate::book::TransactionView;
use crate::cli::CliErrorView;
use crate::fiscal::{
    closes_in, fiscal_close, fiscal_period_of, in_year, next_midnight, report_period_of, year_text,
};
use crate::model::TransactionKind;
use crate::summary::{closes_of, latest_boundary};
use crate::time::{date_read, date_text, midnight, MAX_NANOSECOND, NANOSECONDS_PER_DAY};

verus! {

/// The closes among the transactions are those of that kind, all of them, in
/// their order, each with its own id and date.
pub proof fn law_closes_are_those_of_the_kind(transactions: Seq<TransactionView>)
    ensures
        closes_of(transactions) == transactions.filter(
            |tx: TransactionView| tx.kind == TransactionKind::Close,
        ).map_values(|tx: TransactionView| (tx.id, tx.posted_at)),
    decreases transactions.len(),
{
    reveal(Seq::filter);
    let p = |tx: TransactionView| tx.kind == TransactionKind::Close;
    let f = |tx: TransactionView| (tx.id, tx.posted_at);
    if transactions.len() > 0 {
        law_closes_are_those_of_the_kind(transactions.drop_last());
        assert(closes_of(transactions) =~= transactions.filter(p).map_values(f));
    } else {
        assert(closes_of(transactions) =~= transactions.filter(p).map_values(f));
    }
}

/// The last boundary of the books is the last transaction that closes or
/// opens a period, and there is one exactly if one does.
pub proof fn law_the_last_boundary_is_found(transactions: Seq<TransactionView>)
    ensures
        latest_boundary(transactions) is None <==> forall|i: int|
            0 <= i < transactions.len() ==> (#[trigger] transactions[i]).kind
                == TransactionKind::Normal,
        latest_boundary(transactions) matches Some(t) ==> exists|k: int|
            0 <= k < transactions.len() && (#[trigger] transactions[k]).posted_at == t
                && transactions[k].kind != TransactionKind::Normal && forall|i: int|
                k < i < transactions.len() ==> (#[trigger] transactions[i]).kind
                    == TransactionKind::Normal,
    decreases transactions.len(),
{
    if transactions.len() > 0 {
        let t = transactions.drop_last();
        let n = transactions.len() - 1;
        law_the_last_boundary_is_found(t);
        if transactions[n].kind == TransactionKind::Normal {
            if latest_boundary(t) is Some {
                let k = choose|k: int|
                    0 <= k < t.len() && (#[trigger] t[k]).posted_at == latest_boundary(t)->0
                        && t[k].kind != TransactionKind::Normal && forall|i: int|
                        k < i < t.len() ==> (#[trigger] t[i]).kind == TransactionKind::Normal;
                assert(transactions[k] == t[k]);
                assert forall|i: int| k < i < transactions.len() implies (
                #[trigger] transactions[i]).kind == TransactionKind::Normal by {
                    if i < n {
                        assert(t[i] == transactions[i]);
                    }
                }
            } else {
                assert forall|i: int| 0 <= i < transactions.len() implies (
                #[trigger] transactions[i]).kind == TransactionKind::Normal by {
                    if i < n {
                        assert(t[i] == transactions[i]);
                    }
                }
            }
        } else {
            assert(transactions[n].posted_at == latest_boundary(transactions)->0);
        }
    }
}

/// Whether a moment ends the day of a point in time: it is the first
/// midnight behind it, or the end of all time where there is none.
pub open spec fn ends_day(t: int, end: int) -> bool {
    ||| end % (NANOSECONDS_PER_DAY as int) == 0 && t < end <= t + NANOSECONDS_PER_DAY && end
        <= MAX_NANOSECOND
    ||| end == MAX_NANOSECOND && forall|m: int|
        m % (NANOSECONDS_PER_DAY as int) == 0 && t < m <= t + NANOSECONDS_PER_DAY ==> #[trigger]
            is_late(m)
}

/// Whether a moment is behind the end of all time.
pub open spec fn is_late(m: int) -> bool {
    m > MAX_NANOSECOND
}

proof fn lemma_next_midnight(t: int)
    ensures
        ends_day(t, next_midnight(t)),
{
    let day = NANOSECONDS_PER_DAY as int;
    let next = t - t % day + day;
    vstd::arithmetic::div_mod::lemma_mod_bound(t, day);
    vstd::arithmetic::div_mod::lemma_fundamental_div_mod(t, day);
    let q = t / day;
    assert(next == day * (q + 1)) by (nonlinear_arith)
        requires
            next == t - t % day + day,
            t == day * q + t % day,
    ;
    vstd::arithmetic::div_mod::lemma_mod_multiples_basic(q + 1, day);
    assert((q + 1) * day == day * (q + 1)) by (nonlinear_arith);
    assert(next % day == 0);
    if next > MAX_NANOSECOND {
        assert forall|m: int| m % day == 0 && t < m <= t + day implies #[trigger] is_late(m) by {
            vstd::arithmetic::div_mod::lemma_fundamental_div_mod(m, day);
            let r = m / day;
            assert(r == q + 1) by (nonlinear_arith)
                requires
                    m == day * r,
                    next == day * (q + 1),
                    next - day <= t < next,
                    t < m <= t + day,
                    day > 0,
            ;
            assert(m == next);
        }
    }
}

proof fn lemma_closes_prefix(transactions: Seq<TransactionView>, k: int)
    requires
        0 <= k <= transactions.len(),
    ensures
        closes_of(transactions.take(k)).len() <= closes_of(transactions).len(),
        closes_of(transactions).take(closes_of(transactions.take(k)).len() as int) == closes_of(
            transactions.take(k),
        ),
    decreases transactions.len(),
{
    let n = transactions.len() as int;
    if k == n {
        assert(transactions.take(k) =~= transactions);
        assert(closes_of(transactions).take(closes_of(transactions).len() as int) =~= closes_of(
            transactions,
        ));
    } else {
        let t = transactions.drop_last();
        lemma_closes_prefix(t, k);
        assert(t.take(k) =~= transactions.take(k));
        let m = closes_of(transactions.take(k)).len() as int;
        assert(closes_of(transactions).take(m) =~= closes_of(t).take(m));
    }
}

proof fn lemma_no_closes_between(transactions: Seq<TransactionView>, a: int, b: int)
    requires
        0 <= a <= b <= transactions.len(),
        forall|i: int|
            a <= i < b ==> (#[trigger] transactions[i]).kind != TransactionKind::Close,
    ensures
        closes_of(transactions.take(b)) == closes_of(transactions.take(a)),
    decreases b - a,
{
    if a < b {
        lemma_no_closes_between(transactions, a, b - 1);
        assert(transactions.take(b).drop_last() =~= transactions.take(b - 1));
        assert(transactions[b - 1].kind != TransactionKind::Close);
    }
}

proof fn lemma_close_at(transactions: Seq<TransactionView>, k: int)
    requires
        0 <= k < transactions.len(),
        transactions[k].kind == TransactionKind::Close,
    ensures
        ({
            let at = closes_of(transactions.take(k)).len() as int;
            &&& at < closes_of(transactions).len()
            &&& closes_of(transactions)[at] == (transactions[k].id, transactions[k].posted_at)
            &&& closes_of(transactions.take(k + 1)).len() == at + 1
        }),
{
    let at = closes_of(transactions.take(k)).len() as int;
    assert(transactions.take(k + 1).drop_last() =~= transactions.take(k));
    lemma_closes_prefix(transactions, k + 1);
    let upto = closes_of(transactions.take(k + 1));
    assert(upto == closes_of(transactions.take(k)).push(
        (transactions[k].id, transactions[k].posted_at),
    ));
    assert(closes_of(transactions).take(upto.len() as int)[at] == upto[at]);
}

proof fn lemma_position(transactions: Seq<TransactionView>, i: int) -> (j: int)
    requires
        0 <= i < closes_of(transactions).len(),
    ensures
        0 <= j < transactions.len(),
        transactions[j].kind == TransactionKind::Close,
        closes_of(transactions.take(j)).len() == i,
        closes_of(transactions)[i] == (transactions[j].id, transactions[j].posted_at),
    decreases transactions.len(),
{
    let t = transactions.drop_last();
    let n = transactions.len() - 1;
    assert(transactions.take(n) =~= t);
    if i < closes_of(t).len() {
        let j = lemma_position(t, i);
        assert(t.take(j) =~= transactions.take(j));
        j
    } else {
        n
    }
}

/// Whether a period is that of the year which a close ends: it ends with the
/// day of the close, and begins behind the day of the close before, or with
/// the first transaction where no close is before.
pub open spec fn is_year_of(transactions: Seq<TransactionView>, k: int, period: (int, int)) -> bool {
    &&& ends_day(transactions[k].posted_at, period.1)
    &&& (forall|i: int| 0 <= i < k ==> (#[trigger] transactions[i]).kind != TransactionKind::Close)
        ==> period.0 == transactions[0].posted_at
    &&& forall|p: int|
        0 <= p < k && (#[trigger] transactions[p]).kind == TransactionKind::Close && (forall|i: int|
            p < i < k ==> (#[trigger] transactions[i]).kind != TransactionKind::Close) ==> ends_day(
            transactions[p].posted_at,
            period.0,
        )
}

proof fn lemma_year(transactions: Seq<TransactionView>, fy: Seq<char>, k: int)
    requires
        0 <= k < transactions.len(),
        transactions[k].kind == TransactionKind::Close,
        fiscal_close(closes_of(transactions), fy) == Ok::<int, CliErrorView>(
            closes_of(transactions.take(k)).len() as int,
        ),
    ensures
        fiscal_period_of(transactions, fy) matches Ok(period) && is_year_of(transactions, k, period),
{
    let found = closes_of(transactions);
    let at = closes_of(transactions.take(k)).len() as int;
    lemma_close_at(transactions, k);
    lemma_next_midnight(transactions[k].posted_at);
    let period = fiscal_period_of(transactions, fy)->Ok_0;
    if forall|i: int| 0 <= i < k ==> (#[trigger] transactions[i]).kind != TransactionKind::Close {
        lemma_no_closes_between(transactions, 0, k);
        assert(transactions.take(0) =~= Seq::empty());
        assert(closes_of(transactions.take(0)).len() == 0);
        assert(at == 0);
    }
    assert forall|p: int|
        0 <= p < k && (#[trigger] transactions[p]).kind == TransactionKind::Close && (forall|i: int|
            p < i < k ==> (#[trigger] transactions[i]).kind != TransactionKind::Close) implies ends_day(
        transactions[p].posted_at,
        period.0,
    ) by {
        lemma_close_at(transactions, p);
        lemma_no_closes_between(transactions, p + 1, k);
        lemma_next_midnight(transactions[p].posted_at);
        assert(at - 1 == closes_of(transactions.take(p)).len());
    }
}

/// The fiscal year `latest` is that of the last close: as soon as the books
/// hold a close it has a period, which ends with the day of the last one.
pub proof fn law_the_latest_year_ends_with_the_last_close(
    transactions: Seq<TransactionView>,
    k: int,
)
    requires
        0 <= k < transactions.len(),
        transactions[k].kind == TransactionKind::Close,
        forall|i: int|
            k < i < transactions.len() ==> (#[trigger] transactions[i]).kind
                != TransactionKind::Close,
    ensures
        fiscal_period_of(transactions, "latest"@) matches Ok(period) && is_year_of(
            transactions,
            k,
            period,
        ),
{
    let n = transactions.len() as int;
    assert(transactions.take(n) =~= transactions);
    lemma_close_at(transactions, k);
    lemma_no_closes_between(transactions, k + 1, n);
    lemma_year(transactions, "latest"@, k);
}

/// The fiscal year `latest` is refused only where no transaction is a close.
pub proof fn law_the_latest_year_needs_one_close(transactions: Seq<TransactionView>)
    ensures
        fiscal_period_of(transactions, "latest"@) is Err <==> forall|i: int|
            0 <= i < transactions.len() ==> (#[trigger] transactions[i]).kind
                != TransactionKind::Close,
{
    if closes_of(transactions).len() == 0 {
        assert forall|i: int| 0 <= i < transactions.len() implies (#[trigger] transactions[i]).kind
            != TransactionKind::Close by {
            if transactions[i].kind == TransactionKind::Close {
                lemma_close_at(transactions, i);
            }
        }
    } else {
        let j = lemma_position(transactions, 0);
        assert(transactions[j].kind == TransactionKind::Close);
    }
}

/// Whether a point in time is in a year: its date begins with the year,
/// before month and day.
pub open spec fn falls_into(t: int, year: Seq<char>) -> bool {
    exists|rest: Seq<char>| rest.len() == 6 && date_text(t) == #[trigger] (year + rest)
}

proof fn lemma_in_year(close: (u128, int), year: Seq<char>)
    ensures
        in_year(close, year) == falls_into(close.1, year),
{
    let date = date_text(close.1);
    if in_year(close, year) {
        let rest = date.skip(date.len() - 6);
        assert(date =~= year + rest);
    }
    if falls_into(close.1, year) {
        let rest = choose|rest: Seq<char>| rest.len() == 6 && date == #[trigger] (year + rest);
        assert(year_text(close.1) =~= year);
    }
}

proof fn lemma_closes_in(found: Seq<(u128, int)>, year: Seq<char>)
    ensures
        ({
            let at = closes_in(found, year);
            &&& forall|j: int|
                0 <= j < at.len() ==> 0 <= #[trigger] at[j] < found.len() && in_year(
                    found[at[j]],
                    year,
                )
            &&& forall|i: int|
                0 <= i < found.len() && in_year(#[trigger] found[i], year) ==> at.contains(i)
            &&& forall|j: int, k: int|
                0 <= j < k < at.len() ==> #[trigger] at[j] < #[trigger] at[k]
        }),
    decreases found.len(),
{
    if found.len() > 0 {
        let t = found.drop_last();
        let n = found.len() - 1;
        lemma_closes_in(t, year);
        let before = closes_in(t, year);
        let at = closes_in(found, year);
        assert forall|j: int| 0 <= j < at.len() implies 0 <= #[trigger] at[j] < found.len()
            && in_year(found[at[j]], year) by {
            if j < before.len() {
                assert(at[j] == before[j]);
                assert(found[at[j]] == t[at[j]]);
            }
        }
        assert forall|i: int| 0 <= i < found.len() && in_year(#[trigger] found[i], year) implies at.contains(
            i,
        ) by {
            if i < n {
                assert(t[i] == found[i]);
                let j = before.index_of(i);
                assert(at[j] == i);
            } else {
                assert(at[at.len() - 1] == i);
            }
        }
        assert forall|j: int, k: int| 0 <= j < k < at.len() implies #[trigger] at[j]
            < #[trigger] at[k] by {
            assert(at[j] == before[j]);
            if k < before.len() {
                assert(at[k] == before[k]);
            }
        }
    }
}

/// A fiscal year is that of the close which is dated in it, where there is
/// one and no other.
pub proof fn law_a_year_ends_with_its_only_close(
    transactions: Seq<TransactionView>,
    year: Seq<char>,
    k: int,
)
    requires
        year != "latest"@,
        0 <= k < transactions.len(),
        transactions[k].kind == TransactionKind::Close,
        falls_into(transactions[k].posted_at, year),
        forall|i: int|
            0 <= i < transactions.len() && i != k && (#[trigger] transactions[i]).kind
                == TransactionKind::Close ==> !falls_into(transactions[i].posted_at, year),
    ensures
        fiscal_period_of(transactions, year) matches Ok(period) && is_year_of(
            transactions,
            k,
            period,
        ),
{
    let found = closes_of(transactions);
    let at = closes_in(found, year);
    let place = closes_of(transactions.take(k)).len() as int;
    lemma_close_at(transactions, k);
    lemma_in_year(found[place], year);
    assert(at.contains(place)) by {
        lemma_closes_in(found, year);
    }
    assert forall|j: int| 0 <= j < at.len() implies #[trigger] at[j] == place by {
        lemma_closes_in(found, year);
        let i = lemma_position(transactions, at[j]);
        lemma_in_year(found[at[j]], year);
        assert(transactions[i].kind == TransactionKind::Close);
    }
    assert(at.len() == 1) by {
        lemma_closes_in(found, year);
        if at.len() > 1 {
            assert(at[0] < at[1]);
        }
    }
    assert(at[0] == place);
    lemma_year(transactions, year, k);
}

/// A fiscal year without a close that is dated in it is refused.
pub proof fn law_a_year_needs_a_close(transactions: Seq<TransactionView>, year: Seq<char>)
    requires
        year != "latest"@,
        forall|i: int|
            0 <= i < transactions.len() && (#[trigger] transactions[i]).kind
                == TransactionKind::Close ==> !falls_into(transactions[i].posted_at, year),
    ensures
        fiscal_period_of(transactions, year) is Err,
{
    let found = closes_of(transactions);
    let at = closes_in(found, year);
    lemma_closes_in(found, year);
    if at.len() > 0 {
        let i = lemma_position(transactions, at[0]);
        lemma_in_year(found[at[0]], year);
        assert(transactions[i].kind == TransactionKind::Close);
    }
}

/// A fiscal year with two closes that are dated in it is refused.
pub proof fn law_a_year_with_two_closes_is_refused(
    transactions: Seq<TransactionView>,
    year: Seq<char>,
    i: int,
    k: int,
)
    requires
        year != "latest"@,
        0 <= i < k < transactions.len(),
        transactions[i].kind == TransactionKind::Close,
        transactions[k].kind == TransactionKind::Close,
        falls_into(transactions[i].posted_at, year),
        falls_into(transactions[k].posted_at, year),
    ensures
        fiscal_period_of(transactions, year) is Err,
{
    let found = closes_of(transactions);
    let at = closes_in(found, year);
    let a = closes_of(transactions.take(i)).len() as int;
    let b = closes_of(transactions.take(k)).len() as int;
    lemma_close_at(transactions, i);
    lemma_close_at(transactions, k);
    lemma_in_year(found[a], year);
    lemma_in_year(found[b], year);
    assert(transactions.take(k).take(i + 1) =~= transactions.take(i + 1));
    lemma_closes_prefix(transactions.take(k), i + 1);
    assert(a < b);
    assert(at.contains(a) && at.contains(b)) by {
        lemma_closes_in(found, year);
    }
    let x = at.index_of(a);
    let y = at.index_of(b);
    assert(at.len() >= 2);
}

/// The period of a report is that of the fiscal year where one is named, and
/// else that between the two dates, which both have to be given and to be
/// read: it begins with the first and ends with the second, which may not
/// come before it.
pub proof fn law_a_report_has_the_period_asked_for(
    fy: Option<Seq<char>>,
    from: Option<Seq<char>>,
    to: Option<Seq<char>>,
    transactions: Seq<TransactionView>,
)
    ensures
        fy is Some ==> report_period_of(fy, from, to, transactions) == fiscal_period_of(
            transactions,
            fy->0,
        ),
        fy is None ==> (report_period_of(fy, from, to, transactions) is Ok <==> from is Some
            && to is Some && date_read(from->0) is Ok && date_read(to->0) is Ok && date_read(
            from->0,
        )->Ok_0 <= date_read(to->0)->Ok_0),
        fy is None ==> (report_period_of(fy, from, to, transactions) matches Ok(period)
            ==> date_read(from->0) == Ok::<int, Seq<char>>(period.0) && date_read(to->0) == Ok::<
            int,
            Seq<char>,
        >(period.1)),
{
}

/// A midnight is the last moment at or before a point in time that begins a
/// day.
pub proof fn law_a_midnight_begins_the_day(t: int)
    ensures
        midnight(t) % (NANOSECONDS_PER_DAY as int) == 0,
        midnight(t) <= t < midnight(t) + NANOSECONDS_PER_DAY,
{
    let day = NANOSECONDS_PER_DAY as int;
    vstd::arithmetic::div_mod::lemma_mod_bound(t, day);
    vstd::arithmetic::div_mod::lemma_fundamental_div_mod(t, day);
    let q = t / day;
    vstd::arithmetic::div_mod::lemma_mod_multiples_basic(q, day);
    assert(q * day == day * q) by (nonlinear_arith);
}

} // verus!
