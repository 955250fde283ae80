//! What holds of the report on a period: what each of its rows and totals is
//! the sum of.

use vstd::prelude::*;

use crate::audit::{
    account_rows_units, audit_exact, audit_sums, entries_before, flow_deltas, flow_entries, flows, has_row,
    in_period, lemma_entries_before_wf, lemma_rows_are_accounts, lists, outside_flow,
    outside_flows, own_balances, own_delta, own_summable, AuditReportView,
};
use crate::book::{
    account_amounts, amounts_where, balances_of, entries_wf, is_account, is_one_of,
    lemma_accounts_units, lemma_amounts_concat, lemma_amounts_push, lemma_amounts_wf, mentions,
    transactions_wf, EntryView, TransactionView,
};
use crate::decimal::{lemma_pow10_positive, Dec, MAX_SCALE};
use crate::sums::{
    adds_up_exactly, all_wf, lemma_negated_units, lemma_total_exact, lemma_total_push,
    lemma_units_concat, total, units_total,
};
use crate::text::{lemma_precedes_irreflexive, precedes};

verus! {

/// The sum of what `f` gives for each item.
pub open spec fn sum_over<A>(s: Seq<A>, f: spec_fn(A) -> int) -> int
    decreases s.len(),
{
    if s.len() == 0 {
        0
    } else {
        sum_over(s.drop_last(), f) + f(s.last())
    }
}

/// What an entry brings one of the own accounts, in units.
pub open spec fn own_units(own: Seq<Seq<char>>) -> spec_fn(EntryView) -> int {
    |e: EntryView|
        if own.contains(e.account) {
            e.amount.units()
        } else {
            0
        }
}

/// What an entry brings an account, in units.
pub open spec fn account_units(account: Seq<char>) -> spec_fn(EntryView) -> int {
    |e: EntryView|
        if e.account == account {
            e.amount.units()
        } else {
            0
        }
}

/// What a transaction before a point in time brings an account, in units.
pub open spec fn units_before(boundary: int, account: Seq<char>) -> spec_fn(TransactionView) -> int {
    |tx: TransactionView|
        if tx.posted_at < boundary {
            sum_over(tx.entries, account_units(account))
        } else {
            0
        }
}

/// What an entry takes from an account (with `incoming`) or brings it
/// (without), in units.
pub open spec fn side_units(account: Seq<char>, incoming: bool) -> spec_fn(EntryView) -> int {
    |e: EntryView|
        if e.account != account {
            0
        } else if incoming && e.amount.mantissa < 0 {
            -e.amount.units()
        } else if !incoming && e.amount.mantissa > 0 {
            e.amount.units()
        } else {
            0
        }
}

/// Whether a transaction is posted in the period, with its first moment and
/// without its last, and brings the own accounts something in sum (with
/// `incoming`) or costs them something (without).
pub open spec fn moves_own(
    tx: TransactionView,
    from: int,
    to: int,
    own: Seq<Seq<char>>,
    incoming: bool,
) -> bool {
    let change = sum_over(tx.entries, own_units(own));
    from <= tx.posted_at && tx.posted_at < to && if incoming {
        change > 0
    } else {
        change < 0
    }
}

/// What a transaction of the period takes from an account in favour of the
/// own ones, or brings it from them, in units.
pub open spec fn flow_units(
    from: int,
    to: int,
    own: Seq<Seq<char>>,
    account: Seq<char>,
    incoming: bool,
) -> spec_fn(TransactionView) -> int {
    |tx: TransactionView|
        if moves_own(tx, from, to, own, incoming) {
            sum_over(tx.entries, side_units(account, incoming))
        } else {
            0
        }
}

/// What a transaction of the period brings the own accounts in sum, or costs
/// them, in units.
pub open spec fn change_units(
    from: int,
    to: int,
    own: Seq<Seq<char>>,
    incoming: bool,
) -> spec_fn(TransactionView) -> int {
    |tx: TransactionView|
        if moves_own(tx, from, to, own, incoming) {
            if incoming {
                sum_over(tx.entries, own_units(own))
            } else {
                -sum_over(tx.entries, own_units(own))
            }
        } else {
            0
        }
}

proof fn lemma_own_sum(entries: Seq<EntryView>, own: Seq<Seq<char>>)
    ensures
        units_total(amounts_where(entries, is_one_of(own))) == sum_over(entries, own_units(own)),
    decreases entries.len(),
{
    if entries.len() > 0 {
        lemma_own_sum(entries.drop_last(), own);
        lemma_total_push(
            amounts_where(entries.drop_last(), is_one_of(own)),
            entries.last().amount,
        );
    }
}

proof fn lemma_account_sum(entries: Seq<EntryView>, account: Seq<char>)
    ensures
        units_total(account_amounts(entries, account)) == sum_over(
            entries,
            account_units(account),
        ),
    decreases entries.len(),
{
    if entries.len() > 0 {
        lemma_account_sum(entries.drop_last(), account);
        lemma_total_push(
            amounts_where(entries.drop_last(), is_account(account)),
            entries.last().amount,
        );
    }
}

proof fn lemma_sign(d: Dec)
    requires
        d.wf(),
    ensures
        d.units() > 0 <==> d.mantissa > 0,
        d.units() < 0 <==> d.mantissa < 0,
{
    let p = crate::decimal::pow10((MAX_SCALE - d.scale) as nat) as int;
    lemma_pow10_positive((MAX_SCALE - d.scale) as nat);
    let m = d.mantissa;
    assert((m * p > 0 <==> m > 0) && (m * p < 0 <==> m < 0)) by (nonlinear_arith)
        requires
            p > 0,
    ;
}

proof fn lemma_flows(
    tx: TransactionView,
    from: int,
    to: int,
    own: Seq<Seq<char>>,
    incoming: bool,
)
    requires
        entries_wf(tx.entries),
        in_period(tx, from, to) ==> adds_up_exactly(amounts_where(tx.entries, is_one_of(own))),
    ensures
        flows(tx, from, to, own, incoming) == moves_own(tx, from, to, own, incoming),
        in_period(tx, from, to) ==> (own_delta(tx, own) matches Some(d) && d.wf() && d.units()
            == sum_over(tx.entries, own_units(own))),
{
    if in_period(tx, from, to) {
        let mine = amounts_where(tx.entries, is_one_of(own));
        lemma_amounts_wf(tx.entries, is_one_of(own));
        lemma_total_exact(mine);
        lemma_own_sum(tx.entries, own);
        lemma_sign(total(mine)->0);
    }
}

proof fn lemma_outside_flows(
    entries: Seq<EntryView>,
    own: Seq<Seq<char>>,
    account: Seq<char>,
    incoming: bool,
)
    requires
        entries_wf(entries),
        !own.contains(account),
    ensures
        units_total(account_amounts(outside_flows(entries, own, incoming), account)) == sum_over(
            entries,
            side_units(account, incoming),
        ),
        mentions(outside_flows(entries, own, incoming), account) <==> exists|i: int|
            0 <= i < entries.len() && (#[trigger] entries[i]).account == account && if incoming {
                entries[i].amount.mantissa < 0
            } else {
                entries[i].amount.mantissa > 0
            },
    decreases entries.len(),
{
    if entries.len() > 0 {
        let t = entries.drop_last();
        let n = entries.len() - 1;
        let e = entries[n];
        assert forall|i: int| 0 <= i < t.len() implies (#[trigger] t[i]).amount.wf() by {
            assert(t[i] == entries[i]);
        }
        lemma_outside_flows(t, own, account, incoming);
        let before = outside_flows(t, own, incoming);
        let all = outside_flows(entries, own, incoming);
        if let Some(f) = outside_flow(e, own, incoming) {
            assert(all == before.push(f));
            lemma_amounts_push(before, f, is_account(account));
            lemma_total_push(account_amounts(before, account), f.amount);
            lemma_negated_units(e.amount);
            assert(all[before.len() as int] == f);
            if mentions(before, account) {
                let i = choose|i: int| 0 <= i < before.len() && (#[trigger] before[i]).account == account;
                assert(all[i] == before[i]);
            }
            if mentions(all, account) && f.account != account {
                let i = choose|i: int| 0 <= i < all.len() && (#[trigger] all[i]).account == account;
                assert(before[i] == all[i]);
            }
        }
        if mentions(before, account) {
            let i = choose|i: int|
                0 <= i < t.len() && (#[trigger] t[i]).account == account && if incoming {
                    t[i].amount.mantissa < 0
                } else {
                    t[i].amount.mantissa > 0
                };
            assert(entries[i] == t[i]);
        }
        if exists|i: int|
            0 <= i < entries.len() && (#[trigger] entries[i]).account == account && if incoming {
                entries[i].amount.mantissa < 0
            } else {
                entries[i].amount.mantissa > 0
            } {
            let i = choose|i: int|
                0 <= i < entries.len() && (#[trigger] entries[i]).account == account
                    && if incoming {
                    entries[i].amount.mantissa < 0
                } else {
                    entries[i].amount.mantissa > 0
                };
            if i < n {
                assert(t[i] == entries[i]);
            }
        }
    }
}

/// Whether an entry of a transaction of the period takes something from an
/// account in favour of the own ones, or brings it something from them.
pub open spec fn is_touched(
    transactions: Seq<TransactionView>,
    from: int,
    to: int,
    own: Seq<Seq<char>>,
    account: Seq<char>,
    incoming: bool,
) -> bool {
    exists|k: int, i: int|
        0 <= k < transactions.len() && moves_own(transactions[k], from, to, own, incoming) && 0 <= i
            < transactions[k].entries.len() && (#[trigger] transactions[k].entries[i]).account
            == account && if incoming {
            transactions[k].entries[i].amount.mantissa < 0
        } else {
            transactions[k].entries[i].amount.mantissa > 0
        }
}

proof fn lemma_flow_entries(
    transactions: Seq<TransactionView>,
    from: int,
    to: int,
    own: Seq<Seq<char>>,
    account: Seq<char>,
    incoming: bool,
)
    requires
        transactions_wf(transactions),
        !own.contains(account),
        forall|i: int|
            0 <= i < transactions.len() && in_period(#[trigger] transactions[i], from, to)
                ==> adds_up_exactly(amounts_where(transactions[i].entries, is_one_of(own))),
    ensures
        units_total(account_amounts(flow_entries(transactions, from, to, own, incoming), account))
            == sum_over(transactions, flow_units(from, to, own, account, incoming)),
        mentions(flow_entries(transactions, from, to, own, incoming), account) <==> is_touched(
            transactions,
            from,
            to,
            own,
            account,
            incoming,
        ),
    decreases transactions.len(),
{
    if transactions.len() > 0 {
        let t = transactions.drop_last();
        let n = transactions.len() - 1;
        let tx = transactions[n];
        assert forall|i: int| 0 <= i < t.len() implies entries_wf((#[trigger] t[i]).entries) by {
            assert(t[i] == transactions[i]);
        }
        assert forall|i: int| 0 <= i < t.len() && in_period(#[trigger] t[i], from, to) implies adds_up_exactly(
            amounts_where(t[i].entries, is_one_of(own)),
        ) by {
            assert(t[i] == transactions[i]);
        }
        lemma_flow_entries(t, from, to, own, account, incoming);
        assert(entries_wf(transactions[n].entries));
        lemma_flows(tx, from, to, own, incoming);
        let before = flow_entries(t, from, to, own, incoming);
        let more = outside_flows(tx.entries, own, incoming);
        let all = flow_entries(transactions, from, to, own, incoming);
        if moves_own(tx, from, to, own, incoming) {
            lemma_outside_flows(tx.entries, own, account, incoming);
            lemma_amounts_concat(before, more, is_account(account));
            lemma_units_concat(account_amounts(before, account), account_amounts(more, account));
            if mentions(all, account) {
                let i = choose|i: int| 0 <= i < all.len() && (#[trigger] all[i]).account == account;
                if i < before.len() {
                    assert(before[i] == all[i]);
                } else {
                    assert(more[i - before.len()] == all[i]);
                    assert(mentions(more, account));
                    let j = choose|j: int|
                        0 <= j < tx.entries.len() && (#[trigger] tx.entries[j]).account == account
                            && if incoming {
                            tx.entries[j].amount.mantissa < 0
                        } else {
                            tx.entries[j].amount.mantissa > 0
                        };
                    assert(transactions[n].entries[j].account == account);
                }
            }
            if mentions(before, account) {
                let i = choose|i: int| 0 <= i < before.len() && (#[trigger] before[i]).account == account;
                assert(all[i] == before[i]);
            }
            if mentions(more, account) {
                let i = choose|i: int| 0 <= i < more.len() && (#[trigger] more[i]).account == account;
                assert(all[before.len() + i] == more[i]);
            }
        }
        if is_touched(t, from, to, own, account, incoming) {
            let (k, i) = choose|k: int, i: int|
                0 <= k < t.len() && moves_own(t[k], from, to, own, incoming) && 0 <= i
                    < t[k].entries.len() && (#[trigger] t[k].entries[i]).account == account
                    && if incoming {
                    t[k].entries[i].amount.mantissa < 0
                } else {
                    t[k].entries[i].amount.mantissa > 0
                };
            assert(transactions[k].entries[i] == t[k].entries[i]);
        }
        if is_touched(transactions, from, to, own, account, incoming) {
            let (k, i) = choose|k: int, i: int|
                0 <= k < transactions.len() && moves_own(transactions[k], from, to, own, incoming)
                    && 0 <= i < transactions[k].entries.len() && (
                #[trigger] transactions[k].entries[i]).account == account && if incoming {
                    transactions[k].entries[i].amount.mantissa < 0
                } else {
                    transactions[k].entries[i].amount.mantissa > 0
                };
            if k < n {
                assert(t[k].entries[i] == transactions[k].entries[i]);
            } else {
                assert(tx.entries[i].account == account);
            }
        }
    }
}

/// The receipts (with `incoming`) or the disbursements (without) of a report.
pub open spec fn flow_rows(report: AuditReportView, incoming: bool) -> Seq<(Seq<char>, Dec)> {
    if incoming {
        report.receipts
    } else {
        report.disbursements
    }
}

/// The balances at the end (with `ending`) or at the beginning (without) of
/// the period of a report.
pub open spec fn balance_rows(report: AuditReportView, ending: bool) -> Seq<(Seq<char>, Dec)> {
    if ending {
        report.ending_balances
    } else {
        report.beginning_balances
    }
}

/// The row of an account that is not one of the own ones is the sum of all
/// it gives (in the receipts) or gets (in the disbursements) in the period:
/// of the magnitudes of all its negative, or positive, entries in all
/// transactions of the period that bring the own accounts something in sum,
/// or cost them something. It has a row exactly if there is such an entry.
pub proof fn law_a_row_sums_every_flow_of_its_account(
    report: AuditReportView,
    transactions: Seq<TransactionView>,
    from: int,
    to: int,
    own: Seq<Seq<char>>,
    account: Seq<char>,
    incoming: bool,
)
    requires
        transactions_wf(transactions),
        audit_exact(transactions, from, to, own),
        report.reports(transactions, from, to, own),
        !own.contains(account),
        adds_up_exactly(
            account_amounts(flow_entries(transactions, from, to, own, incoming), account),
        ),
    ensures
        ({
            let rows = flow_rows(report, incoming);
            &&& (exists|k: int| 0 <= k < rows.len() && (#[trigger] rows[k]).0 == account)
                <==> is_touched(transactions, from, to, own, account, incoming)
            &&& forall|k: int|
                0 <= k < rows.len() && (#[trigger] rows[k]).0 == account ==> rows[k].1.units()
                    == sum_over(transactions, flow_units(from, to, own, account, incoming))
        }),
{
    let rows = flow_rows(report, incoming);
    let entries = flow_entries(transactions, from, to, own, incoming);
    let map = balances_of(entries);
    lemma_flow_entries(transactions, from, to, own, account, incoming);
    lemma_flow_entries_wf(transactions, from, to, own, incoming);
    lemma_amounts_wf(entries, is_account(account));
    lemma_total_exact(account_amounts(entries, account));
    assert(lists(rows, map));
    if mentions(entries, account) {
        assert(map.dom().contains(account));
        assert(has_row(rows, account));
    }
    assert forall|k: int| 0 <= k < rows.len() && (#[trigger] rows[k]).0 == account implies mentions(
        entries,
        account,
    ) && rows[k].1.units() == sum_over(
        transactions,
        flow_units(from, to, own, account, incoming),
    ) by {
        assert(map.dom().contains(rows[k].0) && rows[k].1 == map[rows[k].0]);
    }
}

proof fn lemma_flow_entries_wf(
    transactions: Seq<TransactionView>,
    from: int,
    to: int,
    own: Seq<Seq<char>>,
    incoming: bool,
)
    requires
        transactions_wf(transactions),
    ensures
        entries_wf(flow_entries(transactions, from, to, own, incoming)),
        forall|i: int|
            0 <= i < flow_entries(transactions, from, to, own, incoming).len() ==> !own.contains(
                (#[trigger] flow_entries(transactions, from, to, own, incoming)[i]).account,
            ),
    decreases transactions.len(),
{
    if transactions.len() > 0 {
        let t = transactions.drop_last();
        let n = transactions.len() - 1;
        assert forall|i: int| 0 <= i < t.len() implies entries_wf((#[trigger] t[i]).entries) by {
            assert(t[i] == transactions[i]);
        }
        lemma_flow_entries_wf(t, from, to, own, incoming);
        assert(entries_wf(transactions[n].entries));
        let before = flow_entries(t, from, to, own, incoming);
        let more = outside_flows(transactions[n].entries, own, incoming);
        lemma_outside_flows_wf(transactions[n].entries, own, incoming);
        let both = before + more;
        assert forall|i: int| 0 <= i < both.len() implies (#[trigger] both[i]).amount.wf()
            && !own.contains(both[i].account) by {
            if i < before.len() {
                assert(both[i] == before[i]);
            } else {
                assert(both[i] == more[i - before.len()]);
            }
        }
    }
}

proof fn lemma_outside_flows_wf(entries: Seq<EntryView>, own: Seq<Seq<char>>, incoming: bool)
    requires
        entries_wf(entries),
    ensures
        forall|i: int|
            0 <= i < outside_flows(entries, own, incoming).len() ==> (#[trigger] outside_flows(
                entries,
                own,
                incoming,
            )[i]).amount.wf() && !own.contains(outside_flows(entries, own, incoming)[i].account),
    decreases entries.len(),
{
    if entries.len() > 0 {
        let t = entries.drop_last();
        assert forall|i: int| 0 <= i < t.len() implies (#[trigger] t[i]).amount.wf() by {
            assert(t[i] == entries[i]);
        }
        lemma_outside_flows_wf(t, own, incoming);
        assert(entries[entries.len() - 1].amount.wf());
        let before = outside_flows(t, own, incoming);
        let all = outside_flows(entries, own, incoming);
        assert forall|i: int| 0 <= i < all.len() implies (#[trigger] all[i]).amount.wf()
            && !own.contains(all[i].account) by {
            if i < before.len() {
                assert(all[i] == before[i]);
            }
        }
    }
}

/// The own accounts have no rows among the receipts and the disbursements.
pub proof fn law_own_accounts_give_and_take_nothing(
    report: AuditReportView,
    transactions: Seq<TransactionView>,
    from: int,
    to: int,
    own: Seq<Seq<char>>,
    k: int,
)
    requires
        transactions_wf(transactions),
        report.reports(transactions, from, to, own),
    ensures
        0 <= k < report.receipts.len() ==> !own.contains(report.receipts[k].0),
        0 <= k < report.disbursements.len() ==> !own.contains(report.disbursements[k].0),
{
    lemma_flow_entries_wf(transactions, from, to, own, true);
    lemma_flow_entries_wf(transactions, from, to, own, false);
    if 0 <= k < report.receipts.len() {
        let entries = flow_entries(transactions, from, to, own, true);
        assert(balances_of(entries).dom().contains(report.receipts[k].0));
        assert(mentions(entries, report.receipts[k].0));
    }
    if 0 <= k < report.disbursements.len() {
        let entries = flow_entries(transactions, from, to, own, false);
        assert(balances_of(entries).dom().contains(report.disbursements[k].0));
        assert(mentions(entries, report.disbursements[k].0));
    }
}

proof fn lemma_flow_deltas(
    transactions: Seq<TransactionView>,
    from: int,
    to: int,
    own: Seq<Seq<char>>,
    incoming: bool,
)
    requires
        transactions_wf(transactions),
        forall|i: int|
            0 <= i < transactions.len() && in_period(#[trigger] transactions[i], from, to)
                ==> adds_up_exactly(amounts_where(transactions[i].entries, is_one_of(own))),
    ensures
        units_total(flow_deltas(transactions, from, to, own, incoming)) == sum_over(
            transactions,
            change_units(from, to, own, incoming),
        ),
        all_wf(flow_deltas(transactions, from, to, own, incoming)),
    decreases transactions.len(),
{
    if transactions.len() > 0 {
        let t = transactions.drop_last();
        let n = transactions.len() - 1;
        let tx = transactions[n];
        assert forall|i: int| 0 <= i < t.len() implies entries_wf((#[trigger] t[i]).entries) by {
            assert(t[i] == transactions[i]);
        }
        assert forall|i: int| 0 <= i < t.len() && in_period(#[trigger] t[i], from, to) implies adds_up_exactly(
            amounts_where(t[i].entries, is_one_of(own)),
        ) by {
            assert(t[i] == transactions[i]);
        }
        lemma_flow_deltas(t, from, to, own, incoming);
        assert(entries_wf(transactions[n].entries));
        lemma_flows(tx, from, to, own, incoming);
        if moves_own(tx, from, to, own, incoming) {
            let delta = own_delta(tx, own)->0;
            lemma_negated_units(delta);
            lemma_total_push(flow_deltas(t, from, to, own, incoming), delta);
            lemma_total_push(flow_deltas(t, from, to, own, incoming), delta.negated());
        }
    }
}

/// The total receipts are what all transactions of the period that bring the
/// own accounts something bring them, each in sum, and the total
/// disbursements what all that cost them something cost them.
pub proof fn law_totals_sum_every_change(
    report: AuditReportView,
    transactions: Seq<TransactionView>,
    from: int,
    to: int,
    own: Seq<Seq<char>>,
)
    requires
        transactions_wf(transactions),
        audit_exact(transactions, from, to, own),
        report.reports(transactions, from, to, own),
    ensures
        report.from == from,
        report.to == to,
        report.total_receipts.units() == sum_over(
            transactions,
            change_units(from, to, own, true),
        ),
        report.total_disbursements.units() == sum_over(
            transactions,
            change_units(from, to, own, false),
        ),
{
    lemma_flow_deltas(transactions, from, to, own, true);
    lemma_flow_deltas(transactions, from, to, own, false);
    lemma_total_exact(flow_deltas(transactions, from, to, own, true));
    lemma_total_exact(flow_deltas(transactions, from, to, own, false));
}

proof fn lemma_entries_before(transactions: Seq<TransactionView>, boundary: int, account: Seq<char>)
    ensures
        units_total(account_amounts(entries_before(transactions, boundary), account)) == sum_over(
            transactions,
            units_before(boundary, account),
        ),
    decreases transactions.len(),
{
    if transactions.len() > 0 {
        let t = transactions.drop_last();
        let tx = transactions.last();
        lemma_entries_before(t, boundary, account);
        lemma_amounts_concat(entries_before(t, boundary), tx.entries, is_account(account));
        lemma_units_concat(
            account_amounts(entries_before(t, boundary), account),
            account_amounts(tx.entries, account),
        );
        lemma_account_sum(tx.entries, account);
    }
}

/// The report lists the balance of each own account, and of no other, once
/// at the beginning and once at the end: the sum of all its entries that were
/// posted before that moment. The rows are in the order of their accounts.
pub proof fn law_a_balance_sums_all_entries_before(
    report: AuditReportView,
    transactions: Seq<TransactionView>,
    from: int,
    to: int,
    own: Seq<Seq<char>>,
    ending: bool,
)
    requires
        transactions_wf(transactions),
        audit_exact(transactions, from, to, own),
        report.reports(transactions, from, to, own),
    ensures
        ({
            let rows = balance_rows(report, ending);
            let boundary = if ending {
                to
            } else {
                from
            };
            &&& forall|a: Seq<char>| #[trigger]
                own.contains(a) ==> exists|k: int| 0 <= k < rows.len() && (#[trigger] rows[k]).0 == a
            &&& forall|k: int|
                0 <= k < rows.len() ==> own.contains((#[trigger] rows[k]).0) && rows[k].1.units()
                    == sum_over(transactions, units_before(boundary, rows[k].0))
            &&& forall|i: int, k: int|
                0 <= i < k < rows.len() ==> precedes(#[trigger] rows[i].0, #[trigger] rows[k].0)
        }),
{
    let rows = balance_rows(report, ending);
    let boundary = if ending {
        to
    } else {
        from
    };
    let map = own_balances(transactions, boundary, own);
    assert(lists(rows, map));
    lemma_entries_before_wf(transactions, boundary);
    assert forall|a: Seq<char>| #[trigger] own.contains(a) implies exists|k: int|
        0 <= k < rows.len() && (#[trigger] rows[k]).0 == a by {
        assert(map.dom().contains(a));
        assert(has_row(rows, a));
    }
    assert forall|k: int| 0 <= k < rows.len() implies own.contains((#[trigger] rows[k]).0)
        && rows[k].1.units() == sum_over(transactions, units_before(boundary, rows[k].0)) by {
        let a = rows[k].0;
        assert(map.dom().contains(rows[k].0));
        assert(own.contains(a));
        lemma_entries_before(transactions, boundary, a);
        lemma_amounts_wf(entries_before(transactions, boundary), is_account(a));
        lemma_total_exact(account_amounts(entries_before(transactions, boundary), a));
    }
}

/// What an entry brings any account, in units.
pub open spec fn entry_units() -> spec_fn(EntryView) -> int {
    |e: EntryView| e.amount.units()
}

/// Whether a transaction balances, and all it does outside the own accounts
/// is to give them something (with `incoming`) or to take something from
/// them (without).
pub open spec fn is_plain(tx: TransactionView, own: Seq<Seq<char>>, incoming: bool) -> bool {
    &&& sum_over(tx.entries, entry_units()) == 0
    &&& forall|i: int|
        0 <= i < tx.entries.len() && !own.contains((#[trigger] tx.entries[i]).account) ==> if incoming {
            tx.entries[i].amount.mantissa <= 0
        } else {
            tx.entries[i].amount.mantissa >= 0
        }
}

proof fn lemma_all_outside(entries: Seq<EntryView>, own: Seq<Seq<char>>, incoming: bool)
    requires
        entries_wf(entries),
        forall|i: int|
            0 <= i < entries.len() && !own.contains((#[trigger] entries[i]).account) ==> if incoming {
                entries[i].amount.mantissa <= 0
            } else {
                entries[i].amount.mantissa >= 0
            },
    ensures
        ({
            let outside = units_total(crate::book::amounts(outside_flows(entries, own, incoming)));
            sum_over(entries, entry_units()) == sum_over(entries, own_units(own)) + if incoming {
                -outside
            } else {
                outside
            }
        }),
    decreases entries.len(),
{
    if entries.len() > 0 {
        let t = entries.drop_last();
        let n = entries.len() - 1;
        let e = entries[n];
        assert forall|i: int| 0 <= i < t.len() implies (#[trigger] t[i]).amount.wf() by {
            assert(t[i] == entries[i]);
        }
        assert forall|i: int| 0 <= i < t.len() && !own.contains((#[trigger] t[i]).account) implies if incoming {
            t[i].amount.mantissa <= 0
        } else {
            t[i].amount.mantissa >= 0
        } by {
            assert(t[i] == entries[i]);
        }
        lemma_all_outside(t, own, incoming);
        lemma_sign(e.amount);
        lemma_negated_units(e.amount);
        let before = outside_flows(t, own, incoming);
        if let Some(f) = outside_flow(e, own, incoming) {
            assert(crate::book::amounts(before.push(f)) =~= crate::book::amounts(before).push(
                f.amount,
            ));
            lemma_total_push(crate::book::amounts(before), f.amount);
        }
    } else {
        assert(crate::book::amounts(outside_flows(entries, own, incoming)) =~= Seq::empty());
    }
}

proof fn lemma_all_flows(
    transactions: Seq<TransactionView>,
    from: int,
    to: int,
    own: Seq<Seq<char>>,
    incoming: bool,
)
    requires
        transactions_wf(transactions),
        forall|i: int|
            0 <= i < transactions.len() && in_period(#[trigger] transactions[i], from, to)
                ==> adds_up_exactly(amounts_where(transactions[i].entries, is_one_of(own))),
        forall|i: int|
            0 <= i < transactions.len() && moves_own(
                #[trigger] transactions[i],
                from,
                to,
                own,
                incoming,
            ) ==> is_plain(transactions[i], own, incoming),
    ensures
        units_total(
            crate::book::amounts(flow_entries(transactions, from, to, own, incoming)),
        ) == sum_over(transactions, change_units(from, to, own, incoming)),
    decreases transactions.len(),
{
    if transactions.len() > 0 {
        let t = transactions.drop_last();
        let n = transactions.len() - 1;
        let tx = transactions[n];
        assert forall|i: int| 0 <= i < t.len() implies entries_wf((#[trigger] t[i]).entries) by {
            assert(t[i] == transactions[i]);
        }
        assert forall|i: int| 0 <= i < t.len() && in_period(#[trigger] t[i], from, to) implies adds_up_exactly(
            amounts_where(t[i].entries, is_one_of(own)),
        ) by {
            assert(t[i] == transactions[i]);
        }
        assert forall|i: int|
            0 <= i < t.len() && moves_own(#[trigger] t[i], from, to, own, incoming) implies is_plain(
            t[i],
            own,
            incoming,
        ) by {
            assert(t[i] == transactions[i]);
        }
        lemma_all_flows(t, from, to, own, incoming);
        assert(entries_wf(transactions[n].entries));
        lemma_flows(tx, from, to, own, incoming);
        if moves_own(tx, from, to, own, incoming) {
            assert(is_plain(transactions[n], own, incoming));
            lemma_all_outside(tx.entries, own, incoming);
            let before = flow_entries(t, from, to, own, incoming);
            let more = outside_flows(tx.entries, own, incoming);
            assert(crate::book::amounts(before + more) =~= crate::book::amounts(before)
                + crate::book::amounts(more));
            lemma_units_concat(crate::book::amounts(before), crate::book::amounts(more));
        }
    } else {
        assert(crate::book::amounts(
            flow_entries(transactions, from, to, own, incoming),
        ) =~= Seq::empty());
    }
}

/// Where every transaction of the period that brings the own accounts
/// something, or costs them something, balances and does nothing else, the
/// rows sum to the total.
pub proof fn law_rows_sum_to_their_total(
    report: AuditReportView,
    transactions: Seq<TransactionView>,
    from: int,
    to: int,
    own: Seq<Seq<char>>,
    incoming: bool,
)
    requires
        transactions_wf(transactions),
        audit_exact(transactions, from, to, own),
        report.reports(transactions, from, to, own),
        forall|a: Seq<char>|
            adds_up_exactly(
                #[trigger] account_amounts(
                    flow_entries(transactions, from, to, own, incoming),
                    a,
                ),
            ),
        forall|i: int|
            0 <= i < transactions.len() && moves_own(
                #[trigger] transactions[i],
                from,
                to,
                own,
                incoming,
            ) ==> is_plain(transactions[i], own, incoming),
    ensures
        incoming ==> account_rows_units(report.receipts) == report.total_receipts.units(),
        !incoming ==> account_rows_units(report.disbursements)
            == report.total_disbursements.units(),
{
    let rows = flow_rows(report, incoming);
    let entries = flow_entries(transactions, from, to, own, incoming);
    let map = balances_of(entries);
    let keys = Seq::new(rows.len(), |i: int| rows[i].0);
    assert(lists(rows, map));
    law_totals_sum_every_change(report, transactions, from, to, own);
    lemma_all_flows(transactions, from, to, own, incoming);
    lemma_flow_entries_wf(transactions, from, to, own, incoming);
    assert forall|i: int| 0 <= i < rows.len() implies adds_up_exactly(
        account_amounts(entries, #[trigger] keys[i]),
    ) && total(account_amounts(entries, keys[i])) == Some(rows[i].1) by {
        assert(map.dom().contains(rows[i].0));
        lemma_amounts_wf(entries, is_account(keys[i]));
        lemma_total_exact(account_amounts(entries, keys[i]));
    }
    lemma_rows_are_accounts(rows, entries, keys);
    assert forall|i: int, j: int| 0 <= i < keys.len() && 0 <= j < keys.len() && i != j implies keys[i]
        != keys[j] by {
        if i < j {
            assert(precedes(rows[i].0, rows[j].0));
        } else {
            assert(precedes(rows[j].0, rows[i].0));
        }
        lemma_precedes_irreflexive(keys[i]);
    }
    lemma_accounts_units(entries, keys);
    let p = is_one_of(keys);
    assert forall|i: int| 0 <= i < entries.len() implies p(#[trigger] entries[i]) by {
        let a = entries[i].account;
        assert(mentions(entries, a));
        assert(map.dom().contains(a));
        assert(has_row(rows, a));
        let k = choose|k: int| 0 <= k < rows.len() && (#[trigger] rows[k]).0 == a;
        assert(keys[k] == a);
    }
    crate::book::lemma_amounts_all(entries, p);
}

/// A report is made wherever no sum needs rounding.
pub proof fn law_an_exact_report_is_made(
    transactions: Seq<TransactionView>,
    from: int,
    to: int,
    own: Seq<Seq<char>>,
)
    requires
        transactions_wf(transactions),
        audit_exact(transactions, from, to, own),
        forall|a: Seq<char>|
            adds_up_exactly(
                #[trigger] account_amounts(flow_entries(transactions, from, to, own, true), a),
            ),
        forall|a: Seq<char>|
            adds_up_exactly(
                #[trigger] account_amounts(flow_entries(transactions, from, to, own, false), a),
            ),
    ensures
        audit_sums(transactions, from, to, own),
{
    lemma_entries_before_wf(transactions, from);
    lemma_entries_before_wf(transactions, to);
    lemma_flow_deltas(transactions, from, to, own, true);
    lemma_flow_deltas(transactions, from, to, own, false);
    lemma_total_exact(flow_deltas(transactions, from, to, own, true));
    lemma_total_exact(flow_deltas(transactions, from, to, own, false));
    lemma_flow_entries_wf(transactions, from, to, own, true);
    lemma_flow_entries_wf(transactions, from, to, own, false);
    assert forall|a: Seq<char>|
        total(#[trigger] account_amounts(flow_entries(transactions, from, to, own, true), a)) is Some by {
        lemma_amounts_wf(flow_entries(transactions, from, to, own, true), is_account(a));
        lemma_total_exact(account_amounts(flow_entries(transactions, from, to, own, true), a));
    }
    assert forall|a: Seq<char>|
        total(#[trigger] account_amounts(flow_entries(transactions, from, to, own, false), a)) is Some by {
        lemma_amounts_wf(flow_entries(transactions, from, to, own, false), is_account(a));
        lemma_total_exact(account_amounts(flow_entries(transactions, from, to, own, false), a));
    }
    assert forall|i: int|
        0 <= i < transactions.len() && in_period(#[trigger] transactions[i], from, to) implies own_delta(
        transactions[i],
        own,
    ) is Some by {
        assert(entries_wf(transactions[i].entries));
        lemma_flows(transactions[i], from, to, own, true);
    }
    lemma_own_summable(transactions, from, own);
    lemma_own_summable(transactions, to, own);
}

proof fn lemma_own_summable(transactions: Seq<TransactionView>, boundary: int, own: Seq<Seq<char>>)
    requires
        entries_wf(entries_before(transactions, boundary)),
        forall|a: Seq<char>| #[trigger]
            own.contains(a) ==> adds_up_exactly(
                account_amounts(entries_before(transactions, boundary), a),
            ),
    ensures
        own_summable(transactions, boundary, own),
{
    assert forall|a: Seq<char>| #[trigger] own.contains(a) implies total(
        account_amounts(entries_before(transactions, boundary), a),
    ) is Some by {
        lemma_amounts_wf(entries_before(transactions, boundary), is_account(a));
        lemma_total_exact(account_amounts(entries_before(transactions, boundary), a));
    }
}

/// What `f` gives for each item, one after the other.
pub open spec fn all_over<A, B>(s: Seq<A>, f: spec_fn(A) -> Seq<B>) -> Seq<B>
    decreases s.len(),
{
    if s.len() == 0 {
        Seq::empty()
    } else {
        all_over(s.drop_last(), f) + f(s.last())
    }
}

/// Picks the entries of an account that take something from it (with
/// `incoming`) or bring it something (without).
pub open spec fn is_side_of(account: Seq<char>, incoming: bool) -> spec_fn(EntryView) -> bool {
    |e: EntryView|
        e.account == account && if incoming {
            e.amount.mantissa < 0
        } else {
            e.amount.mantissa > 0
        }
}

/// The amount of an entry as a magnitude: that of a negative one with the
/// opposite sign.
pub open spec fn magnitude_of() -> spec_fn(EntryView) -> Dec {
    |e: EntryView|
        if e.amount.mantissa < 0 {
            Dec { mantissa: -e.amount.mantissa, scale: e.amount.scale }
        } else {
            e.amount
        }
}

/// The amount of an entry.
pub open spec fn amount_of() -> spec_fn(EntryView) -> Dec {
    |e: EntryView| e.amount
}

/// What a transaction of the period brings the own accounts in sum, if its
/// entries of them add up.
pub open spec fn own_change(tx: TransactionView, own: Seq<Seq<char>>) -> Option<Dec> {
    total(tx.entries.filter(is_one_of(own)).map_values(amount_of()))
}

/// Whether a transaction is posted in the period and changes the own accounts
/// in sum, to the better (with `incoming`) or to the worse (without).
pub open spec fn changes_own(
    tx: TransactionView,
    from: int,
    to: int,
    own: Seq<Seq<char>>,
    incoming: bool,
) -> bool {
    from <= tx.posted_at && tx.posted_at < to && own_change(tx, own) is Some && if incoming {
        own_change(tx, own)->0.mantissa > 0
    } else {
        own_change(tx, own)->0.mantissa < 0
    }
}

/// The magnitudes of all that a transaction of the period takes from an
/// account in favour of the own ones, or brings it from them.
pub open spec fn flow_amounts(
    from: int,
    to: int,
    own: Seq<Seq<char>>,
    account: Seq<char>,
    incoming: bool,
) -> spec_fn(TransactionView) -> Seq<Dec> {
    |tx: TransactionView|
        if changes_own(tx, from, to, own, incoming) {
            tx.entries.filter(is_side_of(account, incoming)).map_values(magnitude_of())
        } else {
            Seq::empty()
        }
}

/// What a transaction of the period brings the own accounts in sum, or costs
/// them, as a magnitude.
pub open spec fn change_amounts(
    from: int,
    to: int,
    own: Seq<Seq<char>>,
    incoming: bool,
) -> spec_fn(TransactionView) -> Seq<Dec> {
    |tx: TransactionView|
        if changes_own(tx, from, to, own, incoming) {
            let change = own_change(tx, own)->0;
            seq![
                if incoming {
                    change
                } else {
                    Dec { mantissa: -change.mantissa, scale: change.scale }
                },
            ]
        } else {
            Seq::empty()
        }
}

/// The amounts of an account in a transaction before a point in time.
pub open spec fn amounts_before(boundary: int, account: Seq<char>) -> spec_fn(
    TransactionView,
) -> Seq<Dec> {
    |tx: TransactionView|
        if tx.posted_at < boundary {
            tx.entries.filter(is_account(account)).map_values(amount_of())
        } else {
            Seq::empty()
        }
}

proof fn lemma_picked(entries: Seq<EntryView>, p: spec_fn(EntryView) -> bool)
    ensures
        amounts_where(entries, p) == entries.filter(p).map_values(amount_of()),
    decreases entries.len(),
{
    reveal(Seq::filter);
    if entries.len() > 0 {
        lemma_picked(entries.drop_last(), p);
    }
    assert(amounts_where(entries, p) =~= entries.filter(p).map_values(amount_of()));
}

proof fn lemma_side_amounts(
    entries: Seq<EntryView>,
    own: Seq<Seq<char>>,
    account: Seq<char>,
    incoming: bool,
)
    requires
        !own.contains(account),
    ensures
        account_amounts(outside_flows(entries, own, incoming), account) == entries.filter(
            is_side_of(account, incoming),
        ).map_values(magnitude_of()),
    decreases entries.len(),
{
    reveal(Seq::filter);
    let p = is_side_of(account, incoming);
    if entries.len() > 0 {
        let t = entries.drop_last();
        let e = entries.last();
        lemma_side_amounts(t, own, account, incoming);
        let before = outside_flows(t, own, incoming);
        if let Some(f) = outside_flow(e, own, incoming) {
            lemma_amounts_push(before, f, is_account(account));
        }
        assert(account_amounts(outside_flows(entries, own, incoming), account)
            =~= entries.filter(p).map_values(magnitude_of()));
    } else {
        assert(account_amounts(outside_flows(entries, own, incoming), account)
            =~= entries.filter(p).map_values(magnitude_of()));
    }
}

proof fn lemma_flow_amounts(
    transactions: Seq<TransactionView>,
    from: int,
    to: int,
    own: Seq<Seq<char>>,
    account: Seq<char>,
    incoming: bool,
)
    requires
        !own.contains(account),
    ensures
        account_amounts(flow_entries(transactions, from, to, own, incoming), account) == all_over(
            transactions,
            flow_amounts(from, to, own, account, incoming),
        ),
    decreases transactions.len(),
{
    if transactions.len() > 0 {
        let t = transactions.drop_last();
        let tx = transactions.last();
        lemma_flow_amounts(t, from, to, own, account, incoming);
        lemma_picked(tx.entries, is_one_of(own));
        lemma_side_amounts(tx.entries, own, account, incoming);
        let before = flow_entries(t, from, to, own, incoming);
        let more = outside_flows(tx.entries, own, incoming);
        lemma_amounts_concat(before, more, is_account(account));
        assert(account_amounts(before, account) + Seq::<Dec>::empty() =~= account_amounts(
            before,
            account,
        ));
    }
}

/// The row of an account that is not one of the own ones is the total, in
/// the order of the transactions, of all that it gives or gets in the period:
/// every entry of it with the right sign counts, in every transaction that
/// changes the own accounts to the better, or to the worse. This holds where
/// sums are rounded too.
pub proof fn law_a_row_totals_every_flow_of_its_account(
    report: AuditReportView,
    transactions: Seq<TransactionView>,
    from: int,
    to: int,
    own: Seq<Seq<char>>,
    incoming: bool,
    k: int,
)
    requires
        transactions_wf(transactions),
        report.reports(transactions, from, to, own),
        audit_sums(transactions, from, to, own),
        0 <= k < flow_rows(report, incoming).len(),
    ensures
        total(
            all_over(
                transactions,
                flow_amounts(from, to, own, flow_rows(report, incoming)[k].0, incoming),
            ),
        ) == Some(flow_rows(report, incoming)[k].1),
{
    let rows = flow_rows(report, incoming);
    let entries = flow_entries(transactions, from, to, own, incoming);
    let account = rows[k].0;
    law_own_accounts_give_and_take_nothing(report, transactions, from, to, own, k);
    lemma_flow_amounts(transactions, from, to, own, account, incoming);
    assert(lists(rows, balances_of(entries)));
    assert(balances_of(entries).dom().contains(rows[k].0));
    assert(total(account_amounts(entries, account)) is Some);
}

proof fn lemma_change_amounts(
    transactions: Seq<TransactionView>,
    from: int,
    to: int,
    own: Seq<Seq<char>>,
    incoming: bool,
)
    ensures
        flow_deltas(transactions, from, to, own, incoming) == all_over(
            transactions,
            change_amounts(from, to, own, incoming),
        ),
    decreases transactions.len(),
{
    if transactions.len() > 0 {
        let t = transactions.drop_last();
        let tx = transactions.last();
        lemma_change_amounts(t, from, to, own, incoming);
        lemma_picked(tx.entries, is_one_of(own));
        assert(flow_deltas(transactions, from, to, own, incoming) =~= all_over(
            transactions,
            change_amounts(from, to, own, incoming),
        ));
    }
}

proof fn lemma_amounts_before(transactions: Seq<TransactionView>, boundary: int, account: Seq<char>)
    ensures
        account_amounts(entries_before(transactions, boundary), account) == all_over(
            transactions,
            amounts_before(boundary, account),
        ),
    decreases transactions.len(),
{
    if transactions.len() > 0 {
        let t = transactions.drop_last();
        let tx = transactions.last();
        lemma_amounts_before(t, boundary, account);
        lemma_picked(tx.entries, is_account(account));
        let before = entries_before(t, boundary);
        lemma_amounts_concat(before, tx.entries, is_account(account));
        assert(account_amounts(before, account) + Seq::<Dec>::empty() =~= account_amounts(
            before,
            account,
        ));
    }
}

/// The totals of the report, and its balances, are the totals of all that
/// they count, in the order of the transactions, where sums are rounded too.
pub proof fn law_totals_and_balances_count_everything(
    report: AuditReportView,
    transactions: Seq<TransactionView>,
    from: int,
    to: int,
    own: Seq<Seq<char>>,
    ending: bool,
    k: int,
)
    requires
        report.reports(transactions, from, to, own),
        audit_sums(transactions, from, to, own),
        0 <= k < balance_rows(report, ending).len(),
    ensures
        total(all_over(transactions, change_amounts(from, to, own, true))) == Some(
            report.total_receipts,
        ),
        total(all_over(transactions, change_amounts(from, to, own, false))) == Some(
            report.total_disbursements,
        ),
        total(
            all_over(
                transactions,
                amounts_before(
                    if ending {
                        to
                    } else {
                        from
                    },
                    balance_rows(report, ending)[k].0,
                ),
            ),
        ) == Some(balance_rows(report, ending)[k].1),
{
    lemma_change_amounts(transactions, from, to, own, true);
    lemma_change_amounts(transactions, from, to, own, false);
    let rows = balance_rows(report, ending);
    let boundary = if ending {
        to
    } else {
        from
    };
    let map = own_balances(transactions, boundary, own);
    lemma_amounts_before(transactions, boundary, rows[k].0);
    assert(lists(rows, map));
    assert(map.dom().contains(rows[k].0));
    assert(own_summable(transactions, boundary, own));
    assert(own.contains(rows[k].0));
}

} // verus!
