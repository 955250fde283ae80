//! What holds of sums, balances and summaries: what each of them is the sum
//! of.

use vstd::arithmetic::power::pow;
use vstd::prelude::*;

use crate::audit_laws::{account_units, sum_over};
use crate::book::{
    account_amounts, all_entries, amounts, amounts_where, balances_of, entries_wf, is_account,
    lemma_amounts_concat, lemma_amounts_push, lemma_amounts_wf, mentions, summable,
    transactions_wf, EntryView, TransactionView,
};
use crate::decimal::{lemma_pow10, pow10, Dec, MAX_SCALE};
use crate::model::{imbalance, AccountClass, TransactionErrorView, TransactionKind};
use crate::summary::{
    class_addends, class_balances, class_total, expense_addends, income_addends, normal_entries,
    of_class, rows_summable, rows_wf, summary_of,
};
use crate::sums::{
    adds_up_exactly, all_negated, all_wf, lemma_total_exact, lemma_total_push, lemma_units_concat,
    lemma_units_negated, total, units_total,
};

verus! {

/// The units of an amount.
pub open spec fn dec_units() -> spec_fn(Dec) -> int {
    |d: Dec| d.units()
}

proof fn lemma_pow(k: nat)
    ensures
        pow10(k) == pow(10, k),
    decreases k,
{
    reveal(pow);
    if k > 0 {
        lemma_pow((k - 1) as nat);
    }
}

/// The units of an amount are its value: the mantissa shifted by the decimal
/// places, in units of the smallest of them.
pub proof fn law_units_are_the_value(d: Dec)
    requires
        d.wf(),
    ensures
        d.units() * pow(10, d.scale) == d.mantissa * pow(10, 28),
{
    let rest = (MAX_SCALE - d.scale) as nat;
    lemma_pow(rest);
    lemma_pow(d.scale);
    lemma_pow(28);
    lemma_pow10(rest, d.scale);
    let a = pow10(rest) as int;
    let b = pow10(d.scale) as int;
    let c = pow10(28) as int;
    let m = d.mantissa;
    assert(rest + d.scale == 28);
    assert((m * a) * b == m * c) by (nonlinear_arith)
        requires
            c == a * b,
    ;
}

proof fn lemma_units_total(s: Seq<Dec>)
    ensures
        units_total(s) == sum_over(s, dec_units()),
    decreases s.len(),
{
    if s.len() > 0 {
        lemma_units_total(s.drop_last());
    }
}

/// A total counts every amount once, as long as no sum needs rounding.
pub proof fn law_a_total_counts_every_amount(s: Seq<Dec>)
    requires
        all_wf(s),
        adds_up_exactly(s),
    ensures
        total(s) matches Some(t) && t.units() == sum_over(s, dec_units()),
{
    lemma_total_exact(s);
    lemma_units_total(s);
}

/// The amounts that are picked are those of the entries that are, all of
/// them, in their order.
pub proof fn law_picked_amounts_are_those_of_the_entries(
    entries: Seq<EntryView>,
    p: spec_fn(EntryView) -> bool,
)
    ensures
        amounts_where(entries, p) == entries.filter(p).map_values(|e: EntryView| e.amount),
    decreases entries.len(),
{
    reveal(Seq::filter);
    let f = |e: EntryView| e.amount;
    if entries.len() > 0 {
        law_picked_amounts_are_those_of_the_entries(entries.drop_last(), p);
    }
    assert(amounts_where(entries, p) =~= entries.filter(p).map_values(f));
}

proof fn lemma_account_total(entries: Seq<EntryView>, account: Seq<char>)
    ensures
        units_total(account_amounts(entries, account)) == sum_over(
            entries,
            account_units(account),
        ),
    decreases entries.len(),
{
    if entries.len() > 0 {
        lemma_account_total(entries.drop_last(), account);
        lemma_total_push(
            amounts_where(entries.drop_last(), is_account(account)),
            entries.last().amount,
        );
    }
}

/// An account has a balance exactly if an entry is of it, and the balance
/// counts every entry of the account, and no other.
pub proof fn law_a_balance_counts_every_entry(entries: Seq<EntryView>, account: Seq<char>)
    requires
        entries_wf(entries),
        adds_up_exactly(account_amounts(entries, account)),
    ensures
        balances_of(entries).dom().contains(account) <==> exists|i: int|
            0 <= i < entries.len() && (#[trigger] entries[i]).account == account,
        balances_of(entries).dom().contains(account) ==> balances_of(entries)[account].units()
            == sum_over(entries, account_units(account)),
{
    lemma_account_total(entries, account);
    lemma_amounts_wf(entries, is_account(account));
    lemma_total_exact(account_amounts(entries, account));
}

/// One entry more changes the balance of its account, by its amount, and of
/// no other.
pub proof fn law_an_entry_changes_one_balance(
    entries: Seq<EntryView>,
    e: EntryView,
    account: Seq<char>,
)
    requires
        total(account_amounts(entries, account)) is Some,
        e.account == account ==> total(account_amounts(entries, account))->0.plus(e.amount) is Some,
    ensures
        account == e.account ==> balances_of(entries.push(e)).dom().contains(account)
            && balances_of(entries.push(e))[account] == total(
            account_amounts(entries, account),
        )->0.plus(e.amount)->0,
        account != e.account ==> balances_of(entries.push(e)).dom().contains(account)
            == balances_of(entries).dom().contains(account) && (balances_of(
            entries,
        ).dom().contains(account) ==> balances_of(entries.push(e))[account] == balances_of(
            entries,
        )[account]),
{
    let more = entries.push(e);
    lemma_amounts_push(entries, e, is_account(account));
    lemma_total_push(account_amounts(entries, account), e.amount);
    if account == e.account {
        assert(more[entries.len() as int].account == account);
        assert(mentions(more, account));
    } else {
        if mentions(entries, account) {
            let i = choose|i: int| 0 <= i < entries.len() && (#[trigger] entries[i]).account == account;
            assert(more[i].account == account);
        }
        if mentions(more, account) {
            let i = choose|i: int| 0 <= i < more.len() && (#[trigger] more[i]).account == account;
            assert(entries[i].account == account);
        }
    }
}

/// The entries of a book are those of all its transactions.
pub proof fn law_a_book_has_the_entries_of_all(
    transactions: Seq<TransactionView>,
    tx: TransactionView,
)
    ensures
        all_entries(Seq::empty()).len() == 0,
        all_entries(transactions.push(tx)) == all_entries(transactions) + tx.entries,
{
    assert(transactions.push(tx).drop_last() =~= transactions);
}

/// What an entry counts.
pub open spec fn any_units() -> spec_fn(EntryView) -> int {
    |e: EntryView| e.amount.units()
}

proof fn lemma_all_total(entries: Seq<EntryView>)
    ensures
        units_total(amounts(entries)) == sum_over(entries, any_units()),
    decreases entries.len(),
{
    if entries.len() > 0 {
        let t = entries.drop_last();
        lemma_all_total(t);
        assert(amounts(entries) =~= amounts(t).push(entries.last().amount));
        lemma_total_push(amounts(t), entries.last().amount);
    } else {
        assert(amounts(entries) =~= Seq::empty());
    }
}

/// A transaction is accepted exactly if it has two entries or more and they
/// sum to zero. Otherwise it is said which of the two is wrong, with the
/// number of entries or with their sum.
pub proof fn law_a_transaction_has_to_balance(entries: Seq<EntryView>)
    requires
        entries_wf(entries),
        adds_up_exactly(amounts(entries)),
    ensures
        imbalance(entries) is None <==> entries.len() >= 2 && sum_over(entries, any_units()) == 0,
        entries.len() < 2 ==> imbalance(entries) == Some(
            TransactionErrorView::TooFewEntries { got: entries.len() as int, min: 2 },
        ),
        entries.len() >= 2 && sum_over(entries, any_units()) != 0 ==> (imbalance(entries) matches Some(
            TransactionErrorView::Unbalanced { sum },
        ) && sum.units() == sum_over(entries, any_units())),
{
    let s = amounts(entries);
    assert forall|i: int| 0 <= i < s.len() implies (#[trigger] s[i]).wf() by {
        assert(entries[i].amount.wf());
    }
    lemma_total_exact(s);
    lemma_all_total(entries);
    let d = total(s)->0;
    let p = pow10((MAX_SCALE - d.scale) as nat) as int;
    crate::decimal::lemma_pow10_positive((MAX_SCALE - d.scale) as nat);
    let m = d.mantissa;
    assert(m * p == 0 <==> m == 0) by (nonlinear_arith)
        requires
            p > 0,
    ;
}

/// What a row counts in the total of a class.
pub open spec fn class_row_units(class: AccountClass) -> spec_fn((AccountClass, Dec)) -> int {
    |row: (AccountClass, Dec)|
        if row.0 == class {
            row.1.units()
        } else {
            0
        }
}

proof fn lemma_class_balances(rows: Seq<(AccountClass, Dec)>, class: AccountClass)
    requires
        rows_wf(rows),
    ensures
        units_total(class_balances(rows, class)) == sum_over(rows, class_row_units(class)),
        all_wf(class_balances(rows, class)),
    decreases rows.len(),
{
    if rows.len() > 0 {
        let t = rows.drop_last();
        assert forall|i: int| 0 <= i < t.len() implies (#[trigger] t[i]).1.wf() by {
            assert(t[i] == rows[i]);
        }
        lemma_class_balances(t, class);
        lemma_total_push(class_balances(t, class), rows.last().1);
        assert(rows[rows.len() - 1].1.wf());
    }
}

proof fn lemma_class_total(rows: Seq<(AccountClass, Dec)>, class: AccountClass)
    requires
        rows_wf(rows),
        adds_up_exactly(class_addends(rows, class)),
    ensures
        class_total(rows, class).units() == if class is Income {
            -sum_over(rows, class_row_units(class))
        } else {
            sum_over(rows, class_row_units(class))
        },
{
    lemma_class_balances(rows, class);
    lemma_units_negated(class_balances(rows, class));
    let s = class_addends(rows, class);
    assert forall|i: int| 0 <= i < s.len() implies (#[trigger] s[i]).wf() by {
        assert(class_balances(rows, class)[i].wf());
    }
    lemma_total_exact(s);
}

/// A summary counts every balance in the total of its own class, and income
/// as a positive magnitude.
pub proof fn law_a_summary_counts_every_balance(rows: Seq<(AccountClass, Dec)>)
    requires
        rows_wf(rows),
        forall|class: AccountClass| adds_up_exactly(#[trigger] class_addends(rows, class)),
    ensures
        ({
            let s = summary_of(rows);
            &&& s.assets.units() == sum_over(rows, class_row_units(AccountClass::Asset))
            &&& s.liabilities.units() == sum_over(rows, class_row_units(AccountClass::Liability))
            &&& s.equity.units() == sum_over(rows, class_row_units(AccountClass::Equity))
            &&& s.activity.income.units() == -sum_over(rows, class_row_units(AccountClass::Income))
            &&& s.activity.expenses.units() == sum_over(
                rows,
                class_row_units(AccountClass::Expense),
            )
        }),
{
    lemma_class_total(rows, AccountClass::Asset);
    lemma_class_total(rows, AccountClass::Liability);
    lemma_class_total(rows, AccountClass::Equity);
    lemma_class_total(rows, AccountClass::Income);
    lemma_class_total(rows, AccountClass::Expense);
}

/// What an entry counts in the activity of a class.
pub open spec fn class_entry_units(
    classes: Map<Seq<char>, AccountClass>,
    class: AccountClass,
) -> spec_fn(EntryView) -> int {
    |e: EntryView|
        if classes.dom().contains(e.account) && classes[e.account] == class {
            e.amount.units()
        } else {
            0
        }
}

/// What a transaction counts in the activity of a class: nothing where it
/// closes or opens a period.
pub open spec fn activity_units(
    classes: Map<Seq<char>, AccountClass>,
    class: AccountClass,
) -> spec_fn(TransactionView) -> int {
    |tx: TransactionView|
        if tx.kind == TransactionKind::Normal {
            sum_over(tx.entries, class_entry_units(classes, class))
        } else {
            0
        }
}

proof fn lemma_class_entries(
    entries: Seq<EntryView>,
    classes: Map<Seq<char>, AccountClass>,
    class: AccountClass,
)
    ensures
        units_total(amounts_where(entries, of_class(classes, class))) == sum_over(
            entries,
            class_entry_units(classes, class),
        ),
    decreases entries.len(),
{
    if entries.len() > 0 {
        let t = entries.drop_last();
        lemma_class_entries(t, classes, class);
        lemma_total_push(amounts_where(t, of_class(classes, class)), entries.last().amount);
    }
}

proof fn lemma_normal_entries(
    transactions: Seq<TransactionView>,
    classes: Map<Seq<char>, AccountClass>,
    class: AccountClass,
)
    requires
        transactions_wf(transactions),
    ensures
        units_total(amounts_where(normal_entries(transactions), of_class(classes, class)))
            == sum_over(transactions, activity_units(classes, class)),
        entries_wf(normal_entries(transactions)),
    decreases transactions.len(),
{
    if transactions.len() > 0 {
        let t = transactions.drop_last();
        let tx = transactions[transactions.len() - 1];
        assert forall|i: int| 0 <= i < t.len() implies entries_wf((#[trigger] t[i]).entries) by {
            assert(t[i] == transactions[i]);
        }
        lemma_normal_entries(t, classes, class);
        let p = of_class(classes, class);
        let before = normal_entries(t);
        lemma_amounts_concat(before, tx.entries, p);
        lemma_units_concat(amounts_where(before, p), amounts_where(tx.entries, p));
        lemma_class_entries(tx.entries, classes, class);
        assert(entries_wf(tx.entries));
        let both = before + tx.entries;
        assert forall|i: int| 0 <= i < both.len() implies (#[trigger] both[i]).amount.wf() by {
            if i < before.len() {
                assert(both[i] == before[i]);
            } else {
                assert(both[i] == tx.entries[i - before.len()]);
            }
        }
    }
}

/// The activity of a lifetime counts every entry of an income account, as a
/// positive magnitude, and every entry of an expense account, in all
/// transactions but those that close or open a period.
pub proof fn law_a_lifetime_counts_every_normal_transaction(
    transactions: Seq<TransactionView>,
    classes: Map<Seq<char>, AccountClass>,
)
    requires
        transactions_wf(transactions),
        adds_up_exactly(income_addends(transactions, classes)),
        adds_up_exactly(expense_addends(transactions, classes)),
    ensures
        total(income_addends(transactions, classes)) matches Some(income) && income.units()
            == -sum_over(transactions, activity_units(classes, AccountClass::Income)),
        total(expense_addends(transactions, classes)) matches Some(expenses) && expenses.units()
            == sum_over(transactions, activity_units(classes, AccountClass::Expense)),
{
    lemma_normal_entries(transactions, classes, AccountClass::Income);
    lemma_normal_entries(transactions, classes, AccountClass::Expense);
    let entries = normal_entries(transactions);
    let income = amounts_where(entries, of_class(classes, AccountClass::Income));
    lemma_amounts_wf(entries, of_class(classes, AccountClass::Income));
    lemma_amounts_wf(entries, of_class(classes, AccountClass::Expense));
    lemma_units_negated(income);
    let s = all_negated(income);
    assert forall|i: int| 0 <= i < s.len() implies (#[trigger] s[i]).wf() by {
        assert(income[i].wf());
    }
    lemma_total_exact(s);
    lemma_total_exact(expense_addends(transactions, classes));
}

/// A summary is made, and a balance found, wherever no sum needs rounding.
pub proof fn law_exact_balances_are_summed(
    rows: Seq<(AccountClass, Dec)>,
    entries: Seq<EntryView>,
)
    requires
        rows_wf(rows),
        forall|class: AccountClass| adds_up_exactly(#[trigger] class_addends(rows, class)),
        entries_wf(entries),
        forall|a: Seq<char>| adds_up_exactly(#[trigger] account_amounts(entries, a)),
    ensures
        rows_summable(rows),
        summable(entries),
{
    assert forall|class: AccountClass| total(#[trigger] class_addends(rows, class)) is Some by {
        lemma_class_balances(rows, class);
        let s = class_addends(rows, class);
        assert forall|i: int| 0 <= i < s.len() implies (#[trigger] s[i]).wf() by {
            assert(class_balances(rows, class)[i].wf());
        }
        lemma_total_exact(s);
    }
    assert forall|a: Seq<char>| total(#[trigger] account_amounts(entries, a)) is Some by {
        lemma_amounts_wf(entries, is_account(a));
        lemma_total_exact(account_amounts(entries, a));
    }
}

/// The balances of a class are those of its rows, all of them, in their
/// order.
pub proof fn law_the_balances_of_a_class_are_those_of_its_rows(
    rows: Seq<(AccountClass, Dec)>,
    class: AccountClass,
)
    ensures
        class_balances(rows, class) == rows.filter(
            |row: (AccountClass, Dec)| row.0 == class,
        ).map_values(|row: (AccountClass, Dec)| row.1),
    decreases rows.len(),
{
    reveal(Seq::filter);
    let p = |row: (AccountClass, Dec)| row.0 == class;
    let f = |row: (AccountClass, Dec)| row.1;
    if rows.len() > 0 {
        law_the_balances_of_a_class_are_those_of_its_rows(rows.drop_last(), class);
    }
    assert(class_balances(rows, class) =~= rows.filter(p).map_values(f));
}

/// One transaction more brings its own entries to those of normal
/// transactions, and none where it closes or opens a period.
pub proof fn law_boundaries_bring_no_entries(
    transactions: Seq<TransactionView>,
    tx: TransactionView,
)
    ensures
        tx.kind == TransactionKind::Normal ==> normal_entries(transactions.push(tx))
            == normal_entries(transactions) + tx.entries,
        tx.kind != TransactionKind::Normal ==> normal_entries(transactions.push(tx))
            == normal_entries(transactions),
        normal_entries(Seq::empty()).len() == 0,
{
    assert(transactions.push(tx).drop_last() =~= transactions);
}

/// A total is that of all but the last amount, and the last added to it.
pub proof fn law_a_total_adds_one_after_the_other(s: Seq<Dec>, d: Dec)
    ensures
        total(Seq::empty()) == Some(Dec { mantissa: 0, scale: 0 }),
        total(s.push(d)) == (if total(s) is Some {
            total(s)->0.plus(d)
        } else {
            None
        }),
{
    lemma_total_push(s, d);
}

} // verus!
