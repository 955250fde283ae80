//! What a book adds up to: its closes, its activity and its position.

use vstd::prelude::*;

use crate::account_map::AccountMap;
use crate::book::{
    account_amounts, accounts_units, all_entries, amounts, amounts_where, entries_wf, is_account,
    is_one_of, lemma_accounts_units, lemma_amounts_all, lemma_amounts_concat, lemma_amounts_none,
    lemma_amounts_push, lemma_amounts_same, lemma_amounts_wf, EntryView, TransactionView,
};
use crate::decimal::{lemma_plus_exact, Amount, Dec};
use crate::model::{
    entry_views, misfit, transaction_views, AccountClass, Entry, Transaction, TransactionKind,
};
use crate::sums::{
    adds_up_exactly, all_negated, all_wf, lemma_negated_units, lemma_total_exact,
    lemma_total_from_concat, lemma_total_from_none, lemma_total_from_push, lemma_total_from_zero,
    lemma_total_push, lemma_units_concat, lemma_units_negated, total, total_from, units_total,
};
use crate::time::Timestamp;
use crate::transaction_id::TransactionId;

verus! {

/// A close of a fiscal year.
#[derive(Debug, Clone, Copy, PartialEq, Eq)]
pub struct CloseInfo {
    pub id: TransactionId,
    pub posted_at: Timestamp,
}

impl View for CloseInfo {
    type V = (u128, int);

    open spec fn view(&self) -> (u128, int) {
        (self.id.0, self.posted_at@)
    }
}

/// The closes among the transactions, in their order.
pub open spec fn closes_of(transactions: Seq<TransactionView>) -> Seq<(u128, int)>
    decreases transactions.len(),
{
    if transactions.len() == 0 {
        Seq::empty()
    } else {
        let before = closes_of(transactions.drop_last());
        let last = transactions.last();
        if last.kind is Close {
            before.push((last.id, last.posted_at))
        } else {
            before
        }
    }
}

/// When the last boundary among the transactions was posted.
pub open spec fn latest_boundary(transactions: Seq<TransactionView>) -> Option<int>
    decreases transactions.len(),
{
    if transactions.len() == 0 {
        None
    } else if transactions.last().kind.starts_period() {
        Some(transactions.last().posted_at)
    } else {
        latest_boundary(transactions.drop_last())
    }
}

/// Every fiscal-year close in the book, in posted order.
///
/// Reads the recorded kind rather than inferring it from entry structure,
/// so a close stays a close regardless of how it sorts against same-day
/// transactions.
pub fn closes(transactions: &[Transaction]) -> (found: Vec<CloseInfo>)
    ensures
        Seq::new(found@.len(), |i: int| found@[i]@) == closes_of(transaction_views(transactions@)),
{
    let ghost all = transaction_views(transactions@);
    let mut found: Vec<CloseInfo> = Vec::new();
    for i in 0..transactions.len()
        invariant
            all == transaction_views(transactions@),
            Seq::new(found@.len(), |i: int| found@[i]@) == closes_of(all.take(i as int)),
    {
        let ghost before = found@;
        let tx = &transactions[i];
        assert(all.take(i + 1).drop_last() =~= all.take(i as int));
        if tx.kind == TransactionKind::Close {
            found.push(CloseInfo { id: tx.id, posted_at: tx.posted_at });
        }
        assert(Seq::new(found@.len(), |i: int| found@[i]@) =~= closes_of(all.take(i + 1)));
    }
    assert(all.take(all.len() as int) =~= all);
    found
}

/// When the current fiscal period began: the most recent close or open.
///
/// Both count. A close ends the previous period and starts this one; an open
/// starts the first period and means nothing precedes it. `None` is a book
/// with neither, whose period therefore runs over all of history.
pub fn period_start(transactions: &[Transaction]) -> (start: Option<Timestamp>)
    ensures
        latest_boundary(transaction_views(transactions@)) == (match start {
            Some(t) => Some(t@),
            None => None,
        }),
{
    let ghost all = transaction_views(transactions@);
    let mut i: usize = transactions.len();
    assert(all.take(i as int) =~= all);
    while i > 0
        invariant
            i <= transactions.len(),
            all == transaction_views(transactions@),
            latest_boundary(all) == latest_boundary(all.take(i as int)),
        decreases i,
    {
        assert(all.take(i as int).drop_last() =~= all.take(i - 1));
        i = i - 1;
        if transactions[i].kind.is_boundary() {
            return Some(transactions[i].posted_at);
        }
    }
    None
}

/// Income and expense flow over some period, as positive magnitudes:
/// `income` is what came in, `expenses` is what went out.
#[derive(Debug, Clone, Copy, PartialEq, Eq)]
pub struct Activity {
    pub income: Amount,
    pub expenses: Amount,
}

/// Income and expenses, as values.
pub struct ActivityView {
    pub income: Dec,
    pub expenses: Dec,
}

impl View for Activity {
    type V = ActivityView;

    open spec fn view(&self) -> ActivityView {
        ActivityView { income: self.income@, expenses: self.expenses@ }
    }
}

impl Default for Activity {
    fn default() -> (a: Activity)
        ensures
            a@ == (ActivityView { income: Dec::zero(), expenses: Dec::zero() }),
    {
        Activity { income: Amount::zero(), expenses: Amount::zero() }
    }
}

impl Activity {
    /// What came in over what went out.
    pub fn net(&self) -> (net: Amount)
        requires
            self@.income.minus(self@.expenses) is Some,
        ensures
            self@.income.minus(self@.expenses) == Some(net@),
            self@.income.adds_exactly(self@.expenses.negated()) ==> net@.units()
                == self@.income.units() - self@.expenses.units(),
    {
        self.income.minus(&self.expenses)
    }
}

/// Book-level totals rolled up from account balances: the position half of
/// the picture, plus whatever activity the nominal accounts currently hold.
///
/// Balances arrive in the ledger's signed convention (positive means the
/// account went up) and leave in the one a reader expects: activity is
/// reported as positive magnitudes, while `liabilities` stays negative
/// while money is owed, so `assets + liabilities == net_worth()`.
///
/// Because a close zeroes the nominal accounts, `activity` covers only the
/// period since the last close, the fiscal year to date. For the whole
/// history see [`lifetime_activity`].
#[derive(Debug, Clone, Copy, PartialEq, Eq)]
pub struct Summary {
    pub assets: Amount,
    pub liabilities: Amount,
    pub equity: Amount,
    pub activity: Activity,
}

/// Book-level totals, as values.
pub struct SummaryView {
    pub assets: Dec,
    pub liabilities: Dec,
    pub equity: Dec,
    pub activity: ActivityView,
}

impl View for Summary {
    type V = SummaryView;

    open spec fn view(&self) -> SummaryView {
        SummaryView {
            assets: self.assets@,
            liabilities: self.liabilities@,
            equity: self.equity@,
            activity: self.activity@,
        }
    }
}

impl Default for Summary {
    fn default() -> (s: Summary)
        ensures
            s@ == summary_of(Seq::empty()),
    {
        proof {
            assert(all_negated(Seq::<Dec>::empty()) =~= Seq::empty());
        }
        Summary {
            assets: Amount::zero(),
            liabilities: Amount::zero(),
            equity: Amount::zero(),
            activity: Activity { income: Amount::zero(), expenses: Amount::zero() },
        }
    }
}

/// Balances with the classes of their accounts, as values.
pub open spec fn balance_rows(balances: Seq<(AccountClass, Amount)>) -> Seq<(AccountClass, Dec)> {
    Seq::new(balances.len(), |i: int| (balances[i].0, balances[i].1@))
}

/// The balances of a class.
pub open spec fn class_balances(rows: Seq<(AccountClass, Dec)>, class: AccountClass) -> Seq<Dec>
    decreases rows.len(),
{
    if rows.len() == 0 {
        Seq::empty()
    } else {
        let before = class_balances(rows.drop_last(), class);
        if rows.last().0 == class {
            before.push(rows.last().1)
        } else {
            before
        }
    }
}

/// The balances that a class adds up: those of income with the opposite sign.
pub open spec fn class_addends(rows: Seq<(AccountClass, Dec)>, class: AccountClass) -> Seq<Dec> {
    if class is Income {
        all_negated(class_balances(rows, class))
    } else {
        class_balances(rows, class)
    }
}

/// Whether the balances of every class add up.
pub open spec fn rows_summable(rows: Seq<(AccountClass, Dec)>) -> bool {
    forall|class: AccountClass| total(#[trigger] class_addends(rows, class)) is Some
}

/// What a class adds up to.
pub open spec fn class_total(rows: Seq<(AccountClass, Dec)>, class: AccountClass) -> Dec {
    total(class_addends(rows, class)).unwrap()
}

/// The totals of the balances by class.
pub open spec fn summary_of(rows: Seq<(AccountClass, Dec)>) -> SummaryView {
    SummaryView {
        assets: class_total(rows, AccountClass::Asset),
        liabilities: class_total(rows, AccountClass::Liability),
        equity: class_total(rows, AccountClass::Equity),
        activity: ActivityView {
            income: class_total(rows, AccountClass::Income),
            expenses: class_total(rows, AccountClass::Expense),
        },
    }
}

proof fn lemma_negated_push(s: Seq<Dec>, d: Dec)
    ensures
        all_negated(s.push(d)) == all_negated(s).push(d.negated()),
{
    assert(all_negated(s.push(d)) =~= all_negated(s).push(d.negated()));
}

proof fn lemma_addends_push(rows: Seq<(AccountClass, Dec)>, row: (AccountClass, Dec))
    ensures
        forall|class: AccountClass|
            class != row.0 ==> #[trigger] class_addends(rows.push(row), class) == class_addends(
                rows,
                class,
            ),
        class_addends(rows.push(row), row.0) == class_addends(rows, row.0).push(
            if row.0 is Income {
                row.1.negated()
            } else {
                row.1
            },
        ),
{
    assert(rows.push(row).drop_last() =~= rows);
    lemma_negated_push(class_balances(rows, row.0), row.1);
}

proof fn lemma_rows_summable_prefix(rows: Seq<(AccountClass, Dec)>, n: int)
    requires
        0 <= n <= rows.len(),
        rows_summable(rows),
    ensures
        rows_summable(rows.take(n)),
    decreases rows.len(),
{
    if n == rows.len() {
        assert(rows.take(n) =~= rows);
    } else {
        let t = rows.drop_last();
        assert(rows =~= t.push(rows.last()));
        lemma_addends_push(t, rows.last());
        assert forall|class: AccountClass| total(#[trigger] class_addends(t, class)) is Some by {
            assert(total(class_addends(rows, class)) is Some);
            if class == rows.last().0 {
                assert(class_addends(rows, class).drop_last() =~= class_addends(t, class));
            }
        }
        lemma_rows_summable_prefix(t, n);
        assert(t.take(n) =~= rows.take(n));
    }
}

impl Summary {
    /// The totals of the balances by class, or nothing where one of the
    /// sums on the way is out of range.
    pub fn checked_from_balances(balances: &Vec<(AccountClass, Amount)>) -> (made: Option<Summary>)
        ensures
            match made {
                Some(s) => rows_summable(balance_rows(balances@)) && s@ == summary_of(
                    balance_rows(balances@),
                ),
                None => !rows_summable(balance_rows(balances@)),
            },
    {
        let ghost rows = balance_rows(balances@);
        let mut s: Summary = Summary::default();
        proof {
            assert(rows.take(0) =~= Seq::empty());
            assert(all_negated(Seq::<Dec>::empty()) =~= Seq::empty());
            assert forall|class: AccountClass| total(#[trigger] class_addends(rows.take(0), class)) is Some by {}
        }
        for i in 0..balances.len()
            invariant
                rows == balance_rows(balances@),
                rows_summable(rows.take(i as int)),
                s@ == summary_of(rows.take(i as int)),
        {
            let (class, balance) = balances[i];
            let ghost before = rows.take(i as int);
            let ghost after = rows.take(i + 1);
            let ghost addend = if class is Income {
                balance@.negated()
            } else {
                balance@
            };
            proof {
                assert(after =~= before.push(rows[i as int]));
                lemma_addends_push(before, rows[i as int]);
                lemma_total_push(class_addends(before, class), addend);
                assert(total(class_addends(before, class)) is Some);
            }
            let sum: Option<Amount> = match class {
                AccountClass::Asset => s.assets.checked_plus(&balance),
                AccountClass::Liability => s.liabilities.checked_plus(&balance),
                AccountClass::Equity => s.equity.checked_plus(&balance),
                AccountClass::Income => s.activity.income.checked_plus(&balance.negate()),
                AccountClass::Expense => s.activity.expenses.checked_plus(&balance),
            };
            match sum {
                None => {
                    proof {
                        if rows_summable(rows) {
                            lemma_rows_summable_prefix(rows, i + 1);
                            assert(total(class_addends(after, class)) is Some);
                        }
                    }
                    return None;
                },
                Some(sum) => {
                    match class {
                        AccountClass::Asset => {
                            s.assets = sum;
                        },
                        AccountClass::Liability => {
                            s.liabilities = sum;
                        },
                        AccountClass::Equity => {
                            s.equity = sum;
                        },
                        AccountClass::Income => {
                            s.activity.income = sum;
                        },
                        AccountClass::Expense => {
                            s.activity.expenses = sum;
                        },
                    }
                    proof {
                        assert forall|c: AccountClass| total(#[trigger] class_addends(after, c)) is Some by {
                            if c != class {
                                assert(class_addends(after, c) == class_addends(before, c));
                            }
                        }
                        assert(class != AccountClass::Asset ==> class_addends(
                            after,
                            AccountClass::Asset,
                        ) == class_addends(before, AccountClass::Asset));
                        assert(class != AccountClass::Liability ==> class_addends(
                            after,
                            AccountClass::Liability,
                        ) == class_addends(before, AccountClass::Liability));
                        assert(class != AccountClass::Equity ==> class_addends(
                            after,
                            AccountClass::Equity,
                        ) == class_addends(before, AccountClass::Equity));
                        assert(class != AccountClass::Income ==> class_addends(
                            after,
                            AccountClass::Income,
                        ) == class_addends(before, AccountClass::Income));
                        assert(class != AccountClass::Expense ==> class_addends(
                            after,
                            AccountClass::Expense,
                        ) == class_addends(before, AccountClass::Expense));
                    }
                },
            }
        }
        assert(rows.take(rows.len() as int) =~= rows);
        Some(s)
    }

    /// The totals of the balances by class.
    pub fn from_balances(balances: Vec<(AccountClass, Amount)>) -> (s: Summary)
        requires
            rows_summable(balance_rows(balances@)),
        ensures
            s@ == summary_of(balance_rows(balances@)),
    {
        Summary::checked_from_balances(&balances).unwrap()
    }

    /// What is owned over what is owed.
    pub fn net_worth(&self) -> (worth: Amount)
        requires
            self@.assets.plus(self@.liabilities) is Some,
        ensures
            self@.assets.plus(self@.liabilities) == Some(worth@),
            self@.assets.adds_exactly(self@.liabilities) ==> worth@.units()
                == self@.assets.units() + self@.liabilities.units(),
    {
        self.assets.plus(&self.liabilities)
    }
}

/// Picks the entries of the accounts of a class.
pub open spec fn of_class(
    classes: Map<Seq<char>, AccountClass>,
    class: AccountClass,
) -> spec_fn(EntryView) -> bool {
    |e: EntryView| classes.dom().contains(e.account) && classes[e.account] == class
}

/// The entries of the normal transactions, one after the other.
pub open spec fn normal_entries(transactions: Seq<TransactionView>) -> Seq<EntryView>
    decreases transactions.len(),
{
    if transactions.len() == 0 {
        Seq::empty()
    } else {
        let before = normal_entries(transactions.drop_last());
        if transactions.last().kind is Normal {
            before + transactions.last().entries
        } else {
            before
        }
    }
}

/// The amounts that make up all income.
pub open spec fn income_addends(
    transactions: Seq<TransactionView>,
    classes: Map<Seq<char>, AccountClass>,
) -> Seq<Dec> {
    all_negated(amounts_where(normal_entries(transactions), of_class(classes, AccountClass::Income)))
}

/// The amounts that make up all expenses.
pub open spec fn expense_addends(
    transactions: Seq<TransactionView>,
    classes: Map<Seq<char>, AccountClass>,
) -> Seq<Dec> {
    amounts_where(normal_entries(transactions), of_class(classes, AccountClass::Expense))
}

proof fn lemma_negated_concat(a: Seq<Dec>, b: Seq<Dec>)
    ensures
        all_negated(a + b) == all_negated(a) + all_negated(b),
{
    assert(all_negated(a + b) =~= all_negated(a) + all_negated(b));
}

/// Adds to `start` the amounts of the entries of a class, or with `opposite`
/// takes them away.
fn sum_class(
    start: &Amount,
    entries: &Vec<Entry>,
    classes: &AccountMap<AccountClass>,
    class: AccountClass,
    opposite: bool,
) -> (sum: Option<Amount>)
    ensures
        total_from(
            Some(start@),
            if opposite {
                all_negated(amounts_where(entry_views(entries@), of_class(classes@, class)))
            } else {
                amounts_where(entry_views(entries@), of_class(classes@, class))
            },
        ) == (match sum {
            Some(s) => Some(s@),
            None => None,
        }),
{
    let ghost all = entry_views(entries@);
    let ghost p = of_class(classes@, class);
    let mut sum: Amount = *start;
    assert(all.take(0) =~= Seq::empty());
    assert(all_negated(Seq::<Dec>::empty()) =~= Seq::empty());
    for i in 0..entries.len()
        invariant
            all == entry_views(entries@),
            p == of_class(classes@, class),
            total_from(
                Some(start@),
                if opposite {
                    all_negated(amounts_where(all.take(i as int), p))
                } else {
                    amounts_where(all.take(i as int), p)
                },
            ) == Some(sum@),
    {
        let ghost before = all.take(i as int);
        let ghost e = all[i as int];
        let ghost picked = amounts_where(before, p);
        proof {
            assert(all.take(i + 1) =~= before.push(e));
            lemma_amounts_push(before, e, p);
            lemma_negated_push(picked, e.amount);
            lemma_total_from_push(Some(start@), picked, e.amount);
            lemma_total_from_push(Some(start@), all_negated(picked), e.amount.negated());
        }
        let picks = match classes.get(&entries[i].account) {
            Some(c) => c == class,
            None => false,
        };
        if picks {
            let addend: Amount = if opposite {
                entries[i].amount.negate()
            } else {
                entries[i].amount
            };
            match sum.checked_plus(&addend) {
                Some(next) => {
                    sum = next;
                },
                None => {
                    proof {
                        assert(all =~= all.take(i + 1) + all.skip(i + 1));
                        let front = amounts_where(all.take(i + 1), p);
                        let back = amounts_where(all.skip(i + 1), p);
                        lemma_amounts_concat(all.take(i + 1), all.skip(i + 1), p);
                        lemma_negated_concat(front, back);
                        if opposite {
                            lemma_total_from_concat(Some(start@), all_negated(front), all_negated(back));
                            lemma_total_from_none(all_negated(back));
                        } else {
                            lemma_total_from_concat(Some(start@), front, back);
                            lemma_total_from_none(back);
                        }
                    }
                    return None;
                },
            }
        }
    }
    assert(all.take(all.len() as int) =~= all);
    Some(sum)
}

/// The amounts that make up all income or all expenses.
spec fn activity_addends(
    transactions: Seq<TransactionView>,
    classes: Map<Seq<char>, AccountClass>,
    class: AccountClass,
    opposite: bool,
) -> Seq<Dec> {
    let picked = amounts_where(normal_entries(transactions), of_class(classes, class));
    if opposite {
        all_negated(picked)
    } else {
        picked
    }
}

proof fn lemma_activity_split(
    transactions: Seq<TransactionView>,
    n: int,
    classes: Map<Seq<char>, AccountClass>,
    class: AccountClass,
    opposite: bool,
)
    requires
        0 <= n < transactions.len(),
    ensures
        total(activity_addends(transactions.take(n + 1), classes, class, opposite)) == (
        if transactions[n].kind is Normal {
            total_from(
                total(activity_addends(transactions.take(n), classes, class, opposite)),
                if opposite {
                    all_negated(amounts_where(transactions[n].entries, of_class(classes, class)))
                } else {
                    amounts_where(transactions[n].entries, of_class(classes, class))
                },
            )
        } else {
            total(activity_addends(transactions.take(n), classes, class, opposite))
        }),
{
    let before = transactions.take(n);
    let after = transactions.take(n + 1);
    let p = of_class(classes, class);
    assert(after.drop_last() =~= before);
    if transactions[n].kind is Normal {
        let a = amounts_where(normal_entries(before), p);
        let b = amounts_where(transactions[n].entries, p);
        lemma_amounts_concat(normal_entries(before), transactions[n].entries, p);
        lemma_negated_concat(a, b);
        let x = activity_addends(before, classes, class, opposite);
        let y = if opposite {
            all_negated(b)
        } else {
            b
        };
        lemma_total_from_zero(x);
        lemma_total_from_zero(x + y);
        lemma_total_from_concat(Some(Dec::zero()), x, y);
    }
}

proof fn lemma_activity_prefix(
    transactions: Seq<TransactionView>,
    n: int,
    classes: Map<Seq<char>, AccountClass>,
    class: AccountClass,
    opposite: bool,
)
    requires
        0 <= n <= transactions.len(),
        total(activity_addends(transactions.take(n), classes, class, opposite)) is None,
    ensures
        total(activity_addends(transactions, classes, class, opposite)) is None,
    decreases transactions.len() - n,
{
    if n == transactions.len() {
        assert(transactions.take(n) =~= transactions);
    } else {
        lemma_activity_split(transactions, n, classes, class, opposite);
        let b = amounts_where(transactions[n].entries, of_class(classes, class));
        lemma_total_from_none(b);
        lemma_total_from_none(all_negated(b));
        lemma_activity_prefix(transactions, n + 1, classes, class, opposite);
    }
}

/// Cumulative income and expense flow across the whole history, or nothing
/// where one of the sums on the way is out of range.
pub fn checked_lifetime_activity(
    transactions: &[Transaction],
    classes: &AccountMap<AccountClass>,
) -> (activity: Option<Activity>)
    ensures
        ({
            let txs = transaction_views(transactions@);
            let income = total(income_addends(txs, classes@));
            let expenses = total(expense_addends(txs, classes@));
            match activity {
                Some(a) => income == Some(a@.income) && expenses == Some(a@.expenses),
                None => income is None || expenses is None,
            }
        }),
{
    let ghost txs = transaction_views(transactions@);
    let ghost m = classes@;
    let mut activity: Activity = Activity::default();
    assert(txs.take(0) =~= Seq::empty());
    assert(all_negated(Seq::<Dec>::empty()) =~= Seq::empty());
    for i in 0..transactions.len()
        invariant
            txs == transaction_views(transactions@),
            m == classes@,
            total(activity_addends(txs.take(i as int), m, AccountClass::Income, true)) == Some(
                activity@.income,
            ),
            total(activity_addends(txs.take(i as int), m, AccountClass::Expense, false)) == Some(
                activity@.expenses,
            ),
    {
        let tx = &transactions[i];
        proof {
            lemma_activity_split(txs, i as int, m, AccountClass::Income, true);
            lemma_activity_split(txs, i as int, m, AccountClass::Expense, false);
        }
        if tx.kind == TransactionKind::Normal {
            match sum_class(&activity.income, &tx.entries, classes, AccountClass::Income, true) {
                Some(sum) => {
                    activity.income = sum;
                },
                None => {
                    proof {
                        lemma_activity_prefix(txs, i + 1, m, AccountClass::Income, true);
                    }
                    return None;
                },
            }
            match sum_class(&activity.expenses, &tx.entries, classes, AccountClass::Expense, false) {
                Some(sum) => {
                    activity.expenses = sum;
                },
                None => {
                    proof {
                        lemma_activity_prefix(txs, i + 1, m, AccountClass::Expense, false);
                    }
                    return None;
                },
            }
        }
    }
    assert(txs.take(txs.len() as int) =~= txs);
    Some(activity)
}

/// Cumulative income and expense flow across the whole history.
///
/// Balances alone cannot answer this once a year has been closed: a close
/// posts nominal entries that exactly offset the period it closes, so the
/// accounts read zero. This walks the transactions instead, counting only
/// `Normal` ones so the periods the boundaries retired still show up.
pub fn lifetime_activity(
    transactions: &[Transaction],
    classes: &AccountMap<AccountClass>,
) -> (activity: Activity)
    requires
        total(income_addends(transaction_views(transactions@), classes@)) is Some,
        total(expense_addends(transaction_views(transactions@), classes@)) is Some,
    ensures
        total(income_addends(transaction_views(transactions@), classes@)) == Some(activity@.income),
        total(expense_addends(transaction_views(transactions@), classes@)) == Some(
            activity@.expenses,
        ),
{
    checked_lifetime_activity(transactions, classes).unwrap()
}

/// The units of all balances together.
pub open spec fn rows_units(rows: Seq<(AccountClass, Dec)>) -> int
    decreases rows.len(),
{
    if rows.len() == 0 {
        0
    } else {
        rows_units(rows.drop_last()) + rows.last().1.units()
    }
}

/// Whether the balances are amounts.
pub open spec fn rows_wf(rows: Seq<(AccountClass, Dec)>) -> bool {
    forall|i: int| 0 <= i < rows.len() ==> (#[trigger] rows[i]).1.wf()
}

/// Whether no class needs rounding to add up.
pub open spec fn rows_exact(rows: Seq<(AccountClass, Dec)>) -> bool {
    forall|class: AccountClass| adds_up_exactly(#[trigger] class_addends(rows, class))
}

/// The units of the balances of a class.
pub open spec fn class_units(rows: Seq<(AccountClass, Dec)>, class: AccountClass) -> int {
    units_total(class_balances(rows, class))
}

proof fn lemma_classes_cover(rows: Seq<(AccountClass, Dec)>)
    ensures
        rows_units(rows) == class_units(rows, AccountClass::Asset) + class_units(
            rows,
            AccountClass::Liability,
        ) + class_units(rows, AccountClass::Equity) + class_units(rows, AccountClass::Income)
            + class_units(rows, AccountClass::Expense),
    decreases rows.len(),
{
    if rows.len() > 0 {
        let t = rows.drop_last();
        let (class, d) = rows.last();
        lemma_classes_cover(t);
        lemma_total_push(class_balances(t, class), d);
    }
}

proof fn lemma_class_wf(rows: Seq<(AccountClass, Dec)>, class: AccountClass)
    requires
        rows_wf(rows),
    ensures
        all_wf(class_balances(rows, class)),
        all_wf(class_addends(rows, class)),
    decreases rows.len(),
{
    if rows.len() > 0 {
        let t = rows.drop_last();
        assert forall|i: int| 0 <= i < t.len() implies (#[trigger] t[i]).1.wf() by {
            assert(t[i] == rows[i]);
        }
        lemma_class_wf(t, class);
        assert(rows[rows.len() - 1].1.wf());
    }
    let s = class_balances(rows, class);
    assert forall|i: int| 0 <= i < all_negated(s).len() implies (#[trigger] all_negated(s)[i]).wf() by {
        assert(s[i].wf());
    }
}

proof fn lemma_class_total(rows: Seq<(AccountClass, Dec)>, class: AccountClass)
    requires
        rows_wf(rows),
        rows_exact(rows),
    ensures
        total(class_addends(rows, class)) is Some,
        class_total(rows, class).wf(),
        class_total(rows, class).units() == (if class is Income {
            -class_units(rows, class)
        } else {
            class_units(rows, class)
        }),
{
    lemma_class_wf(rows, class);
    assert(adds_up_exactly(class_addends(rows, class)));
    lemma_total_exact(class_addends(rows, class));
    lemma_units_negated(class_balances(rows, class));
}

/// The accounting identity: where the balances of a book cancel out, every
/// bit of net worth is either the net income of this period or that of an
/// earlier one, which a close has put into equity. So net worth and equity
/// together are the net of the activity, as long as no sum needs rounding.
pub proof fn law_accounting_identity(rows: Seq<(AccountClass, Dec)>)
    requires
        rows_wf(rows),
        rows_exact(rows),
        rows_units(rows) == 0,
        summary_of(rows).assets.adds_exactly(summary_of(rows).liabilities),
        summary_of(rows).activity.income.adds_exactly(summary_of(rows).activity.expenses.negated()),
    ensures
        ({
            let s = summary_of(rows);
            let worth = s.assets.plus(s.liabilities);
            let net = s.activity.income.minus(s.activity.expenses);
            &&& worth is Some
            &&& net is Some
            &&& worth.unwrap().units() + s.equity.units() == net.unwrap().units()
            &&& worth.unwrap().adds_exactly(s.equity) ==> (worth.unwrap().plus(s.equity) matches Some(
                both,
            ) && both.units() == net.unwrap().units())
        }),
{
    let s = summary_of(rows);
    lemma_class_total(rows, AccountClass::Asset);
    lemma_class_total(rows, AccountClass::Liability);
    lemma_class_total(rows, AccountClass::Equity);
    lemma_class_total(rows, AccountClass::Income);
    lemma_class_total(rows, AccountClass::Expense);
    lemma_classes_cover(rows);
    lemma_plus_exact(s.assets, s.liabilities);
    lemma_plus_exact(s.activity.income, s.activity.expenses.negated());
    lemma_negated_units(s.activity.expenses);
    let worth = s.assets.plus(s.liabilities).unwrap();
    if worth.adds_exactly(s.equity) {
        lemma_plus_exact(worth, s.equity);
    }
}

/// Whether the entries sum to zero without rounding.
pub open spec fn balances_exactly(tx: TransactionView) -> bool {
    &&& adds_up_exactly(amounts(tx.entries))
    &&& total(amounts(tx.entries)) matches Some(sum) && sum.mantissa == 0
}

/// The balance of each account with its class.
pub open spec fn book_rows(
    entries: Seq<EntryView>,
    accounts: Seq<Seq<char>>,
    classes: Map<Seq<char>, AccountClass>,
) -> Seq<(AccountClass, Dec)> {
    Seq::new(
        accounts.len(),
        |i: int| (classes[accounts[i]], total(account_amounts(entries, accounts[i])).unwrap()),
    )
}

/// Whether the balances of the accounts need no rounding.
pub open spec fn accounts_exact(entries: Seq<EntryView>, accounts: Seq<Seq<char>>) -> bool {
    forall|i: int|
        0 <= i < accounts.len() ==> adds_up_exactly(account_amounts(entries, #[trigger] accounts[i]))
}

proof fn lemma_book_rows_units(
    entries: Seq<EntryView>,
    accounts: Seq<Seq<char>>,
    classes: Map<Seq<char>, AccountClass>,
)
    requires
        entries_wf(entries),
        accounts_exact(entries, accounts),
    ensures
        rows_units(book_rows(entries, accounts, classes)) == accounts_units(entries, accounts),
    decreases accounts.len(),
{
    if accounts.len() > 0 {
        let t = accounts.drop_last();
        assert forall|i: int| 0 <= i < t.len() implies adds_up_exactly(
            account_amounts(entries, #[trigger] t[i]),
        ) by {
            assert(t[i] == accounts[i]);
        }
        lemma_book_rows_units(entries, t, classes);
        let rows = book_rows(entries, accounts, classes);
        assert(rows.drop_last() =~= book_rows(entries, t, classes));
        let last = account_amounts(entries, accounts[accounts.len() - 1]);
        lemma_amounts_wf(entries, is_account(accounts.last()));
        lemma_total_exact(last);
    }
}

/// Whether every entry is of one of the accounts.
pub open spec fn covers(accounts: Seq<Seq<char>>, entries: Seq<EntryView>) -> bool {
    forall|i: int| 0 <= i < entries.len() ==> accounts.contains((#[trigger] entries[i]).account)
}

proof fn lemma_all_entries_units(transactions: Seq<TransactionView>)
    requires
        crate::book::transactions_wf(transactions),
        forall|i: int| 0 <= i < transactions.len() ==> balances_exactly(#[trigger] transactions[i]),
    ensures
        entries_wf(all_entries(transactions)),
        units_total(amounts(all_entries(transactions))) == 0,
    decreases transactions.len(),
{
    if transactions.len() > 0 {
        let t = transactions.drop_last();
        let last = transactions.last();
        assert forall|i: int| 0 <= i < t.len() implies balances_exactly(#[trigger] t[i]) && entries_wf(
            t[i].entries,
        ) by {
            assert(t[i] == transactions[i]);
        }
        lemma_all_entries_units(t);
        assert(balances_exactly(transactions[transactions.len() - 1]));
        assert(entries_wf(transactions[transactions.len() - 1].entries));
        let a = all_entries(t);
        let b = last.entries;
        assert(amounts(a + b) =~= amounts(a) + amounts(b));
        lemma_units_concat(amounts(a), amounts(b));
        assert forall|i: int| 0 <= i < amounts(b).len() implies (#[trigger] amounts(b)[i]).wf() by {
            assert(b[i].amount.wf());
        }
        lemma_total_exact(amounts(b));
        let sum = total(amounts(b)).unwrap();
        assert(0 * crate::decimal::pow10((crate::decimal::MAX_SCALE - sum.scale) as nat) == 0)
            by (nonlinear_arith);
        assert forall|i: int| 0 <= i < (a + b).len() implies (#[trigger] (a + b)[i]).amount.wf() by {
            if i < a.len() {
                assert(a[i].amount.wf());
            } else {
                assert(b[i - a.len()].amount.wf());
            }
        }
    } else {
        assert(amounts(all_entries(transactions)) =~= Seq::empty());
    }
}

/// Nothing appears from nothing: where every transaction sums to zero, the
/// balances of all accounts cancel out, as long as no sum needs rounding.
pub proof fn law_books_balance(
    transactions: Seq<TransactionView>,
    accounts: Seq<Seq<char>>,
    classes: Map<Seq<char>, AccountClass>,
)
    requires
        crate::book::transactions_wf(transactions),
        forall|i: int| 0 <= i < transactions.len() ==> balances_exactly(#[trigger] transactions[i]),
        accounts.no_duplicates(),
        covers(accounts, all_entries(transactions)),
        accounts_exact(all_entries(transactions), accounts),
    ensures
        rows_units(book_rows(all_entries(transactions), accounts, classes)) == 0,
{
    let entries = all_entries(transactions);
    lemma_all_entries_units(transactions);
    lemma_book_rows_units(entries, accounts, classes);
    lemma_accounts_units(entries, accounts);
    assert forall|i: int| 0 <= i < entries.len() implies is_one_of(accounts)(#[trigger] entries[i]) by {
        assert(accounts.contains(entries[i].account));
    }
    lemma_amounts_all(entries, is_one_of(accounts));
}

proof fn lemma_misfit_none(
    entries: Seq<EntryView>,
    kind: TransactionKind,
    classes: Map<Seq<char>, AccountClass>,
    i: int,
)
    requires
        misfit(entries, kind, classes) is None,
        0 <= i < entries.len(),
    ensures
        classes.dom().contains(entries[i].account),
        kind.allows(classes[entries[i].account]),
    decreases entries.len(),
{
    if i > 0 {
        lemma_misfit_none(entries.drop_first(), kind, classes, i - 1);
        assert(entries.drop_first()[i - 1] == entries[i]);
    }
}

/// Net worth survives a close: a transaction that has the shape of a close
/// leaves every asset and every liability account with the amounts it had.
pub proof fn law_close_keeps_net_worth(
    before: Seq<EntryView>,
    close: TransactionView,
    classes: Map<Seq<char>, AccountClass>,
    account: Seq<char>,
)
    requires
        misfit(close.entries, TransactionKind::Close, classes) is None,
        classes.dom().contains(account),
        classes[account] is Asset || classes[account] is Liability,
    ensures
        account_amounts(before + close.entries, account) == account_amounts(before, account),
{
    let p = is_account(account);
    assert forall|i: int| 0 <= i < close.entries.len() implies !p(#[trigger] close.entries[i]) by {
        lemma_misfit_none(close.entries, TransactionKind::Close, classes, i);
    }
    lemma_amounts_none(close.entries, p);
    lemma_amounts_concat(before, close.entries, p);
    assert(account_amounts(before, account) + Seq::<Dec>::empty() =~= account_amounts(
        before,
        account,
    ));
}

/// Opening balances are no activity: a transaction that has the shape of an
/// open leaves every income and every expense account with the amounts it
/// had.
pub proof fn law_open_is_no_activity(
    before: Seq<EntryView>,
    open: TransactionView,
    classes: Map<Seq<char>, AccountClass>,
    account: Seq<char>,
)
    requires
        misfit(open.entries, TransactionKind::Open, classes) is None,
        classes.dom().contains(account),
        classes[account] is Income || classes[account] is Expense,
    ensures
        account_amounts(before + open.entries, account) == account_amounts(before, account),
{
    let p = is_account(account);
    assert forall|i: int| 0 <= i < open.entries.len() implies !p(#[trigger] open.entries[i]) by {
        lemma_misfit_none(open.entries, TransactionKind::Open, classes, i);
    }
    lemma_amounts_none(open.entries, p);
    lemma_amounts_concat(before, open.entries, p);
    assert(account_amounts(before, account) + Seq::<Dec>::empty() =~= account_amounts(
        before,
        account,
    ));
}

/// The normal transactions, in order.
pub open spec fn normal_part(transactions: Seq<TransactionView>) -> Seq<TransactionView>
    decreases transactions.len(),
{
    if transactions.len() == 0 {
        Seq::empty()
    } else {
        let before = normal_part(transactions.drop_last());
        if transactions.last().kind is Normal {
            before.push(transactions.last())
        } else {
            before
        }
    }
}

proof fn lemma_normal_part(transactions: Seq<TransactionView>)
    ensures
        normal_entries(transactions) == all_entries(normal_part(transactions)),
        normal_entries(normal_part(transactions)) == normal_entries(transactions),
    decreases transactions.len(),
{
    if transactions.len() > 0 {
        let t = transactions.drop_last();
        lemma_normal_part(t);
        if transactions.last().kind is Normal {
            assert(normal_part(t).push(transactions.last()).drop_last() =~= normal_part(t));
        }
    }
}

/// The accounts of a class, in order.
spec fn accounts_of_class(
    accounts: Seq<Seq<char>>,
    classes: Map<Seq<char>, AccountClass>,
    class: AccountClass,
) -> Seq<Seq<char>>
    decreases accounts.len(),
{
    if accounts.len() == 0 {
        Seq::empty()
    } else {
        let before = accounts_of_class(accounts.drop_last(), classes, class);
        if classes[accounts.last()] == class {
            before.push(accounts.last())
        } else {
            before
        }
    }
}

proof fn lemma_accounts_of_class(
    accounts: Seq<Seq<char>>,
    classes: Map<Seq<char>, AccountClass>,
    class: AccountClass,
)
    requires
        accounts.no_duplicates(),
    ensures
        accounts_of_class(accounts, classes, class).no_duplicates(),
        forall|a: Seq<char>|
            #[trigger] accounts_of_class(accounts, classes, class).contains(a) <==> accounts.contains(a)
                && classes[a] == class,
    decreases accounts.len(),
{
    let picked = accounts_of_class(accounts, classes, class);
    if accounts.len() > 0 {
        let t = accounts.drop_last();
        let last = accounts.last();
        assert(t.no_duplicates());
        lemma_accounts_of_class(t, classes, class);
        let before = accounts_of_class(t, classes, class);
        assert(!t.contains(last)) by {
            if t.contains(last) {
                let i = t.index_of(last);
                assert(accounts[i] == accounts[accounts.len() - 1]);
            }
        }
        assert(!before.contains(last));
        assert forall|a: Seq<char>| #[trigger] picked.contains(a) <==> accounts.contains(a)
            && classes[a] == class by {
            if accounts.contains(a) {
                let i = accounts.index_of(a);
                if i < t.len() {
                    assert(t[i] == a);
                }
            }
            if t.contains(a) {
                let i = t.index_of(a);
                assert(accounts[i] == a);
            }
            assert(accounts[accounts.len() - 1] == last);
            if before.contains(a) {
                let i = before.index_of(a);
                assert(picked[i] == a);
            }
            if classes[last] == class {
                assert(picked[before.len() as int] == last);
            }
            if picked.contains(a) {
                let i = picked.index_of(a);
                if i < before.len() {
                    assert(before[i] == a);
                }
            }
        }
        if classes[last] == class {
            assert forall|i: int, j: int| 0 <= i < picked.len() && 0 <= j < picked.len() && i != j
                implies picked[i] != picked[j] by {
                if i == before.len() {
                    assert(before.contains(before[j]));
                } else if j == before.len() {
                    assert(before.contains(before[i]));
                }
            }
        }
    }
}

proof fn lemma_class_rows_units(
    entries: Seq<EntryView>,
    accounts: Seq<Seq<char>>,
    classes: Map<Seq<char>, AccountClass>,
    class: AccountClass,
)
    requires
        entries_wf(entries),
        accounts_exact(entries, accounts),
    ensures
        class_units(book_rows(entries, accounts, classes), class) == accounts_units(
            entries,
            accounts_of_class(accounts, classes, class),
        ),
    decreases accounts.len(),
{
    if accounts.len() > 0 {
        let t = accounts.drop_last();
        assert forall|i: int| 0 <= i < t.len() implies adds_up_exactly(
            account_amounts(entries, #[trigger] t[i]),
        ) by {
            assert(t[i] == accounts[i]);
        }
        lemma_class_rows_units(entries, t, classes, class);
        let rows = book_rows(entries, accounts, classes);
        assert(rows.drop_last() =~= book_rows(entries, t, classes));
        let last = account_amounts(entries, accounts[accounts.len() - 1]);
        lemma_amounts_wf(entries, is_account(accounts.last()));
        lemma_total_exact(last);
        lemma_total_push(class_balances(rows.drop_last(), class), rows.last().1);
        let picked = accounts_of_class(t, classes, class);
        assert(picked.push(accounts.last()).drop_last() =~= picked);
    }
}

/// Boundaries are no activity: the whole history has the income and the
/// expenses that the balances of its normal transactions have, and closes and
/// opens count for nothing, as long as no sum needs rounding.
pub proof fn law_lifetime_matches_balances(
    transactions: Seq<TransactionView>,
    accounts: Seq<Seq<char>>,
    classes: Map<Seq<char>, AccountClass>,
)
    requires
        entries_wf(all_entries(normal_part(transactions))),
        accounts.no_duplicates(),
        covers(accounts, all_entries(normal_part(transactions))),
        forall|a: Seq<char>| #[trigger] accounts.contains(a) ==> classes.dom().contains(a),
        accounts_exact(all_entries(normal_part(transactions)), accounts),
        rows_exact(book_rows(all_entries(normal_part(transactions)), accounts, classes)),
        adds_up_exactly(income_addends(transactions, classes)),
        adds_up_exactly(expense_addends(transactions, classes)),
    ensures
        income_addends(transactions, classes) == income_addends(normal_part(transactions), classes),
        expense_addends(transactions, classes) == expense_addends(
            normal_part(transactions),
            classes,
        ),
        ({
            let s = summary_of(
                book_rows(all_entries(normal_part(transactions)), accounts, classes),
            );
            &&& total(income_addends(transactions, classes)) matches Some(income) && income.units()
                == s.activity.income.units()
            &&& total(expense_addends(transactions, classes)) matches Some(expenses)
                && expenses.units() == s.activity.expenses.units()
        }),
{
    lemma_normal_part(transactions);
    let entries = all_entries(normal_part(transactions));
    let rows = book_rows(entries, accounts, classes);
    lemma_lifetime_class(entries, accounts, classes, AccountClass::Income);
    lemma_lifetime_class(entries, accounts, classes, AccountClass::Expense);
    let income = amounts_where(entries, of_class(classes, AccountClass::Income));
    lemma_units_negated(income);
    lemma_amounts_wf(entries, of_class(classes, AccountClass::Income));
    lemma_amounts_wf(entries, of_class(classes, AccountClass::Expense));
    assert forall|i: int| 0 <= i < all_negated(income).len() implies (#[trigger] all_negated(income)[i]).wf() by {
        assert(income[i].wf());
    }
    lemma_total_exact(income_addends(transactions, classes));
    lemma_total_exact(expense_addends(transactions, classes));
    assert forall|i: int| 0 <= i < rows.len() implies (#[trigger] rows[i]).1.wf() by {
        lemma_amounts_wf(entries, is_account(accounts[i]));
        lemma_total_exact(account_amounts(entries, accounts[i]));
    }
    lemma_class_total(rows, AccountClass::Income);
    lemma_class_total(rows, AccountClass::Expense);
}

proof fn lemma_lifetime_class(
    entries: Seq<EntryView>,
    accounts: Seq<Seq<char>>,
    classes: Map<Seq<char>, AccountClass>,
    class: AccountClass,
)
    requires
        entries_wf(entries),
        accounts.no_duplicates(),
        covers(accounts, entries),
        forall|a: Seq<char>| #[trigger] accounts.contains(a) ==> classes.dom().contains(a),
        accounts_exact(entries, accounts),
    ensures
        units_total(amounts_where(entries, of_class(classes, class))) == class_units(
            book_rows(entries, accounts, classes),
            class,
        ),
{
    let picked = accounts_of_class(accounts, classes, class);
    lemma_accounts_of_class(accounts, classes, class);
    lemma_class_rows_units(entries, accounts, classes, class);
    lemma_accounts_units(entries, picked);
    let p = is_one_of(picked);
    let q = of_class(classes, class);
    assert forall|i: int| 0 <= i < entries.len() implies p(#[trigger] entries[i]) == q(entries[i]) by {
        assert(accounts.contains(entries[i].account));
    }
    lemma_amounts_same(entries, p, q);
}

/// Where two lists hold the same items, the last of one stands somewhere in
/// the other, and without it they still hold the same.
proof fn lemma_take_out<A>(s: Seq<A>, p: Seq<A>) -> (k: int)
    requires
        s.len() > 0,
        s.to_multiset() == p.to_multiset(),
    ensures
        0 <= k < p.len(),
        p[k] == s.last(),
        s.drop_last().to_multiset() == (p.take(k) + p.skip(k + 1)).to_multiset(),
        p == p.take(k) + seq![p[k]] + p.skip(k + 1),
        s == s.drop_last() + seq![s.last()],
{
    s.to_multiset_ensures();
    p.to_multiset_ensures();
    assert(s.contains(s.last()));
    assert(s.to_multiset().count(s.last()) > 0);
    assert(p.contains(s.last()));
    let k = p.index_of(s.last());
    assert(s.remove(s.len() - 1) =~= s.drop_last());
    assert(p.remove(k) =~= p.take(k) + p.skip(k + 1));
    assert(p =~= p.take(k) + seq![p[k]] + p.skip(k + 1));
    assert(s =~= s.drop_last() + seq![s.last()]);
    k
}

proof fn lemma_closes_concat(a: Seq<TransactionView>, b: Seq<TransactionView>)
    ensures
        closes_of(a + b) == closes_of(a) + closes_of(b),
    decreases b.len(),
{
    if b.len() == 0 {
        assert(a + b =~= a);
        assert(closes_of(a) + closes_of(b) =~= closes_of(a));
    } else {
        lemma_closes_concat(a, b.drop_last());
        assert((a + b).drop_last() =~= a + b.drop_last());
        assert(closes_of(a + b) =~= closes_of(a) + closes_of(b));
    }
}

/// A close stays a close in any order: the same transactions in another
/// order have the same closes.
pub proof fn law_closes_ignore_order(s: Seq<TransactionView>, p: Seq<TransactionView>)
    requires
        s.to_multiset() == p.to_multiset(),
    ensures
        closes_of(s).to_multiset() == closes_of(p).to_multiset(),
    decreases s.len(),
{
    s.to_multiset_ensures();
    p.to_multiset_ensures();
    if s.len() == 0 {
        assert(s =~= p);
    } else {
        let k = lemma_take_out(s, p);
        let t = s.drop_last();
        let one = seq![s.last()];
        let (a, b) = (p.take(k), p.skip(k + 1));
        law_closes_ignore_order(t, a + b);
        lemma_closes_concat(t, one);
        lemma_closes_concat(a + one, b);
        lemma_closes_concat(a, one);
        lemma_closes_concat(a, b);
        let (x, y, z) = (closes_of(a), closes_of(b), closes_of(one));
        vstd::seq_lib::lemma_multiset_commutative(closes_of(t), z);
        vstd::seq_lib::lemma_multiset_commutative(x + z, y);
        vstd::seq_lib::lemma_multiset_commutative(x, z);
        vstd::seq_lib::lemma_multiset_commutative(x, y);
        assert(closes_of(s).to_multiset() =~= closes_of(p).to_multiset());
    }
}

/// What a close moves does not make it one: transactions with the same ids,
/// dates and kinds have the same closes.
pub proof fn law_closes_go_by_kind(s: Seq<TransactionView>, p: Seq<TransactionView>)
    requires
        s.len() == p.len(),
        forall|i: int|
            0 <= i < s.len() ==> (#[trigger] s[i]).id == p[i].id && s[i].posted_at == p[i].posted_at
                && s[i].kind == p[i].kind,
    ensures
        closes_of(s) == closes_of(p),
    decreases s.len(),
{
    if s.len() > 0 {
        let (t, q) = (s.drop_last(), p.drop_last());
        assert forall|i: int| 0 <= i < t.len() implies (#[trigger] t[i]).id == q[i].id && t[i].posted_at
            == q[i].posted_at && t[i].kind == q[i].kind by {
            assert(t[i] == s[i]);
            assert(q[i] == p[i]);
        }
        law_closes_go_by_kind(t, q);
        assert(s[s.len() - 1].id == p[s.len() - 1].id);
    }
}

proof fn lemma_class_balances_concat(
    a: Seq<(AccountClass, Dec)>,
    b: Seq<(AccountClass, Dec)>,
    class: AccountClass,
)
    ensures
        class_units(a + b, class) == class_units(a, class) + class_units(b, class),
    decreases b.len(),
{
    if b.len() == 0 {
        assert(a + b =~= a);
    } else {
        let t = b.drop_last();
        lemma_class_balances_concat(a, t, class);
        assert((a + b).drop_last() =~= a + t);
        lemma_total_push(class_balances(a + t, class), b.last().1);
        lemma_total_push(class_balances(t, class), b.last().1);
    }
}

proof fn lemma_class_units_permuted(
    s: Seq<(AccountClass, Dec)>,
    p: Seq<(AccountClass, Dec)>,
    class: AccountClass,
)
    requires
        s.to_multiset() == p.to_multiset(),
    ensures
        class_units(s, class) == class_units(p, class),
    decreases s.len(),
{
    s.to_multiset_ensures();
    p.to_multiset_ensures();
    if s.len() == 0 {
        assert(s =~= p);
    } else {
        let k = lemma_take_out(s, p);
        let t = s.drop_last();
        let one = seq![s.last()];
        let (a, b) = (p.take(k), p.skip(k + 1));
        lemma_class_units_permuted(t, a + b, class);
        lemma_class_balances_concat(t, one, class);
        lemma_class_balances_concat(a + one, b, class);
        lemma_class_balances_concat(a, one, class);
        lemma_class_balances_concat(a, b, class);
    }
}

/// Whether two summaries hold the same numbers, however many decimal places
/// each is written with.
pub open spec fn same_summary(a: SummaryView, b: SummaryView) -> bool {
    &&& a.assets.units() == b.assets.units()
    &&& a.liabilities.units() == b.liabilities.units()
    &&& a.equity.units() == b.equity.units()
    &&& a.activity.income.units() == b.activity.income.units()
    &&& a.activity.expenses.units() == b.activity.expenses.units()
}

proof fn lemma_same_summary(s: Seq<(AccountClass, Dec)>, p: Seq<(AccountClass, Dec)>)
    requires
        rows_wf(s),
        rows_wf(p),
        rows_exact(s),
        rows_exact(p),
        forall|class: AccountClass| #[trigger] class_units(s, class) == class_units(p, class),
    ensures
        same_summary(summary_of(s), summary_of(p)),
{
    assert forall|class: AccountClass| #[trigger] class_total(s, class).units() == class_total(
        p,
        class,
    ).units() by {
        lemma_class_total(s, class);
        lemma_class_total(p, class);
        assert(class_units(s, class) == class_units(p, class));
    }
    assert(class_total(s, AccountClass::Asset).units() == class_total(p, AccountClass::Asset).units());
}

/// The order of the balances does not matter, as long as no sum needs
/// rounding.
pub proof fn law_summary_ignores_order(
    s: Seq<(AccountClass, Dec)>,
    p: Seq<(AccountClass, Dec)>,
)
    requires
        rows_wf(s),
        rows_exact(s),
        rows_exact(p),
        s.to_multiset() == p.to_multiset(),
    ensures
        same_summary(summary_of(s), summary_of(p)),
{
    s.to_multiset_ensures();
    p.to_multiset_ensures();
    assert forall|i: int| 0 <= i < p.len() implies (#[trigger] p[i]).1.wf() by {
        assert(p.contains(p[i]));
        assert(p.to_multiset().count(p[i]) > 0);
        assert(s.contains(p[i]));
        let k = s.index_of(p[i]);
        assert(s[k].1.wf());
    }
    assert forall|class: AccountClass| #[trigger] class_units(s, class) == class_units(p, class) by {
        lemma_class_units_permuted(s, p, class);
    }
    lemma_same_summary(s, p);
}

/// How a class is split into accounts does not matter: a balance can be given
/// in two parts, as long as no sum needs rounding.
pub proof fn law_summary_ignores_splits(
    a: Seq<(AccountClass, Dec)>,
    b: Seq<(AccountClass, Dec)>,
    class: AccountClass,
    x: Dec,
    y: Dec,
    whole: Dec,
)
    requires
        whole.wf(),
        x.adds_exactly(y),
        x.plus(y) == Some(whole),
        rows_wf(a + seq![(class, x), (class, y)] + b),
        rows_exact(a + seq![(class, x), (class, y)] + b),
        rows_exact(a + seq![(class, whole)] + b),
    ensures
        same_summary(
            summary_of(a + seq![(class, whole)] + b),
            summary_of(a + seq![(class, x), (class, y)] + b),
        ),
{
    let two = seq![(class, x), (class, y)];
    let one = seq![(class, whole)];
    let p = a + two + b;
    let s = a + one + b;
    assert(p[a.len() as int] == (class, x));
    assert(p[a.len() as int + 1] == (class, y));
    assert(x.wf() && y.wf());
    lemma_plus_exact(x, y);
    assert forall|i: int| 0 <= i < s.len() implies (#[trigger] s[i]).1.wf() by {
        if i < a.len() {
            assert(p[i] == s[i]);
        } else if i > a.len() {
            assert(p[i + 1] == s[i]);
        }
    }
    assert forall|c: AccountClass| #[trigger] class_units(s, c) == class_units(p, c) by {
        lemma_class_balances_concat(a + one, b, c);
        lemma_class_balances_concat(a, one, c);
        lemma_class_balances_concat(a + two, b, c);
        lemma_class_balances_concat(a, two, c);
        let none = Seq::<(AccountClass, Dec)>::empty();
        let first = seq![(class, x)];
        assert(one.drop_last() =~= none);
        assert(two.drop_last() =~= first);
        assert(first.drop_last() =~= none);
        assert(class_balances(none, c) == Seq::<Dec>::empty());
        lemma_total_push(class_balances(none, c), whole);
        lemma_total_push(class_balances(none, c), x);
        lemma_total_push(class_balances(first, c), y);
        assert(units_total(Seq::<Dec>::empty()) == 0);
        if c == class {
            assert(class_balances(one, c) == class_balances(none, c).push(whole));
            assert(class_balances(first, c) == class_balances(none, c).push(x));
            assert(class_balances(two, c) == class_balances(first, c).push(y));
        } else {
            assert(class_balances(one, c) == class_balances(none, c));
            assert(class_balances(first, c) == class_balances(none, c));
            assert(class_balances(two, c) == class_balances(first, c));
        }
    }
    lemma_same_summary(s, p);
}

proof fn lemma_normal_concat(a: Seq<TransactionView>, b: Seq<TransactionView>)
    ensures
        normal_entries(a + b) == normal_entries(a) + normal_entries(b),
    decreases b.len(),
{
    if b.len() == 0 {
        assert(a + b =~= a);
        assert(normal_entries(a) + normal_entries(b) =~= normal_entries(a));
    } else {
        lemma_normal_concat(a, b.drop_last());
        assert((a + b).drop_last() =~= a + b.drop_last());
        assert(normal_entries(a + b) =~= normal_entries(a) + normal_entries(b));
    }
}

spec fn picked_units(transactions: Seq<TransactionView>, p: spec_fn(EntryView) -> bool) -> int {
    units_total(amounts_where(normal_entries(transactions), p))
}

proof fn lemma_picked_concat(
    a: Seq<TransactionView>,
    b: Seq<TransactionView>,
    p: spec_fn(EntryView) -> bool,
)
    ensures
        picked_units(a + b, p) == picked_units(a, p) + picked_units(b, p),
{
    lemma_normal_concat(a, b);
    lemma_amounts_concat(normal_entries(a), normal_entries(b), p);
    lemma_units_concat(
        amounts_where(normal_entries(a), p),
        amounts_where(normal_entries(b), p),
    );
}

proof fn lemma_picked_permuted(
    s: Seq<TransactionView>,
    q: Seq<TransactionView>,
    p: spec_fn(EntryView) -> bool,
)
    requires
        s.to_multiset() == q.to_multiset(),
    ensures
        picked_units(s, p) == picked_units(q, p),
    decreases s.len(),
{
    s.to_multiset_ensures();
    q.to_multiset_ensures();
    if s.len() == 0 {
        assert(s =~= q);
    } else {
        let k = lemma_take_out(s, q);
        let t = s.drop_last();
        let one = seq![s.last()];
        let (a, b) = (q.take(k), q.skip(k + 1));
        lemma_picked_permuted(t, a + b, p);
        lemma_picked_concat(t, one, p);
        lemma_picked_concat(a + one, b, p);
        lemma_picked_concat(a, one, p);
        lemma_picked_concat(a, b, p);
    }
}

/// The order of the transactions does not matter to what the whole history
/// adds up to, as long as no sum needs rounding.
pub proof fn law_lifetime_ignores_order(
    s: Seq<TransactionView>,
    q: Seq<TransactionView>,
    classes: Map<Seq<char>, AccountClass>,
)
    requires
        s.to_multiset() == q.to_multiset(),
        all_wf(income_addends(s, classes)),
        all_wf(income_addends(q, classes)),
        all_wf(expense_addends(s, classes)),
        all_wf(expense_addends(q, classes)),
        adds_up_exactly(income_addends(s, classes)),
        adds_up_exactly(income_addends(q, classes)),
        adds_up_exactly(expense_addends(s, classes)),
        adds_up_exactly(expense_addends(q, classes)),
    ensures
        total(income_addends(s, classes)) matches Some(a) && (total(
            income_addends(q, classes),
        ) matches Some(b) && a.units() == b.units()),
        total(expense_addends(s, classes)) matches Some(a) && (total(
            expense_addends(q, classes),
        ) matches Some(b) && a.units() == b.units()),
{
    let income = of_class(classes, AccountClass::Income);
    lemma_picked_permuted(s, q, income);
    lemma_picked_permuted(s, q, of_class(classes, AccountClass::Expense));
    lemma_units_negated(amounts_where(normal_entries(s), income));
    lemma_units_negated(amounts_where(normal_entries(q), income));
    lemma_total_exact(income_addends(s, classes));
    lemma_total_exact(income_addends(q, classes));
    lemma_total_exact(expense_addends(s, classes));
    lemma_total_exact(expense_addends(q, classes));
}

} // verus!
