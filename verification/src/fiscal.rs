//! Fiscal years: opening balances, closes and the periods between them.

use vstd::prelude::*;
use vstd::string::*;

use crate::account_id::{is_plain_id, law_plain_ids_read_back, AccountId, MAX_ACCOUNT_ID_LEN};
use crate::account_map::AccountMap;
use crate::book::{
    account_amounts, amounts, is_account, lemma_amounts_concat, EntryView, TransactionView,
};
use crate::chars::text_bytes;
use crate::cli::{audit_period, period_read, AuditArgs, CliError, CliErrorView};
use crate::decimal::{lemma_opposites_cancel, Amount, Dec};
use crate::model::{
    add_classes, checked_sum, classes_with, entry_misfit, entry_views, imbalance, kind_read, misfit, transaction_views,
    Account, AccountClass, Entry, Transaction, TransactionErrorView, TransactionId,
    TransactionKind,
};
use crate::storage::account_views;
use crate::summary::{closes, closes_of, CloseInfo};
use crate::sums::{lemma_total_push, lemma_total_wf, total};
use crate::text::{chars_of, same_text};
use crate::time::{date_text, midnight, Timestamp, MAX_NANOSECOND, NANOSECONDS_PER_DAY};
use crate::transaction_id::id_number;
use crate::tui::{balance_in, text_view};

verus! {

/// The account that takes what the years leave: retained earnings.
pub open spec fn retained() -> Seq<char> {
    "equity/net"@
}

proof fn lemma_retained_is_plain()
    ensures
        is_plain_id(retained()),
{
    reveal_strlit("equity/net");
    reveal(is_plain_id);
    let s = retained();
    assert(text_bytes(s) <= MAX_ACCOUNT_ID_LEN) by {
        reveal_with_fuel(text_bytes, 11);
    }
    assert forall|i: int| 0 <= i < s.len() implies {
        &&& #[trigger] crate::chars::lower(s[i]) == seq![s[i]]
        &&& !crate::account_id::is_refused(s[i])
    } by {}
}

/// The account that takes what the years leave.
pub fn retained_account() -> (id: AccountId)
    ensures
        id@ == retained(),
{
    proof {
        lemma_retained_is_plain();
        law_plain_ids_read_back(retained());
    }
    let read = AccountId::parse("equity/net");
    read.unwrap()
}

/// With what makes the entries sum to zero, on the account of retained
/// earnings, unless they do so without it.
pub open spec fn plugged(entries: Seq<EntryView>) -> Seq<EntryView> {
    let sum = total(amounts(entries)).unwrap();
    if sum.mantissa == 0 {
        entries
    } else {
        entries.push(EntryView { account: retained(), amount: sum.negated() })
    }
}

/// What makes entries sum to zero does so.
pub proof fn lemma_plugged(entries: Seq<EntryView>)
    requires
        crate::book::entries_wf(entries),
        total(amounts(entries)) is Some,
    ensures
        total(amounts(plugged(entries))) matches Some(t) && t.mantissa == 0,
        total(amounts(entries)).unwrap().wf(),
{
    let s = amounts(entries);
    assert forall|i: int| 0 <= i < s.len() implies (#[trigger] s[i]).wf() by {
        assert(entries[i].amount.wf());
    }
    lemma_total_wf(s);
    let sum = total(s).unwrap();
    if sum.mantissa != 0 {
        let e = EntryView { account: retained(), amount: sum.negated() };
        assert(amounts(entries.push(e)) =~= s.push(sum.negated()));
        lemma_total_push(s, sum.negated());
        lemma_opposites_cancel(sum);
    }
}

/// Adds what makes the entries sum to zero. They then do.
fn plug(entries: Vec<Entry>) -> (made: Option<Vec<Entry>>)
    ensures
        match made {
            Some(done) => {
                &&& total(amounts(entry_views(entries@))) is Some
                &&& entry_views(done@) == plugged(entry_views(entries@))
                &&& total(amounts(entry_views(done@))) matches Some(t) && t.mantissa == 0
            },
            None => total(amounts(entry_views(entries@))) is None,
        },
{
    let ghost before = entry_views(entries@);
    let sum: Amount = match checked_sum(&entries) {
        Some(sum) => sum,
        None => {
            return None;
        },
    };
    let mut done: Vec<Entry> = entries;
    proof {
        lemma_plugged(before);
    }
    if !sum.is_zero() {
        let amount: Amount = sum.negate();
        done.push(Entry { account: retained_account(), amount });
        assert(entry_views(done@) =~= before.push(
            EntryView { account: retained(), amount: sum@.negated() },
        ));
    }
    Some(done)
}

/// The entries of an opening: the balances that are known, and what makes
/// them sum to zero.
pub fn opening_entries(entries: Vec<Entry>) -> (made: Result<Vec<Entry>, CliError>)
    ensures
        match made {
            Ok(done) => {
                &&& total(amounts(entry_views(entries@))) is Some
                &&& entry_views(done@) == plugged(entry_views(entries@))
                &&& done@.len() >= 2 ==> imbalance(entry_views(done@)) is None
                &&& total(amounts(entry_views(done@))) is Some
            },
            Err(e) => total(amounts(entry_views(entries@))) is None && e@
                == CliErrorView::OutOfRange,
        },
{
    match plug(entries) {
        Some(done) => Ok(done),
        None => Err(CliError::OutOfRange),
    }
}

/// Whether a database is empty, as opening balances ask for.
pub fn check_empty(transactions: &[Transaction]) -> (checked: Result<(), CliError>)
    ensures
        match checked {
            Ok(()) => transactions@.len() == 0,
            Err(e) => transactions@.len() > 0 && e@ == CliErrorView::NotEmpty,
        },
{
    if transactions.len() == 0 {
        Ok(())
    } else {
        Err(CliError::NotEmpty)
    }
}

/// Whether an account is zeroed by a close.
pub open spec fn is_nominal(class: AccountClass) -> bool {
    class is Income || class is Expense
}

/// The entries that zero every income and expense account with a balance.
pub open spec fn zeroing(
    accounts: Seq<(Seq<char>, AccountClass)>,
    balances: Map<Seq<char>, Dec>,
) -> Seq<EntryView>
    decreases accounts.len(),
{
    if accounts.len() == 0 {
        Seq::empty()
    } else {
        let before = zeroing(accounts.drop_last(), balances);
        let (id, class) = accounts.last();
        let balance = balance_in(balances, id);
        if is_nominal(class) && balance.mantissa != 0 {
            before.push(EntryView { account: id, amount: balance.negated() })
        } else {
            before
        }
    }
}

/// The entries of a close: every income and expense account with a balance
/// is zeroed, and the net goes to the account of retained earnings.
pub fn closing_entries(accounts: &Vec<Account>, balances: &AccountMap<Amount>) -> (made: Result<
    Vec<Entry>,
    CliError,
>)
    ensures
        ({
            let zeros = zeroing(account_views(accounts@), balances@);
            match made {
                Ok(done) => {
                    &&& zeros.len() > 0
                    &&& total(amounts(zeros)) is Some
                    &&& entry_views(done@) == plugged(zeros)
                    &&& done@.len() >= 2 ==> imbalance(entry_views(done@)) is None
                    &&& total(amounts(entry_views(done@))) is Some
                },
                Err(e) => if zeros.len() == 0 {
                    e@ == CliErrorView::NothingToClose
                } else {
                    total(amounts(zeros)) is None && e@ == CliErrorView::OutOfRange
                },
            }
        }),
{
    let ghost all = account_views(accounts@);
    let mut entries: Vec<Entry> = Vec::new();
    assert(entry_views(entries@) =~= Seq::empty());
    for i in 0..accounts.len()
        invariant
            all == account_views(accounts@),
            entry_views(entries@) == zeroing(all.take(i as int), balances@),
    {
        let account = &accounts[i];
        let ghost was = entry_views(entries@);
        assert(all.take(i + 1).drop_last() =~= all.take(i as int));
        let balance: Amount = match balances.get(&account.id) {
            Some(balance) => balance,
            None => Amount::zero(),
        };
        if (account.class == AccountClass::Income || account.class == AccountClass::Expense)
            && !balance.is_zero() {
            entries.push(Entry { account: account.id.clone(), amount: balance.negate() });
            assert(entry_views(entries@) =~= was.push(
                EntryView { account: account.id@, amount: balance@.negated() },
            ));
        }
    }
    assert(all.take(all.len() as int) =~= all);
    if entries.len() == 0 {
        return Err(CliError::NothingToClose);
    }
    match plug(entries) {
        Some(done) => Ok(done),
        None => Err(CliError::OutOfRange),
    }
}

proof fn lemma_zeroing_others(
    accounts: Seq<(Seq<char>, AccountClass)>,
    balances: Map<Seq<char>, Dec>,
    id: Seq<char>,
)
    requires
        forall|i: int| 0 <= i < accounts.len() ==> (#[trigger] accounts[i]).0 != id,
    ensures
        account_amounts(zeroing(accounts, balances), id) == Seq::<Dec>::empty(),
    decreases accounts.len(),
{
    if accounts.len() > 0 {
        let t = accounts.drop_last();
        assert forall|i: int| 0 <= i < t.len() implies (#[trigger] t[i]).0 != id by {
            assert(t[i] == accounts[i]);
        }
        lemma_zeroing_others(t, balances, id);
        assert(accounts[accounts.len() - 1].0 != id);
        let (other, _) = accounts.last();
        crate::book::lemma_amounts_push(
            zeroing(t, balances),
            EntryView { account: other, amount: balance_in(balances, other).negated() },
            is_account(id),
        );
    }
}

proof fn lemma_zeroing_one(
    accounts: Seq<(Seq<char>, AccountClass)>,
    balances: Map<Seq<char>, Dec>,
    at: int,
)
    requires
        0 <= at < accounts.len(),
        is_nominal(accounts[at].1),
        forall|i: int, j: int|
            0 <= i < j < accounts.len() ==> (#[trigger] accounts[i]).0 != (#[trigger] accounts[j]).0,
    ensures
        ({
            let balance = balance_in(balances, accounts[at].0);
            account_amounts(zeroing(accounts, balances), accounts[at].0) == (if balance.mantissa
                == 0 {
                Seq::<Dec>::empty()
            } else {
                seq![balance.negated()]
            })
        }),
    decreases accounts.len(),
{
    let t = accounts.drop_last();
    let id = accounts[at].0;
    let (last, class) = accounts.last();
    let e = EntryView { account: last, amount: balance_in(balances, last).negated() };
    crate::book::lemma_amounts_push(zeroing(t, balances), e, is_account(id));
    if at == accounts.len() - 1 {
        assert forall|i: int| 0 <= i < t.len() implies (#[trigger] t[i]).0 != id by {
            assert(t[i] == accounts[i]);
            assert(accounts[i].0 != accounts[at].0);
        }
        lemma_zeroing_others(t, balances, id);
        assert(Seq::<Dec>::empty().push(e.amount) =~= seq![e.amount]);
    } else {
        assert forall|i: int, j: int| 0 <= i < j < t.len() implies (#[trigger] t[i]).0 != (
        #[trigger] t[j]).0 by {
            assert(t[i] == accounts[i] && t[j] == accounts[j]);
        }
        assert(t[at] == accounts[at]);
        lemma_zeroing_one(t, balances, at);
        assert(accounts[at].0 != accounts[accounts.len() - 1].0);
    }
}

/// A close zeroes the year: behind its entries every income and every
/// expense account has a balance of zero. The accounts are registered once
/// each, and retained earnings are none of these.
pub proof fn law_a_close_zeroes_nominal_accounts(
    book: Seq<EntryView>,
    accounts: Seq<(Seq<char>, AccountClass)>,
    at: int,
)
    requires
        crate::book::entries_wf(book),
        crate::book::summable(book),
        0 <= at < accounts.len(),
        is_nominal(accounts[at].1),
        accounts[at].0 != retained(),
        forall|i: int, j: int|
            0 <= i < j < accounts.len() ==> (#[trigger] accounts[i]).0 != (#[trigger] accounts[j]).0,
    ensures
        ({
            let close = plugged(zeroing(accounts, crate::book::balances_of(book)));
            total(account_amounts(book + close, accounts[at].0)) matches Some(t) && t.mantissa == 0
        }),
{
    let balances = crate::book::balances_of(book);
    let zeros = zeroing(accounts, balances);
    let close = plugged(zeros);
    let id = accounts[at].0;
    let p = is_account(id);
    lemma_zeroing_one(accounts, balances, at);
    let held = account_amounts(book, id);
    let balance = balance_in(balances, id);
    assert(total(held) is Some);
    if !crate::book::mentions(book, id) {
        crate::book::lemma_unmentioned(book, id);
    }
    assert(total(held) == Some(balance));
    crate::book::lemma_amounts_wf(book, p);
    lemma_total_wf(held);
    lemma_amounts_concat(book, close, p);
    let e = EntryView {
        account: retained(),
        amount: total(amounts(zeros)).unwrap().negated(),
    };
    crate::book::lemma_amounts_push(zeros, e, p);
    assert(account_amounts(close, id) == account_amounts(zeros, id));
    if balance.mantissa == 0 {
        assert(held + account_amounts(close, id) =~= held);
    } else {
        assert(held + account_amounts(close, id) =~= held.push(balance.negated()));
        lemma_total_push(held, balance.negated());
        lemma_opposites_cancel(balance);
    }
}

proof fn lemma_zeroing_fits(
    accounts: Seq<(Seq<char>, AccountClass)>,
    balances: Map<Seq<char>, Dec>,
    classes: Map<Seq<char>, AccountClass>,
    i: int,
)
    requires
        forall|k: int|
            0 <= k < accounts.len() ==> classes.dom().contains((#[trigger] accounts[k]).0)
                && classes[accounts[k].0] == accounts[k].1,
        0 <= i < zeroing(accounts, balances).len(),
    ensures
        entry_misfit(zeroing(accounts, balances)[i], TransactionKind::Close, classes) is None,
    decreases accounts.len(),
{
    if accounts.len() > 0 {
        let t = accounts.drop_last();
        assert forall|k: int| 0 <= k < t.len() implies classes.dom().contains((#[trigger] t[k]).0)
            && classes[t[k].0] == t[k].1 by {
            assert(t[k] == accounts[k]);
        }
        assert(classes.dom().contains(accounts[accounts.len() - 1].0));
        if i < zeroing(t, balances).len() {
            lemma_zeroing_fits(t, balances, classes, i);
        }
    }
}

proof fn lemma_all_fit(
    entries: Seq<EntryView>,
    kind: TransactionKind,
    classes: Map<Seq<char>, AccountClass>,
)
    requires
        forall|i: int|
            0 <= i < entries.len() ==> entry_misfit(#[trigger] entries[i], kind, classes) is None,
    ensures
        misfit(entries, kind, classes) is None,
    decreases entries.len(),
{
    if entries.len() > 0 {
        let t = entries.drop_first();
        assert forall|i: int| 0 <= i < t.len() implies entry_misfit(#[trigger] t[i], kind, classes) is None by {
            assert(t[i] == entries[i + 1]);
        }
        lemma_all_fit(t, kind, classes);
    }
}

/// The entries of a close have the shape of one, where the accounts have the
/// classes that they are registered with and retained earnings are equity.
pub proof fn law_a_close_has_its_shape(
    accounts: Seq<(Seq<char>, AccountClass)>,
    balances: Map<Seq<char>, Dec>,
    classes: Map<Seq<char>, AccountClass>,
)
    requires
        forall|k: int|
            0 <= k < accounts.len() ==> classes.dom().contains((#[trigger] accounts[k]).0)
                && classes[accounts[k].0] == accounts[k].1,
        classes.dom().contains(retained()),
        classes[retained()] is Equity,
    ensures
        misfit(plugged(zeroing(accounts, balances)), TransactionKind::Close, classes) is None,
{
    let zeros = zeroing(accounts, balances);
    let close = plugged(zeros);
    assert forall|i: int| 0 <= i < close.len() implies entry_misfit(
        #[trigger] close[i],
        TransactionKind::Close,
        classes,
    ) is None by {
        if i < zeros.len() {
            lemma_zeroing_fits(accounts, balances, classes, i);
        }
    }
    lemma_all_fit(close, TransactionKind::Close, classes);
}

/// The transaction with the kind that was asked for, or why it has not its
/// shape.
pub open spec fn kinded(
    tx: TransactionView,
    kind: Option<Seq<char>>,
    classes: Map<Seq<char>, AccountClass>,
) -> Result<TransactionView, CliErrorView> {
    match kind {
        None => Ok(tx),
        Some(name) => match kind_read(name) {
            None => Err(CliErrorView::Transaction(TransactionErrorView::UnknownKind(name))),
            Some(kind) => match misfit(tx.entries, kind, classes) {
                Some(e) => Err(CliErrorView::Transaction(e)),
                None => Ok(TransactionView { kind, ..tx }),
            },
        },
    }
}

/// The transaction with the kind that was asked for.
pub fn with_kind_named(
    tx: Transaction,
    kind: Option<&str>,
    classes: &AccountMap<AccountClass>,
) -> (made: Result<Transaction, CliError>)
    ensures
        ({
            let name = match kind {
                Some(s) => Some(s@),
                None => None,
            };
            match made {
                Ok(done) => kinded(tx@, name, classes@) == Ok::<TransactionView, CliErrorView>(
                    done@,
                ),
                Err(e) => kinded(tx@, name, classes@) == Err::<TransactionView, CliErrorView>(e@),
            }
        }),
{
    match kind {
        None => Ok(tx),
        Some(name) => match TransactionKind::parse(name) {
            Err(e) => Err(CliError::Transaction(e)),
            Ok(kind) => match tx.with_kind(kind, classes) {
                Ok(done) => Ok(done),
                Err(e) => Err(CliError::Transaction(e)),
            },
        },
    }
}

/// The classes of the accounts. Of an account that is there twice the last
/// one counts.
pub open spec fn class_map_of(accounts: Seq<(Seq<char>, AccountClass)>) -> Map<
    Seq<char>,
    AccountClass,
> {
    classes_with(Map::empty(), accounts)
}

/// The classes of the accounts.
pub fn class_map(accounts: &Vec<Account>) -> (classes: AccountMap<AccountClass>)
    ensures
        classes@ == class_map_of(account_views(accounts@)),
{
    add_classes(AccountMap::new(), accounts)
}

/// Reads the id of a transaction.
pub fn parse_transaction_id(s: &str) -> (read: Result<TransactionId, CliError>)
    ensures
        match read {
            Ok(id) => id_number(s@) == Some(id.0 as int),
            Err(e) => id_number(s@) is None && e@ == CliErrorView::TransactionId(s@),
        },
{
    match TransactionId::parse(s) {
        Some(id) => Ok(id),
        None => Err(CliError::TransactionId(s.to_owned())),
    }
}

/// The first moment of the next day, or the last of all.
pub open spec fn next_midnight(t: int) -> int {
    let next = midnight(t) + NANOSECONDS_PER_DAY;
    if next <= MAX_NANOSECOND {
        next
    } else {
        MAX_NANOSECOND as int
    }
}

fn day_after(t: &Timestamp) -> (next: Timestamp)
    ensures
        next@ == next_midnight(t@),
{
    let n: i128 = t.as_nanosecond();
    let day: i128 = NANOSECONDS_PER_DAY;
    let rest: i128 = if n >= 0 {
        n % day
    } else {
        (day - 1) - ((-(n + 1)) % day)
    };
    proof {
        lemma_rest(n as int, day as int);
    }
    let next: i128 = n - rest + day;
    let capped: i128 = if next <= MAX_NANOSECOND {
        next
    } else {
        MAX_NANOSECOND
    };
    Timestamp::from_nanosecond(capped).unwrap()
}

proof fn lemma_rest(n: int, day: int)
    requires
        day > 0,
    ensures
        n < 0 ==> n % day == (day - 1) - ((-(n + 1)) % day),
        0 <= n % day < day,
{
    vstd::arithmetic::div_mod::lemma_mod_bound(n, day);
    if n < 0 {
        let m = -(n + 1);
        let q = m / day;
        let r = m % day;
        vstd::arithmetic::div_mod::lemma_fundamental_div_mod(m, day);
        vstd::arithmetic::div_mod::lemma_mod_bound(m, day);
        assert(n == day * (-(q + 1)) + (day - 1 - r)) by (nonlinear_arith)
            requires
                m == -(n + 1),
                m == day * q + r,
        ;
        vstd::arithmetic::div_mod::lemma_fundamental_div_mod_converse(
            n,
            day,
            -(q + 1),
            day - 1 - r,
        );
    }
}

/// The year of a point in time, as it is written.
pub open spec fn year_text(t: int) -> Seq<char> {
    let date = date_text(t);
    date.take(date.len() - 6)
}

/// Whether a close is the one that is asked for: one dated in the year.
pub open spec fn in_year(close: (u128, int), year: Seq<char>) -> bool {
    date_text(close.1).len() >= 6 && year_text(close.1) == year
}

/// The positions of the closes that are dated in a year.
pub open spec fn closes_in(found: Seq<(u128, int)>, year: Seq<char>) -> Seq<int>
    decreases found.len(),
{
    if found.len() == 0 {
        Seq::empty()
    } else {
        let before = closes_in(found.drop_last(), year);
        if in_year(found.last(), year) {
            before.push(found.len() - 1)
        } else {
            before
        }
    }
}

/// The position of the close with which a fiscal year ends.
pub open spec fn fiscal_close(found: Seq<(u128, int)>, fy: Seq<char>) -> Result<int, CliErrorView> {
    if fy == "latest"@ {
        if found.len() == 0 {
            Err(CliErrorView::FiscalYear("no close yet"@))
        } else {
            Ok(found.len() - 1)
        }
    } else {
        let at = closes_in(found, fy);
        if at.len() == 0 {
            Err(CliErrorView::FiscalYear("no close in "@ + fy))
        } else if at.len() > 1 {
            Err(CliErrorView::FiscalYear("more than one close in "@ + fy + "; use --from and --to"@))
        } else {
            Ok(at[0])
        }
    }
}

/// The period of a fiscal year: from the day after the close before, or from
/// the first transaction, through the day of the close.
pub open spec fn fiscal_period_of(transactions: Seq<TransactionView>, fy: Seq<char>) -> Result<
    (int, int),
    CliErrorView,
> {
    let found = closes_of(transactions);
    match fiscal_close(found, fy) {
        Err(e) => Err(e),
        Ok(at) => Ok(
            (
                if at > 0 {
                    next_midnight(found[at - 1].1)
                } else {
                    transactions[0].posted_at
                },
                next_midnight(found[at].1),
            ),
        ),
    }
}

fn dated_in(t: &Timestamp, year: &Vec<char>) -> (yes: bool)
    ensures
        yes == (date_text(t@).len() >= 6 && year_text(t@) == year@),
{
    let date: Vec<char> = chars_of(t.date().as_str());
    if date.len() < 6 || date.len() - 6 != year.len() {
        return false;
    }
    for i in 0..year.len()
        invariant
            date@ == date_text(t@),
            date.len() - 6 == year.len(),
            forall|j: int| 0 <= j < i ==> date@[j] == year@[j],
    {
        if date[i] != year[i] {
            assert(year_text(t@)[i as int] != year@[i as int]);
            return false;
        }
    }
    assert(year_text(t@) =~= year@);
    true
}

proof fn lemma_closes_nonempty(transactions: Seq<TransactionView>)
    ensures
        closes_of(transactions).len() <= transactions.len(),
    decreases transactions.len(),
{
    if transactions.len() > 0 {
        lemma_closes_nonempty(transactions.drop_last());
    }
}

fn find_close(found: &Vec<CloseInfo>, fy: &str) -> (at: Result<usize, CliError>)
    ensures
        ({
            let views = Seq::new(found@.len(), |i: int| found@[i]@);
            match at {
                Ok(i) => fiscal_close(views, fy@) == Ok::<int, CliErrorView>(i as int) && i
                    < found@.len(),
                Err(e) => fiscal_close(views, fy@) == Err::<int, CliErrorView>(e@),
            }
        }),
{
    let ghost views = Seq::new(found@.len(), |i: int| found@[i]@);
    if same_text(fy, "latest") {
        if found.len() == 0 {
            return Err(CliError::FiscalYear("no close yet".to_owned()));
        }
        return Ok(found.len() - 1);
    }
    let year: Vec<char> = chars_of(fy);
    let mut at: Vec<usize> = Vec::new();
    let ghost mut positions: Seq<int> = Seq::empty();
    for i in 0..found.len()
        invariant
            views == Seq::new(found@.len(), |i: int| found@[i]@),
            year@ == fy@,
            positions == closes_in(views.take(i as int), fy@),
            positions.len() == at@.len(),
            forall|j: int| 0 <= j < at@.len() ==> #[trigger] positions[j] == at@[j],
            forall|j: int| 0 <= j < at@.len() ==> #[trigger] at@[j] < i,
    {
        assert(views.take(i + 1).drop_last() =~= views.take(i as int));
        if dated_in(&found[i].posted_at, &year) {
            at.push(i);
            proof {
                positions = positions.push(i as int);
            }
        }
    }
    assert(views.take(views.len() as int) =~= views);
    if at.len() == 0 {
        let mut s = "no close in ".to_owned();
        s.append(fy);
        Err(CliError::FiscalYear(s))
    } else if at.len() > 1 {
        let mut s = "more than one close in ".to_owned();
        s.append(fy);
        s.append("; use --from and --to");
        Err(CliError::FiscalYear(s))
    } else {
        assert(positions[0] == at@[0]);
        Ok(at[0])
    }
}

/// The period of a fiscal year. `fy` is the year in which it was closed, or
/// `latest`.
pub fn fiscal_period(transactions: &[Transaction], fy: &str) -> (read: Result<
    (Timestamp, Timestamp),
    CliError,
>)
    ensures
        match read {
            Ok((from, to)) => fiscal_period_of(transaction_views(transactions@), fy@) == Ok::<
                (int, int),
                CliErrorView,
            >((from@, to@)),
            Err(e) => fiscal_period_of(transaction_views(transactions@), fy@) == Err::<
                (int, int),
                CliErrorView,
            >(e@),
        },
{
    let ghost txs = transaction_views(transactions@);
    let found: Vec<CloseInfo> = closes(transactions);
    let ghost views = Seq::new(found@.len(), |i: int| found@[i]@);
    proof {
        lemma_closes_nonempty(txs);
    }
    match find_close(&found, fy) {
        Err(e) => Err(e),
        Ok(at) => {
            assert(views[at as int] == found@[at as int]@);
            let from: Timestamp = if at > 0 {
                assert(views[at - 1] == found@[at - 1]@);
                day_after(&found[at - 1].posted_at)
            } else {
                transactions[0].posted_at
            };
            Ok((from, day_after(&found[at].posted_at)))
        },
    }
}

/// The period of a report: that of a fiscal year, or that between two dates.
pub open spec fn report_period_of(
    fy: Option<Seq<char>>,
    from: Option<Seq<char>>,
    to: Option<Seq<char>>,
    transactions: Seq<TransactionView>,
) -> Result<(int, int), CliErrorView> {
    match (fy, from, to) {
        (Some(fy), _, _) => fiscal_period_of(transactions, fy),
        (None, Some(from), Some(to)) => period_read(from, to),
        _ => Err(CliErrorView::Date("a report needs --from and --to, or --fy"@)),
    }
}

/// The period of a report: that of a fiscal year, or that between two dates.
pub fn report_period(args: &AuditArgs, transactions: &[Transaction]) -> (read: Result<
    (Timestamp, Timestamp),
    CliError,
>)
    ensures
        ({
            let period = report_period_of(
                text_view(args.fy),
                text_view(args.from),
                text_view(args.to),
                transaction_views(transactions@),
            );
            match read {
                Ok((from, to)) => period == Ok::<(int, int), CliErrorView>((from@, to@)),
                Err(e) => period == Err::<(int, int), CliErrorView>(e@),
            }
        }),
{
    match &args.fy {
        Some(fy) => fiscal_period(transactions, fy.as_str()),
        None => match (&args.from, &args.to) {
            (Some(from), Some(to)) => audit_period(from.as_str(), to.as_str()),
            _ => Err(CliError::Date("a report needs --from and --to, or --fy".to_owned())),
        },
    }
}

} // verus!
