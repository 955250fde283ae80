//! What each command of the command line adds to the books, and how the
//! commands that transactions are written as add them again.

use vstd::prelude::*;
use vstd::string::*;

use crate::account_id::{is_plain_id, is_refused, MAX_ACCOUNT_ID_LEN};
use crate::account_map::AccountMap;
use crate::book::{amounts, mentions, EntryView, TransactionView};
use crate::chars::{lower, text_bytes};
use crate::cli::{
    date_or, entries_plan, entry_classes, given, given_day, income_entries, income_read,
    is_listed, law_commands_carry_transactions, memo_text, new_accounts, option_values,
    plan_entries, text_given, written_entries,
    writes_entries, writes_entry, AddArgs, CliError, CliErrorView, CloseArgs, IncomeArgs, OpenArgs,
};
use crate::decimal::{amount_read, Amount, Dec};
use crate::fiscal::{
    check_empty, class_map, class_map_of, closing_entries, kinded, opening_entries, plugged,
    zeroing,
};
use crate::model::{
    checked_sum, classes_with, imbalance, kind_read, misfit, Account, AccountClass,
    Transaction, TransactionId, TransactionKind,
};
use crate::posting::{
    add_retained, addition_of, plan_addition, with_retained, Addition, AdditionView,
};
use crate::reconstruct::{add_words, entry_word, first_unknown, script_words};
use crate::storage::account_views;
use crate::sums::total;
use crate::text::string_views;
use crate::time::{date_text, in_time, is_short_date, midnight, writes_date, Timestamp};
use crate::tui::text_view;

verus! {

/// What a command gives: its options, and the texts of its entries.
#[verifier::ext_equal]
pub struct CommandView {
    pub date: Option<Seq<char>>,
    pub memo: Option<Seq<char>>,
    pub kind: Option<Seq<char>>,
    pub entries: Seq<Seq<char>>,
}

/// A text that may be given, or an empty one.
pub open spec fn text_or_empty(text: Option<Seq<char>>) -> Seq<char> {
    match text {
        Some(text) => text,
        None => Seq::empty(),
    }
}

/// A normal transaction.
pub open spec fn normal_transaction(
    id: u128,
    posted_at: int,
    memo: Seq<char>,
    entries: Seq<EntryView>,
) -> TransactionView {
    TransactionView { id, posted_at, memo, entries, kind: TransactionKind::Normal }
}

/// What a command adds, or why it adds nothing. There is no answer where the
/// sum of its entries is out of range.
pub open spec fn command_addition(
    command: CommandView,
    id: u128,
    today: int,
    registered: Map<Seq<char>, AccountClass>,
) -> Option<Result<AdditionView, CliErrorView>> {
    let plan = entries_plan(command.entries, registered);
    match given_day(command.date, today) {
        Err(e) => Some(Err(e)),
        Ok(day) => match plan.entries {
            Err(e) => Some(Err(e)),
            Ok(entries) => if entries.len() >= 2 && total(amounts(entries)) is None {
                None
            } else {
                Some(
                    addition_of(
                        normal_transaction(id, day, text_or_empty(command.memo), entries),
                        command.kind,
                        plan.accounts,
                        registered,
                    ),
                )
            },
        },
    }
}

/// What an opening adds, or why it adds nothing.
pub open spec fn opening_addition(
    date: Option<Seq<char>>,
    memo: Option<Seq<char>>,
    texts: Seq<Seq<char>>,
    empty: bool,
    id: u128,
    today: int,
    registered: Map<Seq<char>, AccountClass>,
) -> Result<AdditionView, CliErrorView> {
    let plan = entries_plan(texts, registered);
    if !empty {
        Err(CliErrorView::NotEmpty)
    } else {
        match given_day(date, today) {
            Err(e) => Err(e),
            Ok(day) => match plan.entries {
                Err(e) => Err(e),
                Ok(entries) => if total(amounts(entries)) is None {
                    Err(CliErrorView::OutOfRange)
                } else {
                    addition_of(
                        normal_transaction(id, day, text_or_empty(memo), plugged(entries)),
                        Some(TransactionKind::Open.name()),
                        with_retained(plan.accounts, plugged(entries), registered),
                        registered,
                    )
                },
            },
        }
    }
}

/// What a close adds, or why it adds nothing.
pub open spec fn closing_addition(
    date: Option<Seq<char>>,
    memo: Option<Seq<char>>,
    accounts: Seq<(Seq<char>, AccountClass)>,
    balances: Map<Seq<char>, Dec>,
    id: u128,
    today: int,
) -> Result<AdditionView, CliErrorView> {
    let zeros = zeroing(accounts, balances);
    let registered = class_map_of(accounts);
    match given_day(date, today) {
        Err(e) => Err(e),
        Ok(day) => if zeros.len() == 0 {
            Err(CliErrorView::NothingToClose)
        } else if total(amounts(zeros)) is None {
            Err(CliErrorView::OutOfRange)
        } else {
            addition_of(
                normal_transaction(id, day, text_or_empty(memo), plugged(zeros)),
                Some(TransactionKind::Close.name()),
                with_retained(Seq::empty(), plugged(zeros), registered),
                registered,
            )
        },
    }
}

/// What was made of a command.
pub open spec fn made_view(made: Result<Addition, CliError>) -> Result<AdditionView, CliErrorView> {
    match made {
        Ok(a) => Ok(a@),
        Err(e) => Err(e@),
    }
}

/// What was made of a command, if there is an answer.
pub open spec fn answer_view(made: Option<Result<Addition, CliError>>) -> Option<
    Result<AdditionView, CliErrorView>,
> {
    match made {
        Some(made) => Some(made_view(made)),
        None => None,
    }
}

/// Whether a date is given that is the text in ten characters of the day of
/// a point in time.
pub open spec fn gives_day(date: Option<Seq<char>>, n: int) -> bool {
    date matches Some(text) && writes_date(n, text)
}

/// Whether no registered account has another class than it has in `classes`.
pub open spec fn books_agree(
    registered: Map<Seq<char>, AccountClass>,
    classes: Map<Seq<char>, AccountClass>,
) -> bool {
    forall|a: Seq<char>| #[trigger]
        registered.dom().contains(a) && classes.dom().contains(a) ==> registered[a] == classes[a]
}

/// Whether a transaction can be added again by the command that it is written
/// as: it is dated at a midnight of the years that are written in ten
/// characters, has two entries or more that sum to zero, and the shape of its
/// kind, and the ids of its accounts, which all have classes, have the form
/// of ids.
pub open spec fn can_be_replayed(tx: TransactionView, classes: Map<Seq<char>, AccountClass>) -> bool {
    &&& in_time(tx.posted_at)
    &&& is_short_date(date_text(tx.posted_at))
    &&& tx.posted_at == midnight(tx.posted_at)
    &&& total(amounts(tx.entries)) is Some
    &&& imbalance(tx.entries) is None
    &&& misfit(tx.entries, tx.kind, classes) is None
    &&& forall|i: int|
        0 <= i < tx.entries.len() ==> (#[trigger] tx.entries[i]).amount.wf() && is_plain_id(
            tx.entries[i].account,
        )
}

/// Whether a command is one that adds the transaction again.
pub open spec fn replays(
    command: CommandView,
    tx: TransactionView,
    classes: Map<Seq<char>, AccountClass>,
) -> bool {
    &&& can_be_replayed(tx, classes)
    &&& command.date == Some(date_text(tx.posted_at))
    &&& text_or_empty(command.memo) == tx.memo
    &&& match command.kind {
        None => tx.kind is Normal,
        Some(name) => kind_read(name) == Some(tx.kind),
    }
    &&& writes_entries(tx.entries, entry_classes(tx.entries, classes), command.entries)
}

/// What a command adds that adds a transaction again: the transaction under
/// a new id, and those of its accounts that are new, with their classes.
pub open spec fn replayed(
    tx: TransactionView,
    classes: Map<Seq<char>, AccountClass>,
    id: u128,
    registered: Map<Seq<char>, AccountClass>,
) -> AdditionView {
    AdditionView {
        accounts: new_accounts(
            written_entries(tx.entries, entry_classes(tx.entries, classes)),
            registered,
        ),
        transaction: TransactionView { id, ..tx },
    }
}

proof fn lemma_new_accounts_agree(
    entries: Seq<EntryView>,
    classes: Map<Seq<char>, AccountClass>,
    registered: Map<Seq<char>, AccountClass>,
    n: int,
)
    requires
        0 <= n <= entries.len(),
    ensures
        ({
            let written = written_entries(entries, entry_classes(entries, classes)).take(n);
            let accounts = new_accounts(written, registered);
            &&& forall|k: int|
                0 <= k < accounts.len() ==> (#[trigger] accounts[k]).1 == classes[accounts[k].0]
                    && mentions(entries, accounts[k].0)
            &&& forall|i: int|
                0 <= i < n ==> registered.dom().contains((#[trigger] entries[i]).account)
                    || is_listed(accounts, entries[i].account)
        }),
    decreases n,
{
    let all = written_entries(entries, entry_classes(entries, classes));
    let written = all.take(n);
    let accounts = new_accounts(written, registered);
    if n > 0 {
        lemma_new_accounts_agree(entries, classes, registered, n - 1);
        let before = new_accounts(all.take(n - 1), registered);
        let e = entries[n - 1];
        assert(written.drop_last() =~= all.take(n - 1));
        assert(written.last().id == e.account);
        assert(mentions(entries, e.account));
        assert forall|k: int| 0 <= k < accounts.len() implies (#[trigger] accounts[k]).1
            == classes[accounts[k].0] && mentions(entries, accounts[k].0) by {
            if k < before.len() {
                assert(accounts[k] == before[k]);
            }
        }
        assert forall|i: int| 0 <= i < n implies registered.dom().contains((#[trigger] entries[i]).account)
            || is_listed(accounts, entries[i].account) by {
            let a = entries[i].account;
            if is_listed(before, a) {
                let k = choose|k: int| 0 <= k < before.len() && (#[trigger] before[k]).0 == a;
                assert(accounts[k] == before[k]);
            } else if i == n - 1 && !registered.dom().contains(a) {
                assert(accounts[before.len() as int].0 == a);
            }
        }
    }
}

proof fn lemma_classes_with(
    base: Map<Seq<char>, AccountClass>,
    accounts: Seq<(Seq<char>, AccountClass)>,
    classes: Map<Seq<char>, AccountClass>,
)
    requires
        forall|k: int| 0 <= k < accounts.len() ==> (#[trigger] accounts[k]).1 == classes[accounts[k].0],
    ensures
        ({
            let known = classes_with(base, accounts);
            forall|a: Seq<char>| #![trigger known.dom().contains(a)]
                if is_listed(accounts, a) {
                    known.dom().contains(a) && known[a] == classes[a]
                } else {
                    known.dom().contains(a) == base.dom().contains(a) && known[a] == base[a]
                }
        }),
    decreases accounts.len(),
{
    if accounts.len() > 0 {
        let t = accounts.drop_last();
        let known = classes_with(base, accounts);
        let before = classes_with(base, t);
        assert forall|k: int| 0 <= k < t.len() implies (#[trigger] t[k]).1 == classes[t[k].0] by {
            assert(t[k] == accounts[k]);
        }
        lemma_classes_with(base, t, classes);
        let last = accounts[accounts.len() - 1];
        assert forall|a: Seq<char>| #![trigger known.dom().contains(a)]
            if is_listed(accounts, a) {
                known.dom().contains(a) && known[a] == classes[a]
            } else {
                known.dom().contains(a) == base.dom().contains(a) && known[a] == base[a]
            } by {
            assert(before.dom().contains(a) == before.dom().contains(a));
            if is_listed(t, a) {
                let k = choose|k: int| 0 <= k < t.len() && (#[trigger] t[k]).0 == a;
                assert(accounts[k].0 == a);
            }
            if is_listed(accounts, a) && a != last.0 {
                let k = choose|k: int| 0 <= k < accounts.len() && (#[trigger] accounts[k]).0 == a;
                assert(t[k].0 == a);
            }
        }
    }
}

proof fn lemma_fits(
    entries: Seq<EntryView>,
    kind: TransactionKind,
    classes: Map<Seq<char>, AccountClass>,
    known: Map<Seq<char>, AccountClass>,
)
    requires
        misfit(entries, kind, classes) is None,
        forall|i: int|
            0 <= i < entries.len() ==> known.dom().contains((#[trigger] entries[i]).account) && (
            classes.dom().contains(entries[i].account) ==> known[entries[i].account]
                == classes[entries[i].account]),
    ensures
        misfit(entries, kind, known) is None,
        first_unknown(entries, known) is None,
        first_unknown(entries, classes) is None,
    decreases entries.len(),
{
    if entries.len() > 0 {
        let rest = entries.drop_first();
        assert(known.dom().contains(entries[0].account));
        assert forall|i: int| 0 <= i < rest.len() implies known.dom().contains(
            (#[trigger] rest[i]).account,
        ) && (classes.dom().contains(rest[i].account) ==> known[rest[i].account]
            == classes[rest[i].account]) by {
            assert(rest[i] == entries[i + 1]);
        }
        lemma_fits(rest, kind, classes, known);
    }
}

proof fn lemma_has_class(
    entries: Seq<EntryView>,
    kind: TransactionKind,
    classes: Map<Seq<char>, AccountClass>,
    i: int,
)
    requires
        misfit(entries, kind, classes) is None,
        0 <= i < entries.len(),
    ensures
        classes.dom().contains(entries[i].account),
    decreases entries.len(),
{
    if i > 0 {
        lemma_has_class(entries.drop_first(), kind, classes, i - 1);
        assert(entries.drop_first()[i - 1] == entries[i]);
    }
}

proof fn lemma_replayed_classes(
    tx: TransactionView,
    classes: Map<Seq<char>, AccountClass>,
    id: u128,
    registered: Map<Seq<char>, AccountClass>,
)
    requires
        misfit(tx.entries, tx.kind, classes) is None,
        books_agree(registered, classes),
    ensures
        ({
            let known = classes_with(registered, replayed(tx, classes, id, registered).accounts);
            &&& forall|i: int|
                0 <= i < tx.entries.len() ==> known.dom().contains((#[trigger] tx.entries[i]).account)
                    && known[tx.entries[i].account] == classes[tx.entries[i].account]
            &&& books_agree(known, classes)
        }),
{
    let entries = tx.entries;
    let written = written_entries(entries, entry_classes(entries, classes));
    let accounts = new_accounts(written, registered);
    let known = classes_with(registered, accounts);
    lemma_new_accounts_agree(entries, classes, registered, entries.len() as int);
    assert(written.take(entries.len() as int) =~= written);
    lemma_classes_with(registered, accounts, classes);
    assert forall|i: int| 0 <= i < entries.len() implies known.dom().contains(
        (#[trigger] entries[i]).account,
    ) && known[entries[i].account] == classes[entries[i].account] by {
        lemma_has_class(entries, tx.kind, classes, i);
        assert(known.dom().contains(entries[i].account) == known.dom().contains(entries[i].account));
    }
}

/// A transaction that is added again comes out as it was, under its new id:
/// the addition that its command asks for is valid, where the books have no
/// other classes for its accounts.
proof fn lemma_replayed_is_added(
    command: CommandView,
    tx: TransactionView,
    classes: Map<Seq<char>, AccountClass>,
    id: u128,
    registered: Map<Seq<char>, AccountClass>,
)
    requires
        replays(command, tx, classes),
        books_agree(registered, classes),
    ensures
        addition_of(
            normal_transaction(id, tx.posted_at, tx.memo, tx.entries),
            command.kind,
            replayed(tx, classes, id, registered).accounts,
            registered,
        ) == Ok::<AdditionView, CliErrorView>(replayed(tx, classes, id, registered)),
{
    lemma_replayed_classes(tx, classes, id, registered);
    let known = classes_with(registered, replayed(tx, classes, id, registered).accounts);
    lemma_fits(tx.entries, tx.kind, classes, known);
    let normal = normal_transaction(id, tx.posted_at, tx.memo, tx.entries);
    assert(kinded(normal, command.kind, known) == Ok::<TransactionView, CliErrorView>(
        TransactionView { id, ..tx },
    ));
}

/// Reads the options of a command and makes of them what it adds.
fn plan_given(
    date: Option<&str>,
    memo: Option<&str>,
    kind: Option<&str>,
    texts: &Vec<String>,
    id: TransactionId,
    today: Timestamp,
    registered: &AccountMap<AccountClass>,
) -> (made: Option<Result<Addition, CliError>>)
    ensures
        ({
            let command = CommandView {
                date: text_given(date),
                memo: text_given(memo),
                kind: text_given(kind),
                entries: string_views(texts@),
            };
            &&& answer_view(made) == command_addition(command, id.0, today@, registered@)
            &&& forall|tx: TransactionView, classes: Map<Seq<char>, AccountClass>| #[trigger]
                replays(command, tx, classes) && books_agree(registered@, classes) ==> answer_view(
                    made,
                ) == Some(
                    Ok::<AdditionView, CliErrorView>(replayed(tx, classes, id.0, registered@)),
                )
            &&& forall|n: int| #[trigger]
                gives_day(command.date, n) ==> (made matches Some(Ok(a))
                    ==> a@.transaction.posted_at == midnight(n))
            &&& forall|stored: Seq<EntryView>, classes: Seq<AccountClass>| #[trigger]
                writes_entries(stored, classes, command.entries) ==> (made matches Some(Ok(a))
                    ==> a@.transaction.entries == stored)
        }),
{
    let ghost command = CommandView {
        date: text_given(date),
        memo: text_given(memo),
        kind: text_given(kind),
        entries: string_views(texts@),
    };
    let read = date_or(date, today);
    let plan = plan_entries(texts, registered);
    proof {
        assert forall|tx: TransactionView, classes: Map<Seq<char>, AccountClass>| #[trigger]
            replays(command, tx, classes) && books_agree(registered@, classes) implies command_addition(
            command,
            id.0,
            today@,
            registered@,
        ) == Some(Ok::<AdditionView, CliErrorView>(replayed(tx, classes, id.0, registered@))) by {
            assert(writes_date(tx.posted_at, date.unwrap()@));
            assert(writes_entries(
                tx.entries,
                entry_classes(tx.entries, classes),
                string_views(texts@),
            ));
            lemma_replayed_is_added(command, tx, classes, id.0, registered@);
        }
        assert(memo_text(memo) == text_or_empty(command.memo));
    }
    let posted_at = match read {
        Ok(t) => t,
        Err(e) => {
            return Some(Err(e));
        },
    };
    let entries = match plan.entries {
        Ok(entries) => entries,
        Err(e) => {
            return Some(Err(e));
        },
    };
    if entries.len() >= 2 && checked_sum(&entries).is_none() {
        return None;
    }
    Some(plan_addition(id, posted_at, memo, kind, plan.accounts, entries, registered))
}

/// What the arguments of `add` give.
pub open spec fn add_given(args: &AddArgs) -> CommandView {
    CommandView {
        date: text_view(args.date),
        memo: text_view(args.memo),
        kind: text_view(args.kind),
        entries: string_views(args.entries@),
    }
}

/// What `add` adds, as a transaction that gets `id` and, without a date, is
/// dated `today`. There is no answer where the sum of the entries is out of
/// range. A command that a transaction is written as adds it again as it was,
/// under its new id, to books that have no other classes for its accounts.
pub fn plan_command(
    args: &AddArgs,
    id: TransactionId,
    today: Timestamp,
    registered: &AccountMap<AccountClass>,
) -> (made: Option<Result<Addition, CliError>>)
    ensures
        answer_view(made) == command_addition(add_given(args), id.0, today@, registered@),
        forall|tx: TransactionView, classes: Map<Seq<char>, AccountClass>| #[trigger]
            replays(add_given(args), tx, classes) && books_agree(registered@, classes) ==> answer_view(
                made,
            ) == Some(Ok::<AdditionView, CliErrorView>(replayed(tx, classes, id.0, registered@))),
        forall|n: int| #[trigger]
            gives_day(text_view(args.date), n) ==> (made matches Some(Ok(a))
                ==> a@.transaction.posted_at == midnight(n)),
{
    plan_given(
        given(&args.date),
        given(&args.memo),
        given(&args.kind),
        &args.entries,
        id,
        today,
        registered,
    )
}

/// What an income adds, or why it adds nothing.
pub open spec fn income_addition(
    amount: Seq<char>,
    date: Option<Seq<char>>,
    memo: Option<Seq<char>>,
    id: u128,
    today: int,
    registered: Map<Seq<char>, AccountClass>,
) -> Option<Result<AdditionView, CliErrorView>> {
    match income_read(amount) {
        Err(e) => Some(Err(e)),
        Ok(entries) => command_addition(
            CommandView { date, memo, kind: None, entries },
            id,
            today,
            registered,
        ),
    }
}

proof fn lemma_income_accounts()
    ensures
        is_plain_id("checking"@),
        is_plain_id("income"@),
{
    reveal_strlit("checking");
    reveal_strlit("income");
    reveal(is_plain_id);
    let a = "checking"@;
    let b = "income"@;
    assert(text_bytes(a) <= MAX_ACCOUNT_ID_LEN) by {
        reveal_with_fuel(text_bytes, 9);
    }
    assert(text_bytes(b) <= MAX_ACCOUNT_ID_LEN) by {
        reveal_with_fuel(text_bytes, 7);
    }
    assert forall|i: int| 0 <= i < a.len() implies {
        &&& #[trigger] lower(a[i]) == seq![a[i]]
        &&& !is_refused(a[i])
    } by {}
    assert forall|i: int| 0 <= i < b.len() implies {
        &&& #[trigger] lower(b[i]) == seq![b[i]]
        &&& !is_refused(b[i])
    } by {}
}

proof fn lemma_income_texts(d: Dec)
    requires
        d.wf(),
        d.mantissa > 0,
    ensures
        ({
            let texts = seq![
                "checking:asset:"@ + d.plain_text(),
                "income:income:-"@ + d.plain_text(),
            ];
            writes_entries(
                income_entries_of(d),
                seq![AccountClass::Asset, AccountClass::Income],
                texts,
            )
        }),
{
    lemma_income_accounts();
    reveal_strlit("checking");
    reveal_strlit("income");
    reveal_strlit("asset");
    reveal_strlit(":");
    reveal_strlit("checking:asset:");
    reveal_strlit("income:income:-");
    let entries = income_entries_of(d);
    let classes = seq![AccountClass::Asset, AccountClass::Income];
    let texts = seq![
        "checking:asset:"@ + d.plain_text(),
        "income:income:-"@ + d.plain_text(),
    ];
    assert(d.negated().plain_text() =~= seq!['-'] + d.plain_text());
    assert("checking:asset:"@ =~= "checking"@ + ":"@ + "asset"@ + ":"@);
    assert("income:income:-"@ =~= "income"@ + ":"@ + "income"@ + ":"@ + seq!['-']);
    assert(texts[0] =~= entry_word(entries[0], classes[0]));
    assert(texts[1] =~= entry_word(entries[1], classes[1]));
    assert forall|i: int| 0 <= i < texts.len() implies writes_entry(
        entries[i],
        classes[i],
        #[trigger] texts[i],
    ) by {}
}

/// The entries of an income: the amount comes from `income` and goes to
/// `checking`.
pub open spec fn income_entries_of(d: Dec) -> Seq<EntryView> {
    seq![
        EntryView { account: "checking"@, amount: d },
        EntryView { account: "income"@, amount: d.negated() },
    ]
}

/// What `income` adds, as a transaction that gets `id` and, without a date,
/// is dated `today`. A positive amount comes from `income` and goes to
/// `checking`.
pub fn plan_income(
    args: &IncomeArgs,
    id: TransactionId,
    today: Timestamp,
    registered: &AccountMap<AccountClass>,
) -> (made: Option<Result<Addition, CliError>>)
    ensures
        answer_view(made) == income_addition(
            args.amount@,
            text_view(args.date),
            text_view(args.memo),
            id.0,
            today@,
            registered@,
        ),
        forall|n: int| #[trigger]
            gives_day(text_view(args.date), n) ==> (made matches Some(Ok(a))
                ==> a@.transaction.posted_at == midnight(n)),
        amount_read(args.amount@) matches Ok(d) ==> d.mantissa > 0 ==> (made matches Some(Ok(a))
            ==> a@.transaction.entries == income_entries_of(d)),
{
    proof {
        if let Ok(d) = amount_read(args.amount@) {
            if d.wf() && d.mantissa > 0 {
                lemma_income_texts(d);
            }
        }
    }
    match income_entries(args.amount.as_str()) {
        Err(e) => Some(Err(e)),
        Ok(texts) => plan_given(
            given(&args.date),
            given(&args.memo),
            None,
            &texts,
            id,
            today,
            registered,
        ),
    }
}

/// What `open` adds to a database with these transactions, as a transaction
/// that gets `id` and, without a date, is dated `today`.
pub fn plan_opening(
    args: &OpenArgs,
    transactions: &[Transaction],
    id: TransactionId,
    today: Timestamp,
    registered: &AccountMap<AccountClass>,
) -> (made: Result<Addition, CliError>)
    ensures
        made_view(made) == opening_addition(
            text_view(args.date),
            text_view(args.memo),
            string_views(args.entries@),
            transactions@.len() == 0,
            id.0,
            today@,
            registered@,
        ),
        forall|n: int| #[trigger]
            gives_day(text_view(args.date), n) ==> (made matches Ok(a) ==> a@.transaction.posted_at
                == midnight(n)),
{
    if let Err(e) = check_empty(transactions) {
        return Err(e);
    }
    let posted_at = match date_or(given(&args.date), today) {
        Ok(t) => t,
        Err(e) => {
            return Err(e);
        },
    };
    let plan = plan_entries(&args.entries, registered);
    let entries = match plan.entries {
        Ok(entries) => entries,
        Err(e) => {
            return Err(e);
        },
    };
    let entries = match opening_entries(entries) {
        Ok(entries) => entries,
        Err(e) => {
            return Err(e);
        },
    };
    let accounts = add_retained(plan.accounts, &entries, registered);
    let memo = given(&args.memo);
    assert(memo_text(memo) == text_or_empty(text_view(args.memo)));
    plan_addition(
        id,
        posted_at,
        memo,
        Some(TransactionKind::Open.as_str()),
        accounts,
        entries,
        registered,
    )
}

/// What `close` adds to books with these accounts and balances, as a
/// transaction that gets `id` and, without a date, is dated `today`.
pub fn plan_closing(
    args: &CloseArgs,
    accounts: &Vec<Account>,
    balances: &AccountMap<Amount>,
    id: TransactionId,
    today: Timestamp,
) -> (made: Result<Addition, CliError>)
    ensures
        made_view(made) == closing_addition(
            text_view(args.date),
            text_view(args.memo),
            account_views(accounts@),
            balances@,
            id.0,
            today@,
        ),
        forall|n: int| #[trigger]
            gives_day(text_view(args.date), n) ==> (made matches Ok(a) ==> a@.transaction.posted_at
                == midnight(n)),
{
    let posted_at = match date_or(given(&args.date), today) {
        Ok(t) => t,
        Err(e) => {
            return Err(e);
        },
    };
    let registered = class_map(accounts);
    let entries = match closing_entries(accounts, balances) {
        Ok(entries) => entries,
        Err(e) => {
            return Err(e);
        },
    };
    let none: Vec<Account> = Vec::new();
    assert(account_views(none@) =~= Seq::empty());
    let new = add_retained(none, &entries, &registered);
    let memo = given(&args.memo);
    assert(memo_text(memo) == text_or_empty(text_view(args.memo)));
    plan_addition(
        id,
        posted_at,
        memo,
        Some(TransactionKind::Close.as_str()),
        new,
        entries,
        &registered,
    )
}

/// The value of an option that is given once or not at all.
pub open spec fn value_given(values: Seq<Seq<char>>) -> Option<Seq<char>> {
    if values.len() == 0 {
        None
    } else {
        Some(values.last())
    }
}

/// What the words of a command give.
pub open spec fn options_given(words: Seq<Seq<char>>) -> CommandView {
    CommandView {
        date: value_given(option_values(words, "--date"@)),
        memo: value_given(option_values(words, "--memo"@)),
        kind: value_given(option_values(words, "--kind"@)),
        entries: option_values(words, "--entry"@),
    }
}

/// The command that a transaction is written as is one that adds it again.
/// What `plan_command` promises of such a command then holds of it.
pub proof fn law_written_commands_replay(
    tx: TransactionView,
    classes: Map<Seq<char>, AccountClass>,
)
    requires
        can_be_replayed(tx, classes),
    ensures
        replays(options_given(add_words(tx, classes)), tx, classes),
{
    law_commands_carry_transactions(tx, classes);
    let command = options_given(add_words(tx, classes));
    assert(command.date == Some(date_text(tx.posted_at)));
}

/// The classes that are registered once the transactions have been added
/// again, one after the other.
pub open spec fn registered_after(
    transactions: Seq<TransactionView>,
    classes: Map<Seq<char>, AccountClass>,
    registered: Map<Seq<char>, AccountClass>,
) -> Map<Seq<char>, AccountClass>
    decreases transactions.len(),
{
    if transactions.len() == 0 {
        registered
    } else {
        let before = registered_after(transactions.drop_last(), classes, registered);
        classes_with(before, replayed(transactions.last(), classes, 0, before).accounts)
    }
}

/// A script rebuilds the books: behind any number of its commands, the next
/// is one that adds its transaction again, and the books it comes to still
/// have no other classes for its accounts.
pub proof fn law_scripts_rebuild_the_books(
    transactions: Seq<TransactionView>,
    classes: Map<Seq<char>, AccountClass>,
    registered: Map<Seq<char>, AccountClass>,
    n: int,
)
    requires
        0 <= n < transactions.len(),
        forall|i: int| 0 <= i < transactions.len() ==> can_be_replayed(#[trigger] transactions[i], classes),
        books_agree(registered, classes),
    ensures
        replays(
            options_given(script_words(transactions, classes)[n]),
            transactions[n],
            classes,
        ),
        books_agree(registered_after(transactions.take(n), classes, registered), classes),
{
    assert(can_be_replayed(transactions[n], classes));
    law_written_commands_replay(transactions[n], classes);
    lemma_books_stay_agreed(transactions, classes, registered, n);
}

proof fn lemma_books_stay_agreed(
    transactions: Seq<TransactionView>,
    classes: Map<Seq<char>, AccountClass>,
    registered: Map<Seq<char>, AccountClass>,
    n: int,
)
    requires
        0 <= n <= transactions.len(),
        forall|i: int| 0 <= i < transactions.len() ==> can_be_replayed(#[trigger] transactions[i], classes),
        books_agree(registered, classes),
    ensures
        books_agree(registered_after(transactions.take(n), classes, registered), classes),
    decreases n,
{
    if n > 0 {
        lemma_books_stay_agreed(transactions, classes, registered, n - 1);
        assert(transactions.take(n).drop_last() =~= transactions.take(n - 1));
        assert(can_be_replayed(transactions[n - 1], classes));
        let before = registered_after(transactions.take(n - 1), classes, registered);
        lemma_replayed_classes(transactions[n - 1], classes, 0, before);
    }
}

} // verus!
