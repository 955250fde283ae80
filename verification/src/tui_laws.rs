//! What holds of the tables of the terminal interface and of its keys.

use vstd::prelude::*;

use crate::book::{mentions, EntryView, TransactionView};
use crate::decimal::Dec;
use crate::model::AccountClass;
use crate::money::{money_text, signed_money_text};
use crate::text::{
    cut, lines_of, lowercase_text, occurs, occurs_at, padded_left, padded_right,
};
use crate::time::date_text;
use crate::tui::{
    balance_in, is_sorted, law_accounts_are_sorted, matching_accounts, matching_transactions,
    passes, sorted_accounts, with_account, AddView, AppView, BalanceView, EditView, Filters,
    ScreenView,
};
use crate::tui_view::{class_in, class_suffix, date_tag, first_amount, tag, Area, Emphasis};

verus! {

/// Whether a text stands somewhere in another: something stands before it and
/// something behind it, if only nothing.
pub open spec fn stands_in(part: Seq<char>, text: Seq<char>) -> bool {
    exists|before: Seq<char>, behind: Seq<char>| text == #[trigger] (before + part + behind)
}

proof fn lemma_occurs(part: Seq<char>, text: Seq<char>)
    ensures
        occurs(part, text) == stands_in(part, text),
{
    if occurs(part, text) {
        let i = choose|i: int| #[trigger] occurs_at(part, text, i);
        let before = text.take(i);
        let behind = text.skip(i + part.len());
        assert forall|k: int| 0 <= k < text.len() implies text[k] == (before + part + behind)[k] by {
            if i <= k < i + part.len() {
                assert(text.subrange(i, i + part.len())[k - i] == part[k - i]);
            }
        }
        assert(text =~= before + part + behind);
    }
    if stands_in(part, text) {
        let (before, behind) = choose|before: Seq<char>, behind: Seq<char>|
            text == #[trigger] (before + part + behind);
        let i = before.len() as int;
        assert(text.subrange(i, i + part.len()) =~= part);
        assert(occurs_at(part, text, i));
    }
}

/// Whether a search finds a text: there is no search, or it stands in the
/// text, whatever the case of both.
pub open spec fn finds(search: Seq<char>, text: Seq<char>) -> bool {
    search.len() == 0 || stands_in(lowercase_text(search), lowercase_text(text))
}

proof fn lemma_passes(search: Seq<char>, text: Seq<char>)
    ensures
        passes(search, text) == finds(search, text),
        lowercase_text(search) == lowercase_text(text) ==> finds(search, text),
{
    lemma_occurs(lowercase_text(search), lowercase_text(text));
    let lower = lowercase_text(text);
    assert(lower =~= Seq::<char>::empty() + lower + Seq::<char>::empty());
}

proof fn lemma_matching_accounts(accounts: Seq<BalanceView>, search: Seq<char>)
    ensures
        matching_accounts(accounts, search) == accounts.filter(
            |row: BalanceView| finds(search, row.id),
        ),
    decreases accounts.len(),
{
    reveal(Seq::filter);
    if accounts.len() > 0 {
        lemma_matching_accounts(accounts.drop_last(), search);
        lemma_passes(search, accounts.last().id);
    } else {
        assert(matching_accounts(accounts, search) =~= accounts);
    }
}

/// The accounts show that the search finds, all of them, in their order: an
/// account shows exactly if there is no search or the search stands in its
/// id, in lower case both. One whose id is the search itself shows.
pub proof fn law_accounts_show_if_the_search_finds_them(app: AppView)
    ensures
        app.filtered_accounts() == app.accounts.filter(
            |row: BalanceView| finds(app.search, row.id),
        ),
        forall|i: int|
            0 <= i < app.accounts.len() ==> (app.filtered_accounts().contains(
                #[trigger] app.accounts[i],
            ) <==> app.search.len() == 0 || stands_in(
                lowercase_text(app.search),
                lowercase_text(app.accounts[i].id),
            )),
        forall|i: int|
            0 <= i < app.accounts.len() && lowercase_text((#[trigger] app.accounts[i]).id)
                == lowercase_text(app.search) ==> app.filtered_accounts().contains(app.accounts[i]),
        forall|row: BalanceView| #[trigger]
            app.filtered_accounts().contains(row) ==> app.accounts.contains(row),
{
    let p = |row: BalanceView| finds(app.search, row.id);
    lemma_matching_accounts(app.accounts, app.search);
    assert forall|i: int| 0 <= i < app.accounts.len() implies (app.filtered_accounts().contains(
        #[trigger] app.accounts[i],
    ) <==> finds(app.search, app.accounts[i].id)) by {
        if finds(app.search, app.accounts[i].id) {
            app.accounts.lemma_filter_contains(p, i);
        }
        if app.accounts.filter(p).contains(app.accounts[i]) {
            let k = app.accounts.filter(p).index_of(app.accounts[i]);
            app.accounts.lemma_filter_pred(p, k);
        }
    }
    assert forall|i: int|
        0 <= i < app.accounts.len() && lowercase_text((#[trigger] app.accounts[i]).id)
            == lowercase_text(app.search) implies app.filtered_accounts().contains(app.accounts[i]) by {
        lemma_passes(app.search, app.accounts[i].id);
    }
    assert forall|row: BalanceView| #[trigger] app.filtered_accounts().contains(row) implies app.accounts.contains(
        row,
    ) by {
        app.accounts.lemma_filter_contains_rev(p, row);
    }
}

/// Whether an account shows does not depend on the case in which it is
/// searched for.
pub proof fn law_the_case_of_a_search_is_nothing(app: AppView, search: Seq<char>)
    requires
        search.len() > 0,
        app.search.len() > 0,
        lowercase_text(search) == lowercase_text(app.search),
    ensures
        (AppView { search, ..app }).filtered_accounts() == app.filtered_accounts(),
        (AppView { search, ..app }).filtered_transactions() == app.filtered_transactions(),
{
    lemma_case_of_accounts(app.accounts, search, app.search);
    if let ScreenView::Register(account) = app.view {
        lemma_case_of_transactions(
            app.transactions,
            Filters { account, date_from: app.date_from, date_to: app.date_to, search },
            Filters { account, date_from: app.date_from, date_to: app.date_to, search: app.search },
        );
    }
}

proof fn lemma_case_of_accounts(accounts: Seq<BalanceView>, a: Seq<char>, b: Seq<char>)
    requires
        a.len() > 0,
        b.len() > 0,
        lowercase_text(a) == lowercase_text(b),
    ensures
        matching_accounts(accounts, a) == matching_accounts(accounts, b),
    decreases accounts.len(),
{
    if accounts.len() > 0 {
        lemma_case_of_accounts(accounts.drop_last(), a, b);
    }
}

proof fn lemma_case_of_transactions(transactions: Seq<TransactionView>, a: Filters, b: Filters)
    requires
        a.account == b.account,
        a.date_from == b.date_from,
        a.date_to == b.date_to,
        a.search.len() > 0,
        b.search.len() > 0,
        lowercase_text(a.search) == lowercase_text(b.search),
    ensures
        matching_transactions(transactions, a) == matching_transactions(transactions, b),
    decreases transactions.len(),
{
    if transactions.len() > 0 {
        lemma_case_of_transactions(transactions.drop_last(), a, b);
    }
}

/// Whether a transaction belongs into the register of an account: it has an
/// entry of the account, was posted no earlier than the first date and no
/// later than the last, where there are such, and the search finds its memo.
pub open spec fn belongs(app: AppView, account: Seq<char>, tx: TransactionView) -> bool {
    &&& exists|k: int| 0 <= k < tx.entries.len() && (#[trigger] tx.entries[k]).account == account
    &&& app.date_from is Some ==> app.date_from->0 <= tx.posted_at
    &&& app.date_to is Some ==> tx.posted_at <= app.date_to->0
    &&& finds(app.search, tx.memo)
}

proof fn lemma_matching_transactions(
    transactions: Seq<TransactionView>,
    app: AppView,
    account: Seq<char>,
)
    ensures
        matching_transactions(
            transactions,
            Filters { account, date_from: app.date_from, date_to: app.date_to, search: app.search },
        ) == transactions.filter(|tx: TransactionView| belongs(app, account, tx)),
    decreases transactions.len(),
{
    let filters = Filters {
        account,
        date_from: app.date_from,
        date_to: app.date_to,
        search: app.search,
    };
    reveal(Seq::filter);
    if transactions.len() > 0 {
        lemma_matching_transactions(transactions.drop_last(), app, account);
        lemma_passes(app.search, transactions.last().memo);
    } else {
        assert(matching_transactions(transactions, filters) =~= transactions);
    }
}

/// A register shows the transactions that belong into it, all of them, in
/// their order.
pub proof fn law_a_register_shows_what_belongs_into_it(app: AppView, account: Seq<char>)
    requires
        app.view == ScreenView::Register(account),
    ensures
        app.filtered_transactions() == app.transactions.filter(
            |tx: TransactionView| belongs(app, account, tx),
        ),
        forall|i: int|
            0 <= i < app.transactions.len() ==> (app.filtered_transactions().contains(
                #[trigger] app.transactions[i],
            ) <==> belongs(app, account, app.transactions[i])),
        forall|i: int|
            0 <= i < app.filtered_transactions().len() ==> belongs(
                app,
                account,
                #[trigger] app.filtered_transactions()[i],
            ) && app.transactions.contains(app.filtered_transactions()[i]),
{
    let p = |tx: TransactionView| belongs(app, account, tx);
    lemma_matching_transactions(app.transactions, app, account);
    assert forall|i: int| 0 <= i < app.transactions.len() implies (
    app.filtered_transactions().contains(#[trigger] app.transactions[i]) <==> belongs(
        app,
        account,
        app.transactions[i],
    )) by {
        if belongs(app, account, app.transactions[i]) {
            app.transactions.lemma_filter_contains(p, i);
        }
        if app.transactions.filter(p).contains(app.transactions[i]) {
            let k = app.transactions.filter(p).index_of(app.transactions[i]);
            app.transactions.lemma_filter_pred(p, k);
        }
    }
    assert forall|i: int| 0 <= i < app.filtered_transactions().len() implies belongs(
        app,
        account,
        #[trigger] app.filtered_transactions()[i],
    ) && app.transactions.contains(app.filtered_transactions()[i]) by {
        app.transactions.lemma_filter_pred(p, i);
        app.transactions.lemma_filter_contains_rev(p, app.transactions.filter(p)[i]);
    }
}

proof fn lemma_first_amount(entries: Seq<EntryView>, account: Seq<char>, k: int)
    requires
        0 <= k < entries.len(),
        entries[k].account == account,
        forall|j: int| 0 <= j < k ==> (#[trigger] entries[j]).account != account,
    ensures
        first_amount(entries, account) == entries[k].amount,
    decreases k,
{
    if k > 0 {
        let rest = entries.drop_first();
        assert(entries[0].account != account);
        assert forall|j: int| 0 <= j < k - 1 implies (#[trigger] rest[j]).account != account by {
            assert(rest[j] == entries[j + 1]);
        }
        assert(rest[k - 1] == entries[k]);
        lemma_first_amount(rest, account, k - 1);
    }
}

/// A register has a row for each transaction that shows, with its date, its
/// memo and the amount of the first of its entries that is of the account
/// itself, wherever among the entries that stands. Where no other entry is of
/// the account, that is the one.
pub proof fn law_a_register_row_shows_an_entry_of_the_account(app: AppView, account: Seq<char>)
    requires
        app.view == ScreenView::Register(account),
    ensures
        app.register_rows(account).len() == app.filtered_transactions().len(),
        forall|i: int|
            0 <= i < app.filtered_transactions().len() ==> {
                let tx = #[trigger] app.filtered_transactions()[i];
                let row = app.register_rows(account)[i];
                &&& row.0 == date_text(tx.posted_at)
                &&& row.1 == tx.memo
                &&& exists|k: int|
                    0 <= k < tx.entries.len() && (#[trigger] tx.entries[k]).account == account
                        && row.2 == money_text(tx.entries[k].amount)
            },
        forall|i: int, k: int|
            0 <= i < app.filtered_transactions().len() && 0 <= k
                < app.filtered_transactions()[i].entries.len() && (
            #[trigger] app.filtered_transactions()[i].entries[k]).account == account && (forall|
                j: int,
            |
                0 <= j < k ==> (#[trigger] app.filtered_transactions()[i].entries[j]).account
                    != account) ==> app.register_rows(account)[i].2 == money_text(
                app.filtered_transactions()[i].entries[k].amount,
            ),
{
    law_a_register_shows_what_belongs_into_it(app, account);
    let shown = app.filtered_transactions();
    assert forall|i: int, k: int|
        0 <= i < shown.len() && 0 <= k < shown[i].entries.len() && (
        #[trigger] shown[i].entries[k]).account == account && (forall|j: int|
            0 <= j < k ==> (#[trigger] shown[i].entries[j]).account != account) implies app.register_rows(
        account,
    )[i].2 == money_text(shown[i].entries[k].amount) by {
        lemma_first_amount(shown[i].entries, account, k);
    }
    assert forall|i: int| 0 <= i < shown.len() implies {
        let tx = #[trigger] shown[i];
        let row = app.register_rows(account)[i];
        &&& row.0 == date_text(tx.posted_at)
        &&& row.1 == tx.memo
        &&& exists|k: int|
            0 <= k < tx.entries.len() && (#[trigger] tx.entries[k]).account == account && row.2
                == money_text(tx.entries[k].amount)
    } by {
        let tx = shown[i];
        assert(belongs(app, account, shown[i]));
        let any = choose|k: int|
            0 <= k < tx.entries.len() && (#[trigger] tx.entries[k]).account == account;
        let k = lemma_first_of(tx.entries, account, any);
        lemma_first_amount(tx.entries, account, k);
        assert(tx.entries[k].account == account);
    }
}

proof fn lemma_first_of(entries: Seq<EntryView>, account: Seq<char>, any: int) -> (k: int)
    requires
        0 <= any < entries.len(),
        entries[any].account == account,
    ensures
        0 <= k <= any,
        entries[k].account == account,
        forall|j: int| 0 <= j < k ==> (#[trigger] entries[j]).account != account,
    decreases any,
{
    if exists|j: int| 0 <= j < any && (#[trigger] entries[j]).account == account {
        let j = choose|j: int| 0 <= j < any && (#[trigger] entries[j]).account == account;
        lemma_first_of(entries, account, j)
    } else {
        any
    }
}

/// The table of accounts has a row for each account that shows, with its id
/// and its own balance.
pub proof fn law_account_rows_show_balances(app: AppView)
    ensures
        app.account_rows().len() == app.filtered_accounts().len(),
        forall|i: int|
            0 <= i < app.filtered_accounts().len() ==> (#[trigger] app.account_rows()[i]).0
                == app.filtered_accounts()[i].id && app.account_rows()[i].1 == money_text(
                app.filtered_accounts()[i].balance,
            ),
{
}

/// The row of an account: its class, and its balance, or nothing where it
/// has no entries.
pub open spec fn row_of(
    account: (Seq<char>, AccountClass),
    balances: Map<Seq<char>, Dec>,
) -> BalanceView {
    BalanceView {
        id: account.0,
        class: account.1,
        balance: if balances.dom().contains(account.0) {
            balances[account.0]
        } else {
            Dec { mantissa: 0, scale: 0 }
        },
    }
}

proof fn lemma_with_account(rows: Seq<BalanceView>, row: BalanceView)
    ensures
        with_account(rows, row).to_multiset() == rows.to_multiset().insert(row),
    decreases rows.len(),
{
    broadcast use vstd::seq_lib::group_to_multiset_ensures;

    if rows.len() > 0 && crate::text::precedes(row.id, rows.last().id) {
        let t = rows.drop_last();
        lemma_with_account(t, row);
        assert(rows =~= t.push(rows.last()));
        assert(with_account(rows, row).to_multiset() =~= with_account(t, row).to_multiset().insert(
            rows.last(),
        ));
        assert(with_account(rows, row).to_multiset() =~= rows.to_multiset().insert(row));
    } else {
        assert(rows.push(row).to_multiset() =~= rows.to_multiset().insert(row));
    }
}

/// The accounts show with their own classes and balances, each as often as
/// it is registered, in the order of their ids.
pub proof fn law_every_account_is_listed_with_its_balance(
    accounts: Seq<(Seq<char>, AccountClass)>,
    balances: Map<Seq<char>, Dec>,
)
    ensures
        sorted_accounts(accounts, balances).to_multiset() == Seq::new(
            accounts.len(),
            |i: int| row_of(accounts[i], balances),
        ).to_multiset(),
        is_sorted(sorted_accounts(accounts, balances)),
    decreases accounts.len(),
{
    broadcast use vstd::seq_lib::group_to_multiset_ensures;

    law_accounts_are_sorted(accounts, balances);
    let rows = Seq::new(accounts.len(), |i: int| row_of(accounts[i], balances));
    if accounts.len() > 0 {
        let t = accounts.drop_last();
        law_every_account_is_listed_with_its_balance(t, balances);
        let (id, class) = accounts.last();
        let row = BalanceView { id, class, balance: balance_in(balances, id) };
        lemma_with_account(sorted_accounts(t, balances), row);
        let before = Seq::new(t.len(), |i: int| row_of(t[i], balances));
        assert(rows =~= before.push(row_of(accounts.last(), balances)));
        assert(rows.to_multiset() =~= before.to_multiset().insert(row));
    } else {
        assert(rows =~= sorted_accounts(accounts, balances));
    }
}

/// The class that a preview shows is that of the first account of the id.
pub proof fn law_a_class_is_that_of_the_account(
    accounts: Seq<BalanceView>,
    id: Seq<char>,
    k: int,
)
    requires
        0 <= k < accounts.len(),
        accounts[k].id == id,
        forall|i: int| 0 <= i < k ==> (#[trigger] accounts[i]).id != id,
    ensures
        class_in(accounts, id) == Some(accounts[k].class),
    decreases k,
{
    if k > 0 {
        let rest = accounts.drop_first();
        assert(accounts[0].id != id);
        assert forall|i: int| 0 <= i < k - 1 implies (#[trigger] rest[i]).id != id by {
            assert(rest[i] == accounts[i + 1]);
        }
        assert(rest[k - 1] == accounts[k]);
        law_a_class_is_that_of_the_account(rest, id, k - 1);
    }
}

/// A preview shows no class for an id that no account has.
pub proof fn law_no_account_no_class(accounts: Seq<BalanceView>, id: Seq<char>)
    requires
        forall|i: int| 0 <= i < accounts.len() ==> (#[trigger] accounts[i]).id != id,
    ensures
        class_in(accounts, id) is None,
    decreases accounts.len(),
{
    if accounts.len() > 0 {
        let rest = accounts.drop_first();
        assert(accounts[0].id != id);
        assert forall|i: int| 0 <= i < rest.len() implies (#[trigger] rest[i]).id != id by {
            assert(rest[i] == accounts[i + 1]);
        }
        law_no_account_no_class(rest, id);
    }
}

/// The top line names the account of a register.
pub proof fn law_the_title_names_the_account(app: AppView, account: Seq<char>)
    ensures
        app.view is Accounts ==> app.title() == "ledger"@,
        app.view == ScreenView::Register(account) ==> app.title() == "ledger > "@ + account,
{
}

/// Something is said in place of a table exactly if it has no rows, and of
/// filters only where they leave out what there is.
pub proof fn law_an_empty_table_says_why(app: AppView, account: Seq<char>)
    ensures
        app.empty_message() is None <==> app.list_len() > 0,
        app.view is Accounts && app.accounts.len() == 0 ==> app.empty_message() == Some(
            "no accounts yet — register one with `ledger add`"@,
        ),
        app.view is Accounts && app.list_len() == 0 && app.accounts.len() > 0
            ==> app.empty_message() == Some("no accounts match the current filters"@),
        app.view == ScreenView::Register(account) && app.list_len() == 0 && (exists|
            i: int,
            k: int,
        |
            0 <= i < app.transactions.len() && 0 <= k < app.transactions[i].entries.len() && (
            #[trigger] app.transactions[i].entries[k]).account == account) ==> app.empty_message()
            == Some("no transactions match the current filters"@),
        app.view == ScreenView::Register(account) && app.list_len() == 0 && (forall|
            i: int,
            k: int,
        |
            0 <= i < app.transactions.len() && 0 <= k < app.transactions[i].entries.len() ==> (
            #[trigger] app.transactions[i].entries[k]).account != account) ==> app.empty_message()
            == Some("no transactions yet for this account"@),
{
    if exists|i: int, k: int|
        0 <= i < app.transactions.len() && 0 <= k < app.transactions[i].entries.len() && (
        #[trigger] app.transactions[i].entries[k]).account == account {
        let (i, k) = choose|i: int, k: int|
            0 <= i < app.transactions.len() && 0 <= k < app.transactions[i].entries.len() && (
            #[trigger] app.transactions[i].entries[k]).account == account;
        assert(mentions(app.transactions[i].entries, account));
    }
}

/// The bottom line tells in normal mode which filters there are, and what
/// was done last; while a text is typed it shows the text.
pub proof fn law_the_status_line_tells_the_filters(app: AppView)
    ensures
        app.input_mode is Normal ==> {
            let spans = app.status_line().spans;
            &&& app.search.len() > 0 ==> spans.contains(
                ("/"@ + app.search + " "@, Emphasis::Plain),
            )
            &&& app.date_from is Some ==> spans.contains(
                ("from:"@ + date_text(app.date_from->0) + " "@, Emphasis::Plain),
            )
            &&& app.date_to is Some ==> spans.contains(
                ("to:"@ + date_text(app.date_to->0) + " "@, Emphasis::Plain),
            )
            &&& app.status.len() > 0 ==> spans.contains(
                ("["@ + app.status + "] "@, Emphasis::Plain),
            )
        },
        app.input_mode is Search ==> app.status_line().spans[0].0 == "/"@ + app.input_buffer
            + "  (Enter: confirm, Esc: cancel)"@,
        app.input_mode is DateFrom ==> app.status_line().spans[0].0
            == "from (YYYY-MM-DD, empty to clear): "@ + app.input_buffer
            + "  (Enter: confirm, Esc: cancel)"@,
        app.input_mode is DateTo ==> app.status_line().spans[0].0
            == "to (YYYY-MM-DD, empty to clear): "@ + app.input_buffer
            + "  (Enter: confirm, Esc: cancel)"@,
{
    if app.input_mode is Normal {
        let a = tag("/"@, app.search, " "@);
        let b = date_tag("from:"@, app.date_from);
        let c = date_tag("to:"@, app.date_to);
        let d = tag("["@, app.status, "] "@);
        let spans = app.status_line().spans;
        let n = a.len();
        let m = n + b.len();
        let k = m + c.len();
        if app.search.len() > 0 {
            assert(spans[0] == a[0]);
        }
        if app.date_from is Some {
            assert(spans[n as int] == b[0]);
        }
        if app.date_to is Some {
            assert(spans[m as int] == c[0]);
        }
        if app.status.len() > 0 {
            assert(spans[k as int] == d[0]);
        }
    }
}

/// The box in which accounts are edited has a line for each entry, with the
/// text of its account and its amount, and sets off the selected one alone.
pub proof fn law_the_edit_box_shows_every_entry(app: AppView, state: EditView, today: int, i: int)
    requires
        app.input_mode is EditAccounts || app.input_mode is EditAccountsConfirm,
        app.edit_accounts == Some(state),
        state.buffers.len() == state.entries.len(),
        0 <= i < state.entries.len(),
    ensures
        app.modal(today) matches Some(shown) && shown.lines.len() == state.entries.len() + 2 && {
            let line = shown.lines[i];
            &&& line.spans.len() == 2
            &&& line.spans[0].0 == "  "@ + padded_right(state.buffers[i], 28)
            &&& line.spans[1].0 == padded_left(state.entries[i].amount.text(2), 14)
            &&& line.style is Reversed <==> i == state.selected
        },
{
}

/// The box that asks whether to save shows every entry that is to be posted,
/// with its account and its amount, the memo, and the day.
pub proof fn law_the_save_box_shows_what_is_saved(app: AppView, form: AddView, today: int, i: int)
    requires
        app.input_mode is AddConfirm,
        app.add_transaction == Some(form),
    ensures
        app.modal(today) matches Some(shown) && {
            &&& 0 <= i < form.entries.len() ==> shown.lines[i].spans[0].0 == "  "@ + padded_right(
                form.entries[i].account,
                24,
            ) && shown.lines[i].spans[1].0 == padded_left(
                signed_money_text(form.entries[i].amount),
                12,
            ) + class_suffix(app.accounts, form.entries[i].account)
            &&& form.memo.len() > 0 ==> shown.lines[form.entries.len() as int].spans[0].0
                == "  memo: "@ + form.memo
            &&& shown.lines.last().spans[0].0 == "  Posts today ("@ + date_text(today) + ")"@
        },
{
}

/// The form shows, of both lists, the window of seven accounts from the
/// offset on, each account in its place, with a mark at the one that is
/// picked and at no other; and what was typed.
pub proof fn law_the_form_shows_its_windows(app: AppView, form: AddView, today: int, row: int)
    requires
        app.input_mode is AddTransaction,
        app.add_transaction == Some(form),
        0 <= row < 7,
        0 <= form.from_offset,
        0 <= form.to_offset,
    ensures
        app.modal(today) matches Some(shown) && {
            let line = shown.lines[1 + row];
            let left = form.from_offset + row;
            let right = form.to_offset + row;
            &&& left < form.accounts.len() ==> line.spans[1].0 == padded_right(
                (if left == form.from_index {
                    "> "@
                } else {
                    "  "@
                }) + padded_right(cut(form.accounts[left], 26), 26),
                28,
            )
            &&& left >= form.accounts.len() ==> line.spans[1].0 == padded_right(Seq::empty(), 28)
            &&& right < form.accounts.len() ==> line.spans[3].0 == padded_right(
                (if right == form.to_index {
                    "> "@
                } else {
                    "  "@
                }) + padded_right(cut(form.accounts[right], 26), 26),
                28,
            )
            &&& right >= form.accounts.len() ==> line.spans[3].0 == padded_right(Seq::empty(), 28)
            &&& shown.lines[10].spans[2].0 == form.amount
            &&& shown.lines[11].spans[2].0 == form.memo
            &&& form.error matches Some(e) ==> shown.lines[13].spans[0].0 == "  "@ + e
            &&& 0 <= form.from_index < form.accounts.len() && 0 <= form.to_index
                < form.accounts.len() ==> shown.lines[8].spans[1].0
                == form.accounts[form.from_index] && shown.lines[8].spans[3].0
                == form.accounts[form.to_index]
        },
{
}

/// A command that could not be copied is shown line by line.
pub proof fn law_the_command_box_shows_every_line(
    app: AppView,
    command: Seq<char>,
    today: int,
    i: int,
)
    requires
        app.input_mode is Reconstruct,
        app.reconstruct_cmd == Some(command),
        0 <= i < lines_of(command).len(),
    ensures
        app.modal(today) matches Some(shown) && shown.lines.len() == lines_of(command).len() + 2
            && shown.lines[i].spans[0].0 == lines_of(command)[i],
{
}

/// A box is open exactly while something is asked, edited, filled in or
/// shown in one.
pub proof fn law_a_box_is_open_in_its_mode(app: AppView, today: int)
    ensures
        app.modal(today) is Some <==> {
            ||| app.input_mode is DeleteConfirm
            ||| app.input_mode is Help
            ||| (app.input_mode is EditAccounts || app.input_mode is EditAccountsConfirm)
                && app.edit_accounts is Some
            ||| (app.input_mode is AddTransaction || app.input_mode is AddConfirm)
                && app.add_transaction is Some
            ||| app.input_mode is Reconstruct && app.reconstruct_cmd is Some
        },
{
}

/// The cursor of the terminal stands right behind the text in focus, in the
/// row in which the form shows it, wherever the form has room for that; in a
/// list there is none.
pub proof fn law_the_cursor_stands_behind_the_text(form: AddView, inner: Area)
    ensures
        form.focus is From || form.focus is To ==> form.cursor(inner) is None,
        form.focus is Amount && inner.x + 12 + form.amount.len() < inner.x + inner.width && inner.x
            + inner.width <= u16::MAX && inner.y + 10 <= u16::MAX ==> form.cursor(inner) == Some(
            (inner.x + 12 + form.amount.len(), inner.y + 10),
        ),
        form.focus is Memo && inner.x + 12 + form.memo.len() < inner.x + inner.width && inner.x
            + inner.width <= u16::MAX && inner.y + 11 <= u16::MAX ==> form.cursor(inner) == Some(
            (inner.x + 12 + form.memo.len(), inner.y + 11),
        ),
        form.cursor(inner) matches Some((x, y)) ==> x <= u16::MAX && y <= u16::MAX,
{
}

/// A preview names the class of an account that is registered, in brackets,
/// and nothing for one that is not.
pub proof fn law_a_preview_names_the_class(accounts: Seq<BalanceView>, id: Seq<char>)
    ensures
        class_in(accounts, id) matches Some(class) ==> class_suffix(accounts, id) == " ("@
            + class.name() + ")"@,
        class_in(accounts, id) is None ==> class_suffix(accounts, id).len() == 0,
{
}

/// Whether a cell of the terminal is in an area.
pub open spec fn covers(area: Area, x: int, y: int) -> bool {
    &&& area.x <= x < area.x + area.width
    &&& area.y <= y < area.y + area.height
}

/// What two areas have in common is the cells that are in both.
pub proof fn law_common_cells_are_in_both(common: Area, a: Area, b: Area, x: int, y: int)
    requires
        common.is_common(a, b),
        x < u16::MAX,
        y < u16::MAX,
    ensures
        covers(common, x, y) <==> covers(a, x, y) && covers(b, x, y),
{
}

} // verus!
