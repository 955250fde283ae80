//! What holds of the keys of the terminal interface.

use vstd::prelude::*;

use crate::account_id::{id_read, AccountIdError};
use crate::book::TransactionView;
use crate::decimal::{amount_read, Dec};
use crate::model::{debug_text, AccountClass};
use crate::reconstruct::add_command;
use crate::text::{trimmed, without_line_ends};
use crate::time::{date_read, date_text};
use crate::tui::{
    classes_of, sorted_accounts, ActionView, AddField, AddView, AppView, BalanceView, Change,
    EditView, InputMode, Key, KeyCode, ScreenView,
};
use crate::tui_app::BooksView;
use crate::tui_laws::stands_in;

verus! {

/// The key alone, without Control.
pub open spec fn plain(code: KeyCode) -> Key {
    Key { code, control: false }
}

/// Whether two states hold the same books.
pub open spec fn same_books(a: AppView, b: AppView) -> bool {
    a.accounts == b.accounts && a.transactions == b.transactions
}

/// Whether two states have the same filters.
pub open spec fn same_filters(a: AppView, b: AppView) -> bool {
    a.search == b.search && a.date_from == b.date_from && a.date_to == b.date_to
}

/// No key changes the books that show: they change only by what comes back
/// from outside.
pub proof fn law_keys_leave_the_books(app: AppView, key: Key, id: u128, today: int)
    ensures
        same_books(app.pressed(key, id, today).0, app),
{
}

/// Nothing ends the session but Control with `c`, and `q` in normal mode.
pub proof fn law_only_two_keys_quit(app: AppView, key: Key, id: u128, today: int)
    ensures
        app.pressed(key, id, today).1 is Quit <==> (key.control && key.code == KeyCode::Char('c'))
            || (app.input_mode is Normal && key.code == KeyCode::Char('q')),
        app.pressed(key, id, today).1 is Quit ==> app.pressed(key, id, today).0 == app,
{
}

/// The books are read again with `r` in normal mode and with no other key,
/// which changes nothing by itself.
pub proof fn law_only_one_key_reloads(app: AppView, key: Key, id: u128, today: int)
    ensures
        app.pressed(key, id, today).1 is Reload <==> app.input_mode is Normal && key.code
            == KeyCode::Char('r'),
        app.pressed(key, id, today).1 is Reload ==> app.pressed(key, id, today).0 == app,
        !(app.pressed(key, id, today).1 is ReloadAfter),
{
}

/// A step down goes to the next row, and from the last to the first; a step
/// up goes to the row before, and from the first to the last. Without rows
/// there is no cursor. Nothing else changes.
pub proof fn law_steps_go_to_the_neighbour(app: AppView, code: KeyCode, id: u128, today: int)
    requires
        app.input_mode is Normal,
        app.selected matches Some(i) ==> 0 <= i < app.list_len(),
    ensures
        code == KeyCode::Down || code == KeyCode::Char('j') ==> {
            let (next, action) = app.pressed(plain(code), id, today);
            &&& action is Nothing
            &&& next == (AppView { selected: next.selected, ..app })
            &&& app.list_len() == 0 ==> next.selected is None
            &&& app.list_len() > 0 ==> next.selected == Some(
                if app.selected is Some && app.selected->0 + 1 < app.list_len() {
                    app.selected->0 + 1
                } else if app.selected is None && app.list_len() > 1 {
                    1
                } else {
                    0
                },
            )
        },
        code == KeyCode::Up || code == KeyCode::Char('k') ==> {
            let (next, action) = app.pressed(plain(code), id, today);
            &&& action is Nothing
            &&& next == (AppView { selected: next.selected, ..app })
            &&& app.list_len() == 0 ==> next.selected is None
            &&& app.list_len() > 0 ==> next.selected == Some(
                if app.selected is Some && app.selected->0 > 0 {
                    app.selected->0 - 1
                } else {
                    app.list_len() - 1
                },
            )
        },
{
    let len = app.list_len() as int;
    if len > 0 {
        let i = match app.selected {
            Some(i) => i,
            None => 0,
        };
        crate::tui::lemma_step(i, len);
        vstd::arithmetic::div_mod::lemma_small_mod(i as nat, len as nat);
    }
}

/// The number of rows is that of the accounts that show, or of the
/// transactions of a register.
pub proof fn law_rows_are_counted(app: AppView)
    ensures
        app.view is Accounts ==> app.list_len() == app.filtered_accounts().len(),
        app.view is Register ==> app.list_len() == app.filtered_transactions().len(),
{
}

/// Whether the cursor is where it goes when a table is new: on its first
/// row, if it has one.
pub open spec fn starts_at_top(app: AppView) -> bool {
    app.selected == if app.list_len() > 0 {
        Some(0int)
    } else {
        None
    }
}

/// With `/`, `f` and `t` a text can be changed that is the search, the first
/// date or the last, as it is now.
pub proof fn law_filters_are_changed_from_what_they_are(app: AppView, id: u128, today: int)
    requires
        app.input_mode is Normal,
    ensures
        app.pressed(plain(KeyCode::Char('/')), id, today) == (
            AppView { input_mode: InputMode::Search, input_buffer: app.search, ..app },
            ActionView::Nothing,
        ),
        app.pressed(plain(KeyCode::Char('f')), id, today) == (
            AppView {
                input_mode: InputMode::DateFrom,
                input_buffer: if app.date_from is Some {
                    date_text(app.date_from->0)
                } else {
                    Seq::empty()
                },
                ..app
            },
            ActionView::Nothing,
        ),
        app.pressed(plain(KeyCode::Char('t')), id, today) == (
            AppView {
                input_mode: InputMode::DateTo,
                input_buffer: if app.date_to is Some {
                    date_text(app.date_to->0)
                } else {
                    Seq::empty()
                },
                ..app
            },
            ActionView::Nothing,
        ),
{
}

/// Whether a text is being typed that changes a filter.
pub open spec fn is_typing(app: AppView) -> bool {
    app.input_mode is Search || app.input_mode is DateFrom || app.input_mode is DateTo
}

/// What is typed is what was typed with the character behind it, and
/// Backspace takes the last character away. Nothing else changes, no filter
/// either.
pub proof fn law_typing_builds_the_text(app: AppView, c: char, id: u128, today: int)
    requires
        is_typing(app),
    ensures
        app.pressed(plain(KeyCode::Char(c)), id, today) == (
            AppView { input_buffer: app.input_buffer.push(c), ..app },
            ActionView::Nothing,
        ),
        app.pressed(plain(KeyCode::Backspace), id, today).1 is Nothing,
        app.input_buffer.len() > 0 ==> app.pressed(plain(KeyCode::Backspace), id, today).0 == (
        AppView { input_buffer: app.input_buffer.drop_last(), ..app }),
        app.input_buffer.len() == 0 ==> app.pressed(plain(KeyCode::Backspace), id, today).0 == app,
        app.pressed(plain(KeyCode::Char(c)), id, today).0.pressed(
            plain(KeyCode::Backspace),
            id,
            today,
        ).0 == app,
{
    assert(app.input_buffer.push(c).drop_last() =~= app.input_buffer);
}

/// Escape leaves every filter, the table and the cursor as they were.
pub proof fn law_escape_keeps_the_filters(app: AppView, id: u128, today: int)
    requires
        is_typing(app),
    ensures
        app.pressed(plain(KeyCode::Esc), id, today) == (
            AppView { input_mode: InputMode::Normal, input_buffer: Seq::empty(), ..app },
            ActionView::Nothing,
        ),
{
}

/// Whether a date filter is what was typed: the date that the text gives
/// without the white space around it, and none where it gives none.
pub open spec fn is_date_typed(text: Seq<char>, date: Option<int>) -> bool {
    match date {
        Some(t) => trimmed(text).len() > 0 && date_read(trimmed(text)) == Ok::<int, Seq<char>>(t),
        None => trimmed(text).len() == 0 || date_read(trimmed(text)) is Err,
    }
}

/// Enter puts what was typed to its use, and changes the one filter that it
/// was typed for: the search is the text as it was typed, a date the one that
/// it gives. The cursor goes to the first row of what then shows.
pub proof fn law_enter_sets_one_filter(app: AppView, id: u128, today: int)
    requires
        is_typing(app),
    ensures
        ({
            let (next, action) = app.pressed(plain(KeyCode::Enter), id, today);
            &&& action is Nothing
            &&& next.input_mode is Normal
            &&& next.input_buffer.len() == 0
            &&& same_books(next, app)
            &&& next.view == app.view
            &&& next.status == app.status
            &&& starts_at_top(next)
            &&& app.input_mode is Search ==> next.search == app.input_buffer && next.date_from
                == app.date_from && next.date_to == app.date_to
            &&& app.input_mode is DateFrom ==> is_date_typed(app.input_buffer, next.date_from)
                && next.search == app.search && next.date_to == app.date_to
            &&& app.input_mode is DateTo ==> is_date_typed(app.input_buffer, next.date_to)
                && next.search == app.search && next.date_from == app.date_from
        }),
{
}

/// With `c` all filters are gone, and nothing else of what shows.
pub proof fn law_clearing_clears_every_filter(app: AppView, id: u128, today: int)
    requires
        app.input_mode is Normal,
    ensures
        ({
            let (next, action) = app.pressed(plain(KeyCode::Char('c')), id, today);
            &&& action is Nothing
            &&& next.search.len() == 0
            &&& next.date_from is None
            &&& next.date_to is None
            &&& next.view == app.view
            &&& next.input_mode is Normal
            &&& next.status == "filters cleared"@
            &&& starts_at_top(next)
            &&& next.filtered_accounts() == app.accounts
        }),
{
    crate::tui::law_no_search_shows_all(app.accounts);
    let next = app.pressed(plain(KeyCode::Char('c')), id, today).0;
    assert(next.search =~= Seq::empty());
}

/// Enter on an account opens its register, under the filters as they are,
/// with the cursor on its first row; Escape leads back to the accounts.
pub proof fn law_enter_opens_the_register_under_the_cursor(app: AppView, id: u128, today: int)
    requires
        app.input_mode is Normal,
    ensures
        ({
            let (next, action) = app.pressed(plain(KeyCode::Enter), id, today);
            &&& action is Nothing
            &&& same_filters(next, app)
            &&& next.input_mode is Normal
            &&& app.view is Accounts && app.selected is Some && 0 <= app.selected->0
                < app.filtered_accounts().len() ==> next.view == ScreenView::Register(
                app.filtered_accounts()[app.selected->0].id,
            ) && starts_at_top(next)
            &&& app.view is Register || app.selected is None ==> next == app
        }),
        ({
            let (next, action) = app.pressed(plain(KeyCode::Esc), id, today);
            &&& action is Nothing
            &&& same_filters(next, app)
            &&& next.input_mode is Normal
            &&& app.view is Register ==> next.view is Accounts && starts_at_top(next)
            &&& app.view is Accounts ==> next == app
        }),
{
}

/// Whether a transaction is the one under the cursor of a register.
pub open spec fn is_under_cursor(app: AppView, tx: TransactionView) -> bool {
    &&& app.view is Register
    &&& app.selected is Some
    &&& 0 <= app.selected->0 < app.filtered_transactions().len()
    &&& app.filtered_transactions()[app.selected->0] == tx
}

/// With `D` and a `y` behind it the transaction under the cursor is deleted,
/// that one and no other.
pub proof fn law_delete_takes_the_row_under_the_cursor(
    app: AppView,
    tx: TransactionView,
    yes: KeyCode,
    id: u128,
    today: int,
)
    requires
        app.input_mode is Normal,
        is_under_cursor(app, tx),
        yes == KeyCode::Char('y') || yes == KeyCode::Char('Y'),
    ensures
        ({
            let asked = app.pressed(plain(KeyCode::Char('D')), id, today);
            &&& asked == (
                AppView { input_mode: InputMode::DeleteConfirm, ..app },
                ActionView::Nothing,
            )
            &&& asked.0.pressed(plain(yes), id, today) == (asked.0, ActionView::Delete(tx.id))
        }),
{
    let asked = app.pressed(plain(KeyCode::Char('D')), id, today).0;
    assert(asked.filtered_transactions() == app.filtered_transactions());
}

/// With `n`, Escape or Enter nothing is deleted.
pub proof fn law_a_declined_delete_deletes_nothing(
    app: AppView,
    no: KeyCode,
    id: u128,
    today: int,
)
    requires
        app.input_mode is DeleteConfirm,
        no == KeyCode::Char('n') || no == KeyCode::Char('N') || no == KeyCode::Esc || no
            == KeyCode::Enter,
    ensures
        app.pressed(plain(no), id, today) == (
            AppView { input_mode: InputMode::Normal, status: "delete cancelled"@, ..app },
            ActionView::Nothing,
        ),
{
}

/// Without a transaction under the cursor there is nothing to delete, to
/// edit or to copy.
pub proof fn law_nothing_is_done_without_a_transaction(
    app: AppView,
    code: KeyCode,
    id: u128,
    today: int,
)
    requires
        app.input_mode is Normal,
        app.view is Accounts || app.selected is None,
        code == KeyCode::Char('D') || code == KeyCode::Char('C') || code == KeyCode::Char('y'),
    ensures
        app.pressed(plain(code), id, today) == (app, ActionView::Nothing),
{
}

/// With `C` the accounts of the transaction under the cursor can be edited:
/// each text begins as the account that it stands for.
pub proof fn law_editing_begins_with_the_transaction(
    app: AppView,
    tx: TransactionView,
    id: u128,
    today: int,
)
    requires
        app.input_mode is Normal,
        is_under_cursor(app, tx),
    ensures
        ({
            let (next, action) = app.pressed(plain(KeyCode::Char('C')), id, today);
            &&& action is Nothing
            &&& next.input_mode is EditAccounts
            &&& next.edit_accounts matches Some(state) && {
                &&& state.id == tx.id
                &&& state.posted_at == tx.posted_at
                &&& state.memo == tx.memo
                &&& state.entries == tx.entries
                &&& state.selected == 0
                &&& state.buffers.len() == tx.entries.len()
                &&& forall|i: int|
                    0 <= i < tx.entries.len() ==> #[trigger] state.buffers[i]
                        == tx.entries[i].account
            }
        }),
{
}

/// While accounts are edited, a character goes to the text of the selected
/// entry, Backspace takes its last away, and no other text changes.
pub proof fn law_editing_changes_the_selected_text(
    app: AppView,
    state: EditView,
    c: char,
    id: u128,
    today: int,
)
    requires
        app.input_mode is EditAccounts,
        app.edit_accounts == Some(state),
        0 <= state.selected < state.buffers.len(),
        c != 'j' && c != 'k',
    ensures
        app.pressed(plain(KeyCode::Char(c)), id, today).0.edit_accounts == Some(
            EditView {
                buffers: state.buffers.update(
                    state.selected,
                    state.buffers[state.selected].push(c),
                ),
                ..state
            },
        ),
        state.buffers[state.selected].len() > 0 ==> app.pressed(
            plain(KeyCode::Backspace),
            id,
            today,
        ).0.edit_accounts == Some(
            EditView {
                buffers: state.buffers.update(
                    state.selected,
                    state.buffers[state.selected].drop_last(),
                ),
                ..state
            },
        ),
{
}

proof fn lemma_renamed(state: EditView, n: int)
    requires
        0 <= n <= state.entries.len(),
        state.buffers.len() == state.entries.len(),
    ensures
        state.renamed(n) is Ok <==> forall|i: int|
            0 <= i < n ==> id_read(#[trigger] state.buffers[i]) is Ok,
        state.renamed(n) matches Ok(entries) ==> entries.len() == n && forall|i: int|
            0 <= i < n ==> (#[trigger] entries[i]).amount == state.entries[i].amount && id_read(
                state.buffers[i],
            ) == Ok::<Seq<char>, AccountIdError>(entries[i].account),
    decreases n,
{
    if n > 0 {
        lemma_renamed(state, n - 1);
        if state.renamed(n) is Err && state.renamed(n - 1) is Ok {
            assert(id_read(state.buffers[n - 1]) is Err);
        }
    }
}

/// Edited accounts are stored with a `y`: the transaction is the one that
/// was edited, with its id, date, memo and amounts, and each of its accounts
/// is the one that its text gives. That needs every text to give one.
pub proof fn law_edited_accounts_are_those_typed(
    app: AppView,
    state: EditView,
    yes: KeyCode,
    id: u128,
    today: int,
)
    requires
        app.input_mode is EditAccountsConfirm,
        app.edit_accounts == Some(state),
        state.buffers.len() == state.entries.len(),
        yes == KeyCode::Char('y') || yes == KeyCode::Char('Y'),
    ensures
        ({
            let (next, action) = app.pressed(plain(yes), id, today);
            let readable = forall|i: int|
                0 <= i < state.buffers.len() ==> id_read(#[trigger] state.buffers[i]) is Ok;
            &&& action matches ActionView::Replace(tx) ==> {
                &&& tx.id == state.id
                &&& tx.posted_at == state.posted_at
                &&& tx.memo == state.memo
                &&& tx.kind is Normal
                &&& tx.entries.len() == state.entries.len()
                &&& forall|i: int|
                    0 <= i < tx.entries.len() ==> (#[trigger] tx.entries[i]).amount
                        == state.entries[i].amount && id_read(state.buffers[i]) == Ok::<
                        Seq<char>,
                        AccountIdError,
                    >(tx.entries[i].account)
            }
            &&& !readable ==> action is Nothing && next.input_mode is EditAccounts
                && next.edit_accounts == app.edit_accounts
            &&& readable ==> {
                let sum = crate::sums::total(crate::book::amounts(state.entries)).unwrap();
                if state.entries.len() >= 2 && sum.mantissa == 0 {
                    action is Replace
                } else {
                    action is Nothing && next.edit_accounts == app.edit_accounts
                }
            }
        }),
{
    let n = state.entries.len() as int;
    lemma_renamed(state, n);
    if let Ok(entries) = state.renamed(n) {
        assert(crate::book::amounts(entries) =~= crate::book::amounts(state.entries));
    }
}

/// With `a` the form for a new transaction is open: it lists all accounts in
/// their order, and nothing is filled in.
pub proof fn law_the_form_lists_every_account(app: AppView, id: u128, today: int)
    requires
        app.input_mode is Normal,
    ensures
        ({
            let (next, action) = app.pressed(plain(KeyCode::Char('a')), id, today);
            &&& action is Nothing
            &&& next.input_mode is AddTransaction
            &&& next.add_transaction matches Some(form) && {
                &&& form.accounts.len() == app.accounts.len()
                &&& forall|i: int|
                    0 <= i < app.accounts.len() ==> #[trigger] form.accounts[i]
                        == app.accounts[i].id
                &&& form.from_index == 0
                &&& app.accounts.len() >= 2 ==> form.to_index == 1
                &&& form.amount.len() == 0
                &&& form.memo.len() == 0
                &&& form.focus is From
                &&& form.error is None
            }
        }),
{
}

/// Whether the form can be saved: it lists two accounts or more, the two that
/// are picked are there and differ, and the amount can be read and is not
/// zero.
pub open spec fn can_be_saved(form: AddView) -> bool {
    &&& form.accounts.len() >= 2
    &&& 0 <= form.from_index < form.accounts.len()
    &&& 0 <= form.to_index < form.accounts.len()
    &&& form.accounts[form.from_index] != form.accounts[form.to_index]
    &&& amount_read(trimmed(form.amount)) is Ok
    &&& amount_read(trimmed(form.amount))->Ok_0.mantissa != 0
}

/// Enter on the last field of the form asks whether to save exactly if the
/// form can be saved; else it says what is wrong. A `y` then saves what the
/// form describes: the amount goes from the account that is picked on the
/// left to the one on the right, today, with the memo that was typed.
pub proof fn law_the_form_moves_money_from_left_to_right(
    app: AppView,
    form: AddView,
    id: u128,
    today: int,
)
    requires
        app.input_mode is AddTransaction,
        app.add_transaction == Some(form),
        form.focus is Memo,
    ensures
        ({
            let (asked, action) = app.pressed(plain(KeyCode::Enter), id, today);
            &&& action is Nothing
            &&& can_be_saved(form) <==> asked.input_mode is AddConfirm
            &&& !can_be_saved(form) ==> asked.input_mode is AddTransaction && (
            asked.add_transaction matches Some(same) && same.error is Some && same == (AddView {
                error: same.error,
                ..form
            }))
            &&& can_be_saved(form) ==> (asked.pressed(
                plain(KeyCode::Char('y')),
                id,
                today,
            ).1 matches ActionView::Save(tx) ==> {
                let amount = amount_read(trimmed(form.amount))->Ok_0;
                &&& tx.id == id
                &&& tx.posted_at == today
                &&& tx.memo == form.memo
                &&& tx.kind is Normal
                &&& tx.entries.len() == 2
                &&& tx.entries[0].account == form.accounts[form.from_index]
                &&& tx.entries[0].amount == amount.negated()
                &&& tx.entries[1].account == form.accounts[form.to_index]
                &&& tx.entries[1].amount == amount
            })
            &&& can_be_saved(form) && amount_read(trimmed(form.amount))->Ok_0.wf() ==> asked.pressed(
                plain(KeyCode::Char('y')),
                id,
                today,
            ).1 is Save
        }),
{
    if can_be_saved(form) && amount_read(trimmed(form.amount))->Ok_0.wf() {
        let amount = amount_read(trimmed(form.amount))->Ok_0;
        let entries = app.pressed(plain(KeyCode::Enter), id, today).0.add_transaction->0.entries;
        let s = crate::book::amounts(entries);
        assert(s =~= seq![amount.negated(), amount]);
        lemma_two_cancel(amount);
    }
}

proof fn lemma_two_cancel(amount: Dec)
    requires
        amount.wf(),
    ensures
        crate::sums::total(seq![amount.negated(), amount]) matches Some(t) && t.mantissa == 0,
{
    let s = seq![amount.negated(), amount];
    assert(s =~= Seq::empty().push(amount.negated()).push(amount));
    crate::sums::lemma_total_push(Seq::empty(), amount.negated());
    crate::sums::lemma_total_push(Seq::empty().push(amount.negated()), amount);
    crate::decimal::lemma_opposites_cancel(amount);
}

/// Tab goes through the fields of the form in their order and round, and so
/// does Enter, but for the last, and what is filled in stays.
pub proof fn law_tab_goes_to_the_next_field(app: AppView, form: AddView, id: u128, today: int)
    requires
        app.input_mode is AddTransaction,
        app.add_transaction == Some(form),
    ensures
        ({
            let next = match form.focus {
                AddField::From => AddField::To,
                AddField::To => AddField::Amount,
                AddField::Amount => AddField::Memo,
                AddField::Memo => AddField::From,
            };
            let moved = AppView {
                add_transaction: Some(AddView { focus: next, error: None, ..form }),
                ..app
            };
            &&& app.pressed(plain(KeyCode::Tab), id, today) == (moved, ActionView::Nothing)
            &&& !(form.focus is Memo) ==> app.pressed(plain(KeyCode::Enter), id, today) == (
                moved,
                ActionView::Nothing,
            )
        }),
{
}

/// In the form a character goes to the amount or to the memo, whichever is
/// in focus, and Backspace takes the last away; nothing else that is filled
/// in changes.
pub proof fn law_the_form_takes_what_is_typed(
    app: AppView,
    form: AddView,
    c: char,
    id: u128,
    today: int,
)
    requires
        app.input_mode is AddTransaction,
        app.add_transaction == Some(form),
    ensures
        form.focus is Amount ==> app.pressed(plain(KeyCode::Char(c)), id, today).0.add_transaction
            == Some(AddView { amount: form.amount.push(c), error: None, ..form }),
        form.focus is Memo ==> app.pressed(plain(KeyCode::Char(c)), id, today).0.add_transaction
            == Some(AddView { memo: form.memo.push(c), error: None, ..form }),
        form.focus is Amount && form.amount.len() > 0 ==> app.pressed(
            plain(KeyCode::Backspace),
            id,
            today,
        ).0.add_transaction == Some(
            AddView { amount: form.amount.drop_last(), error: None, ..form },
        ),
        form.focus is Memo && form.memo.len() > 0 ==> app.pressed(
            plain(KeyCode::Backspace),
            id,
            today,
        ).0.add_transaction == Some(AddView { memo: form.memo.drop_last(), error: None, ..form }),
{
}

/// In a list of the form a step goes to the next or the last account, round
/// and round, and the window keeps the account in it that is picked. The
/// other list, the amount and the memo stay.
pub proof fn law_the_form_picks_the_neighbour(
    app: AppView,
    form: AddView,
    down: bool,
    id: u128,
    today: int,
)
    requires
        app.input_mode is AddTransaction,
        app.add_transaction == Some(form),
        form.focus is From || form.focus is To,
        0 <= form.from_index < form.accounts.len(),
        0 <= form.to_index < form.accounts.len(),
    ensures
        ({
            let last = form.accounts.len() - 1;
            let arrow = if down {
                KeyCode::Down
            } else {
                KeyCode::Up
            };
            let letter = if down {
                KeyCode::Char('j')
            } else {
                KeyCode::Char('k')
            };
            let picked = |i: int|
                if down {
                    if i == last {
                        0
                    } else {
                        i + 1
                    }
                } else if i == 0 {
                    last
                } else {
                    i - 1
                };
            let next = app.pressed(plain(arrow), id, today);
            &&& next.1 is Nothing
            &&& app.pressed(plain(letter), id, today) == next
            &&& next.0.add_transaction matches Some(after) && {
                &&& form.focus is From ==> after == (AddView {
                    from_index: picked(form.from_index),
                    from_offset: after.from_offset,
                    ..form
                }) && after.from_offset <= after.from_index < after.from_offset + 7
                &&& form.focus is To ==> after == (AddView {
                    to_index: picked(form.to_index),
                    to_offset: after.to_offset,
                    ..form
                }) && after.to_offset <= after.to_index < after.to_offset + 7
            }
        }),
{
    let len = form.accounts.len() as int;
    crate::tui::lemma_step(form.from_index, len);
    crate::tui::lemma_step(form.to_index, len);
    vstd::arithmetic::div_mod::lemma_small_mod(form.from_index as nat, len as nat);
    vstd::arithmetic::div_mod::lemma_small_mod(form.to_index as nat, len as nat);
}

/// With `y` the command for the transaction under the cursor is copied: the
/// one that adds that very transaction, in one line. Where an account has no
/// class that is said instead.
pub proof fn law_the_command_copied_is_that_of_the_row(
    app: AppView,
    tx: TransactionView,
    id: u128,
    today: int,
)
    requires
        app.input_mode is Normal,
        is_under_cursor(app, tx),
    ensures
        ({
            let (next, action) = app.pressed(plain(KeyCode::Char('y')), id, today);
            let known = forall|i: int|
                0 <= i < tx.entries.len() ==> classes_of(app.accounts).dom().contains(
                    (#[trigger] tx.entries[i]).account,
                );
            &&& known ==> next == app && (action matches ActionView::Copy { command, text }
                && command == add_command(tx, classes_of(app.accounts)) && text
                == without_line_ends(command))
            &&& !known ==> action is Nothing && next == (AppView { status: next.status, ..app })
                && exists|i: int|
                0 <= i < tx.entries.len() && !classes_of(app.accounts).dom().contains(
                    (#[trigger] tx.entries[i]).account,
                ) && next.status == "reconstruct failed: "@ + ("unknown account: "@
                    + tx.entries[i].account)
        }),
{
    crate::command_laws::law_an_unknown_account_is_found(tx.entries, classes_of(app.accounts));
}

/// Books that were read take the place of those that show, with the cursor
/// on the first row and the filters as they were; books that could not be
/// read leave everything as it is, and the reason is said.
pub proof fn law_a_reload_shows_what_was_read(
    app: AppView,
    change: Change,
    read: Result<BooksView, Seq<char>>,
)
    ensures
        ({
            let next = app.reloaded(read);
            &&& same_filters(next, app)
            &&& next.view == app.view
            &&& read matches Ok(books) ==> next.transactions == books.transactions
                && next.accounts == sorted_accounts(books.accounts, books.balances)
                && starts_at_top(next) && next.status == "reloaded"@
            &&& read matches Err(e) ==> next == (AppView { status: "reload failed: "@ + e, ..app })
        }),
        ({
            let next = app.reloaded_after(change, read);
            &&& same_filters(next, app)
            &&& next.view == app.view
            &&& next.input_mode is Normal
            &&& starts_at_top(next)
            &&& read matches Ok(books) ==> next.transactions == books.transactions
                && next.accounts == sorted_accounts(books.accounts, books.balances)
                && next.status == (match change {
                Change::Deleted => "transaction deleted"@,
                Change::Updated => "accounts updated"@,
                Change::Added => "transaction added"@,
            })
            &&& read matches Err(e) ==> same_books(next, app) && next.status == "reload failed: "@
                + e
        }),
{
}

/// A change that was made has the books read again; one that was not leaves
/// what shows, and the reason is said.
pub proof fn law_a_change_is_followed_by_a_reload(
    app: AppView,
    change: Change,
    result: Result<(), Seq<char>>,
)
    ensures
        result is Ok ==> app.changed(change, result) == (app, ActionView::ReloadAfter(change)),
        result matches Err(e) ==> app.changed(change, result) == (
            AppView {
                input_mode: InputMode::Normal,
                status: (match change {
                    Change::Deleted => "delete failed: "@,
                    Change::Updated => "update failed: "@,
                    Change::Added => "add failed: "@,
                }) + e,
                ..app
            },
            ActionView::Nothing,
        ),
{
}

/// A command that could not be copied is shown, as it is.
pub proof fn law_a_command_that_is_not_copied_is_shown(
    app: AppView,
    command: Seq<char>,
    result: Result<(), Seq<char>>,
)
    ensures
        result is Ok ==> app.copied(command, result) == (AppView {
            status: "command copied to clipboard"@,
            ..app
        }),
        result is Err ==> ({
            let next = app.copied(command, result);
            &&& next.input_mode is Reconstruct
            &&& next.reconstruct_cmd == Some(command)
            &&& same_books(next, app)
            &&& same_filters(next, app)
            &&& next.view == app.view
            &&& next.selected == app.selected
        }),
{
}

/// Any key closes the help and the command that is shown, and does nothing
/// else.
pub proof fn law_any_key_closes_a_box(app: AppView, code: KeyCode, id: u128, today: int)
    requires
        app.input_mode is Help || app.input_mode is Reconstruct,
    ensures
        ({
            let (next, action) = app.pressed(plain(code), id, today);
            &&& action is Nothing
            &&& next.input_mode is Normal
            &&& next == (AppView {
                input_mode: InputMode::Normal,
                reconstruct_cmd: next.reconstruct_cmd,
                ..app
            })
        }),
{
}

/// The interface begins with the accounts of the books, without filters, in
/// normal mode, and with the cursor on the first row.
pub proof fn law_the_interface_begins_with_all_accounts(books: BooksView)
    ensures
        ({
            let app = AppView::empty().holding(books).reset();
            &&& app.view is Accounts
            &&& app.input_mode is Normal
            &&& app.search.len() == 0
            &&& app.date_from is None
            &&& app.date_to is None
            &&& app.status.len() == 0
            &&& app.transactions == books.transactions
            &&& app.accounts == sorted_accounts(books.accounts, books.balances)
            &&& app.filtered_accounts() == app.accounts
            &&& app.selected == (if books.accounts.len() > 0 {
                Some(0int)
            } else {
                None
            })
        }),
{
    let app = AppView::empty().holding(books).reset();
    crate::tui::law_no_search_shows_all(app.accounts);
    crate::tui::law_accounts_are_sorted(books.accounts, books.balances);
    assert(app.search =~= Seq::empty());
}

/// Every key is taken, but for a `y` that would post amounts whose sum is
/// out of range.
pub proof fn law_every_key_is_taken(app: AppView, key: Key)
    requires
        app.edit_accounts matches Some(state) ==> crate::sums::total(
            crate::book::amounts(state.entries),
        ) is Some,
        app.add_transaction matches Some(form) ==> crate::sums::total(
            crate::book::amounts(form.entries),
        ) is Some,
    ensures
        app.accepts(key),
{
}

/// What is wrong with a form is said: too few accounts, twice the same one,
/// an amount that cannot be read, with the text and the reason, or nothing as
/// the amount.
pub proof fn law_the_form_says_what_is_wrong(app: AppView, form: AddView, id: u128, today: int)
    requires
        app.input_mode is AddTransaction,
        app.add_transaction == Some(form),
        form.focus is Memo,
    ensures
        ({
            let after = app.pressed(plain(KeyCode::Enter), id, today).0.add_transaction;
            let picked = form.accounts.len() >= 2 && 0 <= form.from_index < form.accounts.len() && 0
                <= form.to_index < form.accounts.len();
            let same = form.accounts[form.from_index] == form.accounts[form.to_index];
            let read = amount_read(trimmed(form.amount));
            &&& form.accounts.len() < 2 ==> (after matches Some(f) && f.error == Some(
                "need at least two registered accounts"@,
            ))
            &&& picked && same ==> (after matches Some(f) && f.error == Some(
                "from and to accounts must differ"@,
            ))
            &&& picked && !same ==> (read matches Err(why) ==> (after matches Some(f) && (
            f.error matches Some(told) && stands_in(debug_text(form.amount), told) && stands_in(
                why,
                told,
            ))))
            &&& picked && !same ==> (read matches Ok(d) ==> d.mantissa == 0 ==> (
            after matches Some(f) && f.error == Some("amount must be nonzero"@)))
        }),
{
    if let Err(why) = amount_read(trimmed(form.amount)) {
        let a = "invalid amount "@;
        let b = debug_text(form.amount);
        let told = a + b + ": "@ + why;
        assert(told =~= a + b + (": "@ + why));
        assert(told =~= (a + b + ": "@) + why + Seq::<char>::empty());
    }
}

/// While accounts are edited the arrows go to the neighbour, Enter asks
/// whether to apply what was typed, and Escape gives it up; what was typed is
/// not lost by asking, nor by saying no.
pub proof fn law_editing_can_be_left(app: AppView, state: EditView, id: u128, today: int)
    requires
        app.edit_accounts == Some(state),
    ensures
        app.input_mode is EditAccounts ==> {
            &&& app.pressed(plain(KeyCode::Enter), id, today) == (
                AppView { input_mode: InputMode::EditAccountsConfirm, ..app },
                ActionView::Nothing,
            )
            &&& app.pressed(plain(KeyCode::Esc), id, today) == (
                AppView {
                    input_mode: InputMode::Normal,
                    edit_accounts: None,
                    status: "edit cancelled"@,
                    ..app
                },
                ActionView::Nothing,
            )
        },
        app.input_mode is EditAccountsConfirm ==> app.pressed(
            plain(KeyCode::Char('n')),
            id,
            today,
        ) == (
            AppView {
                input_mode: InputMode::EditAccounts,
                status: "edit not applied"@,
                ..app
            },
            ActionView::Nothing,
        ) && app.pressed(plain(KeyCode::Esc), id, today) == app.pressed(
            plain(KeyCode::Char('n')),
            id,
            today,
        ),
{
}

/// While accounts are edited a step selects the next or the last entry,
/// round and round, and changes no text.
pub proof fn law_editing_steps_to_the_neighbour(
    app: AppView,
    state: EditView,
    id: u128,
    today: int,
)
    requires
        app.input_mode is EditAccounts,
        app.edit_accounts == Some(state),
        0 <= state.selected < state.entries.len(),
    ensures
        ({
            let last = state.entries.len() - 1;
            let down = app.pressed(plain(KeyCode::Down), id, today).0;
            let up = app.pressed(plain(KeyCode::Up), id, today).0;
            &&& down == (AppView {
                edit_accounts: Some(
                    EditView {
                        selected: if state.selected == last {
                            0
                        } else {
                            state.selected + 1
                        },
                        ..state
                    },
                ),
                ..app
            })
            &&& up == (AppView {
                edit_accounts: Some(
                    EditView {
                        selected: if state.selected == 0 {
                            last
                        } else {
                            state.selected - 1
                        },
                        ..state
                    },
                ),
                ..app
            })
            &&& app.pressed(plain(KeyCode::Char('j')), id, today).0 == down
            &&& app.pressed(plain(KeyCode::Char('k')), id, today).0 == up
        }),
{
    let len = state.entries.len() as int;
    crate::tui::lemma_step(state.selected, len);
    vstd::arithmetic::div_mod::lemma_small_mod(state.selected as nat, len as nat);
}

/// Escape gives the form up, and `n` leads back to it as it was.
pub proof fn law_the_form_can_be_left(app: AppView, id: u128, today: int)
    requires
        app.add_transaction is Some,
    ensures
        app.input_mode is AddTransaction ==> app.pressed(plain(KeyCode::Esc), id, today) == (
            AppView {
                input_mode: InputMode::Normal,
                add_transaction: None,
                status: "add cancelled"@,
                ..app
            },
            ActionView::Nothing,
        ),
        app.input_mode is AddConfirm ==> app.pressed(plain(KeyCode::Char('n')), id, today) == (
            AppView { input_mode: InputMode::AddTransaction, ..app },
            ActionView::Nothing,
        ),
{
}

/// With `?` the help is open, and nothing else changes.
pub proof fn law_a_question_opens_the_help(app: AppView, id: u128, today: int)
    requires
        app.input_mode is Normal,
    ensures
        app.pressed(plain(KeyCode::Char('?')), id, today) == (
            AppView { input_mode: InputMode::Help, ..app },
            ActionView::Nothing,
        ),
{
}

/// The letters that do something in normal mode.
pub open spec fn is_command(c: char) -> bool {
    ||| c == 'q' || c == 'j' || c == 'k'
    ||| c == '/' || c == 'f' || c == 't' || c == 'c'
    ||| c == 'r' || c == 'a' || c == 'D' || c == 'C' || c == 'y' || c == '?'
}

/// A key that stands for nothing does nothing, in any mode but those in which
/// any key closes a box.
pub proof fn law_other_keys_do_nothing(app: AppView, code: KeyCode, id: u128, today: int)
    requires
        app.input_mode is Normal ==> (code is Other || code is Tab || code is Backspace || (code is Char
            && !is_command(code->Char_0))),
        app.input_mode is DeleteConfirm || app.input_mode is EditAccountsConfirm
            || app.input_mode is AddConfirm ==> (code is Other || code is Tab || code is Backspace
            || code is Up || code is Down),
        is_typing(app) ==> (code is Other || code is Tab || code is Up || code is Down),
        app.input_mode is EditAccounts ==> app.edit_accounts is Some && (code is Other || code is Tab),
        app.input_mode is AddTransaction ==> app.add_transaction is Some && code is Other,
        !(app.input_mode is Help) && !(app.input_mode is Reconstruct),
    ensures
        app.pressed(plain(code), id, today) == (app, ActionView::Nothing),
{
}

/// What is handed over to be stored is no longer in the form, or edited;
/// nothing else changes until it is known whether it was stored.
pub proof fn law_a_yes_hands_the_form_over(app: AppView, id: u128, today: int)
    ensures
        ({
            let (next, action) = app.pressed(plain(KeyCode::Char('y')), id, today);
            &&& action is Save ==> next == (AppView { add_transaction: None, ..app })
            &&& action is Replace ==> next == (AppView { edit_accounts: None, ..app })
            &&& action is Delete ==> next == app
            &&& app.pressed(plain(KeyCode::Char('Y')), id, today) == (next, action)
                || app.input_mode is Normal || is_typing(app) || app.input_mode is EditAccounts
                || app.input_mode is AddTransaction
        }),
{
}

/// Accounts that show once each have the classes that they show with, and no
/// other account has one.
pub proof fn law_accounts_have_the_classes_that_show(accounts: Seq<BalanceView>, id: Seq<char>)
    requires
        forall|i: int, k: int|
            0 <= i < k < accounts.len() ==> (#[trigger] accounts[i]).id != (#[trigger] accounts[k]).id,
    ensures
        forall|i: int|
            0 <= i < accounts.len() ==> classes_of(accounts).dom().contains(
                (#[trigger] accounts[i]).id,
            ) && classes_of(accounts)[accounts[i].id] == accounts[i].class,
        (forall|i: int| 0 <= i < accounts.len() ==> (#[trigger] accounts[i]).id != id)
            ==> !classes_of(accounts).dom().contains(id),
{
    let pairs = Seq::new(accounts.len(), |i: int| (accounts[i].id, accounts[i].class));
    let none = Map::<Seq<char>, AccountClass>::empty();
    assert forall|i: int, k: int| 0 <= i < k < pairs.len() implies (#[trigger] pairs[i]).0 != (
    #[trigger] pairs[k]).0 by {
        assert(accounts[i].id != accounts[k].id);
    }
    crate::command_laws::law_accounts_have_the_classes_they_come_with(none, pairs);
    assert forall|i: int| 0 <= i < accounts.len() implies classes_of(accounts).dom().contains(
        (#[trigger] accounts[i]).id,
    ) && classes_of(accounts)[accounts[i].id] == accounts[i].class by {
        assert(pairs[i].0 == accounts[i].id);
    }
    if forall|i: int| 0 <= i < accounts.len() ==> (#[trigger] accounts[i]).id != id {
        if crate::cli::is_listed(pairs, id) {
            let k = choose|k: int| 0 <= k < pairs.len() && (#[trigger] pairs[k]).0 == id;
            assert(accounts[k].id == id);
        }
        assert(classes_of(accounts).dom().contains(id) == none.dom().contains(id));
    }
}

} // verus!
