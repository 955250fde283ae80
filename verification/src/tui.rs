//! The state of the terminal interface and what each key does to it.

use vstd::prelude::*;
use vstd::string::*;

pub use crate::money::{fmt_money, group_money};
pub use crate::tui_app::{accepts_key, handle_key, handle_key_with, Books};
pub use crate::tui_view::{centered_rect, Area, Modal};

use crate::account_id::{id_read, AccountId};
use crate::account_map::AccountMap;
use crate::audit::id_views;
use crate::book::{amounts, mentions, EntryView, TransactionView};
use crate::decimal::{amount_read, lemma_opposites_cancel, Amount, Dec};
use crate::model::{
    classes_with, debug_text, entry_views, imbalance, std_debug_text, transaction_views, Account, AccountClass,
    Entry, Transaction, TransactionId, TransactionKind,
};
use crate::reconstruct::{add_command, first_unknown};
use crate::sums::{lemma_total_push, total};
use crate::text::{
    lowercase_text, occurs, precedes, string_views, text_precedes, trim, trimmed,
    without_line_ends,
};
use crate::time::{date_read, date_text, moment, Timestamp};

verus! {

/// What the table shows.
#[derive(Debug)]
pub enum Screen {
    /// All accounts with their balances.
    Accounts,
    /// The transactions of an account.
    Register { account: AccountId },
}

/// What the table shows, as a value.
#[verifier::ext_equal]
pub enum ScreenView {
    Accounts,
    Register(Seq<char>),
}

impl View for Screen {
    type V = ScreenView;

    open spec fn view(&self) -> ScreenView {
        match *self {
            Screen::Accounts => ScreenView::Accounts,
            Screen::Register { account } => ScreenView::Register(account@),
        }
    }
}

/// What keys are for.
#[derive(Debug, Clone, Copy, PartialEq, Eq, Structural)]
pub enum InputMode {
    Normal,
    Search,
    DateFrom,
    DateTo,
    DeleteConfirm,
    EditAccounts,
    EditAccountsConfirm,
    AddTransaction,
    AddConfirm,
    Reconstruct,
    Help,
}

/// A key without its modifiers.
#[derive(Debug, Clone, Copy, PartialEq, Eq, Structural)]
pub enum KeyCode {
    Char(char),
    Enter,
    Esc,
    Tab,
    Backspace,
    Up,
    Down,
    Other,
}

/// A key that was pressed, and whether Control was held.
#[derive(Debug, Clone, Copy, PartialEq, Eq, Structural)]
pub struct Key {
    pub code: KeyCode,
    pub control: bool,
}

/// The accounts of a transaction while they are edited.
#[derive(Debug)]
pub struct EditAccountsState {
    pub id: TransactionId,
    pub posted_at: Timestamp,
    pub memo: String,
    pub entries: Vec<Entry>,
    pub buffers: Vec<String>,
    pub selected: usize,
}

/// The accounts of a transaction while they are edited, as a value.
#[verifier::ext_equal]
pub struct EditView {
    pub id: u128,
    pub posted_at: int,
    pub memo: Seq<char>,
    pub entries: Seq<EntryView>,
    pub buffers: Seq<Seq<char>>,
    pub selected: int,
}

impl View for EditAccountsState {
    type V = EditView;

    open spec fn view(&self) -> EditView {
        EditView {
            id: self.id.0,
            posted_at: self.posted_at@,
            memo: self.memo@,
            entries: entry_views(self.entries@),
            buffers: string_views(self.buffers@),
            selected: self.selected as int,
        }
    }
}

/// A field of the form for a new transaction.
#[derive(Debug, Clone, Copy, PartialEq, Eq, Structural)]
pub enum AddField {
    From,
    To,
    Amount,
    Memo,
}

impl AddField {
    /// The field after this one.
    pub open spec fn following(self) -> AddField {
        match self {
            AddField::From => AddField::To,
            AddField::To => AddField::Amount,
            AddField::Amount => AddField::Memo,
            AddField::Memo => AddField::From,
        }
    }

    /// Whether the field is a list of accounts.
    pub open spec fn is_list(self) -> bool {
        self is From || self is To
    }

    /// The field after this one.
    pub fn next(self) -> (field: AddField)
        ensures
            field == self.following(),
    {
        match self {
            AddField::From => AddField::To,
            AddField::To => AddField::Amount,
            AddField::Amount => AddField::Memo,
            AddField::Memo => AddField::From,
        }
    }
}

/// Four steps lead through all fields and back to the first.
pub proof fn law_fields_come_round(field: AddField)
    ensures
        field.following().following().following().following() == field,
        field.following() != field,
        field.following().following() != field,
{
}

/// How many accounts a list of the form shows.
pub const ADD_LIST_VISIBLE: usize = 7;

/// The form for a new transaction.
#[derive(Debug)]
pub struct AddTransactionState {
    pub accounts: Vec<AccountId>,
    pub from_index: usize,
    pub to_index: usize,
    pub from_offset: usize,
    pub to_offset: usize,
    pub amount: String,
    pub memo: String,
    pub focus: AddField,
    pub error: Option<String>,
    pub entries: Vec<Entry>,
}

/// The form for a new transaction, as a value.
#[verifier::ext_equal]
pub struct AddView {
    pub accounts: Seq<Seq<char>>,
    pub from_index: int,
    pub to_index: int,
    pub from_offset: int,
    pub to_offset: int,
    pub amount: Seq<char>,
    pub memo: Seq<char>,
    pub focus: AddField,
    pub error: Option<Seq<char>>,
    pub entries: Seq<EntryView>,
}

/// A text that may be there.
pub open spec fn text_view(s: Option<String>) -> Option<Seq<char>> {
    match s {
        Some(s) => Some(s@),
        None => None,
    }
}

impl View for AddTransactionState {
    type V = AddView;

    open spec fn view(&self) -> AddView {
        AddView {
            accounts: id_views(self.accounts@),
            from_index: self.from_index as int,
            to_index: self.to_index as int,
            from_offset: self.from_offset as int,
            to_offset: self.to_offset as int,
            amount: self.amount@,
            memo: self.memo@,
            focus: self.focus,
            error: text_view(self.error),
            entries: entry_views(self.entries@),
        }
    }
}

/// An account with its balance, as a value.
#[verifier::ext_equal]
pub struct BalanceView {
    pub id: Seq<char>,
    pub class: AccountClass,
    pub balance: Dec,
}

/// An account with its balance, as a value.
pub open spec fn balance_view(row: (Account, Amount)) -> BalanceView {
    BalanceView { id: row.0.id@, class: row.0.class, balance: row.1@ }
}

/// Accounts with their balances, as values.
pub open spec fn balance_views(rows: Seq<(Account, Amount)>) -> Seq<BalanceView> {
    Seq::new(rows.len(), |i: int| balance_view(rows[i]))
}

/// The state of the interface.
#[derive(Debug)]
pub struct App {
    pub accounts_with_balances: Vec<(Account, Amount)>,
    pub transactions: Vec<Transaction>,
    pub view: Screen,
    pub selected: Option<usize>,
    pub search: String,
    pub date_from: Option<Timestamp>,
    pub date_to: Option<Timestamp>,
    pub input_mode: InputMode,
    pub input_buffer: String,
    pub status: String,
    pub edit_accounts: Option<EditAccountsState>,
    pub add_transaction: Option<AddTransactionState>,
    pub reconstruct_cmd: Option<String>,
}

/// The state of the interface, as a value.
#[verifier::ext_equal]
pub struct AppView {
    pub accounts: Seq<BalanceView>,
    pub transactions: Seq<TransactionView>,
    pub view: ScreenView,
    pub selected: Option<int>,
    pub search: Seq<char>,
    pub date_from: Option<int>,
    pub date_to: Option<int>,
    pub input_mode: InputMode,
    pub input_buffer: Seq<char>,
    pub status: Seq<char>,
    pub edit_accounts: Option<EditView>,
    pub add_transaction: Option<AddView>,
    pub reconstruct_cmd: Option<Seq<char>>,
}

impl View for App {
    type V = AppView;

    open spec fn view(&self) -> AppView {
        AppView {
            accounts: balance_views(self.accounts_with_balances@),
            transactions: transaction_views(self.transactions@),
            view: self.view@,
            selected: match self.selected {
                Some(i) => Some(i as int),
                None => None,
            },
            search: self.search@,
            date_from: moment(self.date_from),
            date_to: moment(self.date_to),
            input_mode: self.input_mode,
            input_buffer: self.input_buffer@,
            status: self.status@,
            edit_accounts: match self.edit_accounts {
                Some(state) => Some(state@),
                None => None,
            },
            add_transaction: match self.add_transaction {
                Some(state) => Some(state@),
                None => None,
            },
            reconstruct_cmd: text_view(self.reconstruct_cmd),
        }
    }
}

/// A change of the books.
#[derive(Debug, Clone, Copy, PartialEq, Eq, Structural)]
pub enum Change {
    Deleted,
    Updated,
    Added,
}

impl Change {
    /// What is said of a change that was made.
    pub open spec fn done(self) -> Seq<char> {
        match self {
            Change::Deleted => "transaction deleted"@,
            Change::Updated => "accounts updated"@,
            Change::Added => "transaction added"@,
        }
    }

    /// What is said of a change that could not be made.
    pub open spec fn failed(self) -> Seq<char> {
        match self {
            Change::Deleted => "delete failed: "@,
            Change::Updated => "update failed: "@,
            Change::Added => "add failed: "@,
        }
    }

    pub(crate) fn done_text(self) -> (s: &'static str)
        ensures
            s@ == self.done(),
    {
        match self {
            Change::Deleted => "transaction deleted",
            Change::Updated => "accounts updated",
            Change::Added => "transaction added",
        }
    }

    pub(crate) fn failed_text(self) -> (s: &'static str)
        ensures
            s@ == self.failed(),
    {
        match self {
            Change::Deleted => "delete failed: ",
            Change::Updated => "update failed: ",
            Change::Added => "add failed: ",
        }
    }
}

/// What is to be done outside the interface.
#[derive(Debug)]
pub enum Action {
    /// Nothing.
    Nothing,
    /// End the session.
    Quit,
    /// Read the books and hand them to `reloaded`.
    Reload,
    /// Read the books and hand them to `reloaded_after`.
    ReloadAfter(Change),
    /// Delete the transaction and tell `changed`.
    Delete(TransactionId),
    /// Store the transaction in place of the one of its id and tell `changed`.
    Replace(Transaction),
    /// Store the transaction and tell `changed`.
    Save(Transaction),
    /// Put `text` on the clipboard and tell `copied`, with `command`.
    Copy { command: String, text: String },
}

/// What is to be done outside the interface, as a value.
#[verifier::ext_equal]
pub enum ActionView {
    Nothing,
    Quit,
    Reload,
    ReloadAfter(Change),
    Delete(u128),
    Replace(TransactionView),
    Save(TransactionView),
    Copy { command: Seq<char>, text: Seq<char> },
}

impl View for Action {
    type V = ActionView;

    open spec fn view(&self) -> ActionView {
        match *self {
            Action::Nothing => ActionView::Nothing,
            Action::Quit => ActionView::Quit,
            Action::Reload => ActionView::Reload,
            Action::ReloadAfter(change) => ActionView::ReloadAfter(change),
            Action::Delete(id) => ActionView::Delete(id.0),
            Action::Replace(tx) => ActionView::Replace(tx@),
            Action::Save(tx) => ActionView::Save(tx@),
            Action::Copy { command, text } => ActionView::Copy { command: command@, text: text@ },
        }
    }
}

/// The window of `visible` rows that shows the selected one, as near to the
/// one from `offset` on as can be.
pub open spec fn clamped(selected: int, offset: int, visible: int) -> int {
    if selected < offset {
        selected
    } else if selected >= offset + visible {
        selected + 1 - visible
    } else {
        offset
    }
}

/// Keep a list window scrolled so `selected` stays visible within
/// `visible` rows starting at `offset`.
pub fn clamp_offset(selected: usize, offset: usize, visible: usize) -> (start: usize)
    requires
        visible > 0 || selected < usize::MAX,
    ensures
        start == clamped(selected as int, offset as int, visible as int),
        visible > 0 ==> start <= selected < start + visible,
{
    if selected < offset {
        selected
    } else if selected - offset >= visible {
        if visible == 0 {
            selected + 1
        } else {
            selected - (visible - 1)
        }
    } else {
        offset
    }
}

/// The selected row always shows, and a window that shows it stays.
pub proof fn law_window_follows_selection(selected: int, offset: int, visible: int)
    requires
        visible > 0,
    ensures
        clamped(selected, offset, visible) <= selected < clamped(selected, offset, visible) + visible,
        offset <= selected < offset + visible ==> clamped(selected, offset, visible) == offset,
{
}

/// The row after or before one of `len`, round and round.
pub open spec fn stepped(i: int, len: int, down: bool) -> int {
    if down {
        (i + 1) % len
    } else if i == 0 {
        len - 1
    } else {
        i - 1
    }
}

pub(crate) fn step(i: usize, len: usize, down: bool) -> (next: usize)
    requires
        len > 0,
    ensures
        next == stepped(i as int, len as int, down),
{
    if down {
        let low: usize = i % len;
        proof {
            lemma_step(i as int, len as int);
        }
        if low + 1 == len {
            0
        } else {
            low + 1
        }
    } else if i == 0 {
        len - 1
    } else {
        i - 1
    }
}

/// One step round and round, forth and back.
pub proof fn lemma_step(i: int, len: int)
    requires
        0 <= i,
        0 < len,
    ensures
        0 <= i % len < len,
        (i + 1) % len == (if i % len + 1 == len {
            0
        } else {
            i % len + 1
        }),
        (i - 1) % len == (if i % len == 0 {
            len - 1
        } else {
            i % len - 1
        }),
{
    let q = i / len;
    let r = i % len;
    vstd::arithmetic::div_mod::lemma_fundamental_div_mod(i, len);
    vstd::arithmetic::div_mod::lemma_mod_bound(i, len);
    assert(i + 1 == q * len + (r + 1) && i + 1 == (q + 1) * len + (r + 1 - len)) by (nonlinear_arith)
        requires
            i == len * q + r,
    ;
    assert(i - 1 == q * len + (r - 1) && i - 1 == (q - 1) * len + (r + len - 1)) by (nonlinear_arith)
        requires
            i == len * q + r,
    ;
    if r + 1 == len {
        vstd::arithmetic::div_mod::lemma_fundamental_div_mod_converse(i + 1, len, q + 1, 0);
    } else {
        vstd::arithmetic::div_mod::lemma_fundamental_div_mod_converse(i + 1, len, q, r + 1);
    }
    if r == 0 {
        vstd::arithmetic::div_mod::lemma_fundamental_div_mod_converse(i - 1, len, q - 1, len - 1);
    } else {
        vstd::arithmetic::div_mod::lemma_fundamental_div_mod_converse(i - 1, len, q, r - 1);
    }
}

/// A step forth and a step back lead nowhere.
pub proof fn law_steps_cancel(i: int, len: int)
    requires
        0 <= i < len,
    ensures
        stepped(stepped(i, len, true), len, false) == i,
        stepped(stepped(i, len, false), len, true) == i,
{
    lemma_step(i, len);
    vstd::arithmetic::div_mod::lemma_small_mod(i as nat, len as nat);
    let back = if i > 0 {
        i - 1
    } else {
        len - 1
    };
    lemma_step(back, len);
    vstd::arithmetic::div_mod::lemma_small_mod(back as nat, len as nat);
}

/// Whether a text passes the search.
pub open spec fn passes(search: Seq<char>, s: Seq<char>) -> bool {
    search.len() == 0 || occurs(lowercase_text(search), lowercase_text(s))
}

/// The accounts that pass the search.
pub open spec fn matching_accounts(accounts: Seq<BalanceView>, search: Seq<char>) -> Seq<BalanceView>
    decreases accounts.len(),
{
    if accounts.len() == 0 {
        Seq::empty()
    } else {
        let before = matching_accounts(accounts.drop_last(), search);
        if passes(search, accounts.last().id) {
            before.push(accounts.last())
        } else {
            before
        }
    }
}

/// The filters of a register.
pub struct Filters {
    pub account: Seq<char>,
    pub date_from: Option<int>,
    pub date_to: Option<int>,
    pub search: Seq<char>,
}

impl Filters {
    /// Whether a transaction passes them: it has an entry of the account,
    /// was posted on or after the first date and on or before the last, and
    /// its memo passes the search.
    pub open spec fn pass(self, tx: TransactionView) -> bool {
        &&& mentions(tx.entries, self.account)
        &&& self.date_from matches Some(from) ==> tx.posted_at >= from
        &&& self.date_to matches Some(to) ==> tx.posted_at <= to
        &&& passes(self.search, tx.memo)
    }
}

/// The transactions that pass the filters.
pub open spec fn matching_transactions(
    transactions: Seq<TransactionView>,
    filters: Filters,
) -> Seq<TransactionView>
    decreases transactions.len(),
{
    if transactions.len() == 0 {
        Seq::empty()
    } else {
        let before = matching_transactions(transactions.drop_last(), filters);
        if filters.pass(transactions.last()) {
            before.push(transactions.last())
        } else {
            before
        }
    }
}

/// Without a search every account shows.
pub proof fn law_no_search_shows_all(accounts: Seq<BalanceView>)
    ensures
        matching_accounts(accounts, Seq::empty()) == accounts,
    decreases accounts.len(),
{
    if accounts.len() > 0 {
        law_no_search_shows_all(accounts.drop_last());
    }
    assert(matching_accounts(accounts, Seq::empty()) =~= accounts);
}

/// The date that was typed, if one was: white space around it does not
/// count.
pub open spec fn typed_date(s: Seq<char>) -> Option<int> {
    if trimmed(s).len() == 0 {
        None
    } else {
        match date_read(trimmed(s)) {
            Ok(t) => Some(t),
            Err(_) => None,
        }
    }
}

/// The date that was typed, if one was.
pub fn parse_date_input(s: &str) -> (date: Option<Timestamp>)
    ensures
        moment(date) == typed_date(s@),
{
    let text: String = trim(s);
    if text.as_str().unicode_len() == 0 {
        return None;
    }
    match Timestamp::parse_date(text.as_str()) {
        Ok(t) => Some(t),
        Err(_) => None,
    }
}

/// The entries of the form: the amount goes from one account to another.
pub open spec fn form_entries(from: Seq<char>, to: Seq<char>, amount: Seq<char>) -> Result<
    Seq<EntryView>,
    Seq<char>,
> {
    if from == to {
        Err("from and to accounts must differ"@)
    } else {
        match amount_read(trimmed(amount)) {
            Err(words) => Err("invalid amount "@ + debug_text(amount) + ": "@ + words),
            Ok(d) => if d.mantissa == 0 {
                Err("amount must be nonzero"@)
            } else {
                Ok(
                    seq![
                        EntryView { account: from, amount: d.negated() },
                        EntryView { account: to, amount: d },
                    ],
                )
            },
        }
    }
}

/// Build the two entries for the TUI add form: `-amount` on the `from`
/// account (the source) and `+amount` on the `to` account (the
/// destination). The accounts must differ and the amount must parse as
/// a nonzero amount. The entries sum to zero.
pub fn build_add_entries(from: &AccountId, to: &AccountId, amount: &str) -> (made: Result<
    Vec<Entry>,
    String,
>)
    ensures
        match made {
            Ok(entries) => form_entries(from@, to@, amount@) == Ok::<Seq<EntryView>, Seq<char>>(
                entry_views(entries@),
            ) && imbalance(entry_views(entries@)) is None && total(
                amounts(entry_views(entries@)),
            ) is Some,
            Err(e) => form_entries(from@, to@, amount@) == Err::<Seq<EntryView>, Seq<char>>(e@),
        },
{
    if from.same(to) {
        return Err("from and to accounts must differ".to_owned());
    }
    let text: String = trim(amount);
    let value: Amount = match Amount::parse(text.as_str()) {
        Ok(value) => value,
        Err(words) => {
            let mut e = "invalid amount ".to_owned();
            e.append(std_debug_text(amount).as_str());
            e.append(": ");
            e.append(words.as_str());
            return Err(e);
        },
    };
    if value.is_zero() {
        return Err("amount must be nonzero".to_owned());
    }
    let mut entries: Vec<Entry> = Vec::new();
    entries.push(Entry { account: from.clone(), amount: value.negate() });
    entries.push(Entry { account: to.clone(), amount: value });
    proof {
        let d = value@;
        assert(entry_views(entries@) =~= seq![
            EntryView { account: from@, amount: d.negated() },
            EntryView { account: to@, amount: d },
        ]);
        let s = amounts(entry_views(entries@));
        assert(s =~= Seq::empty().push(d.negated()).push(d));
        lemma_total_push(Seq::empty(), d.negated());
        lemma_total_push(Seq::empty().push(d.negated()), d);
        lemma_opposites_cancel(d);
    }
    Ok(entries)
}

/// The classes of the accounts.
pub open spec fn classes_of(accounts: Seq<BalanceView>) -> Map<Seq<char>, AccountClass> {
    classes_with(Map::empty(), Seq::new(accounts.len(), |i: int| (accounts[i].id, accounts[i].class)))
}

/// The accounts with the row in its place: behind those that do not come
/// after it.
pub open spec fn with_account(rows: Seq<BalanceView>, row: BalanceView) -> Seq<BalanceView>
    decreases rows.len(),
{
    if rows.len() > 0 && precedes(row.id, rows.last().id) {
        with_account(rows.drop_last(), row).push(rows.last())
    } else {
        rows.push(row)
    }
}

/// The balance of an account: nothing where it has no entries.
pub open spec fn balance_in(balances: Map<Seq<char>, Dec>, id: Seq<char>) -> Dec {
    if balances.dom().contains(id) {
        balances[id]
    } else {
        Dec::zero()
    }
}

/// The accounts with their balances, in the order of their ids.
pub open spec fn sorted_accounts(
    accounts: Seq<(Seq<char>, AccountClass)>,
    balances: Map<Seq<char>, Dec>,
) -> Seq<BalanceView>
    decreases accounts.len(),
{
    if accounts.len() == 0 {
        Seq::empty()
    } else {
        let (id, class) = accounts.last();
        with_account(
            sorted_accounts(accounts.drop_last(), balances),
            BalanceView { id, class, balance: balance_in(balances, id) },
        )
    }
}

/// Whether no account comes before one that stands in front of it.
pub open spec fn is_sorted(rows: Seq<BalanceView>) -> bool {
    forall|i: int, j: int|
        0 <= i < j < rows.len() ==> !precedes(#[trigger] rows[j].id, #[trigger] rows[i].id)
}

proof fn lemma_with_account_sorted(rows: Seq<BalanceView>, row: BalanceView)
    requires
        is_sorted(rows),
    ensures
        is_sorted(with_account(rows, row)),
        with_account(rows, row).len() == rows.len() + 1,
        forall|i: int|
            0 <= i < with_account(rows, row).len() ==> (#[trigger] with_account(rows, row)[i] == row
                || rows.contains(with_account(rows, row)[i])),
    decreases rows.len(),
{
    let out = with_account(rows, row);
    if rows.len() > 0 && precedes(row.id, rows.last().id) {
        let t = rows.drop_last();
        let last = rows.last();
        assert forall|i: int, j: int| 0 <= i < j < t.len() implies !precedes(
            #[trigger] t[j].id,
            #[trigger] t[i].id,
        ) by {
            assert(t[i] == rows[i] && t[j] == rows[j]);
        }
        lemma_with_account_sorted(t, row);
        let front = with_account(t, row);
        assert forall|i: int, j: int| 0 <= i < j < out.len() implies !precedes(
            #[trigger] out[j].id,
            #[trigger] out[i].id,
        ) by {
            if j < front.len() {
                assert(out[i] == front[i] && out[j] == front[j]);
            } else {
                assert(out[j] == last && out[i] == front[i]);
                if front[i] == row {
                    if precedes(last.id, row.id) {
                        crate::text::lemma_precedes_transitive(last.id, row.id, last.id);
                        crate::text::lemma_precedes_irreflexive(last.id);
                    }
                } else {
                    assert(t.contains(front[i]));
                    let k = t.index_of(front[i]);
                    assert(rows[k] == front[i] && rows[rows.len() - 1] == last);
                }
            }
        }
        assert forall|i: int| 0 <= i < out.len() implies (#[trigger] out[i] == row || rows.contains(out[i])) by {
            if i < front.len() {
                assert(out[i] == front[i]);
                if front[i] != row {
                    let k = t.index_of(front[i]);
                    assert(rows[k] == front[i]);
                }
            } else {
                assert(rows[rows.len() - 1] == out[i]);
            }
        }
    } else {
        assert forall|i: int, j: int| 0 <= i < j < out.len() implies !precedes(
            #[trigger] out[j].id,
            #[trigger] out[i].id,
        ) by {
            if j < rows.len() {
                assert(out[i] == rows[i] && out[j] == rows[j]);
            } else {
                assert(out[j] == row && out[i] == rows[i]);
                let last = rows.last();
                assert(rows[rows.len() - 1] == last);
                if precedes(row.id, rows[i].id) {
                    if i < rows.len() - 1 {
                        crate::text::lemma_precedes_total(rows[i].id, last.id);
                        if precedes(rows[i].id, last.id) {
                            crate::text::lemma_precedes_transitive(row.id, rows[i].id, last.id);
                        }
                    }
                }
            }
        }
        assert forall|i: int| 0 <= i < out.len() implies (#[trigger] out[i] == row || rows.contains(out[i])) by {
            if i < rows.len() {
                assert(rows[i] == out[i]);
            }
        }
    }
}

/// The accounts are listed in the order of their ids, and none is lost.
pub proof fn law_accounts_are_sorted(
    accounts: Seq<(Seq<char>, AccountClass)>,
    balances: Map<Seq<char>, Dec>,
)
    ensures
        is_sorted(sorted_accounts(accounts, balances)),
        sorted_accounts(accounts, balances).len() == accounts.len(),
    decreases accounts.len(),
{
    if accounts.len() > 0 {
        law_accounts_are_sorted(accounts.drop_last(), balances);
        let (id, class) = accounts.last();
        lemma_with_account_sorted(
            sorted_accounts(accounts.drop_last(), balances),
            BalanceView { id, class, balance: balance_in(balances, id) },
        );
    }
}

/// The accounts with their balances, in the order of their ids.
pub fn sort_accounts(accounts: &Vec<Account>, balances: &AccountMap<Amount>) -> (rows: Vec<
    (Account, Amount),
>)
    ensures
        balance_views(rows@) == sorted_accounts(
            crate::storage::account_views(accounts@),
            balances@,
        ),
{
    let ghost all = crate::storage::account_views(accounts@);
    let mut rows: Vec<(Account, Amount)> = Vec::new();
    assert(balance_views(rows@) =~= Seq::empty());
    for i in 0..accounts.len()
        invariant
            all == crate::storage::account_views(accounts@),
            balance_views(rows@) == sorted_accounts(all.take(i as int), balances@),
    {
        let account = &accounts[i];
        assert(all.take(i + 1).drop_last() =~= all.take(i as int));
        let balance: Amount = match balances.get(&account.id) {
            Some(balance) => balance,
            None => Amount::zero(),
        };
        insert_account(&mut rows, account, balance);
    }
    assert(all.take(all.len() as int) =~= all);
    rows
}

fn insert_account(rows: &mut Vec<(Account, Amount)>, account: &Account, balance: Amount)
    ensures
        balance_views(final(rows)@) == with_account(
            balance_views(old(rows)@),
            BalanceView { id: account.id@, class: account.class, balance: balance@ },
        ),
{
    let ghost all = balance_views(rows@);
    let ghost row = BalanceView { id: account.id@, class: account.class, balance: balance@ };
    let mut at: usize = rows.len();
    assert(all.take(at as int) =~= all);
    assert(with_account(all.take(at as int), row) + all.skip(at as int) =~= with_account(all, row));
    while at > 0 && text_precedes(account.id.as_str(), rows[at - 1].0.id.as_str())
        invariant
            at <= rows.len(),
            all == balance_views(rows@),
            row.id == account.id@,
            with_account(all.take(at as int), row) + all.skip(at as int) == with_account(all, row),
        decreases at,
    {
        proof {
            let part = all.take(at as int);
            assert(part.last() == all[at - 1]);
            assert(part.drop_last() =~= all.take(at - 1));
            assert(with_account(all.take(at - 1), row) + all.skip(at - 1) =~= with_account(part, row)
                + all.skip(at as int));
        }
        at = at - 1;
    }
    proof {
        let part = all.take(at as int);
        if at > 0 {
            assert(part.last() == all[at - 1]);
            assert(rows@[at - 1].0.id@ == all[at - 1].id);
        }
        assert(with_account(part, row) == part.push(row));
    }
    rows.insert(at, (account.clone(), balance));
    assert(balance_views(rows@) =~= all.take(at as int).push(row) + all.skip(at as int));
}

impl AddView {
    /// Whether the amounts that the form would post add up.
    pub open spec fn adds_up(self) -> bool {
        self.entries.len() >= 2 ==> total(amounts(self.entries)) is Some
    }

    /// With the cursor of the list in focus moved.
    pub open spec fn moved(self, down: bool) -> AddView {
        let len = self.accounts.len() as int;
        if len == 0 {
            self
        } else if self.focus is From {
            let index = stepped(self.from_index, len, down);
            AddView {
                from_index: index,
                from_offset: clamped(index, self.from_offset, ADD_LIST_VISIBLE as int),
                ..self
            }
        } else if self.focus is To {
            let index = stepped(self.to_index, len, down);
            AddView {
                to_index: index,
                to_offset: clamped(index, self.to_offset, ADD_LIST_VISIBLE as int),
                ..self
            }
        } else {
            self
        }
    }

    /// With the next field in focus.
    pub open spec fn advanced(self) -> AddView {
        AddView { focus: self.focus.following(), error: None, ..self }
    }

    /// With a character more in the field in focus.
    pub open spec fn typed(self, c: char) -> AddView {
        match self.focus {
            AddField::Amount => AddView { amount: self.amount.push(c), error: None, ..self },
            AddField::Memo => AddView { memo: self.memo.push(c), error: None, ..self },
            _ => self,
        }
    }

    /// Without the last character of the field in focus.
    pub open spec fn erased(self) -> AddView {
        match self.focus {
            AddField::Amount => AddView { amount: popped(self.amount), error: None, ..self },
            AddField::Memo => AddView { memo: popped(self.memo), error: None, ..self },
            _ => AddView { error: None, ..self },
        }
    }

    /// With the entries that the form describes, or the reason why it
    /// describes none.
    pub open spec fn previewed(self) -> AddView {
        if self.accounts.len() < 2 {
            AddView { error: Some("need at least two registered accounts"@), ..self }
        } else if !(0 <= self.from_index < self.accounts.len() && 0 <= self.to_index
            < self.accounts.len()) {
            AddView { error: Some("pick an account in both lists"@), ..self }
        } else {
            match form_entries(
                self.accounts[self.from_index],
                self.accounts[self.to_index],
                self.amount,
            ) {
                Ok(entries) => AddView { entries, error: None, ..self },
                Err(e) => AddView { error: Some(e), ..self },
            }
        }
    }
}

/// The text without its last character.
pub open spec fn popped(s: Seq<char>) -> Seq<char> {
    if s.len() == 0 {
        s
    } else {
        s.drop_last()
    }
}

impl AddTransactionState {
    pub(crate) fn move_in_list(&mut self, down: bool)
        ensures
            final(self)@ == old(self)@.moved(down),
    {
        let len: usize = self.accounts.len();
        if len == 0 {
            return;
        }
        match self.focus {
            AddField::From => {
                self.from_index = step(self.from_index, len, down);
                self.from_offset = clamp_offset(
                    self.from_index,
                    self.from_offset,
                    ADD_LIST_VISIBLE,
                );
            },
            AddField::To => {
                self.to_index = step(self.to_index, len, down);
                self.to_offset = clamp_offset(self.to_index, self.to_offset, ADD_LIST_VISIBLE);
            },
            _ => {},
        }
    }

    pub(crate) fn advance(&mut self)
        ensures
            final(self)@ == old(self)@.advanced(),
    {
        self.focus = self.focus.next();
        self.error = None;
    }

    pub(crate) fn type_char(&mut self, c: char)
        ensures
            final(self)@ == old(self)@.typed(c),
    {
        match self.focus {
            AddField::Amount => {
                self.error = None;
                self.amount.push(c);
            },
            AddField::Memo => {
                self.error = None;
                self.memo.push(c);
            },
            _ => {},
        }
    }

    pub(crate) fn erase_char(&mut self)
        ensures
            final(self)@ == old(self)@.erased(),
    {
        self.error = None;
        match self.focus {
            AddField::Amount => {
                let dropped = self.amount.pop();
            },
            AddField::Memo => {
                let dropped = self.memo.pop();
            },
            _ => {},
        }
    }

    pub(crate) fn preview(&mut self)
        ensures
            final(self)@ == old(self)@.previewed(),
            final(self)@.error is None ==> final(self)@.adds_up(),
    {
        if self.accounts.len() < 2 {
            self.error = Some("need at least two registered accounts".to_owned());
            return;
        }
        if self.from_index >= self.accounts.len() || self.to_index >= self.accounts.len() {
            self.error = Some("pick an account in both lists".to_owned());
            return;
        }
        match build_add_entries(
            &self.accounts[self.from_index],
            &self.accounts[self.to_index],
            self.amount.as_str(),
        ) {
            Ok(entries) => {
                self.entries = entries;
                self.error = None;
            },
            Err(e) => {
                self.error = Some(e);
            },
        }
    }
}

impl EditView {
    /// Whether the amounts of the transaction add up.
    pub open spec fn adds_up(self) -> bool {
        self.entries.len() >= 2 ==> total(amounts(self.entries)) is Some
    }

    /// With another entry selected.
    pub open spec fn moved(self, down: bool) -> EditView {
        let len = self.entries.len() as int;
        if len == 0 {
            self
        } else {
            EditView { selected: stepped(self.selected, len, down), ..self }
        }
    }

    /// With another text for the selected account, if there is one.
    pub open spec fn with_text(self, text: Seq<char>) -> EditView {
        if 0 <= self.selected < self.buffers.len() {
            EditView { buffers: self.buffers.update(self.selected, text), ..self }
        } else {
            self
        }
    }

    /// The text of the account of an entry.
    pub open spec fn text(self, i: int) -> Seq<char> {
        if 0 <= i < self.buffers.len() {
            self.buffers[i]
        } else {
            Seq::empty()
        }
    }

    /// The first `n` entries with the accounts that were typed, or what is
    /// said of the first that is none.
    pub open spec fn renamed(self, n: int) -> Result<Seq<EntryView>, Seq<char>>
        decreases n,
    {
        if n <= 0 {
            Ok(Seq::empty())
        } else {
            match self.renamed(n - 1) {
                Err(e) => Err(e),
                Ok(before) => match id_read(self.text(n - 1)) {
                    Err(e) => Err(
                        "invalid account "@ + debug_text(self.text(n - 1)) + ": "@ + e.words(),
                    ),
                    Ok(account) => Ok(
                        before.push(EntryView { account, amount: self.entries[n - 1].amount }),
                    ),
                },
            }
        }
    }
}

impl EditAccountsState {
    pub(crate) fn move_selection(&mut self, down: bool)
        ensures
            final(self)@ == old(self)@.moved(down),
    {
        let len: usize = self.entries.len();
        if len > 0 {
            self.selected = step(self.selected, len, down);
        }
    }

    pub(crate) fn type_char(&mut self, c: char)
        ensures
            final(self)@ == old(self)@.with_text(old(self)@.text(old(self)@.selected).push(c)),
    {
        if self.selected < self.buffers.len() {
            let ghost before = self.buffers@;
            let mut text: String = self.buffers[self.selected].clone();
            text.push(c);
            self.buffers.set(self.selected, text);
            assert(string_views(self.buffers@) =~= string_views(before).update(
                self.selected as int,
                text@,
            ));
        }
    }

    pub(crate) fn erase_char(&mut self)
        ensures
            final(self)@ == old(self)@.with_text(popped(old(self)@.text(old(self)@.selected))),
    {
        if self.selected < self.buffers.len() {
            let ghost before = self.buffers@;
            let mut text: String = self.buffers[self.selected].clone();
            let dropped = text.pop();
            self.buffers.set(self.selected, text);
            assert(string_views(self.buffers@) =~= string_views(before).update(
                self.selected as int,
                text@,
            ));
        }
    }

    pub(crate) fn rename(&self) -> (renamed: Result<Vec<Entry>, String>)
        ensures
            match renamed {
                Ok(entries) => self@.renamed(self@.entries.len() as int) == Ok::<
                    Seq<EntryView>,
                    Seq<char>,
                >(entry_views(entries@)),
                Err(e) => self@.renamed(self@.entries.len() as int) == Err::<
                    Seq<EntryView>,
                    Seq<char>,
                >(e@),
            },
    {
        let mut entries: Vec<Entry> = Vec::new();
        assert(entry_views(entries@) =~= Seq::empty());
        for i in 0..self.entries.len()
            invariant
                self@.renamed(i as int) == Ok::<Seq<EntryView>, Seq<char>>(entry_views(entries@)),
        {
            let ghost was = entry_views(entries@);
            let text: String = if i < self.buffers.len() {
                self.buffers[i].clone()
            } else {
                String::new()
            };
            assert(text@ =~= self@.text(i as int));
            match AccountId::parse(text.as_str()) {
                Ok(account) => {
                    entries.push(Entry { account, amount: self.entries[i].amount });
                    assert(entry_views(entries@) =~= was.push(
                        EntryView { account: account@, amount: self@.entries[i as int].amount },
                    ));
                },
                Err(why) => {
                    let mut e = "invalid account ".to_owned();
                    e.append(std_debug_text(text.as_str()).as_str());
                    e.append(": ");
                    e.append(why.message().as_str());
                    proof {
                        lemma_renamed_error(self@, i + 1, self@.entries.len() as int);
                    }
                    return Err(e);
                },
            }
        }
        Ok(entries)
    }
}

proof fn lemma_renamed_error(state: EditView, i: int, n: int)
    requires
        i <= n,
        state.renamed(i) is Err,
    ensures
        state.renamed(n) == state.renamed(i),
    decreases n - i,
{
    if i < n {
        lemma_renamed_error(state, i, n - 1);
    }
}

proof fn lemma_renamed_amounts(state: EditView, n: int)
    requires
        0 <= n <= state.entries.len(),
        state.renamed(n) is Ok,
    ensures
        amounts(state.renamed(n)->Ok_0) == amounts(state.entries.take(n)),
    decreases n,
{
    if n > 0 {
        lemma_renamed_amounts(state, n - 1);
        let before = state.renamed(n - 1)->Ok_0;
        let after = state.renamed(n)->Ok_0;
        let e = after.last();
        assert(after == before.push(e) && e.amount == state.entries[n - 1].amount);
        assert(amounts(after) =~= amounts(before).push(e.amount));
        assert(amounts(state.entries.take(n)) =~= amounts(state.entries.take(n - 1)).push(e.amount));
    } else {
        assert(amounts(state.renamed(n)->Ok_0) =~= amounts(state.entries.take(n)));
    }
}

/// Editing accounts keeps the amounts.
pub proof fn law_editing_keeps_amounts(state: EditView)
    requires
        state.renamed(state.entries.len() as int) is Ok,
    ensures
        amounts(state.renamed(state.entries.len() as int)->Ok_0) == amounts(state.entries),
{
    lemma_renamed_amounts(state, state.entries.len() as int);
    assert(state.entries.take(state.entries.len() as int) =~= state.entries);
}

impl AppView {
    /// The accounts that show.
    pub open spec fn filtered_accounts(self) -> Seq<BalanceView> {
        matching_accounts(self.accounts, self.search)
    }

    /// The transactions that show in the register of an account.
    pub open spec fn filtered_transactions(self) -> Seq<TransactionView> {
        match self.view {
            ScreenView::Accounts => Seq::empty(),
            ScreenView::Register(account) => matching_transactions(
                self.transactions,
                Filters {
                    account,
                    date_from: self.date_from,
                    date_to: self.date_to,
                    search: self.search,
                },
            ),
        }
    }

    /// The number of rows that show.
    pub open spec fn list_len(self) -> nat {
        match self.view {
            ScreenView::Accounts => self.filtered_accounts().len(),
            ScreenView::Register(_) => self.filtered_transactions().len(),
        }
    }

    /// With the cursor on the first row, if there is one.
    pub open spec fn reset(self) -> AppView {
        AppView {
            selected: if self.list_len() > 0 {
                Some(0)
            } else {
                None
            },
            ..self
        }
    }

    /// With the cursor moved, round and round.
    pub open spec fn moved(self, delta: int) -> AppView {
        let len = self.list_len() as int;
        let current = match self.selected {
            Some(i) => i,
            None => 0,
        };
        AppView {
            selected: if len == 0 {
                None
            } else {
                Some((current + delta) % len)
            },
            ..self
        }
    }

    /// The transaction under the cursor of a register.
    pub open spec fn selected_transaction(self) -> Option<TransactionView> {
        match (self.view, self.selected) {
            (ScreenView::Register(_), Some(i)) => if 0 <= i < self.filtered_transactions().len() {
                Some(self.filtered_transactions()[i])
            } else {
                None
            },
            _ => None,
        }
    }

    /// With the register of the account under the cursor.
    pub open spec fn drilled_in(self) -> AppView {
        match (self.view, self.selected) {
            (ScreenView::Accounts, Some(i)) => if 0 <= i < self.filtered_accounts().len() {
                AppView {
                    view: ScreenView::Register(self.filtered_accounts()[i].id),
                    ..self
                }.reset()
            } else {
                self
            },
            _ => self,
        }
    }

    /// With the accounts in place of a register.
    pub open spec fn drilled_out(self) -> AppView {
        if self.view is Register {
            AppView { view: ScreenView::Accounts, ..self }.reset()
        } else {
            self
        }
    }

    /// With the form for a new transaction: the money goes from the first
    /// account to the second.
    pub open spec fn adding(self) -> AppView {
        let accounts = Seq::new(self.accounts.len(), |i: int| self.accounts[i].id);
        AppView {
            add_transaction: Some(
                AddView {
                    accounts,
                    from_index: 0,
                    to_index: if accounts.len() >= 2 {
                        1
                    } else {
                        0
                    },
                    from_offset: 0,
                    to_offset: 0,
                    amount: Seq::empty(),
                    memo: Seq::empty(),
                    focus: AddField::From,
                    error: None,
                    entries: Seq::empty(),
                },
            ),
            input_mode: InputMode::AddTransaction,
            ..self
        }
    }

    /// With the accounts of the transaction under the cursor to be edited.
    pub open spec fn editing(self) -> AppView {
        match self.selected_transaction() {
            None => self,
            Some(tx) => AppView {
                edit_accounts: Some(
                    EditView {
                        id: tx.id,
                        posted_at: tx.posted_at,
                        memo: tx.memo,
                        entries: tx.entries,
                        buffers: Seq::new(tx.entries.len(), |i: int| tx.entries[i].account),
                        selected: 0,
                    },
                ),
                input_mode: InputMode::EditAccounts,
                ..self
            },
        }
    }

    /// With the command for the transaction under the cursor to be copied.
    pub open spec fn reconstructing(self) -> (AppView, ActionView) {
        match self.selected_transaction() {
            None => (self, ActionView::Nothing),
            Some(tx) => match first_unknown(tx.entries, classes_of(self.accounts)) {
                Some(id) => (
                    AppView { status: "reconstruct failed: "@ + ("unknown account: "@ + id), ..self },
                    ActionView::Nothing,
                ),
                None => {
                    let command = add_command(tx, classes_of(self.accounts));
                    (self, ActionView::Copy { command, text: without_line_ends(command) })
                },
            },
        }
    }

    /// With another mode.
    pub open spec fn in_mode(self, mode: InputMode) -> AppView {
        AppView { input_mode: mode, ..self }
    }

    /// With another mode and a status.
    pub open spec fn saying(self, mode: InputMode, status: Seq<char>) -> AppView {
        AppView { input_mode: mode, status, ..self }
    }

    /// With a field open for a text that can be changed.
    pub open spec fn asking(self, mode: InputMode, text: Seq<char>) -> AppView {
        AppView { input_mode: mode, input_buffer: text, ..self }
    }
}

/// The date, or no text where there is none.
pub open spec fn date_or_empty(date: Option<int>) -> Seq<char> {
    match date {
        Some(t) => date_text(t),
        None => Seq::empty(),
    }
}

impl AppView {
    /// What a key does in normal mode.
    pub open spec fn normal_key(self, code: KeyCode) -> (AppView, ActionView) {
        match code {
            KeyCode::Char('q') => (self, ActionView::Quit),
            KeyCode::Char('j') | KeyCode::Down => (self.moved(1), ActionView::Nothing),
            KeyCode::Char('k') | KeyCode::Up => (self.moved(-1), ActionView::Nothing),
            KeyCode::Char('/') => (
                self.asking(InputMode::Search, self.search),
                ActionView::Nothing,
            ),
            KeyCode::Char('f') => (
                self.asking(InputMode::DateFrom, date_or_empty(self.date_from)),
                ActionView::Nothing,
            ),
            KeyCode::Char('t') => (
                self.asking(InputMode::DateTo, date_or_empty(self.date_to)),
                ActionView::Nothing,
            ),
            KeyCode::Char('c') => (
                AppView {
                    status: "filters cleared"@,
                    ..(AppView {
                        search: Seq::empty(),
                        date_from: None,
                        date_to: None,
                        ..self
                    }).reset()
                },
                ActionView::Nothing,
            ),
            KeyCode::Char('r') => (self, ActionView::Reload),
            KeyCode::Char('a') => (self.adding(), ActionView::Nothing),
            KeyCode::Char('D') => (
                if self.selected_transaction() is Some {
                    self.in_mode(InputMode::DeleteConfirm)
                } else {
                    self
                },
                ActionView::Nothing,
            ),
            KeyCode::Char('C') => (self.editing(), ActionView::Nothing),
            KeyCode::Char('y') => self.reconstructing(),
            KeyCode::Char('?') => (self.in_mode(InputMode::Help), ActionView::Nothing),
            KeyCode::Enter => (self.drilled_in(), ActionView::Nothing),
            KeyCode::Esc => (self.drilled_out(), ActionView::Nothing),
            _ => (self, ActionView::Nothing),
        }
    }

    /// With the text that was typed put to its use.
    pub open spec fn entered(self) -> AppView {
        let closed = AppView {
            input_mode: InputMode::Normal,
            input_buffer: Seq::empty(),
            ..self
        };
        match self.input_mode {
            InputMode::Search => AppView { search: self.input_buffer, ..closed }.reset(),
            InputMode::DateFrom => AppView {
                date_from: typed_date(self.input_buffer),
                ..closed
            }.reset(),
            InputMode::DateTo => AppView {
                date_to: typed_date(self.input_buffer),
                ..closed
            }.reset(),
            _ => closed.reset(),
        }
    }

    /// What a key does while a text is typed.
    pub open spec fn input_key(self, code: KeyCode) -> AppView {
        match code {
            KeyCode::Enter => self.entered(),
            KeyCode::Esc => self.asking(InputMode::Normal, Seq::empty()),
            KeyCode::Backspace => AppView { input_buffer: popped(self.input_buffer), ..self },
            KeyCode::Char(c) => AppView { input_buffer: self.input_buffer.push(c), ..self },
            _ => self,
        }
    }

    /// What a key does while a deletion is to be confirmed.
    pub open spec fn delete_confirm_key(self, code: KeyCode) -> (AppView, ActionView) {
        match code {
            KeyCode::Char('y') | KeyCode::Char('Y') => match self.selected_transaction() {
                None => (self.in_mode(InputMode::Normal), ActionView::Nothing),
                Some(tx) => (self, ActionView::Delete(tx.id)),
            },
            KeyCode::Char('n') | KeyCode::Char('N') | KeyCode::Esc | KeyCode::Enter => (
                self.saying(InputMode::Normal, "delete cancelled"@),
                ActionView::Nothing,
            ),
            _ => (self, ActionView::Nothing),
        }
    }

    /// What a key does while accounts are edited.
    pub open spec fn edit_accounts_key(self, code: KeyCode) -> AppView {
        match self.edit_accounts {
            None => self.in_mode(InputMode::Normal),
            Some(state) => match code {
                KeyCode::Char('j') | KeyCode::Down => AppView {
                    edit_accounts: Some(state.moved(true)),
                    ..self
                },
                KeyCode::Char('k') | KeyCode::Up => AppView {
                    edit_accounts: Some(state.moved(false)),
                    ..self
                },
                KeyCode::Backspace => AppView {
                    edit_accounts: Some(state.with_text(popped(state.text(state.selected)))),
                    ..self
                },
                KeyCode::Enter => self.in_mode(InputMode::EditAccountsConfirm),
                KeyCode::Esc => AppView {
                    edit_accounts: None,
                    ..self.saying(InputMode::Normal, "edit cancelled"@)
                },
                KeyCode::Char(c) => AppView {
                    edit_accounts: Some(state.with_text(state.text(state.selected).push(c))),
                    ..self
                },
                _ => self,
            },
        }
    }

    /// With the edited accounts to be stored: the transaction keeps its id,
    /// date, memo and amounts.
    pub open spec fn edit_confirmed(self) -> (AppView, ActionView) {
        match self.edit_accounts {
            None => (self.in_mode(InputMode::Normal), ActionView::Nothing),
            Some(state) => match state.renamed(state.entries.len() as int) {
                Err(e) => (self.saying(InputMode::EditAccounts, e), ActionView::Nothing),
                Ok(entries) => match imbalance(entries) {
                    Some(e) => (
                        self.saying(
                            InputMode::EditAccounts,
                            "invalid transaction: "@ + e.words(),
                        ),
                        ActionView::Nothing,
                    ),
                    None => (
                        AppView { edit_accounts: None, ..self },
                        ActionView::Replace(
                            TransactionView {
                                id: state.id,
                                posted_at: state.posted_at,
                                memo: state.memo,
                                entries,
                                kind: TransactionKind::Normal,
                            },
                        ),
                    ),
                },
            },
        }
    }

    /// What a key does while edited accounts are to be confirmed.
    pub open spec fn edit_confirm_key(self, code: KeyCode) -> (AppView, ActionView) {
        match code {
            KeyCode::Char('y') | KeyCode::Char('Y') => self.edit_confirmed(),
            KeyCode::Char('n') | KeyCode::Char('N') | KeyCode::Esc => (
                self.saying(InputMode::EditAccounts, "edit not applied"@),
                ActionView::Nothing,
            ),
            _ => (self, ActionView::Nothing),
        }
    }

    /// With another state of the form.
    pub open spec fn with_form(self, state: AddView) -> AppView {
        AppView { add_transaction: Some(state), ..self }
    }

    /// With a preview of the form, to be confirmed, or with the reason why
    /// there is none.
    pub open spec fn add_previewed(self) -> AppView {
        match self.add_transaction {
            None => self.in_mode(InputMode::Normal),
            Some(state) => {
                let next = self.with_form(state.previewed());
                if state.previewed().error is None {
                    next.in_mode(InputMode::AddConfirm)
                } else {
                    next
                }
            },
        }
    }

    /// What a key does while the form is filled in.
    pub open spec fn add_key(self, code: KeyCode) -> AppView {
        match self.add_transaction {
            None => self.in_mode(InputMode::Normal),
            Some(state) => match code {
                KeyCode::Tab => self.with_form(state.advanced()),
                KeyCode::Enter => if state.focus is Memo {
                    self.add_previewed()
                } else {
                    self.with_form(state.advanced())
                },
                KeyCode::Backspace => self.with_form(state.erased()),
                KeyCode::Esc => AppView {
                    add_transaction: None,
                    ..self.saying(InputMode::Normal, "add cancelled"@)
                },
                KeyCode::Down => self.with_form(state.moved(true)),
                KeyCode::Up => self.with_form(state.moved(false)),
                KeyCode::Char(c) => if !state.focus.is_list() {
                    self.with_form(state.typed(c))
                } else if c == 'j' {
                    self.with_form(state.moved(true))
                } else if c == 'k' {
                    self.with_form(state.moved(false))
                } else {
                    self
                },
                _ => self,
            },
        }
    }

    /// With the transaction of the form to be stored, under an id and dated
    /// today.
    pub open spec fn add_confirmed(self, id: u128, today: int) -> (AppView, ActionView) {
        match self.add_transaction {
            None => (self.in_mode(InputMode::Normal), ActionView::Nothing),
            Some(state) => {
                let closed = AppView { add_transaction: None, ..self };
                match imbalance(state.entries) {
                    Some(e) => (
                        closed.saying(InputMode::Normal, "invalid transaction: "@ + e.words()),
                        ActionView::Nothing,
                    ),
                    None => (
                        closed,
                        ActionView::Save(
                            TransactionView {
                                id,
                                posted_at: today,
                                memo: state.memo,
                                entries: state.entries,
                                kind: TransactionKind::Normal,
                            },
                        ),
                    ),
                }
            },
        }
    }

    /// What a key does while the form is to be confirmed.
    pub open spec fn add_confirm_key(self, code: KeyCode, id: u128, today: int) -> (
        AppView,
        ActionView,
    ) {
        match code {
            KeyCode::Char('y') | KeyCode::Char('Y') => self.add_confirmed(id, today),
            KeyCode::Char('n') | KeyCode::Char('N') | KeyCode::Esc => (
                self.in_mode(InputMode::AddTransaction),
                ActionView::Nothing,
            ),
            _ => (self, ActionView::Nothing),
        }
    }

    /// What a key does. A new transaction gets `id` and is dated `today`.
    pub open spec fn pressed(self, key: Key, id: u128, today: int) -> (AppView, ActionView) {
        if key.control && key.code == KeyCode::Char('c') {
            (self, ActionView::Quit)
        } else {
            match self.input_mode {
                InputMode::Normal => self.normal_key(key.code),
                InputMode::Search | InputMode::DateFrom | InputMode::DateTo => (
                    self.input_key(key.code),
                    ActionView::Nothing,
                ),
                InputMode::DeleteConfirm => self.delete_confirm_key(key.code),
                InputMode::EditAccounts => (self.edit_accounts_key(key.code), ActionView::Nothing),
                InputMode::EditAccountsConfirm => self.edit_confirm_key(key.code),
                InputMode::AddTransaction => (self.add_key(key.code), ActionView::Nothing),
                InputMode::AddConfirm => self.add_confirm_key(key.code, id, today),
                InputMode::Reconstruct => (
                    AppView { reconstruct_cmd: None, ..self.in_mode(InputMode::Normal) },
                    ActionView::Nothing,
                ),
                InputMode::Help => (self.in_mode(InputMode::Normal), ActionView::Nothing),
            }
        }
    }

    /// Whether the amounts that the key would post add up.
    pub open spec fn accepts(self, key: Key) -> bool {
        let yes = key.code == KeyCode::Char('y') || key.code == KeyCode::Char('Y');
        &&& yes && self.input_mode is EditAccountsConfirm ==> (self.edit_accounts matches Some(
            state,
        ) ==> state.adds_up())
        &&& yes && self.input_mode is AddConfirm ==> (self.add_transaction matches Some(state)
            ==> state.adds_up())
    }
}

} // verus!
