//! What the terminal interface shows: texts, styles and places.

use ratatui::layout::{Constraint, Direction, Layout, Rect};
use vstd::prelude::*;
use vstd::string::*;

use crate::account_id::AccountId;
use crate::audit::id_views;
use crate::book::{mentions, EntryView};
use crate::decimal::{Amount, Dec};
use crate::model::{
    class_to_str, entry_views, speaks_of, transaction_views, AccountClass, Entry,
};
use crate::money::{fmt_money, fmt_signed_money, money_text, signed_money_text};
use crate::text::{
    cut, cut_text, glued, lines_of, pad_left, pad_right, padded_left, padded_right, split_lines,
    string_views,
};
use crate::time::{date_text, moment, Timestamp};
use crate::tui::{
    balance_views, AddField, AddTransactionState, AddView, App, AppView, BalanceView,
    EditAccountsState, EditView, InputMode, Screen, ScreenView, ADD_LIST_VISIBLE,
};

verus! {

/// How a text is set off.
#[derive(Debug, Clone, Copy, PartialEq, Eq, Structural)]
pub enum Emphasis {
    Plain,
    Dim,
    Bold,
    Reversed,
}

/// A piece of a line.
#[derive(Debug, PartialEq, Eq)]
pub struct StyledSpan {
    pub text: String,
    pub style: Emphasis,
}

/// A line of pieces, with a style of its own.
#[derive(Debug, PartialEq, Eq)]
pub struct StyledLine {
    pub spans: Vec<StyledSpan>,
    pub style: Emphasis,
}

/// A line, as a value.
#[verifier::ext_equal]
pub struct LineView {
    pub spans: Seq<(Seq<char>, Emphasis)>,
    pub style: Emphasis,
}

impl View for StyledSpan {
    type V = (Seq<char>, Emphasis);

    open spec fn view(&self) -> (Seq<char>, Emphasis) {
        (self.text@, self.style)
    }
}

impl View for StyledLine {
    type V = LineView;

    open spec fn view(&self) -> LineView {
        LineView {
            spans: Seq::new(self.spans@.len(), |i: int| self.spans@[i]@),
            style: self.style,
        }
    }
}

/// Lines, as values.
pub open spec fn line_views(lines: Seq<StyledLine>) -> Seq<LineView> {
    Seq::new(lines.len(), |i: int| lines[i]@)
}

/// A line of one plain piece.
pub open spec fn raw(text: Seq<char>, style: Emphasis) -> LineView {
    LineView { spans: seq![(text, Emphasis::Plain)], style }
}

/// A line of two plain pieces.
pub open spec fn two(a: Seq<char>, b: Seq<char>) -> LineView {
    LineView { spans: seq![(a, Emphasis::Plain), (b, Emphasis::Plain)], style: Emphasis::Plain }
}

fn raw_line(text: String, style: Emphasis) -> (line: StyledLine)
    ensures
        line@ == raw(text@, style),
{
    let mut spans: Vec<StyledSpan> = Vec::new();
    spans.push(StyledSpan { text, style: Emphasis::Plain });
    let line = StyledLine { spans, style };
    assert(line@.spans =~= raw(text@, style).spans);
    line
}

fn two_line(a: String, b: String, second: Emphasis, style: Emphasis) -> (line: StyledLine)
    ensures
        line@ == (LineView { spans: seq![(a@, Emphasis::Plain), (b@, second)], style }),
{
    let mut spans: Vec<StyledSpan> = Vec::new();
    spans.push(StyledSpan { text: a, style: Emphasis::Plain });
    spans.push(StyledSpan { text: b, style: second });
    let line = StyledLine { spans, style };
    assert(line@.spans =~= seq![(a@, Emphasis::Plain), (b@, second)]);
    line
}

fn push_line(lines: &mut Vec<StyledLine>, line: StyledLine)
    ensures
        line_views(final(lines)@) == line_views(old(lines)@).push(line@),
{
    let ghost was = line_views(lines@);
    lines.push(line);
    assert(line_views(lines@) =~= was.push(line@));
}

impl AppView {
    /// The line at the top.
    pub open spec fn title(self) -> Seq<char> {
        match self.view {
            ScreenView::Accounts => "ledger"@,
            ScreenView::Register(account) => "ledger > "@ + account,
        }
    }

    /// What is said in place of a table without rows.
    pub open spec fn empty_message(self) -> Option<Seq<char>> {
        match self.view {
            ScreenView::Accounts => if self.filtered_accounts().len() > 0 {
                None
            } else if self.accounts.len() == 0 {
                Some("no accounts yet — register one with `ledger add`"@)
            } else {
                Some("no accounts match the current filters"@)
            },
            ScreenView::Register(account) => if self.filtered_transactions().len() > 0 {
                None
            } else if exists|i: int|
                0 <= i < self.transactions.len() && mentions(
                    (#[trigger] self.transactions[i]).entries,
                    account,
                ) {
                Some("no transactions match the current filters"@)
            } else {
                Some("no transactions yet for this account"@)
            },
        }
    }

    /// The rows of the accounts: id and balance.
    pub open spec fn account_rows(self) -> Seq<(Seq<char>, Seq<char>)> {
        Seq::new(
            self.filtered_accounts().len(),
            |i: int|
                (self.filtered_accounts()[i].id, money_text(self.filtered_accounts()[i].balance)),
        )
    }

    /// The rows of a register: date, memo and what the account got.
    pub open spec fn register_rows(self, account: Seq<char>) -> Seq<
        (Seq<char>, Seq<char>, Seq<char>),
    > {
        Seq::new(
            self.filtered_transactions().len(),
            |i: int|
                {
                    let tx = self.filtered_transactions()[i];
                    (
                        date_text(tx.posted_at),
                        tx.memo,
                        money_text(first_amount(tx.entries, account)),
                    )
                },
        )
    }
}

/// The amount of the first entry of an account, or nothing.
pub open spec fn first_amount(entries: Seq<EntryView>, account: Seq<char>) -> Dec
    decreases entries.len(),
{
    if entries.len() == 0 {
        Dec::zero()
    } else if entries[0].account == account {
        entries[0].amount
    } else {
        first_amount(entries.drop_first(), account)
    }
}

fn first_amount_of(entries: &Vec<Entry>, account: &AccountId) -> (amount: Amount)
    ensures
        amount@ == first_amount(entry_views(entries@), account@),
{
    let ghost all = entry_views(entries@);
    assert(all.skip(0) =~= all);
    for i in 0..entries.len()
        invariant
            all == entry_views(entries@),
            first_amount(all, account@) == first_amount(all.skip(i as int), account@),
    {
        assert(all.skip(i as int)[0] == all[i as int]);
        assert(all.skip(i as int).drop_first() =~= all.skip(i + 1));
        if entries[i].account.same(account) {
            return entries[i].amount;
        }
    }
    Amount::zero()
}

/// The line at the top.
pub fn title_text(app: &App) -> (s: String)
    ensures
        s@ == app@.title(),
{
    match &app.view {
        Screen::Accounts => "ledger".to_owned(),
        Screen::Register { account } => glued("ledger > ", account.as_str()),
    }
}

fn any_of(app: &App, account: &AccountId) -> (yes: bool)
    ensures
        yes == exists|i: int|
            0 <= i < app@.transactions.len() && mentions(
                (#[trigger] app@.transactions[i]).entries,
                account@,
            ),
{
    for i in 0..app.transactions.len()
        invariant
            forall|j: int|
                0 <= j < i ==> !mentions((#[trigger] app@.transactions[j]).entries, account@),
    {
        assert(app@.transactions[i as int].entries == entry_views(app.transactions@[i as int].entries@));
        if speaks_of(&app.transactions[i].entries, account) {
            return true;
        }
    }
    false
}

/// What is said in place of a table without rows.
pub fn empty_message(app: &App) -> (message: Option<String>)
    ensures
        app@.empty_message() == (match message {
            Some(s) => Some(s@),
            None => None,
        }),
{
    let len: usize = app.current_list_len();
    match &app.view {
        Screen::Accounts => {
            if len > 0 {
                None
            } else if app.accounts_with_balances.len() == 0 {
                Some("no accounts yet — register one with `ledger add`".to_owned())
            } else {
                Some("no accounts match the current filters".to_owned())
            }
        },
        Screen::Register { account } => {
            if len > 0 {
                None
            } else if any_of(app, account) {
                Some("no transactions match the current filters".to_owned())
            } else {
                Some("no transactions yet for this account".to_owned())
            }
        },
    }
}

/// The rows of the accounts: id and balance.
pub fn account_rows(app: &App) -> (rows: Vec<(String, String)>)
    ensures
        crate::cli::pair_views(rows@) == app@.account_rows(),
{
    let shown = app.filtered_accounts();
    let mut rows: Vec<(String, String)> = Vec::new();
    for i in 0..shown.len()
        invariant
            rows@.len() == i,
            forall|j: int|
                0 <= j < i ==> (#[trigger] rows@[j]).0@ == balance_views(shown@)[j].id
                    && rows@[j].1@ == money_text(balance_views(shown@)[j].balance),
    {
        rows.push((shown[i].0.id.as_str().to_owned(), fmt_money(shown[i].1)));
    }
    assert(balance_views(shown@).len() == shown@.len());
    assert(crate::cli::pair_views(rows@) =~= app@.account_rows());
    rows
}

/// Rows of three texts.
pub open spec fn triple_views(rows: Seq<(String, String, String)>) -> Seq<
    (Seq<char>, Seq<char>, Seq<char>),
> {
    Seq::new(rows.len(), |i: int| (rows[i].0@, rows[i].1@, rows[i].2@))
}

/// The rows of a register: date, memo and what the account got.
pub fn register_rows(app: &App, account: &AccountId) -> (rows: Vec<(String, String, String)>)
    ensures
        triple_views(rows@) == app@.register_rows(account@),
{
    let shown = app.filtered_transactions();
    let mut rows: Vec<(String, String, String)> = Vec::new();
    let ghost all = transaction_views(shown@);
    for i in 0..shown.len()
        invariant
            rows@.len() == i,
            all == transaction_views(shown@),
            forall|j: int|
                0 <= j < i ==> (#[trigger] rows@[j]).0@ == date_text(all[j].posted_at)
                    && rows@[j].1@ == all[j].memo && rows@[j].2@ == money_text(
                    first_amount(all[j].entries, account@),
                ),
    {
        let tx = &shown[i];
        let amount: Amount = first_amount_of(&tx.entries, account);
        rows.push((tx.posted_at.date(), tx.memo.clone(), fmt_money(amount)));
    }
    assert(all.len() == shown@.len());
    assert(triple_views(rows@) =~= app@.register_rows(account@));
    rows
}

/// A text before and behind which something stands, if it is not empty.
pub open spec fn tag(before: Seq<char>, text: Seq<char>, behind: Seq<char>) -> Seq<
    (Seq<char>, Emphasis),
> {
    if text.len() == 0 {
        Seq::empty()
    } else {
        seq![(before + text + behind, Emphasis::Plain)]
    }
}

/// A date behind a label, if there is one.
pub open spec fn date_tag(label: Seq<char>, date: Option<int>) -> Seq<(Seq<char>, Emphasis)> {
    match date {
        Some(t) => seq![(label + date_text(t) + " "@, Emphasis::Plain)],
        None => Seq::empty(),
    }
}

impl AppView {
    /// The line at the bottom.
    pub open spec fn status_line(self) -> LineView {
        match self.input_mode {
            InputMode::Normal => LineView {
                spans: tag("/"@, self.search, " "@) + date_tag("from:"@, self.date_from) + date_tag(
                    "to:"@,
                    self.date_to,
                ) + tag("["@, self.status, "] "@) + seq![("?: help  q: quit"@, Emphasis::Dim)],
                style: Emphasis::Plain,
            },
            InputMode::Search => raw(
                "/"@ + self.input_buffer + "  (Enter: confirm, Esc: cancel)"@,
                Emphasis::Plain,
            ),
            InputMode::DateFrom => raw(
                "from (YYYY-MM-DD, empty to clear): "@ + self.input_buffer
                    + "  (Enter: confirm, Esc: cancel)"@,
                Emphasis::Plain,
            ),
            InputMode::DateTo => raw(
                "to (YYYY-MM-DD, empty to clear): "@ + self.input_buffer
                    + "  (Enter: confirm, Esc: cancel)"@,
                Emphasis::Plain,
            ),
            InputMode::DeleteConfirm => raw("Delete this transaction? (y/n)"@, Emphasis::Plain),
            InputMode::EditAccounts => raw(
                "C: edit accounts  j/k: select entry  type to edit account  Enter: confirm  Esc: cancel"@,
                Emphasis::Plain,
            ),
            InputMode::EditAccountsConfirm => raw("Apply account changes? (y/n)"@, Emphasis::Plain),
            InputMode::AddTransaction => raw(
                "a: add  Tab: next field  j/k: pick account  Enter: preview  Esc: cancel"@,
                Emphasis::Plain,
            ),
            InputMode::AddConfirm => raw("Save this transaction? (y/n)"@, Emphasis::Plain),
            InputMode::Reconstruct | InputMode::Help => raw("any key to close"@, Emphasis::Plain),
        }
    }
}

fn push_span(spans: &mut Vec<StyledSpan>, text: String, style: Emphasis)
    ensures
        span_views(final(spans)@) == span_views(old(spans)@).push((text@, style)),
{
    let ghost was = span_views(spans@);
    spans.push(StyledSpan { text, style });
    assert(span_views(spans@) =~= was.push((text@, style)));
}

/// Pieces of a line, as values.
pub open spec fn span_views(spans: Seq<StyledSpan>) -> Seq<(Seq<char>, Emphasis)> {
    Seq::new(spans.len(), |i: int| spans[i]@)
}

fn push_tag(spans: &mut Vec<StyledSpan>, before: &str, text: &str, behind: &str)
    ensures
        span_views(final(spans)@) == span_views(old(spans)@) + tag(before@, text@, behind@),
{
    let ghost was = span_views(spans@);
    if text.unicode_len() > 0 {
        let mut s = glued(before, text);
        s.append(behind);
        push_span(spans, s, Emphasis::Plain);
    }
    assert(span_views(spans@) =~= was + tag(before@, text@, behind@));
}

fn push_date_tag(spans: &mut Vec<StyledSpan>, label: &str, date: &Option<Timestamp>)
    ensures
        span_views(final(spans)@) == span_views(old(spans)@) + date_tag(label@, moment(*date)),
{
    let ghost was = span_views(spans@);
    if let Some(t) = date {
        let mut s = glued(label, t.date().as_str());
        s.append(" ");
        push_span(spans, s, Emphasis::Plain);
    }
    assert(span_views(spans@) =~= was + date_tag(label@, moment(*date)));
}

fn prompt(label: &str, text: &str) -> (line: StyledLine)
    ensures
        line@ == raw(label@ + text@ + "  (Enter: confirm, Esc: cancel)"@, Emphasis::Plain),
{
    let mut s = glued(label, text);
    s.append("  (Enter: confirm, Esc: cancel)");
    raw_line(s, Emphasis::Plain)
}

fn says(text: &str) -> (line: StyledLine)
    ensures
        line@ == raw(text@, Emphasis::Plain),
{
    raw_line(text.to_owned(), Emphasis::Plain)
}

/// The line at the bottom.
pub fn status_line(app: &App) -> (line: StyledLine)
    ensures
        line@ == app@.status_line(),
{
    match app.input_mode {
        InputMode::Normal => {
            let mut spans: Vec<StyledSpan> = Vec::new();
            assert(span_views(spans@) =~= Seq::empty());
            push_tag(&mut spans, "/", app.search.as_str(), " ");
            push_date_tag(&mut spans, "from:", &app.date_from);
            push_date_tag(&mut spans, "to:", &app.date_to);
            push_tag(&mut spans, "[", app.status.as_str(), "] ");
            push_span(&mut spans, "?: help  q: quit".to_owned(), Emphasis::Dim);
            let line = StyledLine { spans, style: Emphasis::Plain };
            assert(line@.spans =~= app@.status_line().spans);
            line
        },
        InputMode::Search => prompt("/", app.input_buffer.as_str()),
        InputMode::DateFrom => prompt(
            "from (YYYY-MM-DD, empty to clear): ",
            app.input_buffer.as_str(),
        ),
        InputMode::DateTo => prompt(
            "to (YYYY-MM-DD, empty to clear): ",
            app.input_buffer.as_str(),
        ),
        InputMode::DeleteConfirm => says("Delete this transaction? (y/n)"),
        InputMode::EditAccounts => says(
            "C: edit accounts  j/k: select entry  type to edit account  Enter: confirm  Esc: cancel",
        ),
        InputMode::EditAccountsConfirm => says("Apply account changes? (y/n)"),
        InputMode::AddTransaction => says(
            "a: add  Tab: next field  j/k: pick account  Enter: preview  Esc: cancel",
        ),
        InputMode::AddConfirm => says("Save this transaction? (y/n)"),
        InputMode::Reconstruct | InputMode::Help => says("any key to close"),
    }
}

/// A box over the table.
#[derive(Debug, PartialEq, Eq)]
pub struct Modal {
    pub title: String,
    pub width: u16,
    pub height: u16,
    pub lines: Vec<StyledLine>,
}

/// A box over the table, as a value.
#[verifier::ext_equal]
pub struct ModalView {
    pub title: Seq<char>,
    pub width: int,
    pub height: int,
    pub lines: Seq<LineView>,
}

impl View for Modal {
    type V = ModalView;

    open spec fn view(&self) -> ModalView {
        ModalView {
            title: self.title@,
            width: self.width as int,
            height: self.height as int,
            lines: line_views(self.lines@),
        }
    }
}

/// A height that fits a terminal.
pub open spec fn capped(n: int) -> int {
    if n <= u16::MAX {
        n
    } else {
        u16::MAX as int
    }
}

fn capped_height(lines: usize, more: u16) -> (height: u16)
    requires
        more <= 100,
    ensures
        height == capped(lines + more),
{
    if lines <= (u16::MAX - more) as usize {
        lines as u16 + more
    } else {
        u16::MAX
    }
}

/// The box that asks whether to delete.
pub open spec fn delete_modal_view() -> ModalView {
    ModalView {
        title: "Delete transaction"@,
        width: 38,
        height: 3,
        lines: seq![raw("Delete this transaction? (y/n)"@, Emphasis::Plain)],
    }
}

fn delete_modal() -> (modal: Modal)
    ensures
        modal@ == delete_modal_view(),
{
    let mut lines: Vec<StyledLine> = Vec::new();
    lines.push(says("Delete this transaction? (y/n)"));
    let modal = Modal { title: "Delete transaction".to_owned(), width: 38, height: 3, lines };
    assert(modal@.lines =~= delete_modal_view().lines);
    modal
}

impl EditView {
    /// The line of an entry.
    pub open spec fn entry_line(self, i: int) -> LineView {
        LineView {
            spans: seq![
                ("  "@ + padded_right(self.text(i), 28), Emphasis::Plain),
                (padded_left(self.entries[i].amount.text(2), 14), Emphasis::Dim),
            ],
            style: if i == self.selected {
                Emphasis::Reversed
            } else {
                Emphasis::Plain
            },
        }
    }

    /// The box in which accounts are edited.
    pub open spec fn modal(self, confirming: bool) -> ModalView {
        ModalView {
            title: if confirming {
                "Edit accounts — Apply changes? (y/n)"@
            } else {
                "Edit accounts"@
            },
            width: 48,
            height: capped(3 + self.entries.len() as int),
            lines: Seq::new(self.entries.len(), |i: int| self.entry_line(i)) + seq![
                raw("  "@, Emphasis::Plain),
                raw("  j/k: select  Enter: confirm  Esc: cancel"@, Emphasis::Dim),
            ],
        }
    }
}

/// The box in which accounts are edited.
fn edit_accounts_modal(state: &EditAccountsState, confirming: bool) -> (modal: Modal)
    ensures
        modal@ == state@.modal(confirming),
{
    let title: String = if confirming {
        "Edit accounts — Apply changes? (y/n)".to_owned()
    } else {
        "Edit accounts".to_owned()
    };
    let ghost view = state@;
    let ghost rows = Seq::new(view.entries.len(), |i: int| view.entry_line(i));
    let mut lines: Vec<StyledLine> = Vec::new();
    assert(line_views(lines@) =~= rows.take(0));
    for i in 0..state.entries.len()
        invariant
            view == state@,
            rows == Seq::new(view.entries.len(), |i: int| view.entry_line(i)),
            line_views(lines@) == rows.take(i as int),
    {
        let text: String = if i < state.buffers.len() {
            state.buffers[i].clone()
        } else {
            String::new()
        };
        assert(text@ =~= view.text(i as int));
        let label = glued("  ", pad_right(text.as_str(), 28).as_str());
        let amount = pad_left(state.entries[i].amount.to_money_text().as_str(), 14);
        let style = if i == state.selected {
            Emphasis::Reversed
        } else {
            Emphasis::Plain
        };
        let line = two_line(label, amount, Emphasis::Dim, style);
        assert(line@ == view.entry_line(i as int));
        push_line(&mut lines, line);
        assert(rows.take(i + 1) =~= rows.take(i as int).push(rows[i as int]));
    }
    assert(rows.take(rows.len() as int) =~= rows);
    push_line(&mut lines, says("  "));
    push_line(
        &mut lines,
        raw_line("  j/k: select  Enter: confirm  Esc: cancel".to_owned(), Emphasis::Dim),
    );
    let modal = Modal { title, width: 48, height: capped_height(state.entries.len(), 3), lines };
    assert(modal@.lines =~= view.modal(confirming).lines);
    modal
}

/// The class of the first account of an id.
pub open spec fn class_in(accounts: Seq<BalanceView>, id: Seq<char>) -> Option<AccountClass>
    decreases accounts.len(),
{
    if accounts.len() == 0 {
        None
    } else if accounts[0].id == id {
        Some(accounts[0].class)
    } else {
        class_in(accounts.drop_first(), id)
    }
}

impl App {
    /// The class of an account, if it is registered.
    pub fn class_of(&self, id: &AccountId) -> (class: Option<AccountClass>)
        ensures
            class == class_in(self@.accounts, id@),
    {
        let ghost all = self@.accounts;
        assert(all.skip(0) =~= all);
        for i in 0..self.accounts_with_balances.len()
            invariant
                all == balance_views(self.accounts_with_balances@),
                class_in(all, id@) == class_in(all.skip(i as int), id@),
        {
            let account = &self.accounts_with_balances[i].0;
            assert(all.skip(i as int)[0] == all[i as int]);
            assert(all.skip(i as int).drop_first() =~= all.skip(i + 1));
            if account.id.same(id) {
                return Some(account.class);
            }
        }
        None
    }
}

/// The class of an account in brackets, if it is registered.
pub open spec fn class_suffix(accounts: Seq<BalanceView>, id: Seq<char>) -> Seq<char> {
    match class_in(accounts, id) {
        Some(class) => " ("@ + class.name() + ")"@,
        None => Seq::empty(),
    }
}

/// The line of an entry that is to be posted.
pub open spec fn posted_line(accounts: Seq<BalanceView>, e: EntryView) -> LineView {
    two(
        "  "@ + padded_right(e.account, 24),
        padded_left(signed_money_text(e.amount), 12) + class_suffix(accounts, e.account),
    )
}

impl AddView {
    /// The line of the memo, if there is one.
    pub open spec fn memo_lines(self) -> Seq<LineView> {
        if self.memo.len() == 0 {
            Seq::empty()
        } else {
            seq![raw("  memo: "@ + self.memo, Emphasis::Plain)]
        }
    }

    /// The box in which a new transaction is to be confirmed.
    pub open spec fn confirm_modal(self, accounts: Seq<BalanceView>, today: int) -> ModalView {
        ModalView {
            title: "Add transaction — Save? (y/n)"@,
            width: 58,
            height: 8,
            lines: Seq::new(self.entries.len(), |i: int| posted_line(accounts, self.entries[i]))
                + self.memo_lines() + seq![
                raw(""@, Emphasis::Plain),
                raw("  Posts today ("@ + date_text(today) + ")"@, Emphasis::Dim),
            ],
        }
    }
}

/// The box in which a new transaction is to be confirmed.
fn add_confirm_modal(app: &App, state: &AddTransactionState, today: &Timestamp) -> (modal: Modal)
    ensures
        modal@ == state@.confirm_modal(app@.accounts, today@),
{
    let ghost view = state@;
    let ghost accounts = app@.accounts;
    let ghost rows = Seq::new(view.entries.len(), |i: int| posted_line(accounts, view.entries[i]));
    let mut lines: Vec<StyledLine> = Vec::new();
    assert(line_views(lines@) =~= rows.take(0));
    for i in 0..state.entries.len()
        invariant
            view == state@,
            accounts == app@.accounts,
            rows == Seq::new(
                view.entries.len(),
                |i: int| posted_line(accounts, view.entries[i]),
            ),
            line_views(lines@) == rows.take(i as int),
    {
        let entry = &state.entries[i];
        let label = glued("  ", pad_right(entry.account.as_str(), 24).as_str());
        let mut amount: String = pad_left(fmt_signed_money(&entry.amount).as_str(), 12);
        let ghost padded = amount@;
        if let Some(class) = app.class_of(&entry.account) {
            let mut suffix = glued(" (", class_to_str(class));
            suffix.append(")");
            amount.append(suffix.as_str());
        }
        assert(amount@ =~= padded + class_suffix(accounts, entry.account@));
        let line = two_line(label, amount, Emphasis::Plain, Emphasis::Plain);
        assert(line@ == posted_line(accounts, view.entries[i as int]));
        push_line(&mut lines, line);
        assert(rows.take(i + 1) =~= rows.take(i as int).push(rows[i as int]));
    }
    assert(rows.take(rows.len() as int) =~= rows);
    if state.memo.as_str().unicode_len() > 0 {
        push_line(
            &mut lines,
            raw_line(glued("  memo: ", state.memo.as_str()), Emphasis::Plain),
        );
    }
    assert(line_views(lines@) =~= rows + view.memo_lines());
    push_line(&mut lines, says(""));
    let mut posts = glued("  Posts today (", today.date().as_str());
    posts.append(")");
    push_line(&mut lines, raw_line(posts, Emphasis::Dim));
    let modal = Modal {
        title: "Add transaction — Save? (y/n)".to_owned(),
        width: 58,
        height: 8,
        lines,
    };
    assert(modal@.lines =~= view.confirm_modal(accounts, today@).lines);
    modal
}

/// The characters of a line.
pub open spec fn line_len(line: LineView) -> nat
    decreases line.spans.len(),
{
    if line.spans.len() == 0 {
        0
    } else {
        line_len(LineView { spans: line.spans.drop_last(), ..line }) + line.spans.last().0.len()
    }
}

proof fn lemma_two_len(a: Seq<char>, b: Seq<char>)
    ensures
        line_len(two(a, b)) == a.len() + b.len(),
{
    let line = two(a, b);
    let first = LineView { spans: line.spans.drop_last(), ..line };
    let none = LineView { spans: first.spans.drop_last(), ..first };
    assert(first.spans =~= seq![line.spans[0]]);
    assert(none.spans =~= Seq::empty());
    assert(line_len(none) == 0);
    assert(line_len(first) == a.len());
}

/// Nothing of a preview is cut off: the lines of its entries, with the
/// classes of their accounts, fit into the box, as long as an account has no
/// more characters than its column and an amount no more than eighteen.
pub proof fn law_previews_fit(state: AddView, accounts: Seq<BalanceView>, today: int, i: int)
    requires
        0 <= i < state.entries.len(),
        state.entries[i].account.len() <= 24,
        signed_money_text(state.entries[i].amount).len() <= 18,
    ensures
        state.confirm_modal(accounts, today).lines[i] == posted_line(accounts, state.entries[i]),
        line_len(state.confirm_modal(accounts, today).lines[i]) <= state.confirm_modal(
            accounts,
            today,
        ).width - 2,
{
    let e = state.entries[i];
    reveal_strlit("  ");
    reveal_strlit(" (");
    reveal_strlit(")");
    reveal_strlit("asset");
    reveal_strlit("liability");
    reveal_strlit("equity");
    reveal_strlit("income");
    reveal_strlit("expense");
    lemma_two_len(
        "  "@ + padded_right(e.account, 24),
        padded_left(signed_money_text(e.amount), 12) + class_suffix(accounts, e.account),
    );
    assert(class_suffix(accounts, e.account).len() <= 12);
}

/// A cell of a list of accounts: its text, and whether it is set off.
pub open spec fn list_cell(
    accounts: Seq<Seq<char>>,
    selected: int,
    offset: int,
    focused: bool,
    row: int,
) -> (Seq<char>, bool) {
    let i = offset + row;
    if 0 <= i < accounts.len() {
        (
            (if i == selected {
                "> "@
            } else {
                "  "@
            }) + padded_right(cut(accounts[i], 26), 26),
            i == selected && focused,
        )
    } else {
        (Seq::empty(), false)
    }
}

fn list_cell_of(
    accounts: &Vec<AccountId>,
    selected: usize,
    offset: usize,
    focused: bool,
    row: usize,
) -> (cell: (String, bool))
    ensures
        (cell.0@, cell.1) == list_cell(
            id_views(accounts@),
            selected as int,
            offset as int,
            focused,
            row as int,
        ),
{
    if offset < accounts.len() && row < accounts.len() - offset {
        let i: usize = offset + row;
        let marker = if i == selected {
            "> "
        } else {
            "  "
        };
        let id = pad_right(cut_text(accounts[i].as_str(), 26).as_str(), 26);
        (glued(marker, id.as_str()), i == selected && focused)
    } else {
        (String::new(), false)
    }
}

/// The style of a heading of a list.
pub open spec fn heading_style(focused: bool) -> Emphasis {
    if focused {
        Emphasis::Reversed
    } else {
        Emphasis::Bold
    }
}

/// The style of a cell of a list.
pub open spec fn cell_style(hot: bool) -> Emphasis {
    if hot {
        Emphasis::Reversed
    } else {
        Emphasis::Dim
    }
}

/// Two columns side by side.
pub open spec fn columns(
    left: Seq<char>,
    left_style: Emphasis,
    right: Seq<char>,
    right_style: Emphasis,
) -> LineView {
    LineView {
        spans: seq![
            ("  "@, Emphasis::Plain),
            (padded_right(left, 28), left_style),
            ("  "@, Emphasis::Plain),
            (padded_right(right, 28), right_style),
        ],
        style: Emphasis::Plain,
    }
}

fn columns_line(left: &str, left_style: Emphasis, right: &str, right_style: Emphasis) -> (line:
    StyledLine)
    ensures
        line@ == columns(left@, left_style, right@, right_style),
{
    let mut spans: Vec<StyledSpan> = Vec::new();
    push_span(&mut spans, "  ".to_owned(), Emphasis::Plain);
    push_span(&mut spans, pad_right(left, 28), left_style);
    push_span(&mut spans, "  ".to_owned(), Emphasis::Plain);
    push_span(&mut spans, pad_right(right, 28), right_style);
    let line = StyledLine { spans, style: Emphasis::Plain };
    assert(line@.spans =~= columns(left@, left_style, right@, right_style).spans);
    line
}

/// A field of the form.
pub open spec fn field(label: Seq<char>, text: Seq<char>) -> LineView {
    LineView {
        spans: seq![
            ("  "@, Emphasis::Plain),
            (padded_right(label, 10), Emphasis::Dim),
            (text, Emphasis::Plain),
        ],
        style: Emphasis::Plain,
    }
}

fn field_line(label: &str, text: &str) -> (line: StyledLine)
    ensures
        line@ == field(label@, text@),
{
    let mut spans: Vec<StyledSpan> = Vec::new();
    push_span(&mut spans, "  ".to_owned(), Emphasis::Plain);
    push_span(&mut spans, pad_right(label, 10), Emphasis::Dim);
    push_span(&mut spans, text.to_owned(), Emphasis::Plain);
    let line = StyledLine { spans, style: Emphasis::Plain };
    assert(line@.spans =~= field(label@, text@).spans);
    line
}

impl AddView {
    /// The `from → to` line showing the current selection under the panes.
    pub open spec fn summary_line(self) -> LineView {
        if 0 <= self.from_index < self.accounts.len() && 0 <= self.to_index < self.accounts.len() {
            LineView {
                spans: seq![
                    ("  "@, Emphasis::Plain),
                    (self.accounts[self.from_index], Emphasis::Bold),
                    ("  →  "@, Emphasis::Dim),
                    (self.accounts[self.to_index], Emphasis::Bold),
                ],
                style: Emphasis::Plain,
            }
        } else {
            raw("  (no accounts)"@, Emphasis::Dim)
        }
    }

    /// A row of the two lists.
    pub open spec fn list_row(self, row: int) -> LineView {
        let (left, left_hot) = list_cell(
            self.accounts,
            self.from_index,
            self.from_offset,
            self.focus is From,
            row,
        );
        let (right, right_hot) = list_cell(
            self.accounts,
            self.to_index,
            self.to_offset,
            self.focus is To,
            row,
        );
        columns(left, cell_style(left_hot), right, cell_style(right_hot))
    }

    /// What is wrong with the form.
    pub open spec fn error_line(self) -> LineView {
        match self.error {
            Some(e) => raw("  "@ + e, Emphasis::Plain),
            None => raw(""@, Emphasis::Plain),
        }
    }

    /// The box with the form for a new transaction.
    pub open spec fn form_modal(self) -> ModalView {
        ModalView {
            title: "Add transaction"@,
            width: 64,
            height: 17,
            lines: seq![
                columns(
                    "FROM (-)"@,
                    heading_style(self.focus is From),
                    "TO (+)"@,
                    heading_style(self.focus is To),
                ),
            ] + Seq::new(ADD_LIST_VISIBLE as nat, |r: int| self.list_row(r)) + seq![
                self.summary_line(),
                raw(""@, Emphasis::Plain),
                field("amount"@, self.amount),
                field("memo"@, self.memo),
                raw(""@, Emphasis::Plain),
                self.error_line(),
                raw(
                    "  Tab: next field  j/k: pick account  Enter: preview  Esc: cancel"@,
                    Emphasis::Dim,
                ),
            ],
        }
    }
}

fn style_of(on: bool, on_style: Emphasis, off_style: Emphasis) -> (style: Emphasis)
    ensures
        style == (if on {
            on_style
        } else {
            off_style
        }),
{
    if on {
        on_style
    } else {
        off_style
    }
}

fn list_row_line(state: &AddTransactionState, row: usize) -> (line: StyledLine)
    ensures
        line@ == state@.list_row(row as int),
{
    let (left, left_hot) = list_cell_of(
        &state.accounts,
        state.from_index,
        state.from_offset,
        state.focus == AddField::From,
        row,
    );
    let (right, right_hot) = list_cell_of(
        &state.accounts,
        state.to_index,
        state.to_offset,
        state.focus == AddField::To,
        row,
    );
    columns_line(
        left.as_str(),
        style_of(left_hot, Emphasis::Reversed, Emphasis::Dim),
        right.as_str(),
        style_of(right_hot, Emphasis::Reversed, Emphasis::Dim),
    )
}

/// The `from → to` line showing the current selection under the panes.
fn add_summary_line(state: &AddTransactionState) -> (line: StyledLine)
    ensures
        line@ == state@.summary_line(),
{
    let n: usize = state.accounts.len();
    if state.from_index < n && state.to_index < n {
        let mut spans: Vec<StyledSpan> = Vec::new();
        push_span(&mut spans, "  ".to_owned(), Emphasis::Plain);
        push_span(
            &mut spans,
            state.accounts[state.from_index].as_str().to_owned(),
            Emphasis::Bold,
        );
        push_span(&mut spans, "  →  ".to_owned(), Emphasis::Dim);
        push_span(&mut spans, state.accounts[state.to_index].as_str().to_owned(), Emphasis::Bold);
        let line = StyledLine { spans, style: Emphasis::Plain };
        assert(line@.spans =~= state@.summary_line().spans);
        line
    } else {
        raw_line("  (no accounts)".to_owned(), Emphasis::Dim)
    }
}

/// The box with the form for a new transaction.
fn add_form_modal(state: &AddTransactionState) -> (modal: Modal)
    ensures
        modal@ == state@.form_modal(),
{
    let ghost view = state@;
    let ghost rows = Seq::new(ADD_LIST_VISIBLE as nat, |r: int| view.list_row(r));
    let mut lines: Vec<StyledLine> = Vec::new();
    push_line(
        &mut lines,
        columns_line(
            "FROM (-)",
            style_of(state.focus == AddField::From, Emphasis::Reversed, Emphasis::Bold),
            "TO (+)",
            style_of(state.focus == AddField::To, Emphasis::Reversed, Emphasis::Bold),
        ),
    );
    let ghost head = line_views(lines@);
    assert(line_views(lines@) =~= head + rows.take(0));
    for r in 0..ADD_LIST_VISIBLE
        invariant
            view == state@,
            rows == Seq::new(ADD_LIST_VISIBLE as nat, |r: int| view.list_row(r)),
            line_views(lines@) == head + rows.take(r as int),
    {
        push_line(&mut lines, list_row_line(state, r));
        assert(rows.take(r + 1) =~= rows.take(r as int).push(rows[r as int]));
        assert(line_views(lines@) =~= head + rows.take(r + 1));
    }
    assert(rows.take(rows.len() as int) =~= rows);
    push_line(&mut lines, add_summary_line(state));
    push_line(&mut lines, says(""));
    push_line(&mut lines, field_line("amount", state.amount.as_str()));
    push_line(&mut lines, field_line("memo", state.memo.as_str()));
    push_line(&mut lines, says(""));
    let error = match &state.error {
        Some(e) => raw_line(glued("  ", e.as_str()), Emphasis::Plain),
        None => says(""),
    };
    push_line(&mut lines, error);
    push_line(
        &mut lines,
        raw_line(
            "  Tab: next field  j/k: pick account  Enter: preview  Esc: cancel".to_owned(),
            Emphasis::Dim,
        ),
    );
    let modal = Modal { title: "Add transaction".to_owned(), width: 64, height: 17, lines };
    assert(modal@.lines =~= view.form_modal().lines);
    modal
}

/// The box that shows a command that could not be copied.
pub open spec fn command_modal_view(command: Seq<char>) -> ModalView {
    let shown = lines_of(command);
    ModalView {
        title: "ledger add command (clipboard unavailable — any key to close)"@,
        width: 60,
        height: capped(shown.len() as int + 3),
        lines: Seq::new(shown.len(), |i: int| raw(shown[i], Emphasis::Plain)) + seq![
            raw(""@, Emphasis::Plain),
            raw("  copy from your terminal selection"@, Emphasis::Dim),
        ],
    }
}

fn command_modal(command: &str) -> (modal: Modal)
    ensures
        modal@ == command_modal_view(command@),
{
    let shown = split_lines(command);
    let ghost texts = string_views(shown@);
    let ghost rows = Seq::new(texts.len(), |i: int| raw(texts[i], Emphasis::Plain));
    let mut lines: Vec<StyledLine> = Vec::new();
    assert(line_views(lines@) =~= rows.take(0));
    for i in 0..shown.len()
        invariant
            texts == string_views(shown@),
            rows == Seq::new(texts.len(), |i: int| raw(texts[i], Emphasis::Plain)),
            line_views(lines@) == rows.take(i as int),
    {
        push_line(&mut lines, says(shown[i].as_str()));
        assert(rows.take(i + 1) =~= rows.take(i as int).push(rows[i as int]));
    }
    assert(rows.take(rows.len() as int) =~= rows);
    push_line(&mut lines, says(""));
    push_line(
        &mut lines,
        raw_line("  copy from your terminal selection".to_owned(), Emphasis::Dim),
    );
    let modal = Modal {
        title: "ledger add command (clipboard unavailable — any key to close)".to_owned(),
        width: 60,
        height: capped_height(shown.len(), 3),
        lines,
    };
    assert(modal@.lines =~= command_modal_view(command@).lines);
    modal
}

/// A heading of the help.
pub open spec fn help_heading(s: Seq<char>) -> LineView {
    raw(s, Emphasis::Bold)
}

/// A row of the help.
pub open spec fn help_row(keys: Seq<char>, what: Seq<char>) -> LineView {
    two("  "@ + padded_right(keys, 18), what)
}

/// The box that lists every key.
pub open spec fn help_modal_view() -> ModalView {
    ModalView {
        title: "Keyboard shortcuts (any key to close)"@,
        width: 48,
        height: 22,
        lines: seq![
            help_heading("Navigation"@),
            help_row("j / k / \u{2191}\u{2193}"@, "move cursor"@),
            help_row("Enter"@, "drill into account"@),
            help_row("Esc"@, "back to accounts"@),
            raw(""@, Emphasis::Plain),
            help_heading("Search & filter"@),
            help_row("/"@, "substring search"@),
            help_row("f / t"@, "set from / to date filter"@),
            help_row("c"@, "clear all filters"@),
            raw(""@, Emphasis::Plain),
            help_heading("Transaction"@),
            help_row("a"@, "add transaction (y/n to confirm)"@),
            help_row("y"@, "copy the ledger add command to the clipboard"@),
            help_row("C"@, "edit accounts (y/n to apply)"@),
            help_row("D"@, "delete (y/n to confirm)"@),
            raw(""@, Emphasis::Plain),
            help_heading("App"@),
            help_row("r"@, "reload from disk"@),
            help_row("?"@, "show this help"@),
            help_row("q / Ctrl-C"@, "quit"@),
        ],
    }
}

fn heading_line(s: &str) -> (line: StyledLine)
    ensures
        line@ == help_heading(s@),
{
    raw_line(s.to_owned(), Emphasis::Bold)
}

fn help_line(keys: &str, what: &str) -> (line: StyledLine)
    ensures
        line@ == help_row(keys@, what@),
{
    two_line(
        glued("  ", pad_right(keys, 18).as_str()),
        what.to_owned(),
        Emphasis::Plain,
        Emphasis::Plain,
    )
}

fn help_modal() -> (modal: Modal)
    ensures
        modal@ == help_modal_view(),
{
    let mut lines: Vec<StyledLine> = Vec::new();
    push_line(&mut lines, heading_line("Navigation"));
    push_line(&mut lines, help_line("j / k / \u{2191}\u{2193}", "move cursor"));
    push_line(&mut lines, help_line("Enter", "drill into account"));
    push_line(&mut lines, help_line("Esc", "back to accounts"));
    push_line(&mut lines, says(""));
    push_line(&mut lines, heading_line("Search & filter"));
    push_line(&mut lines, help_line("/", "substring search"));
    push_line(&mut lines, help_line("f / t", "set from / to date filter"));
    push_line(&mut lines, help_line("c", "clear all filters"));
    push_line(&mut lines, says(""));
    push_line(&mut lines, heading_line("Transaction"));
    push_line(&mut lines, help_line("a", "add transaction (y/n to confirm)"));
    push_line(&mut lines, help_line("y", "copy the ledger add command to the clipboard"));
    push_line(&mut lines, help_line("C", "edit accounts (y/n to apply)"));
    push_line(&mut lines, help_line("D", "delete (y/n to confirm)"));
    push_line(&mut lines, says(""));
    push_line(&mut lines, heading_line("App"));
    push_line(&mut lines, help_line("r", "reload from disk"));
    push_line(&mut lines, help_line("?", "show this help"));
    push_line(&mut lines, help_line("q / Ctrl-C", "quit"));
    let modal = Modal {
        title: "Keyboard shortcuts (any key to close)".to_owned(),
        width: 48,
        height: 22,
        lines,
    };
    assert(modal@.lines =~= help_modal_view().lines);
    modal
}

impl AppView {
    /// The box over the table, if one is open.
    pub open spec fn modal(self, today: int) -> Option<ModalView> {
        match self.input_mode {
            InputMode::DeleteConfirm => Some(delete_modal_view()),
            InputMode::EditAccounts | InputMode::EditAccountsConfirm => match self.edit_accounts {
                Some(state) => Some(state.modal(self.input_mode is EditAccountsConfirm)),
                None => None,
            },
            InputMode::AddTransaction => match self.add_transaction {
                Some(state) => Some(state.form_modal()),
                None => None,
            },
            InputMode::AddConfirm => match self.add_transaction {
                Some(state) => Some(state.confirm_modal(self.accounts, today)),
                None => None,
            },
            InputMode::Reconstruct => match self.reconstruct_cmd {
                Some(command) => Some(command_modal_view(command)),
                None => None,
            },
            InputMode::Help => Some(help_modal_view()),
            _ => None,
        }
    }
}

/// The box over the table, if one is open.
pub fn modal(app: &App, today: &Timestamp) -> (modal: Option<Modal>)
    ensures
        app@.modal(today@) == (match modal {
            Some(m) => Some(m@),
            None => None,
        }),
{
    match app.input_mode {
        InputMode::DeleteConfirm => Some(delete_modal()),
        InputMode::EditAccounts | InputMode::EditAccountsConfirm => match &app.edit_accounts {
            Some(state) => Some(
                edit_accounts_modal(state, app.input_mode == InputMode::EditAccountsConfirm),
            ),
            None => None,
        },
        InputMode::AddTransaction => match &app.add_transaction {
            Some(state) => Some(add_form_modal(state)),
            None => None,
        },
        InputMode::AddConfirm => match &app.add_transaction {
            Some(state) => Some(add_confirm_modal(app, state, today)),
            None => None,
        },
        InputMode::Reconstruct => match &app.reconstruct_cmd {
            Some(command) => Some(command_modal(command.as_str())),
            None => None,
        },
        InputMode::Help => Some(help_modal()),
        _ => None,
    }
}

/// A part of the terminal.
#[derive(Debug, Clone, Copy, PartialEq, Eq, Structural)]
pub struct Area {
    pub x: u16,
    pub y: u16,
    pub width: u16,
    pub height: u16,
}

/// The smaller of two.
pub open spec fn least(a: int, b: int) -> int {
    if a < b {
        a
    } else {
        b
    }
}

/// The larger of two.
pub open spec fn most(a: int, b: int) -> int {
    if a > b {
        a
    } else {
        b
    }
}

impl Area {
    /// The first column behind it, as far as columns can be numbered.
    pub open spec fn end_x(self) -> int {
        least(self.x + self.width, u16::MAX as int)
    }

    /// The first row behind it, as far as rows can be numbered.
    pub open spec fn end_y(self) -> int {
        least(self.y + self.height, u16::MAX as int)
    }

    /// Whether it lies in another one.
    pub open spec fn lies_in(self, area: Area) -> bool {
        &&& area.x <= self.x
        &&& area.y <= self.y
        &&& self.end_x() <= area.end_x()
        &&& self.end_y() <= area.end_y()
    }

    /// Whether it is what two others have in common.
    pub open spec fn is_common(self, a: Area, b: Area) -> bool {
        &&& self.x == most(a.x as int, b.x as int)
        &&& self.y == most(a.y as int, b.y as int)
        &&& self.width == most(least(a.end_x(), b.end_x()) - self.x, 0)
        &&& self.height == most(least(a.end_y(), b.end_y()) - self.y, 0)
    }

    /// The first column behind it.
    pub fn right(&self) -> (x: u16)
        ensures
            x == self.end_x(),
    {
        if self.width <= u16::MAX - self.x {
            self.x + self.width
        } else {
            u16::MAX
        }
    }

    /// The first row behind it.
    pub fn bottom(&self) -> (y: u16)
        ensures
            y == self.end_y(),
    {
        if self.height <= u16::MAX - self.y {
            self.y + self.height
        } else {
            u16::MAX
        }
    }

    /// What it has in common with another one.
    pub fn intersection(&self, other: &Area) -> (common: Area)
        ensures
            common.is_common(*self, *other),
    {
        let x: u16 = if self.x > other.x {
            self.x
        } else {
            other.x
        };
        let y: u16 = if self.y > other.y {
            self.y
        } else {
            other.y
        };
        let right: u16 = if self.right() < other.right() {
            self.right()
        } else {
            other.right()
        };
        let bottom: u16 = if self.bottom() < other.bottom() {
            self.bottom()
        } else {
            other.bottom()
        };
        Area {
            x,
            y,
            width: if right > x {
                right - x
            } else {
                0
            },
            height: if bottom > y {
                bottom - y
            } else {
                0
            },
        }
    }

    /// What is inside a border of one cell all round.
    pub fn inside_border(&self) -> (inner: Area)
        ensures
            inner.x == least(self.x + 1, self.end_x()),
            inner.y == least(self.y + 1, self.end_y()),
            inner.width == most(self.width - 2, 0),
            inner.height == most(self.height - 2, 0),
    {
        Area {
            x: if self.x < self.right() {
                self.x + 1
            } else {
                self.right()
            },
            y: if self.y < self.bottom() {
                self.y + 1
            } else {
                self.bottom()
            },
            width: if self.width > 2 {
                self.width - 2
            } else {
                0
            },
            height: if self.height > 2 {
                self.height - 2
            } else {
                0
            },
        }
    }
}

/// Whether `part` is a slice of `area`, in whole rows or in whole columns.
pub open spec fn slices(part: Area, area: Area, in_rows: bool) -> bool {
    &&& part.lies_in(area)
    &&& in_rows ==> part.x == area.x && part.width == area.width
    &&& !in_rows ==> part.y == area.y && part.height == area.height
}

/// The rows or the columns of an area.
pub open spec fn extent(area: Area, in_rows: bool) -> int {
    if in_rows {
        area.end_y() - area.y
    } else {
        area.end_x() - area.x
    }
}

/// Whether `part` begins behind a lead and is as long as it should be, or
/// as long as the area where that is shorter.
pub open spec fn follows_lead(part: Area, area: Area, in_rows: bool, lead: int, length: int) -> bool {
    if in_rows {
        part.y == area.y + lead && part.height == least(length, extent(area, in_rows))
    } else {
        part.x == area.x + lead && part.width == least(length, extent(area, in_rows))
    }
}

/// The first row or column of an area.
pub open spec fn beginning(area: Area, in_rows: bool) -> int {
    if in_rows {
        area.y as int
    } else {
        area.x as int
    }
}

/// Whether the parts are slices of the area, the first where the area begins
/// and each of the others where the one before it ends.
pub open spec fn are_in_order(parts: (Area, Area, Area), area: Area, in_rows: bool) -> bool {
    &&& slices(parts.0, area, in_rows)
    &&& slices(parts.1, area, in_rows)
    &&& slices(parts.2, area, in_rows)
    &&& beginning(parts.0, in_rows) == beginning(area, in_rows)
    &&& beginning(parts.1, in_rows) == beginning(parts.0, in_rows) + extent(parts.0, in_rows)
    &&& beginning(parts.2, in_rows) == beginning(parts.1, in_rows) + extent(parts.1, in_rows)
}

/// Whether the last part ends where the area ends.
pub open spec fn reaches_end(parts: (Area, Area, Area), area: Area, in_rows: bool) -> bool {
    beginning(parts.2, in_rows) + extent(parts.2, in_rows) == beginning(area, in_rows) + extent(
        area,
        in_rows,
    )
}

/// What is said of an area that is split in three, of which some parts have
/// a length and each of the others takes what is left: the parts stand in
/// order with nothing between them, and where one takes what is left, with
/// nothing behind them. Where a lead and a middle have room, or there is no
/// lead, the middle stands right behind the lead. Where a first and a last
/// part have room, the middle lies between them, and where they have not,
/// nothing is left for it. A middle that has room stands half way, or half a
/// cell behind.
pub open spec fn is_split(
    parts: (Area, Area, Area),
    area: Area,
    in_rows: bool,
    lengths: (Option<u16>, Option<u16>, Option<u16>),
) -> bool {
    let whole = extent(area, in_rows);
    &&& are_in_order(parts, area, in_rows)
    &&& lengths.0 is None || lengths.1 is None || lengths.2 is None ==> reaches_end(
        parts,
        area,
        in_rows,
    )
    &&& match lengths {
        (Some(lead), Some(length), None) => lead == 0 || lead + length <= whole ==> follows_lead(
            parts.1,
            area,
            in_rows,
            lead as int,
            length as int,
        ),
        (Some(first), None, Some(last)) => if first + last <= whole {
            &&& follows_lead(parts.0, area, in_rows, 0, first as int)
            &&& follows_lead(parts.1, area, in_rows, first as int, whole - first - last)
            &&& follows_lead(parts.2, area, in_rows, whole - last, last as int)
        } else {
            extent(parts.1, in_rows) == 0
        },
        (None, Some(length), None) => length <= whole ==> follows_lead(
            parts.1,
            area,
            in_rows,
            (whole - length + 1) / 2,
            length as int,
        ),
        _ => true,
    }
}

/// `ratatui::layout::Layout::split` into three parts, with `Length` for those
/// that have a length and `Min(0)` for the others. How two parts share an area
/// that is too small for both their lengths is not said.
#[verifier::external_body]
fn ratatui_split(
    area: Area,
    in_rows: bool,
    lengths: (Option<u16>, Option<u16>, Option<u16>),
) -> (parts: (Area, Area, Area))
    ensures
        is_split(parts, area, in_rows, lengths),
{
    let direction = if in_rows { Direction::Vertical } else { Direction::Horizontal };
    let share = |n: Option<u16>| n.map_or(Constraint::Min(0), Constraint::Length);
    let rects = Layout::default()
        .direction(direction)
        .constraints([share(lengths.0), share(lengths.1), share(lengths.2)])
        .split(Rect { x: area.x, y: area.y, width: area.width, height: area.height });
    let part = |r: Rect| Area { x: r.x, y: r.y, width: r.width, height: r.height };
    (part(rects[0]), part(rects[1]), part(rects[2]))
}

/// The rows of the screen: one for the title, one for the status, and what
/// is between them for the table. They follow each other and fill the screen.
/// One without room for both title and status has none for the table.
pub fn screen_rows(area: Area) -> (rows: (Area, Area, Area))
    ensures
        are_in_order(rows, area, true),
        reaches_end(rows, area, true),
        if extent(area, true) >= 2 {
            &&& extent(rows.0, true) == 1
            &&& extent(rows.1, true) == extent(area, true) - 2
            &&& extent(rows.2, true) == 1
        } else {
            extent(rows.1, true) == 0
        },
{
    ratatui_split(area, true, (Some(1), None, Some(1)))
}

/// The row in the middle of an area, for what is said in place of a table.
pub fn message_row(area: Area) -> (row: Area)
    ensures
        slices(row, area, true),
        extent(area, true) >= 1 ==> row.y == area.y + extent(area, true) / 2 && row.height == 1,
        extent(area, true) == 0 ==> row.y == area.y && extent(row, true) == 0,
{
    ratatui_split(area, true, (None, Some(1), None)).1
}

fn lead_of(whole: u16, part: u16) -> (lead: u16)
    ensures
        lead == most(whole - part, 0) / 2,
{
    if whole > part {
        (whole - part) / 2
    } else {
        0
    }
}

/// The place of a box in the middle of an area. It lies in the area. Where
/// the area ends where rows and columns can still be numbered, the box has
/// its size, or that of a smaller area, and as much room before it as behind
/// it, but for one cell.
pub fn centered_rect(width: u16, height: u16, area: Area) -> (place: Area)
    ensures
        area.x <= place.x,
        area.y <= place.y,
        place.width > 0 ==> place.end_x() <= area.end_x(),
        place.height > 0 ==> place.end_y() <= area.end_y(),
        area.x + area.width <= u16::MAX ==> place.x == area.x + most(area.width - width, 0) / 2
            && place.width == least(width as int, area.width as int),
        area.y + area.height <= u16::MAX ==> place.y == area.y + most(area.height - height, 0) / 2
            && place.height == least(height as int, area.height as int),
{
    let (above, beside): (u16, u16) = (lead_of(area.height, height), lead_of(area.width, width));
    let rows: Area = ratatui_split(area, true, (Some(above), Some(height), None)).1;
    let columns: Area = ratatui_split(area, false, (Some(beside), Some(width), None)).1;
    rows.intersection(&columns)
}

impl AddView {
    /// Where the cursor of the terminal stands in the form: right behind the
    /// text in focus, but not outside the form.
    pub open spec fn cursor(self, inner: Area) -> Option<(int, int)> {
        let (len, row): (int, int) = if self.focus is Amount {
            (self.amount.len() as int, ADD_LIST_VISIBLE + 3)
        } else {
            (self.memo.len() as int, ADD_LIST_VISIBLE + 4)
        };
        if self.focus.is_list() {
            None
        } else {
            Some(
                (
                    least(inner.x + 12 + len, most(inner.end_x() - 1, 0)),
                    least(inner.y + row, u16::MAX as int),
                ),
            )
        }
    }
}

/// Put the terminal's own cursor right after the focused text so the
/// input looks native. Layout: row 0 is the pane header, rows 1 to
/// `ADD_LIST_VISIBLE` are the account lists, then the summary row,
/// a blank row, then the amount and memo fields. Text starts 2 cells
/// in plus the 10-wide label column.
pub fn add_form_cursor(inner: &Area, state: &AddTransactionState) -> (place: Option<(u16, u16)>)
    ensures
        state@.cursor(*inner) == (match place {
            Some((x, y)) => Some((x as int, y as int)),
            None => None,
        }),
{
    let (typed, row): (usize, u16) = match state.focus {
        AddField::Amount => (state.amount.as_str().unicode_len(), ADD_LIST_VISIBLE as u16 + 3),
        AddField::Memo => (state.memo.as_str().unicode_len(), ADD_LIST_VISIBLE as u16 + 4),
        _ => {
            return None;
        },
    };
    let right: u16 = inner.right();
    let last: u16 = if right > 0 {
        right - 1
    } else {
        0
    };
    let x: u16 = if last <= inner.x || last - inner.x <= 12 || (last - inner.x - 12) as usize
        <= typed {
        last
    } else {
        inner.x + 12 + typed as u16
    };
    let y: u16 = if inner.y <= u16::MAX - row {
        inner.y + row
    } else {
        u16::MAX
    };
    Some((x, y))
}

} // verus!
