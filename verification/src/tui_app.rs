//! The terminal interface at work: keys, and what comes back from outside.

use vstd::prelude::*;
use vstd::string::*;

use crate::account_map::AccountMap;
use crate::audit::id_views;
use crate::book::{amounts, TransactionView};
use crate::decimal::{Amount, Dec};
use crate::model::{
    checked_sum, entry_views, imbalance, speaks_of, transaction_views, Account, AccountClass,
    AccountId, Entry, Transaction, TransactionId,
};
use crate::storage::account_views;
use crate::text::{contains_text, glued, std_lowercase_text, string_views, trim_line_ends};
use crate::time::{midnight, moment, Timestamp};
use crate::tui::{
    balance_views, classes_of, date_or_empty, law_editing_keeps_amounts, lemma_step,
    matching_accounts, matching_transactions, parse_date_input, passes, sort_accounts, sorted_accounts, step, Action,
    ActionView, AddField, AddTransactionState, App, AppView, Change, EditAccountsState, Filters,
    InputMode, Key, KeyCode, Screen, ScreenView,
};

verus! {

/// The books as they were read.
#[derive(Debug)]
pub struct Books {
    pub accounts: Vec<Account>,
    pub balances: AccountMap<Amount>,
    pub transactions: Vec<Transaction>,
}

/// The books as they were read, as a value.
#[verifier::ext_equal]
pub struct BooksView {
    pub accounts: Seq<(Seq<char>, AccountClass)>,
    pub balances: Map<Seq<char>, Dec>,
    pub transactions: Seq<TransactionView>,
}

impl View for Books {
    type V = BooksView;

    open spec fn view(&self) -> BooksView {
        BooksView {
            accounts: account_views(self.accounts@),
            balances: self.balances@,
            transactions: transaction_views(self.transactions@),
        }
    }
}

impl AppView {
    /// Before the first key, without books.
    pub open spec fn empty() -> AppView {
        AppView {
            accounts: Seq::empty(),
            transactions: Seq::empty(),
            view: ScreenView::Accounts,
            selected: None,
            search: Seq::empty(),
            date_from: None,
            date_to: None,
            input_mode: InputMode::Normal,
            input_buffer: Seq::empty(),
            status: Seq::empty(),
            edit_accounts: None,
            add_transaction: None,
            reconstruct_cmd: None,
        }
    }

    /// With the books as they were read.
    pub open spec fn holding(self, books: BooksView) -> AppView {
        AppView {
            accounts: sorted_accounts(books.accounts, books.balances),
            transactions: books.transactions,
            ..self
        }
    }
}

/// What came of something tried outside: nothing to say, or the words in which
/// it failed.
pub open spec fn outcome(result: Result<(), String>) -> Result<(), Seq<char>> {
    match result {
        Ok(()) => Ok(()),
        Err(e) => Err(e@),
    }
}

/// The books that were read, or the words in which reading failed.
pub open spec fn books_read(result: Result<Books, String>) -> Result<BooksView, Seq<char>> {
    match result {
        Ok(books) => Ok(books@),
        Err(e) => Err(e@),
    }
}

impl AppView {
    /// With the books that were asked for, or without them.
    pub open spec fn reloaded(self, read: Result<BooksView, Seq<char>>) -> AppView {
        match read {
            Ok(books) => AppView { status: "reloaded"@, ..self.holding(books) }.reset(),
            Err(e) => AppView { status: "reload failed: "@ + e, ..self },
        }
    }

    /// With the books as they are after a change, or without them.
    pub open spec fn reloaded_after(
        self,
        change: Change,
        read: Result<BooksView, Seq<char>>,
    ) -> AppView {
        match read {
            Ok(books) => AppView { status: change.done(), ..self.holding(books) }.in_mode(
                InputMode::Normal,
            ).reset(),
            Err(e) => self.saying(InputMode::Normal, "reload failed: "@ + e).reset(),
        }
    }

    /// After a change of the books was tried.
    pub open spec fn changed(self, change: Change, result: Result<(), Seq<char>>) -> (
        AppView,
        ActionView,
    ) {
        match result {
            Ok(()) => (self, ActionView::ReloadAfter(change)),
            Err(e) => (self.saying(InputMode::Normal, change.failed() + e), ActionView::Nothing),
        }
    }

    /// After a command was to be copied.
    pub open spec fn copied(self, command: Seq<char>, result: Result<(), Seq<char>>) -> AppView {
        match result {
            Ok(()) => AppView { status: "command copied to clipboard"@, ..self },
            Err(e) => AppView {
                reconstruct_cmd: Some(command),
                ..self.saying(
                    InputMode::Reconstruct,
                    "clipboard unavailable ("@ + e + "); showing command"@,
                )
            },
        }
    }
}

impl App {
    /// The interface with the books as they were read.
    pub fn new(books: Books) -> (app: App)
        ensures
            app@ == AppView::empty().holding(books@).reset(),
    {
        let mut app = App {
            accounts_with_balances: Vec::new(),
            transactions: Vec::new(),
            view: Screen::Accounts,
            selected: None,
            search: String::new(),
            date_from: None,
            date_to: None,
            input_mode: InputMode::Normal,
            input_buffer: String::new(),
            status: String::new(),
            edit_accounts: None,
            add_transaction: None,
            reconstruct_cmd: None,
        };
        app.load(books);
        app.reset_cursor();
        app
    }

    /// Takes the books as they were read.
    pub fn load(&mut self, books: Books)
        ensures
            final(self)@ == old(self)@.holding(books@),
    {
        self.accounts_with_balances = sort_accounts(&books.accounts, &books.balances);
        self.transactions = books.transactions;
    }

    /// Takes the books that were asked for, or why they could not be read.
    pub fn reloaded(&mut self, read: Result<Books, String>)
        ensures
            final(self)@ == old(self)@.reloaded(books_read(read)),
    {
        match read {
            Ok(books) => {
                self.load(books);
                self.status = "reloaded".to_owned();
                self.reset_cursor();
            },
            Err(e) => {
                self.status = glued("reload failed: ", e.as_str());
            },
        }
    }

    /// Takes the books as they are after a change, or why they could not be
    /// read.
    pub fn reloaded_after(&mut self, change: Change, read: Result<Books, String>)
        ensures
            final(self)@ == old(self)@.reloaded_after(change, books_read(read)),
    {
        match read {
            Ok(books) => {
                self.load(books);
                self.status = change.done_text().to_owned();
            },
            Err(e) => {
                self.status = glued("reload failed: ", e.as_str());
            },
        }
        self.input_mode = InputMode::Normal;
        self.reset_cursor();
    }

    /// Takes notice of a change of the books that was tried.
    pub fn changed(&mut self, change: Change, result: Result<(), String>) -> (action: Action)
        ensures
            (final(self)@, action@) == old(self)@.changed(change, outcome(result)),
    {
        match result {
            Ok(()) => Action::ReloadAfter(change),
            Err(e) => {
                self.status = glued(change.failed_text(), e.as_str());
                self.input_mode = InputMode::Normal;
                Action::Nothing
            },
        }
    }

    /// Takes notice of a command that was to be copied.
    pub fn copied(&mut self, command: String, result: Result<(), String>)
        ensures
            final(self)@ == old(self)@.copied(command@, outcome(result)),
    {
        match result {
            Ok(()) => {
                self.status = "command copied to clipboard".to_owned();
            },
            Err(e) => {
                let mut status = "clipboard unavailable (".to_owned();
                status.append(e.as_str());
                status.append("); showing command");
                self.status = status;
                self.reconstruct_cmd = Some(command);
                self.input_mode = InputMode::Reconstruct;
            },
        }
    }

    /// Whether a text passes the search.
    pub fn matches_search(&self, s: &str) -> (yes: bool)
        ensures
            yes == passes(self@.search, s@),
    {
        if self.search.as_str().unicode_len() == 0 {
            true
        } else {
            contains_text(
                std_lowercase_text(s).as_str(),
                std_lowercase_text(self.search.as_str()).as_str(),
            )
        }
    }

    /// The accounts that show.
    pub fn filtered_accounts(&self) -> (rows: Vec<(Account, Amount)>)
        ensures
            balance_views(rows@) == self@.filtered_accounts(),
    {
        let ghost all = self@.accounts;
        let mut rows: Vec<(Account, Amount)> = Vec::new();
        assert(balance_views(rows@) =~= Seq::empty());
        for i in 0..self.accounts_with_balances.len()
            invariant
                all == balance_views(self.accounts_with_balances@),
                balance_views(rows@) == matching_accounts(all.take(i as int), self@.search),
        {
            let ghost was = balance_views(rows@);
            assert(all.take(i + 1).drop_last() =~= all.take(i as int));
            let account = &self.accounts_with_balances[i].0;
            if self.matches_search(account.id.as_str()) {
                rows.push((account.clone(), self.accounts_with_balances[i].1));
                assert(balance_views(rows@) =~= was.push(all[i as int]));
            }
        }
        assert(all.take(all.len() as int) =~= all);
        rows
    }

    fn shows(&self, tx: &Transaction, account: &AccountId) -> (yes: bool)
        ensures
            yes == (Filters {
                account: account@,
                date_from: self@.date_from,
                date_to: self@.date_to,
                search: self@.search,
            }).pass(tx@),
    {
        let in_range = (match &self.date_from {
            Some(from) => !tx.posted_at.is_before(from),
            None => true,
        }) && (match &self.date_to {
            Some(to) => !to.is_before(&tx.posted_at),
            None => true,
        });
        speaks_of(&tx.entries, account) && in_range && self.matches_search(tx.memo.as_str())
    }

    /// The transactions that show in the register of an account.
    pub fn filtered_transactions(&self) -> (rows: Vec<Transaction>)
        ensures
            transaction_views(rows@) == self@.filtered_transactions(),
    {
        let mut rows: Vec<Transaction> = Vec::new();
        assert(transaction_views(rows@) =~= Seq::empty());
        match &self.view {
            Screen::Accounts => {},
            Screen::Register { account } => {
                let ghost all = self@.transactions;
                let ghost filters = Filters {
                    account: account@,
                    date_from: self@.date_from,
                    date_to: self@.date_to,
                    search: self@.search,
                };
                for i in 0..self.transactions.len()
                    invariant
                        all == transaction_views(self.transactions@),
                        filters == (Filters {
                            account: account@,
                            date_from: self@.date_from,
                            date_to: self@.date_to,
                            search: self@.search,
                        }),
                        transaction_views(rows@) == matching_transactions(
                            all.take(i as int),
                            filters,
                        ),
                {
                    let ghost was = transaction_views(rows@);
                    assert(all.take(i + 1).drop_last() =~= all.take(i as int));
                    if self.shows(&self.transactions[i], account) {
                        rows.push(self.transactions[i].clone());
                        assert(transaction_views(rows@) =~= was.push(all[i as int]));
                    }
                }
                assert(all.take(all.len() as int) =~= all);
            },
        }
        rows
    }

    /// The number of rows that show.
    pub fn current_list_len(&self) -> (len: usize)
        ensures
            len == self@.list_len(),
    {
        match &self.view {
            Screen::Accounts => {
                let rows = self.filtered_accounts();
                assert(balance_views(rows@).len() == rows@.len());
                rows.len()
            },
            Screen::Register { account } => {
                let rows = self.filtered_transactions();
                assert(transaction_views(rows@).len() == rows@.len());
                rows.len()
            },
        }
    }

    /// Puts the cursor on the first row, if there is one.
    pub fn reset_cursor(&mut self)
        ensures
            final(self)@ == old(self)@.reset(),
    {
        let len: usize = self.current_list_len();
        if len > 0 {
            self.selected = Some(0);
        } else {
            self.selected = None;
        }
    }

    /// Moves the cursor one row down or up, round and round.
    pub fn move_cursor(&mut self, down: bool)
        ensures
            final(self)@ == old(self)@.moved(if down {
                1
            } else {
                -1
            }),
    {
        let len: usize = self.current_list_len();
        if len == 0 {
            self.selected = None;
            return;
        }
        let current: usize = match self.selected {
            Some(i) => i,
            None => 0,
        };
        let low: usize = current % len;
        proof {
            lemma_step(current as int, len as int);
            lemma_step(low as int, len as int);
            vstd::arithmetic::div_mod::lemma_small_mod(low as nat, len as nat);
        }
        self.selected = Some(step(low, len, down));
    }

    /// Opens the register of the account under the cursor.
    pub fn drill_in(&mut self)
        ensures
            final(self)@ == old(self)@.drilled_in(),
    {
        let chosen: Option<AccountId> = match (&self.view, self.selected) {
            (Screen::Accounts, Some(i)) => {
                let rows = self.filtered_accounts();
                assert(balance_views(rows@).len() == rows@.len());
                if i < rows.len() {
                    assert(balance_views(rows@)[i as int].id == rows@[i as int].0.id@);
                    Some(rows[i].0.id.clone())
                } else {
                    None
                }
            },
            _ => None,
        };
        if let Some(account) = chosen {
            self.view = Screen::Register { account };
            self.reset_cursor();
        }
    }

    /// Goes back from a register to the accounts.
    pub fn drill_out(&mut self)
        ensures
            final(self)@ == old(self)@.drilled_out(),
    {
        let in_register = match &self.view {
            Screen::Register { account } => true,
            Screen::Accounts => false,
        };
        if in_register {
            self.view = Screen::Accounts;
            self.reset_cursor();
        }
    }

    /// The transaction under the cursor of a register.
    pub fn selected_transaction(&self) -> (tx: Option<Transaction>)
        ensures
            self@.selected_transaction() == (match tx {
                Some(tx) => Some(tx@),
                None => None,
            }),
    {
        match (&self.view, self.selected) {
            (Screen::Register { account }, Some(i)) => {
                let rows = self.filtered_transactions();
                assert(transaction_views(rows@).len() == rows@.len());
                if i < rows.len() {
                    assert(transaction_views(rows@)[i as int] == rows@[i as int]@);
                    Some(rows[i].clone())
                } else {
                    None
                }
            },
            _ => None,
        }
    }

    fn start_delete(&mut self)
        ensures
            final(self)@ == (if old(self)@.selected_transaction() is Some {
                old(self)@.in_mode(InputMode::DeleteConfirm)
            } else {
                old(self)@
            }),
    {
        if self.selected_transaction().is_some() {
            self.input_mode = InputMode::DeleteConfirm;
        }
    }

    fn confirm_delete(&mut self) -> (action: Action)
        ensures
            (final(self)@, action@) == old(self)@.delete_confirm_key(KeyCode::Char('y')),
    {
        match self.selected_transaction() {
            None => {
                self.input_mode = InputMode::Normal;
                Action::Nothing
            },
            Some(tx) => Action::Delete(tx.id),
        }
    }

    fn start_edit_accounts(&mut self)
        ensures
            final(self)@ == old(self)@.editing(),
    {
        if let Some(tx) = self.selected_transaction() {
            let mut buffers: Vec<String> = Vec::new();
            for i in 0..tx.entries.len()
                invariant
                    buffers@.len() == i,
                    forall|j: int| 0 <= j < i ==> (#[trigger] buffers@[j])@ == tx.entries@[j].account@,
            {
                buffers.push(tx.entries[i].account.as_str().to_owned());
            }
            let ghost view = tx@;
            assert(string_views(buffers@) =~= Seq::new(
                view.entries.len(),
                |i: int| view.entries[i].account,
            ));
            self.edit_accounts = Some(
                EditAccountsState {
                    id: tx.id,
                    posted_at: tx.posted_at,
                    memo: tx.memo,
                    entries: tx.entries,
                    buffers,
                    selected: 0,
                },
            );
            self.input_mode = InputMode::EditAccounts;
        }
    }

    fn confirm_edit_accounts(&mut self) -> (action: Action)
        requires
            old(self)@.edit_accounts matches Some(state) ==> state.adds_up(),
        ensures
            (final(self)@, action@) == old(self)@.edit_confirmed(),
    {
        let state = match self.edit_accounts.take() {
            Some(state) => state,
            None => {
                self.input_mode = InputMode::Normal;
                return Action::Nothing;
            },
        };
        let entries = match state.rename() {
            Ok(entries) => entries,
            Err(e) => {
                self.status = e;
                self.edit_accounts = Some(state);
                self.input_mode = InputMode::EditAccounts;
                return Action::Nothing;
            },
        };
        proof {
            law_editing_keeps_amounts(state@);
            assert(entry_views(entries@).len() == amounts(entry_views(entries@)).len());
            assert(state@.entries.len() == amounts(state@.entries).len());
        }
        match Transaction::new(state.id, state.posted_at, state.memo.clone(), entries) {
            Ok(tx) => Action::Replace(tx),
            Err(e) => {
                self.status = glued("invalid transaction: ", e.message().as_str());
                self.edit_accounts = Some(state);
                self.input_mode = InputMode::EditAccounts;
                Action::Nothing
            },
        }
    }

    fn start_add(&mut self)
        ensures
            final(self)@ == old(self)@.adding(),
    {
        let mut accounts: Vec<AccountId> = Vec::new();
        for i in 0..self.accounts_with_balances.len()
            invariant
                accounts@.len() == i,
                forall|j: int|
                    0 <= j < i ==> (#[trigger] accounts@[j])@
                        == self.accounts_with_balances@[j].0.id@,
        {
            accounts.push(self.accounts_with_balances[i].0.id.clone());
        }
        let to_index: usize = if accounts.len() >= 2 {
            1
        } else {
            0
        };
        let ghost before = self@;
        assert(id_views(accounts@) =~= Seq::new(
            before.accounts.len(),
            |i: int| before.accounts[i].id,
        ));
        let entries: Vec<Entry> = Vec::new();
        assert(entry_views(entries@) =~= Seq::empty());
        self.add_transaction = Some(
            AddTransactionState {
                accounts,
                from_index: 0,
                to_index,
                from_offset: 0,
                to_offset: 0,
                amount: String::new(),
                memo: String::new(),
                focus: AddField::From,
                error: None,
                entries,
            },
        );
        self.input_mode = InputMode::AddTransaction;
    }

    fn preview_add(&mut self)
        ensures
            final(self)@ == old(self)@.add_previewed(),
    {
        match self.add_transaction.take() {
            None => {
                self.input_mode = InputMode::Normal;
            },
            Some(mut state) => {
                state.preview();
                if state.error.is_none() {
                    self.input_mode = InputMode::AddConfirm;
                }
                self.add_transaction = Some(state);
            },
        }
    }

    fn confirm_add(&mut self, id: TransactionId, today: Timestamp) -> (action: Action)
        requires
            old(self)@.add_transaction matches Some(state) ==> state.adds_up(),
        ensures
            (final(self)@, action@) == old(self)@.add_confirmed(id.0, today@),
    {
        match self.add_transaction.take() {
            None => {
                self.input_mode = InputMode::Normal;
                Action::Nothing
            },
            Some(state) => {
                assert(state@.entries.len() == state.entries@.len());
                match Transaction::new(id, today, state.memo, state.entries) {
                    Ok(tx) => Action::Save(tx),
                    Err(e) => {
                        self.status = glued("invalid transaction: ", e.message().as_str());
                        self.input_mode = InputMode::Normal;
                        Action::Nothing
                    },
                }
            },
        }
    }

    /// The classes of the accounts.
    pub fn classes(&self) -> (classes: AccountMap<AccountClass>)
        ensures
            classes@ == classes_of(self@.accounts),
    {
        let ghost all = self@.accounts;
        let mut classes: AccountMap<AccountClass> = AccountMap::new();
        for i in 0..self.accounts_with_balances.len()
            invariant
                all == balance_views(self.accounts_with_balances@),
                classes@ == classes_of(all.take(i as int)),
        {
            let ghost pairs = |n: int| Seq::new(n as nat, |k: int| (all[k].id, all[k].class));
            proof {
                let some = all.take(i as int);
                let more = all.take(i + 1);
                assert(Seq::new(some.len(), |k: int| (some[k].id, some[k].class)) =~= pairs(i as int));
                assert(Seq::new(more.len(), |k: int| (more[k].id, more[k].class)) =~= pairs(i + 1));
                assert(pairs(i + 1).drop_last() =~= pairs(i as int));
            }
            let account = &self.accounts_with_balances[i].0;
            classes.insert(&account.id, account.class);
        }
        assert(all.take(all.len() as int) =~= all);
        classes
    }

    fn start_reconstruct(&mut self) -> (action: Action)
        ensures
            (final(self)@, action@) == old(self)@.reconstructing(),
    {
        match self.selected_transaction() {
            None => Action::Nothing,
            Some(tx) => match tx.render_add_command(&self.classes()) {
                Err(e) => {
                    self.status = glued("reconstruct failed: ", e.message().as_str());
                    Action::Nothing
                },
                Ok(command) => {
                    let text: String = trim_line_ends(command.as_str());
                    Action::Copy { command, text }
                },
            },
        }
    }

    fn close_reconstruct(&mut self)
        ensures
            final(self)@ == (AppView {
                reconstruct_cmd: None,
                ..old(self)@.in_mode(InputMode::Normal)
            }),
    {
        self.reconstruct_cmd = None;
        self.input_mode = InputMode::Normal;
    }
}

fn date_text_of(date: &Option<Timestamp>) -> (s: String)
    ensures
        s@ == date_or_empty(moment(*date)),
{
    match date {
        Some(t) => t.date(),
        None => String::new(),
    }
}

fn handle_normal_key(app: &mut App, code: KeyCode) -> (action: Action)
    ensures
        (final(app)@, action@) == old(app)@.normal_key(code),
{
    match code {
        KeyCode::Char('q') => {
            return Action::Quit;
        },
        KeyCode::Char('j') | KeyCode::Down => {
            app.move_cursor(true);
        },
        KeyCode::Char('k') | KeyCode::Up => {
            app.move_cursor(false);
        },
        KeyCode::Char('/') => {
            app.input_mode = InputMode::Search;
            app.input_buffer = app.search.clone();
        },
        KeyCode::Char('f') => {
            app.input_mode = InputMode::DateFrom;
            app.input_buffer = date_text_of(&app.date_from);
        },
        KeyCode::Char('t') => {
            app.input_mode = InputMode::DateTo;
            app.input_buffer = date_text_of(&app.date_to);
        },
        KeyCode::Char('c') => {
            app.search = String::new();
            app.date_from = None;
            app.date_to = None;
            app.reset_cursor();
            app.status = "filters cleared".to_owned();
        },
        KeyCode::Char('r') => {
            return Action::Reload;
        },
        KeyCode::Char('a') => {
            app.start_add();
        },
        KeyCode::Char('D') => {
            app.start_delete();
        },
        KeyCode::Char('C') => {
            app.start_edit_accounts();
        },
        KeyCode::Char('y') => {
            return app.start_reconstruct();
        },
        KeyCode::Char('?') => {
            app.input_mode = InputMode::Help;
        },
        KeyCode::Enter => {
            app.drill_in();
        },
        KeyCode::Esc => {
            app.drill_out();
        },
        _ => {},
    }
    Action::Nothing
}

fn handle_input_key(app: &mut App, code: KeyCode)
    ensures
        final(app)@ == old(app)@.input_key(code),
{
    match code {
        KeyCode::Enter => {
            let buffer: String = app.input_buffer.clone();
            let mode = app.input_mode;
            app.input_mode = InputMode::Normal;
            app.input_buffer = String::new();
            match mode {
                InputMode::Search => {
                    app.search = buffer;
                },
                InputMode::DateFrom => {
                    app.date_from = parse_date_input(buffer.as_str());
                },
                InputMode::DateTo => {
                    app.date_to = parse_date_input(buffer.as_str());
                },
                _ => {},
            }
            app.reset_cursor();
        },
        KeyCode::Esc => {
            app.input_mode = InputMode::Normal;
            app.input_buffer = String::new();
        },
        KeyCode::Backspace => {
            let dropped = app.input_buffer.pop();
        },
        KeyCode::Char(c) => {
            app.input_buffer.push(c);
        },
        _ => {},
    }
}

fn handle_delete_confirm_key(app: &mut App, code: KeyCode) -> (action: Action)
    ensures
        (final(app)@, action@) == old(app)@.delete_confirm_key(code),
{
    match code {
        KeyCode::Char('y') | KeyCode::Char('Y') => {
            return app.confirm_delete();
        },
        KeyCode::Char('n') | KeyCode::Char('N') | KeyCode::Esc | KeyCode::Enter => {
            app.input_mode = InputMode::Normal;
            app.status = "delete cancelled".to_owned();
        },
        _ => {},
    }
    Action::Nothing
}

fn handle_edit_accounts_key(app: &mut App, code: KeyCode)
    ensures
        final(app)@ == old(app)@.edit_accounts_key(code),
{
    let mut state = match app.edit_accounts.take() {
        Some(state) => state,
        None => {
            app.input_mode = InputMode::Normal;
            return;
        },
    };
    match code {
        KeyCode::Char('j') | KeyCode::Down => {
            state.move_selection(true);
        },
        KeyCode::Char('k') | KeyCode::Up => {
            state.move_selection(false);
        },
        KeyCode::Backspace => {
            state.erase_char();
        },
        KeyCode::Enter => {
            app.input_mode = InputMode::EditAccountsConfirm;
        },
        KeyCode::Esc => {
            app.input_mode = InputMode::Normal;
            app.status = "edit cancelled".to_owned();
            return;
        },
        KeyCode::Char(c) => {
            state.type_char(c);
        },
        _ => {},
    }
    app.edit_accounts = Some(state);
}

fn handle_edit_accounts_confirm_key(app: &mut App, code: KeyCode) -> (action: Action)
    requires
        code == KeyCode::Char('y') || code == KeyCode::Char('Y') ==> (old(
            app,
        )@.edit_accounts matches Some(state) ==> state.adds_up()),
    ensures
        (final(app)@, action@) == old(app)@.edit_confirm_key(code),
{
    match code {
        KeyCode::Char('y') | KeyCode::Char('Y') => {
            return app.confirm_edit_accounts();
        },
        KeyCode::Char('n') | KeyCode::Char('N') | KeyCode::Esc => {
            app.input_mode = InputMode::EditAccounts;
            app.status = "edit not applied".to_owned();
        },
        _ => {},
    }
    Action::Nothing
}

fn handle_add_transaction_key(app: &mut App, code: KeyCode)
    ensures
        final(app)@ == old(app)@.add_key(code),
{
    let mut state = match app.add_transaction.take() {
        Some(state) => state,
        None => {
            app.input_mode = InputMode::Normal;
            return;
        },
    };
    let in_list = state.focus == AddField::From || state.focus == AddField::To;
    match code {
        KeyCode::Tab => {
            state.advance();
        },
        KeyCode::Enter => {
            if state.focus == AddField::Memo {
                app.add_transaction = Some(state);
                app.preview_add();
                return;
            }
            state.advance();
        },
        KeyCode::Backspace => {
            state.erase_char();
        },
        KeyCode::Esc => {
            app.input_mode = InputMode::Normal;
            app.status = "add cancelled".to_owned();
            return;
        },
        KeyCode::Down => {
            state.move_in_list(true);
        },
        KeyCode::Up => {
            state.move_in_list(false);
        },
        KeyCode::Char(c) => {
            if !in_list {
                state.type_char(c);
            } else if c == 'j' {
                state.move_in_list(true);
            } else if c == 'k' {
                state.move_in_list(false);
            }
        },
        _ => {},
    }
    app.add_transaction = Some(state);
}

/// What a key does while the form is to be confirmed. A transaction that is
/// saved gets `id` and is dated `today`.
fn handle_add_confirm_key(
    app: &mut App,
    code: KeyCode,
    id: TransactionId,
    today: Timestamp,
) -> (action: Action)
    requires
        code == KeyCode::Char('y') || code == KeyCode::Char('Y') ==> (old(
            app,
        )@.add_transaction matches Some(state) ==> state.adds_up()),
    ensures
        (final(app)@, action@) == old(app)@.add_confirm_key(code, id.0, today@),
{
    match code {
        KeyCode::Char('y') | KeyCode::Char('Y') => {
            return app.confirm_add(id, today);
        },
        KeyCode::Char('n') | KeyCode::Char('N') | KeyCode::Esc => {
            app.input_mode = InputMode::AddTransaction;
        },
        _ => {},
    }
    Action::Nothing
}

/// Whether the amounts that the key would post add up.
pub fn accepts_key(app: &App, key: Key) -> (yes: bool)
    ensures
        yes == app@.accepts(key),
{
    if !(key.code == KeyCode::Char('y') || key.code == KeyCode::Char('Y')) {
        return true;
    }
    match app.input_mode {
        InputMode::EditAccountsConfirm => match &app.edit_accounts {
            Some(state) => {
                assert(state@.entries.len() == state.entries@.len());
                state.entries.len() < 2 || checked_sum(&state.entries).is_some()
            },
            None => true,
        },
        InputMode::AddConfirm => match &app.add_transaction {
            Some(state) => {
                assert(state@.entries.len() == state.entries@.len());
                state.entries.len() < 2 || checked_sum(&state.entries).is_some()
            },
            None => true,
        },
        _ => true,
    }
}

/// What a key does. A transaction that is saved gets `id` and is dated
/// `today`.
pub fn handle_key_with(app: &mut App, key: Key, id: TransactionId, today: Timestamp) -> (action:
    Action)
    requires
        old(app)@.accepts(key),
    ensures
        (final(app)@, action@) == old(app)@.pressed(key, id.0, today@),
{
    if key.control && key.code == KeyCode::Char('c') {
        return Action::Quit;
    }
    match app.input_mode {
        InputMode::Normal => handle_normal_key(app, key.code),
        InputMode::Search | InputMode::DateFrom | InputMode::DateTo => {
            handle_input_key(app, key.code);
            Action::Nothing
        },
        InputMode::DeleteConfirm => handle_delete_confirm_key(app, key.code),
        InputMode::EditAccounts => {
            handle_edit_accounts_key(app, key.code);
            Action::Nothing
        },
        InputMode::EditAccountsConfirm => handle_edit_accounts_confirm_key(app, key.code),
        InputMode::AddTransaction => {
            handle_add_transaction_key(app, key.code);
            Action::Nothing
        },
        InputMode::AddConfirm => handle_add_confirm_key(app, key.code, id, today),
        InputMode::Reconstruct => {
            app.close_reconstruct();
            Action::Nothing
        },
        InputMode::Help => {
            app.input_mode = InputMode::Normal;
            Action::Nothing
        },
    }
}

/// What a key does. A transaction that is saved gets a new id and is dated
/// today.
pub fn handle_key(app: &mut App, key: Key) -> (action: Action)
    requires
        old(app)@.accepts(key),
    ensures
        exists|id: u128, today: int|
            today == midnight(today) && (final(app)@, action@) == #[trigger] old(app)@.pressed(
                key,
                id,
                today,
            ),
{
    let id = TransactionId::new();
    let today = Timestamp::today();
    let ghost before = app@;
    let action = handle_key_with(app, key, id, today);
    assert((app@, action@) == before.pressed(key, id.0, today@));
    action
}

impl AppView {
    /// Whether the cursor stands on a row, unless there is none.
    pub open spec fn cursor_on_row(self) -> bool {
        match self.selected {
            Some(i) => 0 <= i < self.list_len(),
            None => self.list_len() == 0,
        }
    }
}

/// Control-C ends the session in every mode and changes nothing.
pub proof fn law_control_c_quits(app: AppView, id: u128, today: int)
    ensures
        app.pressed(Key { code: KeyCode::Char('c'), control: true }, id, today) == (
            app,
            ActionView::Quit,
        ),
{
}

/// Nothing is deleted, replaced or saved but with a `y` where it was asked
/// for.
pub proof fn law_only_a_yes_changes_the_books(app: AppView, key: Key, id: u128, today: int)
    ensures
        ({
            let action = app.pressed(key, id, today).1;
            let yes = key.code == KeyCode::Char('y') || key.code == KeyCode::Char('Y');
            &&& action is Delete ==> yes && app.input_mode is DeleteConfirm
            &&& action is Replace ==> yes && app.input_mode is EditAccountsConfirm
            &&& action is Save ==> yes && app.input_mode is AddConfirm
        }),
{
}

/// What the interface hands over to be stored has two entries or more that
/// sum to zero.
pub proof fn law_what_is_stored_balances(app: AppView, key: Key, id: u128, today: int)
    ensures
        match app.pressed(key, id, today).1 {
            ActionView::Save(tx) => imbalance(tx.entries) is None,
            ActionView::Replace(tx) => imbalance(tx.entries) is None,
            _ => true,
        },
{
}

/// A transaction whose accounts were edited keeps its id, its date, its memo
/// and its amounts.
pub proof fn law_edited_transactions_keep_the_rest(app: AppView, key: Key, id: u128, today: int)
    ensures
        app.pressed(key, id, today).1 matches ActionView::Replace(tx) ==> (
        app.edit_accounts matches Some(state) && tx.id == state.id && tx.posted_at
            == state.posted_at && tx.memo == state.memo && amounts(tx.entries) == amounts(
            state.entries,
        )),
{
    if let Some(state) = app.edit_accounts {
        if state.renamed(state.entries.len() as int) is Ok {
            law_editing_keeps_amounts(state);
        }
    }
}

/// The transaction that is deleted is the one under the cursor.
pub proof fn law_the_selected_transaction_is_deleted(app: AppView, key: Key, id: u128, today: int)
    ensures
        app.pressed(key, id, today).1 matches ActionView::Delete(gone) ==> (
        app.selected_transaction() matches Some(tx) && tx.id == gone),
{
}

/// A form that is not confirmed stays as it was filled in.
pub proof fn law_a_declined_form_stays(app: AppView, key: Key, id: u128, today: int)
    requires
        app.input_mode is AddConfirm,
        !key.control,
        key.code == KeyCode::Char('n') || key.code == KeyCode::Esc,
    ensures
        app.pressed(key, id, today) == (
            app.in_mode(InputMode::AddTransaction),
            ActionView::Nothing,
        ),
{
}

/// No key takes the cursor off the rows.
pub proof fn law_the_cursor_stays_on_a_row(app: AppView, key: Key, id: u128, today: int)
    requires
        app.cursor_on_row(),
    ensures
        app.pressed(key, id, today).0.cursor_on_row(),
{
    let len = app.list_len() as int;
    let current = match app.selected {
        Some(i) => i,
        None => 0,
    };
    if len > 0 {
        vstd::arithmetic::div_mod::lemma_mod_bound(current + 1, len);
        vstd::arithmetic::div_mod::lemma_mod_bound(current - 1, len);
    }
}

/// Nothing that comes back from outside takes the cursor off the rows.
pub proof fn law_the_cursor_survives_a_reload(
    app: AppView,
    change: Change,
    read: Result<BooksView, Seq<char>>,
    result: Result<(), Seq<char>>,
    command: Seq<char>,
)
    requires
        app.cursor_on_row(),
    ensures
        app.reloaded(read).cursor_on_row(),
        app.reloaded_after(change, read).cursor_on_row(),
        app.changed(change, result).0.cursor_on_row(),
        app.copied(command, result).cursor_on_row(),
{
}

} // verus!
