use ledger::cli::{AddArgs, CliError, CloseArgs, IncomeArgs, OpenArgs};
use ledger::commands::{plan_closing, plan_command, plan_income, plan_opening};
use ledger::decimal::Amount;
use ledger::fiscal::class_map;
use ledger::model::{
    checked_balances, Account, AccountClass, AccountId, AccountMap, Entry, Transaction,
    TransactionError, TransactionId, TransactionKind,
};
use ledger::posting::{add_retained, Addition};
use ledger::storage::{
    account_row, accounts_from_rows, check_deleted, check_registered, class_from_str,
    entries_from_rows, entry_rows, lacks_kind_column, transaction_from_rows, transaction_row,
    transactions_from_rows, AccountRow, EntryRow, JoinedRow, StorageError, TransactionRow,
};
use ledger::sums::total_of;
use ledger::time::Timestamp;
use ledger::tui::{
    accepts_key, build_add_entries, centered_rect, clamp_offset, fmt_money, group_money,
    handle_key, handle_key_with, parse_date_input, Action, AddField, App, Area, Books, Change,
    InputMode, Key, KeyCode, Screen,
};
use ledger::tui_view::{
    account_rows, add_form_cursor, empty_message, message_row, modal, register_rows, screen_rows,
    status_line, title_text, Emphasis, StyledLine,
};
use ratatui::layout::{Constraint, Direction, Layout, Rect};
use rusqlite::{Connection, OptionalExtension};

/// The books in a database in memory.
struct Storage {
    conn: Connection,
}

impl Storage {
    fn in_memory() -> Storage {
        let conn = Connection::open_in_memory().expect("in-memory db");
        conn.pragma_update(None, "foreign_keys", "ON").expect("foreign keys");
        conn.execute_batch(
            "CREATE TABLE accounts (id TEXT PRIMARY KEY, class TEXT NOT NULL);
             CREATE TABLE transactions (id TEXT PRIMARY KEY, posted_at TEXT NOT NULL,
                 memo TEXT NOT NULL, kind TEXT NOT NULL DEFAULT 'normal');
             CREATE TABLE entries (
                 transaction_id TEXT NOT NULL REFERENCES transactions(id) ON DELETE CASCADE,
                 account TEXT NOT NULL REFERENCES accounts(id), amount TEXT NOT NULL);",
        )
        .expect("schema");
        Storage { conn }
    }

    fn register_account(&self, account: &Account) {
        let row = account_row(account);
        self.conn
            .execute(
                "INSERT OR REPLACE INTO accounts (id, class) VALUES (?1, ?2)",
                [row.id, row.class],
            )
            .expect("account registered");
    }

    fn list_accounts(&self) -> Result<Vec<Account>, StorageError> {
        let mut stmt = self
            .conn
            .prepare("SELECT id, class FROM accounts ORDER BY id")
            .expect("query");
        let rows: Vec<AccountRow> = stmt
            .query_map([], |row| {
                Ok(AccountRow {
                    id: row.get(0)?,
                    class: row.get(1)?,
                })
            })
            .expect("rows")
            .map(|row| row.expect("row"))
            .collect();
        accounts_from_rows(&rows)
    }

    fn check(&self, tx: &Transaction) -> Result<(), StorageError> {
        let registered: Vec<bool> = tx
            .entries
            .iter()
            .map(|e| {
                self.conn
                    .query_row(
                        "SELECT 1 FROM accounts WHERE id = ?1",
                        [e.account.as_str()],
                        |_| Ok(true),
                    )
                    .optional()
                    .expect("query")
                    .unwrap_or(false)
            })
            .collect();
        check_registered(tx, &registered)
    }

    fn insert(&self, tx: &Transaction) {
        let row = transaction_row(tx);
        self.conn
            .execute(
                "INSERT INTO transactions (id, posted_at, memo, kind) VALUES (?1, ?2, ?3, ?4)",
                [row.id.clone(), row.posted_at, row.memo, row.kind],
            )
            .expect("transaction");
        for entry in entry_rows(tx) {
            self.conn
                .execute(
                    "INSERT INTO entries (transaction_id, account, amount) VALUES (?1, ?2, ?3)",
                    [row.id.clone(), entry.account, entry.amount],
                )
                .expect("entry");
        }
    }

    fn save_transaction(&self, tx: &Transaction) -> Result<(), StorageError> {
        self.check(tx)?;
        self.insert(tx);
        Ok(())
    }

    fn remove(&self, id: TransactionId) -> usize {
        self.conn
            .execute("DELETE FROM transactions WHERE id = ?1", [id.to_text()])
            .expect("delete")
    }

    fn replace_transaction(&self, tx: &Transaction) -> Result<(), StorageError> {
        self.check(tx)?;
        self.remove(tx.id);
        self.insert(tx);
        Ok(())
    }

    fn delete_transaction(&self, id: TransactionId) -> Result<(), StorageError> {
        check_deleted(id, self.remove(id))
    }

    fn get_transaction(&self, id: TransactionId) -> Result<Transaction, StorageError> {
        let found = self
            .conn
            .query_row(
                "SELECT id, posted_at, memo, kind FROM transactions WHERE id = ?1",
                [id.to_text()],
                |row| {
                    Ok(TransactionRow {
                        id: row.get(0)?,
                        posted_at: row.get(1)?,
                        memo: row.get(2)?,
                        kind: row.get(3)?,
                    })
                },
            )
            .optional()
            .expect("query");
        let mut stmt = self
            .conn
            .prepare("SELECT account, amount FROM entries WHERE transaction_id = ?1 ORDER BY rowid")
            .expect("query");
        let rows: Vec<EntryRow> = stmt
            .query_map([id.to_text()], |row| {
                Ok(EntryRow {
                    account: row.get(0)?,
                    amount: row.get(1)?,
                })
            })
            .expect("rows")
            .map(|row| row.expect("row"))
            .collect();
        transaction_from_rows(id, &found, &rows)
    }

    fn list_transactions(&self) -> Result<Vec<Transaction>, StorageError> {
        let mut stmt = self
            .conn
            .prepare(
                "SELECT t.id, t.posted_at, t.memo, t.kind, e.account, e.amount
                 FROM transactions t JOIN entries e ON e.transaction_id = t.id
                 ORDER BY t.posted_at, t.id, e.rowid",
            )
            .expect("query");
        let rows: Vec<JoinedRow> = stmt
            .query_map([], |row| {
                Ok(JoinedRow {
                    transaction: TransactionRow {
                        id: row.get(0)?,
                        posted_at: row.get(1)?,
                        memo: row.get(2)?,
                        kind: row.get(3)?,
                    },
                    entry: EntryRow {
                        account: row.get(4)?,
                        amount: row.get(5)?,
                    },
                })
            })
            .expect("rows")
            .map(|row| row.expect("row"))
            .collect();
        transactions_from_rows(&rows)
    }

    fn balances(&self) -> Result<AccountMap<Amount>, StorageError> {
        let mut stmt = self
            .conn
            .prepare("SELECT account, amount FROM entries")
            .expect("query");
        let rows: Vec<EntryRow> = stmt
            .query_map([], |row| {
                Ok(EntryRow {
                    account: row.get(0)?,
                    amount: row.get(1)?,
                })
            })
            .expect("rows")
            .map(|row| row.expect("row"))
            .collect();
        Ok(checked_balances(&entries_from_rows(&rows)?).expect("sums fit"))
    }

    fn books(&self) -> Books {
        Books {
            accounts: self.list_accounts().expect("accounts"),
            balances: self.balances().expect("balances"),
            transactions: self.list_transactions().expect("transactions"),
        }
    }
}

fn posted(day: &str) -> Timestamp {
    Timestamp::parse_date(day).expect("date parses")
}

fn acct(storage: &Storage, id: &str, class: AccountClass) -> Account {
    let account = Account {
        id: AccountId::parse(id).expect("account parses"),
        class,
    };
    storage.register_account(&account);
    account
}

fn build_tx(
    id: TransactionId,
    day: &str,
    memo: &str,
    entries: Vec<(String, i64)>,
) -> Transaction {
    let entries = entries
        .into_iter()
        .map(|(a, amt)| Entry {
            account: AccountId::parse(&a).expect("account parses"),
            amount: Amount::from_integer(amt),
        })
        .collect();
    Transaction::new(id, posted(day), memo.to_string(), entries).expect("tx balances")
}

fn tx_balance(storage: &Storage, account: &str, tx_id: TransactionId) -> Amount {
    let amounts: Vec<Amount> = storage
        .list_transactions()
        .expect("list works")
        .into_iter()
        .find(|t| t.id == tx_id)
        .expect("tx exists")
        .entries
        .into_iter()
        .filter(|e| e.account.as_str() == account)
        .map(|e| e.amount)
        .collect();
    total_of(&amounts)
}

fn new_storage() -> Storage {
    let storage = Storage::in_memory();
    acct(&storage, "checking", AccountClass::Asset);
    acct(&storage, "savings", AccountClass::Asset);
    acct(&storage, "income", AccountClass::Equity);
    acct(&storage, "groceries", AccountClass::Expense);
    storage
}

#[test]
fn income_class_account_round_trips() {
    let storage = Storage::in_memory();
    acct(&storage, "salary", AccountClass::Income);

    let accounts = storage.list_accounts().expect("list works");
    assert_eq!(accounts.len(), 1);
    assert_eq!(accounts[0].id.as_str(), "salary");
    assert_eq!(accounts[0].class, AccountClass::Income);
}

#[test]
fn delete_transaction_removes_it_and_cascades_entries() {
    let storage = new_storage();
    let id = TransactionId::new();
    let tx = build_tx(
        id,
        "2024-01-15",
        "paycheck",
        vec![("checking".to_string(), 500), ("income".to_string(), -500)],
    );
    storage.save_transaction(&tx).expect("saved");

    assert_eq!(storage.list_transactions().expect("list works").len(), 1);
    assert_eq!(tx_balance(&storage, "checking", id), Amount::from_integer(500));

    storage.delete_transaction(id).expect("deleted");
    assert_eq!(storage.list_transactions().expect("list works").len(), 0);
    // Cascading delete removed the entries, so the ledger balances back
    // to its pre-transaction empty state.
    let balances = storage.balances().expect("balances work");
    let values: Vec<Amount> = (0..balances.len()).map(|i| balances.value_at(i)).collect();
    let total = total_of(&values);
    assert_eq!(total, Amount::zero());
    assert!(balances.is_empty());
}

#[test]
fn delete_unknown_transaction_errors() {
    let storage = new_storage();
    let err = storage
        .delete_transaction(TransactionId::new())
        .expect_err("missing tx should error");
    assert!(matches!(err, StorageError::UnknownTransaction(_)));
}

#[test]
fn replace_transaction_remaps_accounts_keeping_amounts_and_id() {
    let storage = new_storage();
    let id = TransactionId::new();
    let tx = build_tx(
        id,
        "2024-01-15",
        "paycheck",
        vec![("checking".to_string(), 500), ("income".to_string(), -500)],
    );
    storage.save_transaction(&tx).expect("saved");

    // Re-route the income side to savings instead; amounts unchanged so
    // the zero-sum invariant holds.
    let replaced = build_tx(
        id,
        "2024-01-15",
        "paycheck",
        vec![("checking".to_string(), 500), ("savings".to_string(), -500)],
    );
    storage.replace_transaction(&replaced).expect("replaced");

    let listed = storage.list_transactions().expect("list works");
    assert_eq!(listed.len(), 1);
    assert_eq!(listed[0].id, id);
    assert_eq!(listed[0].memo, "paycheck");
    // income no longer involved; savings now holds the credit.
    assert_eq!(tx_balance(&storage, "income", id), Amount::zero());
    assert_eq!(tx_balance(&storage, "savings", id), Amount::from_integer(-500));
    assert_eq!(tx_balance(&storage, "checking", id), Amount::from_integer(500));
}

#[test]
fn replace_transaction_rejects_unknown_account() {
    let storage = new_storage();
    let id = TransactionId::new();
    let tx = build_tx(
        id,
        "2024-01-15",
        "paycheck",
        vec![("checking".to_string(), 500), ("income".to_string(), -500)],
    );
    storage.save_transaction(&tx).expect("saved");

    let replaced = build_tx(
        id,
        "2024-01-15",
        "paycheck",
        vec![("checking".to_string(), 500), ("ghost".to_string(), -500)],
    );
    let err = storage
        .replace_transaction(&replaced)
        .expect_err("ghost account should be rejected");
    assert!(matches!(err, StorageError::UnknownAccount(_)));
    // Original transaction is untouched because validation runs before
    // the delete/insert.
    let listed = storage.list_transactions().expect("list works");
    assert_eq!(listed.len(), 1);
    assert_eq!(listed[0].id, id);
    assert_eq!(tx_balance(&storage, "income", id), Amount::from_integer(-500));
}

#[test]
fn get_transaction_returns_saved_transaction() {
    let storage = new_storage();
    let id = TransactionId::new();
    let tx = build_tx(
        id,
        "2024-01-15",
        "paycheck",
        vec![("checking".to_string(), 500), ("income".to_string(), -500)],
    );
    storage.save_transaction(&tx).expect("saved");

    let got = storage.get_transaction(id).expect("found");
    assert_eq!(got.id, id);
    assert_eq!(got.posted_at, posted("2024-01-15"));
    assert_eq!(got.memo, "paycheck");
    assert_eq!(got.entries.len(), 2);
    assert_eq!(got.entries[0].account.as_str(), "checking");
    assert_eq!(got.entries[0].amount, Amount::from_integer(500));
    assert_eq!(got.entries[1].account.as_str(), "income");
    assert_eq!(got.entries[1].amount, Amount::from_integer(-500));
}

#[test]
fn get_transaction_preserves_entry_order_within_a_transaction() {
    let storage = new_storage();
    let id = TransactionId::new();
    // Deliberately non-alphabetic order; the rowid-ordered read should
    // mirror the insert order, not sort by account.
    let tx = build_tx(
        id,
        "2024-01-15",
        "split",
        vec![
            ("groceries".to_string(), 60),
            ("checking".to_string(), -50),
            ("savings".to_string(), -10),
        ],
    );
    storage.save_transaction(&tx).expect("saved");

    let got = storage.get_transaction(id).expect("found");
    let order: Vec<&str> = got.entries.iter().map(|e| e.account.as_str()).collect();
    assert_eq!(order, vec!["groceries", "checking", "savings"]);
}

#[test]
fn get_transaction_unknown_id_errors() {
    let storage = new_storage();
    let err = storage
        .get_transaction(TransactionId::new())
        .expect_err("missing tx should error");
    assert!(matches!(err, StorageError::UnknownTransaction(_)));
}

#[test]
fn transactions_are_read_back_as_they_were_stored() {
    let storage = new_storage();
    let mut classes = AccountMap::new();
    classes.insert(&AccountId::parse("income").unwrap(), AccountClass::Equity);
    classes.insert(&AccountId::parse("groceries").unwrap(), AccountClass::Expense);
    let first = build_tx(
        TransactionId(7),
        "2024-01-15",
        "one",
        vec![("groceries".to_string(), 5), ("income".to_string(), -5)],
    )
    .with_kind(TransactionKind::Close, &classes)
    .expect("a close");
    let second = build_tx(
        TransactionId(8),
        "2024-01-15",
        "it's \"two\"",
        vec![
            ("checking".to_string(), 10),
            ("savings".to_string(), -4),
            ("savings".to_string(), -6),
        ],
    );
    storage.save_transaction(&second).expect("saved");
    storage.save_transaction(&first).expect("saved");
    assert_eq!(
        storage.list_transactions().expect("list works"),
        vec![first.clone(), second]
    );
    assert_eq!(storage.get_transaction(first.id).expect("found"), first);
}

fn joined(id: &str, at: &str, kind: &str, account: &str, amount: &str) -> JoinedRow {
    JoinedRow {
        transaction: TransactionRow {
            id: id.to_string(),
            posted_at: at.to_string(),
            memo: String::new(),
            kind: kind.to_string(),
        },
        entry: EntryRow {
            account: account.to_string(),
            amount: amount.to_string(),
        },
    }
}

#[test]
fn rows_that_hold_no_transaction() {
    let id = "01ARZ3NDEKTSV4RRFFQ69G5FAV";
    let at = "2024-01-15T00:00:00Z";
    let words = |rows: Vec<JoinedRow>| transactions_from_rows(&rows).expect_err("error").message();
    assert_eq!(
        words(vec![joined("nope", at, "normal", "a", "1")]),
        "invalid ulid in db: nope"
    );
    assert_eq!(
        words(vec![joined(id, "noon", "normal", "a", "1")]),
        "invalid timestamp in db: noon"
    );
    assert_eq!(
        words(vec![joined(id, at, "odd", "a", "1")]),
        "invalid transaction kind in db: odd"
    );
    assert_eq!(
        words(vec![joined(id, at, "normal", "a.b", "1")]),
        "invalid account id in db: a.b"
    );
    assert_eq!(
        words(vec![
            joined(id, at, "normal", "a", "1"),
            joined(id, at, "normal", "a", "one")
        ]),
        "invalid decimal in db: one"
    );
    let ok = transactions_from_rows(&vec![
        joined(id, at, "normal", "a", "1"),
        joined(&id.to_lowercase(), at, "normal", "b", "-1"),
    ])
    .expect("one transaction");
    assert_eq!(ok.len(), 1);
    assert_eq!(ok[0].entries.len(), 2);
    assert_eq!(ok[0].posted_at, posted("2024-01-15"));
    assert_eq!(ok[0].id.to_text(), id);
}

#[test]
fn rows_that_hold_no_account() {
    assert!(matches!(
        accounts_from_rows(&vec![AccountRow {
            id: ":".to_string(),
            class: "x".to_string()
        }]),
        Err(StorageError::InvalidAccountId(id)) if id == ":"
    ));
    let err = accounts_from_rows(&vec![AccountRow {
        id: "a".to_string(),
        class: "x".to_string(),
    }])
    .expect_err("class");
    assert_eq!(err.message(), "invalid account class in db: x");
    assert_eq!(class_from_str("equity").expect("class"), AccountClass::Equity);
    let err = StorageError::InvalidTransaction(ledger::model::TransactionError::TooFewEntries {
        got: 1,
        min: 2,
    });
    assert_eq!(
        err.message(),
        "invalid transaction: transaction has 1 entries, minimum is 2"
    );
}

#[test]
fn a_missing_column_is_noticed() {
    let names = |s: &[&str]| -> Vec<String> { s.iter().map(|n| n.to_string()).collect() };
    assert!(lacks_kind_column(&names(&["id", "posted_at", "memo"])));
    assert!(!lacks_kind_column(&names(&["id", "kind"])));
}

fn acct_id(s: &str) -> AccountId {
    AccountId::parse(s).expect("account parses")
}

#[test]
fn build_add_entries_builds_signed_pair() {
    let entries =
        build_add_entries(&acct_id("income/dues"), &acct_id("general"), "60").expect("ok");
    assert_eq!(entries.len(), 2);
    assert_eq!(entries[0].account.as_str(), "income/dues");
    assert_eq!(entries[0].amount, Amount::from_integer(-60));
    assert_eq!(entries[1].account.as_str(), "general");
    assert_eq!(entries[1].amount, Amount::from_integer(60));
    let amounts: Vec<Amount> = entries.iter().map(|e| e.amount).collect();
    let sum = total_of(&amounts);
    assert_eq!(sum, Amount::zero());
}

#[test]
fn build_add_entries_accepts_decimal_amounts() {
    let entries =
        build_add_entries(&acct_id("general"), &acct_id("expense/city"), "154.56").expect("ok");
    assert_eq!(entries[0].amount, Amount::parse("-154.56").unwrap());
    assert_eq!(entries[1].amount, Amount::parse("154.56").unwrap());
}

#[test]
fn build_add_entries_rejects_same_account() {
    let err = build_add_entries(&acct_id("general"), &acct_id("general"), "60").expect_err("same");
    assert!(err.contains("must differ"), "{err}");
}

#[test]
fn build_add_entries_rejects_bad_or_zero_amount() {
    let from = acct_id("general");
    let to = acct_id("income/dues");
    let err = build_add_entries(&from, &to, "abc").expect_err("bad");
    assert!(err.contains("invalid amount"), "{err}");
    let err = build_add_entries(&from, &to, "0").expect_err("zero");
    assert!(err.contains("nonzero"), "{err}");
}

#[test]
fn an_amount_is_read_without_white_space_around_it() {
    let entries = build_add_entries(&acct_id("a"), &acct_id("b"), " 5.0\t").expect("ok");
    assert_eq!(entries[1].amount.to_text(), "5.0");
    let err = build_add_entries(&acct_id("a"), &acct_id("b"), " x ").expect_err("bad");
    assert!(err.starts_with("invalid amount \" x \": "), "{err}");
}

#[test]
fn clamp_offset_follows_selection() {
    assert_eq!(clamp_offset(2, 5, 7), 2);
    assert_eq!(clamp_offset(9, 0, 7), 3);
    assert_eq!(clamp_offset(4, 3, 7), 3);
}

#[test]
fn money_formatting_groups_thousands() {
    assert_eq!(fmt_money(Amount::zero()), "0.00");
    assert_eq!(fmt_money(Amount::from_integer(60)), "60.00");
    assert_eq!(fmt_money(Amount::parse("1543.51").unwrap()), "1,543.51");
    assert_eq!(
        fmt_money(Amount::parse("-1234567.89").unwrap()),
        "-1,234,567.89"
    );
    assert_eq!(group_money("+1234567.89"), "+1,234,567.89");
}

fn key(code: KeyCode) -> Key {
    Key {
        code,
        control: false,
    }
}

/// The interface over books in memory.
struct Session {
    storage: Storage,
    app: App,
    clipboard: Result<Vec<String>, String>,
}

impl Session {
    fn new(storage: Storage) -> Session {
        let app = App::new(storage.books());
        Session {
            storage,
            app,
            clipboard: Ok(Vec::new()),
        }
    }

    /// Presses a key and does what is to be done. Whether the session ends.
    fn press(&mut self, code: KeyCode) -> bool {
        assert!(accepts_key(&self.app, key(code)));
        let mut action = handle_key(&mut self.app, key(code));
        loop {
            action = match action {
                Action::Nothing => return false,
                Action::Quit => return true,
                Action::Reload => {
                    self.app.reloaded(Ok(self.storage.books()));
                    Action::Nothing
                }
                Action::ReloadAfter(change) => {
                    self.app.reloaded_after(change, Ok(self.storage.books()));
                    Action::Nothing
                }
                Action::Delete(id) => {
                    let result = self.storage.delete_transaction(id);
                    self.app
                        .changed(Change::Deleted, result.map_err(|e| e.message()))
                }
                Action::Replace(tx) => {
                    let result = self.storage.replace_transaction(&tx);
                    self.app
                        .changed(Change::Updated, result.map_err(|e| e.message()))
                }
                Action::Save(tx) => {
                    let result = self.storage.save_transaction(&tx);
                    self.app
                        .changed(Change::Added, result.map_err(|e| e.message()))
                }
                Action::Copy { command, text } => {
                    let result = match &mut self.clipboard {
                        Ok(texts) => {
                            texts.push(text);
                            Ok(())
                        }
                        Err(e) => Err(e.clone()),
                    };
                    self.app.copied(command, result);
                    Action::Nothing
                }
            };
        }
    }

    fn type_str(&mut self, s: &str) {
        for c in s.chars() {
            self.press(KeyCode::Char(c));
        }
    }
}

fn seeded_app() -> Session {
    let storage = Storage::in_memory();
    for (id, class) in [
        ("general", AccountClass::Asset),
        ("income/dues", AccountClass::Income),
        ("expense/city", AccountClass::Expense),
    ] {
        storage.register_account(&Account {
            id: AccountId::parse(id).expect("account parses"),
            class,
        });
    }
    Session::new(storage)
}

#[test]
fn add_flow_end_to_end() {
    let mut s = seeded_app();

    s.press(KeyCode::Char('a'));
    assert_eq!(s.app.input_mode, InputMode::AddTransaction);

    // accounts list is sorted: expense/city(0), general(1), income/dues(2)
    s.press(KeyCode::Char('j'));
    s.press(KeyCode::Char('j'));
    let state = s.app.add_transaction.as_ref().expect("state");
    assert_eq!(state.from_index, 2);
    assert_eq!(state.accounts[state.from_index].as_str(), "income/dues");

    s.press(KeyCode::Tab);
    let state = s.app.add_transaction.as_ref().expect("state");
    assert_eq!(state.to_index, 1);
    assert_eq!(state.accounts[state.to_index].as_str(), "general");

    s.press(KeyCode::Tab);
    s.type_str("60");
    s.press(KeyCode::Tab);
    s.type_str("Dues deposit");
    s.press(KeyCode::Enter);

    assert_eq!(s.app.input_mode, InputMode::AddConfirm);
    let state = s.app.add_transaction.as_ref().expect("state kept");
    assert_eq!(state.entries.len(), 2);
    assert_eq!(state.entries[0].account.as_str(), "income/dues");
    assert_eq!(state.entries[0].amount, Amount::from_integer(-60));
    assert_eq!(state.entries[1].account.as_str(), "general");
    assert_eq!(state.entries[1].amount, Amount::from_integer(60));

    s.press(KeyCode::Char('y'));
    assert_eq!(s.app.input_mode, InputMode::Normal);
    assert_eq!(s.app.status, "transaction added");

    let transactions = s.storage.list_transactions().expect("list works");
    assert_eq!(transactions.len(), 1);
    assert_eq!(transactions[0].memo, "Dues deposit");
    let amounts: Vec<Amount> = transactions[0].entries.iter().map(|e| e.amount).collect();
    let sum = total_of(&amounts);
    assert_eq!(sum, Amount::zero());
}

#[test]
fn add_flow_decline_returns_to_form_and_escape_cancels() {
    let mut s = seeded_app();

    s.press(KeyCode::Char('a'));
    s.press(KeyCode::Tab);
    s.press(KeyCode::Tab);
    s.type_str("60");
    s.press(KeyCode::Tab);
    s.press(KeyCode::Enter);
    assert_eq!(s.app.input_mode, InputMode::AddConfirm);

    s.press(KeyCode::Char('n'));
    assert_eq!(s.app.input_mode, InputMode::AddTransaction);

    s.press(KeyCode::Esc);
    assert_eq!(s.app.input_mode, InputMode::Normal);
    assert!(s.storage.list_transactions().expect("list works").is_empty());
}

#[test]
fn add_flow_enter_on_from_list_advances_focus() {
    let mut s = seeded_app();
    s.press(KeyCode::Char('a'));
    s.press(KeyCode::Enter);
    let state = s.app.add_transaction.as_ref().expect("state");
    assert_eq!(state.focus, AddField::To);
    assert_eq!(s.app.input_mode, InputMode::AddTransaction);
}

#[test]
fn add_flow_jk_type_in_text_fields_not_lists() {
    let mut s = seeded_app();
    s.press(KeyCode::Char('a'));
    s.press(KeyCode::Tab);
    s.press(KeyCode::Tab);
    s.type_str("j60k");
    let state = s.app.add_transaction.as_ref().expect("state");
    assert_eq!(state.amount, "j60k");
}

#[test]
fn add_flow_validation_error_keeps_form_open() {
    let mut s = seeded_app();
    s.press(KeyCode::Char('a'));
    // from defaults to index 0; select index 0 on the TO list too
    s.press(KeyCode::Tab);
    s.press(KeyCode::Char('k'));
    s.press(KeyCode::Tab);
    s.type_str("60");
    s.press(KeyCode::Tab);
    s.press(KeyCode::Enter);
    assert_eq!(s.app.input_mode, InputMode::AddTransaction);
    let state = s.app.add_transaction.as_ref().expect("state");
    let error = state.error.as_deref().expect("error set");
    assert!(error.contains("must differ"), "{error}");
}

fn line_text(line: &StyledLine) -> String {
    line.spans.iter().map(|s| s.text.as_str()).collect()
}

/// Everything that shows, a line each.
fn screen_text(app: &App) -> String {
    let mut text = title_text(app);
    text.push('\n');
    match empty_message(app) {
        Some(message) => text.push_str(&message),
        None => match &app.view {
            Screen::Accounts => {
                for (id, balance) in account_rows(app) {
                    text.push_str(&format!("{id} {balance}\n"));
                }
            }
            Screen::Register { account } => {
                for (date, memo, amount) in register_rows(app, account) {
                    text.push_str(&format!("{date} {memo} {amount}\n"));
                }
            }
        },
    }
    text.push('\n');
    text.push_str(&line_text(&status_line(app)));
    text.push('\n');
    if let Some(modal) = modal(app, &Timestamp::today()) {
        text.push_str(&modal.title);
        text.push('\n');
        // What the border leaves room for.
        let inner = centered_rect(modal.width, modal.height, terminal(80, 24)).inside_border();
        for line in modal.lines.iter().take(usize::from(inner.height)) {
            let shown: String = line_text(line).chars().take(usize::from(inner.width)).collect();
            text.push_str(&shown);
            text.push('\n');
        }
    }
    text
}

fn terminal(width: u16, height: u16) -> Area {
    Area {
        x: 0,
        y: 0,
        width,
        height,
    }
}

#[test]
fn render_add_modal_smoke() {
    let mut s = seeded_app();
    s.press(KeyCode::Char('a'));

    let text = screen_text(&s.app);
    assert!(text.contains("Add transaction"), "title missing");
    assert!(text.contains("FROM"), "FROM pane missing");
    assert!(text.contains("TO"), "TO pane missing");
    assert!(text.contains("amount"), "amount field missing");
    assert!(text.contains("memo"), "memo field missing");
    assert!(text.contains("income/dues"), "account list missing");

    s.press(KeyCode::Char('j'));
    s.press(KeyCode::Char('j'));
    s.press(KeyCode::Tab);
    s.press(KeyCode::Tab);
    s.type_str("60");
    let text = screen_text(&s.app);
    assert!(!text.contains('|'), "fake cursor char leaked: {text}");

    // Terminal cursor sits right after "60" in the amount field:
    // modal inner starts at x=9 (80/64 centering + border), text at
    // +12 (indent + label column), +2 typed chars; row 9 of the
    // inner area (header + 7 list rows + blank).
    let shown = modal(&s.app, &Timestamp::today()).expect("form");
    let place = centered_rect(shown.width, shown.height, terminal(80, 24));
    let state = s.app.add_transaction.as_ref().expect("state");
    let pos = add_form_cursor(&place.inside_border(), state).expect("cursor position set");
    assert_eq!(pos, (23, 14), "cursor not after amount text");

    s.press(KeyCode::Tab);
    s.type_str("Dues");
    s.press(KeyCode::Enter);
    assert_eq!(s.app.input_mode, InputMode::AddConfirm);

    let text = screen_text(&s.app);
    assert!(
        text.contains("memo: Dues"),
        "memo missing in preview: {text}"
    );
    assert!(
        text.contains("(income)"),
        "class suffix truncated in preview: {text}"
    );
    assert!(
        text.contains("Posts today ("),
        "dated footer missing in preview: {text}"
    );
}

#[test]
fn render_empty_states() {
    let mut s = seeded_app();
    s.app.search = "zzz".to_string();
    let text = screen_text(&s.app);
    assert!(
        text.contains("no accounts match the current filters"),
        "accounts empty state missing: {text}"
    );
}

#[test]
fn render_add_modal_survives_tiny_terminal() {
    let mut s = seeded_app();
    s.press(KeyCode::Char('a'));

    let shown = modal(&s.app, &Timestamp::today()).expect("form");
    let place = centered_rect(shown.width, shown.height, terminal(1, 1));
    assert!(place.width <= 1 && place.height <= 1);
    let state = s.app.add_transaction.as_mut().expect("state");
    state.focus = AddField::Memo;
    let pos = add_form_cursor(&place.inside_border(), state).expect("cursor position set");
    assert_eq!(pos.0, 0, "no underflow on a zero-sized modal area");
}

fn busy_session() -> Session {
    let storage = Storage::in_memory();
    acct(&storage, "checking", AccountClass::Asset);
    acct(&storage, "salary", AccountClass::Income);
    acct(&storage, "rent", AccountClass::Expense);
    for (n, day, memo, entries) in [
        (1, "2024-01-15", "Paycheck", vec![("checking", 1500), ("salary", -1500)]),
        (2, "2024-02-01", "Rent", vec![("checking", -400), ("rent", 400)]),
        (3, "2024-02-15", "paycheck", vec![("checking", 1500), ("salary", -1500)]),
    ] {
        let tx = build_tx(
            TransactionId(n),
            day,
            memo,
            entries.iter().map(|(a, n)| (a.to_string(), *n)).collect(),
        );
        storage.save_transaction(&tx).expect("saved");
    }
    Session::new(storage)
}

#[test]
fn accounts_are_listed_in_order_with_balances() {
    let s = busy_session();
    assert_eq!(
        account_rows(&s.app),
        vec![
            ("checking".to_string(), "2,600.00".to_string()),
            ("rent".to_string(), "400.00".to_string()),
            ("salary".to_string(), "-3,000.00".to_string()),
        ]
    );
    assert_eq!(title_text(&s.app), "ledger");
    assert_eq!(s.app.selected, Some(0));
}

#[test]
fn a_register_shows_what_an_account_got() {
    let mut s = busy_session();
    s.press(KeyCode::Enter);
    assert_eq!(title_text(&s.app), "ledger > checking");
    let Screen::Register { account } = &s.app.view else {
        panic!("no register");
    };
    let rows = register_rows(&s.app, account);
    assert_eq!(rows.len(), 3);
    assert_eq!(
        rows[1],
        (
            "2024-02-01".to_string(),
            "Rent".to_string(),
            "-400.00".to_string()
        )
    );
    s.press(KeyCode::Esc);
    assert!(matches!(s.app.view, Screen::Accounts));
}

#[test]
fn the_cursor_goes_round() {
    let mut s = busy_session();
    s.press(KeyCode::Up);
    assert_eq!(s.app.selected, Some(2));
    s.press(KeyCode::Char('j'));
    assert_eq!(s.app.selected, Some(0));
    s.press(KeyCode::Down);
    s.press(KeyCode::Char('k'));
    assert_eq!(s.app.selected, Some(0));
    s.app.search = "nothing".to_string();
    s.press(KeyCode::Down);
    assert_eq!(s.app.selected, None);
}

#[test]
fn a_search_does_not_mind_capitals() {
    let mut s = busy_session();
    s.press(KeyCode::Enter);
    s.press(KeyCode::Char('/'));
    assert_eq!(s.app.input_mode, InputMode::Search);
    s.type_str("PAYx");
    s.press(KeyCode::Backspace);
    assert_eq!(
        line_text(&status_line(&s.app)),
        "/PAY  (Enter: confirm, Esc: cancel)"
    );
    s.press(KeyCode::Enter);
    assert_eq!(s.app.input_mode, InputMode::Normal);
    assert_eq!(s.app.search, "PAY");
    assert_eq!(s.app.current_list_len(), 2);
    assert_eq!(line_text(&status_line(&s.app)), "/PAY ?: help  q: quit");
    s.press(KeyCode::Char('c'));
    assert_eq!(s.app.search, "");
    assert_eq!(s.app.status, "filters cleared");
    assert_eq!(s.app.current_list_len(), 3);
    s.press(KeyCode::Char('/'));
    s.type_str("rent");
    s.press(KeyCode::Esc);
    assert_eq!(s.app.search, "");
    assert_eq!(s.app.input_buffer, "");
}

#[test]
fn dates_bound_the_register_on_both_ends() {
    let mut s = busy_session();
    s.press(KeyCode::Enter);
    s.press(KeyCode::Char('f'));
    s.type_str(" 2024-02-01 ");
    s.press(KeyCode::Enter);
    assert_eq!(s.app.date_from, Some(posted("2024-02-01")));
    assert_eq!(s.app.current_list_len(), 2);
    s.press(KeyCode::Char('t'));
    s.type_str("2024-02-01");
    s.press(KeyCode::Enter);
    assert_eq!(s.app.current_list_len(), 1);
    assert_eq!(
        line_text(&status_line(&s.app)),
        "from:2024-02-01 to:2024-02-01 ?: help  q: quit"
    );
    s.press(KeyCode::Char('f'));
    assert_eq!(s.app.input_buffer, "2024-02-01");
    s.type_str("x");
    s.press(KeyCode::Enter);
    assert_eq!(s.app.date_from, None, "what is no date clears the filter");
    assert_eq!(parse_date_input("  "), None);
    assert_eq!(parse_date_input("2024-01-01"), Some(posted("2024-01-01")));
}

#[test]
fn an_empty_register_says_why() {
    let mut s = busy_session();
    s.press(KeyCode::Enter);
    s.app.search = "zzz".to_string();
    assert_eq!(
        empty_message(&s.app).as_deref(),
        Some("no transactions match the current filters")
    );
    s.app.transactions.clear();
    assert_eq!(
        empty_message(&s.app).as_deref(),
        Some("no transactions yet for this account")
    );
    let none = Session::new(Storage::in_memory());
    assert_eq!(
        empty_message(&none.app).as_deref(),
        Some("no accounts yet \u{2014} register one with `ledger add`")
    );
}

#[test]
fn deleting_takes_a_yes() {
    let mut s = busy_session();
    s.press(KeyCode::Char('D'));
    assert_eq!(s.app.input_mode, InputMode::Normal, "no transaction selected");
    s.press(KeyCode::Enter);
    s.press(KeyCode::Down);
    s.press(KeyCode::Char('D'));
    assert_eq!(s.app.input_mode, InputMode::DeleteConfirm);
    assert!(screen_text(&s.app).contains("Delete this transaction? (y/n)"));
    s.press(KeyCode::Char('x'));
    assert_eq!(s.app.input_mode, InputMode::DeleteConfirm);
    s.press(KeyCode::Enter);
    assert_eq!(s.app.status, "delete cancelled");
    assert_eq!(s.storage.list_transactions().unwrap().len(), 3);
    s.press(KeyCode::Char('D'));
    s.press(KeyCode::Char('Y'));
    assert_eq!(s.app.status, "transaction deleted");
    let left: Vec<u128> = s
        .storage
        .list_transactions()
        .unwrap()
        .iter()
        .map(|t| t.id.0)
        .collect();
    assert_eq!(left, vec![1, 3]);
    assert_eq!(s.app.selected, Some(0));
}

#[test]
fn editing_accounts_keeps_the_rest() {
    let mut s = busy_session();
    s.press(KeyCode::Enter);
    s.press(KeyCode::Char('C'));
    assert_eq!(s.app.input_mode, InputMode::EditAccounts);
    s.press(KeyCode::Down);
    for _ in 0..6 {
        s.press(KeyCode::Backspace);
    }
    s.type_str("Rent");
    let text = screen_text(&s.app);
    assert!(text.contains("Edit accounts\n"), "{text}");
    assert!(text.contains("  Rent                              -1500.00"), "{text}");
    s.press(KeyCode::Enter);
    assert_eq!(s.app.input_mode, InputMode::EditAccountsConfirm);
    s.press(KeyCode::Char('n'));
    assert_eq!(s.app.status, "edit not applied");
    s.press(KeyCode::Enter);
    s.press(KeyCode::Char('y'));
    assert_eq!(s.app.status, "accounts updated");
    let tx = s.storage.get_transaction(TransactionId(1)).expect("found");
    assert_eq!(tx.memo, "Paycheck");
    assert_eq!(tx.posted_at, posted("2024-01-15"));
    assert_eq!(tx.entries[1].account.as_str(), "rent");
    assert_eq!(tx.entries[1].amount, Amount::from_integer(-1500));
}

#[test]
fn an_account_that_is_none_keeps_the_edit_open() {
    let mut s = busy_session();
    s.press(KeyCode::Enter);
    s.press(KeyCode::Char('C'));
    s.type_str(".");
    s.press(KeyCode::Enter);
    s.press(KeyCode::Char('y'));
    assert_eq!(s.app.input_mode, InputMode::EditAccounts);
    assert_eq!(
        s.app.status,
        "invalid account \"checking.\": account id contains invalid character: '.'"
    );
    s.press(KeyCode::Backspace);
    s.type_str("x");
    s.press(KeyCode::Enter);
    s.press(KeyCode::Char('y'));
    assert_eq!(s.app.status, "update failed: unknown account: checkingx");
    assert_eq!(s.app.input_mode, InputMode::Normal);
    s.press(KeyCode::Char('C'));
    s.press(KeyCode::Esc);
    assert_eq!(s.app.status, "edit cancelled");
    assert!(s.app.edit_accounts.is_none());
}

#[test]
fn a_command_is_copied_or_shown() {
    let mut s = busy_session();
    s.press(KeyCode::Enter);
    s.press(KeyCode::Char('y'));
    assert_eq!(s.app.status, "command copied to clipboard");
    let expected = "ledger add --date 2024-01-15 \\\n  --memo Paycheck \\\n  --entry checking:asset:1500 \\\n  --entry salary:income:-1500";
    assert_eq!(s.clipboard, Ok(vec![expected.to_string()]));

    s.clipboard = Err("no display".to_string());
    s.press(KeyCode::Char('y'));
    assert_eq!(
        s.app.status,
        "clipboard unavailable (no display); showing command"
    );
    assert_eq!(s.app.input_mode, InputMode::Reconstruct);
    let shown = modal(&s.app, &Timestamp::today()).expect("command");
    assert_eq!(shown.height, 7);
    assert_eq!(line_text(&shown.lines[1]), "  --memo Paycheck \\");
    assert_eq!(shown.lines[5].style, Emphasis::Dim);
    s.press(KeyCode::Char('z'));
    assert_eq!(s.app.input_mode, InputMode::Normal);
    assert!(s.app.reconstruct_cmd.is_none());
}

#[test]
fn help_lists_the_keys() {
    let mut s = busy_session();
    s.press(KeyCode::Char('?'));
    let shown = modal(&s.app, &Timestamp::today()).expect("help");
    assert_eq!(usize::from(shown.height), shown.lines.len() + 2);
    assert_eq!(
        line_text(&shown.lines[1]),
        "  j / k / \u{2191}\u{2193}        move cursor"
    );
    s.press(KeyCode::Tab);
    assert_eq!(s.app.input_mode, InputMode::Normal);
}

#[test]
fn control_c_quits_in_every_mode() {
    let quit = Key {
        code: KeyCode::Char('c'),
        control: true,
    };
    for mode in [
        InputMode::Normal,
        InputMode::Search,
        InputMode::DateFrom,
        InputMode::DateTo,
        InputMode::DeleteConfirm,
        InputMode::EditAccounts,
        InputMode::EditAccountsConfirm,
        InputMode::AddTransaction,
        InputMode::AddConfirm,
        InputMode::Reconstruct,
        InputMode::Help,
    ] {
        let mut s = busy_session();
        s.app.input_mode = mode;
        assert!(matches!(handle_key(&mut s.app, quit), Action::Quit));
        assert_eq!(s.app.input_mode, mode);
    }
    let mut s = busy_session();
    assert!(s.press(KeyCode::Char('q')));
    assert!(!s.press(KeyCode::Other));
}

#[test]
fn a_saved_transaction_gets_its_id_and_date() {
    let mut s = seeded_app();
    s.press(KeyCode::Char('a'));
    s.press(KeyCode::Tab);
    s.press(KeyCode::Tab);
    s.type_str("60");
    s.press(KeyCode::Tab);
    s.press(KeyCode::Enter);
    let action = handle_key_with(
        &mut s.app,
        key(KeyCode::Char('y')),
        TransactionId(42),
        posted("2024-05-01"),
    );
    let Action::Save(tx) = action else {
        panic!("nothing to save");
    };
    assert_eq!(tx.id, TransactionId(42));
    assert_eq!(tx.posted_at, posted("2024-05-01"));
    assert_eq!(tx.entries[0].amount, Amount::from_integer(-60));
    assert!(s.app.add_transaction.is_none());
    let next = s
        .app
        .changed(Change::Added, Err("disk full".to_string()));
    assert!(matches!(next, Action::Nothing));
    assert_eq!(s.app.status, "add failed: disk full");
    assert_eq!(s.app.input_mode, InputMode::Normal);
}

#[test]
fn reloading_tells_how_it_went() {
    let mut s = busy_session();
    s.press(KeyCode::Down);
    s.press(KeyCode::Char('r'));
    assert_eq!(s.app.status, "reloaded");
    assert_eq!(s.app.selected, Some(0));
    s.app.reloaded(Err("gone".to_string()));
    assert_eq!(s.app.status, "reload failed: gone");
    s.app.reloaded_after(Change::Deleted, Err("gone".to_string()));
    assert_eq!(s.app.status, "reload failed: gone");
}

#[test]
fn a_form_without_accounts_cannot_be_previewed() {
    let storage = Storage::in_memory();
    acct(&storage, "only", AccountClass::Asset);
    let mut s = Session::new(storage);
    s.press(KeyCode::Char('a'));
    let state = s.app.add_transaction.as_mut().expect("state");
    state.focus = AddField::Memo;
    s.press(KeyCode::Enter);
    let state = s.app.add_transaction.as_ref().expect("state");
    assert_eq!(
        state.error.as_deref(),
        Some("need at least two registered accounts")
    );
    let mut s = seeded_app();
    s.press(KeyCode::Char('a'));
    let state = s.app.add_transaction.as_mut().expect("state");
    state.focus = AddField::Memo;
    state.from_index = 99;
    s.press(KeyCode::Enter);
    let state = s.app.add_transaction.as_ref().expect("state");
    assert_eq!(state.error.as_deref(), Some("pick an account in both lists"));
}

fn record(storage: &Storage, addition: Addition) -> TransactionId {
    for account in &addition.accounts {
        storage.register_account(account);
    }
    storage
        .save_transaction(&addition.transaction)
        .expect("accounts are registered");
    addition.transaction.id
}

/// Adds a transaction as the command line does.
fn add(
    storage: &Storage,
    day: &str,
    memo: Option<&str>,
    kind: Option<&str>,
    texts: &[&str],
) -> Result<TransactionId, CliError> {
    let registered = class_map(&storage.list_accounts().expect("accounts"));
    let args = AddArgs {
        date: Some(day.to_string()),
        kind: kind.map(str::to_string),
        memo: memo.map(str::to_string),
        entries: texts.iter().map(|s| s.to_string()).collect(),
    };
    let planned = plan_command(&args, TransactionId::new(), posted("2000-01-01"), &registered);
    Ok(record(storage, planned.expect("in range")?))
}

fn listed(storage: &Storage) -> Vec<(String, AccountClass)> {
    storage
        .list_accounts()
        .expect("accounts")
        .iter()
        .map(|a| (a.id.as_str().to_string(), a.class))
        .collect()
}

#[test]
fn refused_transactions_leave_the_books_alone() {
    let storage = Storage::in_memory();
    let day = "2024-01-15";
    let err = add(&storage, day, None, None, &["checking:asset:1000", "rent:expense:-900"])
        .expect_err("does not balance");
    assert!(matches!(
        err,
        CliError::Transaction(TransactionError::Unbalanced { sum }) if sum == Amount::from_integer(100)
    ));
    let err = add(&storage, day, None, None, &["checking:asset:1"]).expect_err("one entry");
    assert!(matches!(err, CliError::Transaction(TransactionError::TooFewEntries { got: 1, min: 2 })));
    assert!(add(&storage, day, None, None, &["checking:asset:1", "rent:-x"]).is_err());
    let err = add(&storage, day, None, None, &["checking:asset:1", "rent:-1"])
        .expect_err("not registered");
    assert_eq!(err.message(), "unknown account: rent");
    let err = add(&storage, day, None, Some("close"), &["checking:asset:1", "a:equity:-1"])
        .expect_err("no close");
    assert!(matches!(err, CliError::Transaction(_)));
    assert!(add(&storage, day, None, Some("odd"), &["checking:asset:1", "a:equity:-1"]).is_err());
    assert_eq!(listed(&storage), vec![]);
    assert_eq!(storage.list_transactions().expect("transactions"), vec![]);
}

#[test]
fn registered_accounts_keep_their_classes() {
    let storage = Storage::in_memory();
    acct(&storage, "checking", AccountClass::Liability);
    acct(&storage, "income", AccountClass::Equity);
    let id = add(
        &storage,
        "2024-01-15",
        None,
        None,
        &["checking:asset:1000", "income:-1000"],
    )
    .expect("valid");
    assert_eq!(
        listed(&storage),
        vec![
            ("checking".to_string(), AccountClass::Liability),
            ("income".to_string(), AccountClass::Equity),
        ]
    );
    let tx = storage.get_transaction(id).expect("stored");
    assert_eq!(tx.memo, "");
    assert_eq!(tx.entries.len(), 2);
    assert_eq!(tx.entries[0].amount, Amount::from_integer(1000));
}

#[test]
fn income_is_recorded_as_income() {
    let storage = Storage::in_memory();
    let registered = class_map(&storage.list_accounts().expect("accounts"));
    let args = IncomeArgs {
        amount: "500".to_string(),
        date: Some("2026-01-15".to_string()),
        memo: Some("Bonus".to_string()),
    };
    let planned = plan_income(&args, TransactionId::new(), posted("2000-01-01"), &registered);
    let id = record(&storage, planned.expect("in range").expect("valid"));
    assert_eq!(
        listed(&storage),
        vec![
            ("checking".to_string(), AccountClass::Asset),
            ("income".to_string(), AccountClass::Income),
        ]
    );
    let stored = storage.list_transactions().expect("transactions");
    assert_eq!(stored.len(), 1);
    let tx = &stored[0];
    assert_eq!((tx.id, tx.posted_at), (id, posted("2026-01-15")));
    assert_eq!((tx.memo.as_str(), tx.kind), ("Bonus", TransactionKind::Normal));
    let entries: Vec<(&str, Amount)> = tx
        .entries
        .iter()
        .map(|e| (e.account.as_str(), e.amount))
        .collect();
    assert_eq!(
        entries,
        vec![
            ("checking", Amount::from_integer(500)),
            ("income", Amount::from_integer(-500)),
        ]
    );
}

#[test]
fn a_command_without_a_date_is_of_today() {
    let args = AddArgs {
        date: None,
        kind: None,
        memo: None,
        entries: vec!["a:asset:1".to_string(), "b:equity:-1".to_string()],
    };
    let id = TransactionId::new();
    let made = plan_command(&args, id, posted("2024-05-06"), &AccountMap::new());
    let addition = made.expect("in range").expect("valid");
    assert_eq!(addition.transaction.id, id);
    assert_eq!(addition.transaction.posted_at, posted("2024-05-06"));
    assert_eq!(addition.transaction.memo, "");
    let big = "79228162514264337593543950335";
    let args = AddArgs {
        date: None,
        kind: None,
        memo: None,
        entries: vec![format!("a:asset:{big}"), format!("b:asset:{big}")],
    };
    assert!(plan_command(&args, id, posted("2024-05-06"), &AccountMap::new()).is_none());
    let args = IncomeArgs {
        amount: "lots".to_string(),
        date: None,
        memo: None,
    };
    let made = plan_income(&args, id, posted("2024-05-06"), &AccountMap::new());
    assert!(matches!(made, Some(Err(CliError::Amount(_)))));
}

#[test]
fn a_year_is_opened_closed_and_rebuilt_from_its_script() {
    let storage = Storage::in_memory();
    let today = posted("2025-01-01");
    let open = OpenArgs {
        date: None,
        memo: Some("Start".to_string()),
        entries: vec![
            "checking:asset:1000".to_string(),
            "mortgage:liability:-300".to_string(),
        ],
    };
    let registered = class_map(&storage.list_accounts().expect("accounts"));
    let books = storage.list_transactions().expect("transactions");
    let id = TransactionId::new();
    let opening = plan_opening(&open, &books, id, today, &registered).expect("opens");
    record(&storage, opening);
    add(
        &storage,
        "2025-03-01",
        Some("Bob's pay"),
        None,
        &["checking:500.50", "income:income:-500.50"],
    )
    .expect("income");
    add(&storage, "2025-04-01", None, None, &["rent:expense:200", "checking:-200"])
        .expect("rent");
    let close = CloseArgs {
        date: Some("2025-12-31".to_string()),
        memo: None,
    };
    let accounts = storage.list_accounts().expect("accounts");
    let balances = storage.balances().expect("balances");
    let id = TransactionId::new();
    let closing = plan_closing(&close, &accounts, &balances, id, today).expect("closes");
    record(&storage, closing);

    let books = storage.list_transactions().expect("transactions");
    let kinds: Vec<TransactionKind> = books.iter().map(|tx| tx.kind).collect();
    assert_eq!(
        kinds,
        vec![
            TransactionKind::Open,
            TransactionKind::Normal,
            TransactionKind::Normal,
            TransactionKind::Close,
        ]
    );
    assert_eq!(books[0].entries[2].account.as_str(), "equity/net");
    assert_eq!(books[0].entries[2].amount, Amount::from_integer(-700));
    let balances = storage.balances().expect("balances");
    for name in ["income", "rent"] {
        assert!(balances.get(&acct_id(name)).expect("balance").is_zero());
    }
    let again = plan_opening(&open, &books, id, today, &class_map(&accounts));
    assert!(matches!(again, Err(CliError::NotEmpty)));
    let accounts = storage.list_accounts().expect("accounts");
    let nothing = plan_closing(&close, &accounts, &balances, id, today);
    assert!(matches!(nothing, Err(CliError::NothingToClose)));

    let rebuilt = Storage::in_memory();
    let classes = class_map(&accounts);
    for tx in &books {
        let mut words: Vec<String> = Vec::new();
        let mut args = AddArgs {
            date: None,
            kind: None,
            memo: None,
            entries: vec![],
        };
        let command = tx.render_add_command(&classes).expect("renders");
        for part in command.replace(" \\\n  ", "\u{1}").trim_end().split('\u{1}') {
            words.push(part.to_string());
        }
        args.date = words[0].strip_prefix("ledger add --date ").map(str::to_string);
        for word in &words[1..] {
            let (option, value) = word.split_once(' ').expect("a value");
            let value = value.replace("'\\''", "\u{2}").replace('\'', "").replace('\u{2}', "'");
            match option {
                "--kind" => args.kind = Some(value),
                "--memo" => args.memo = Some(value),
                _ => args.entries.push(value),
            }
        }
        let registered = class_map(&rebuilt.list_accounts().expect("accounts"));
        let id = TransactionId::new();
        let planned = plan_command(&args, id, today, &registered);
        let addition = planned.expect("in range").expect("valid");
        let mut same = tx.clone();
        same.id = id;
        assert_eq!(addition.transaction, same);
        record(&rebuilt, addition);
    }
    assert_eq!(listed(&rebuilt), listed(&storage));
}

#[test]
fn retained_earnings_are_registered_where_they_are_new() {
    let entries = vec![
        Entry {
            account: acct_id("a"),
            amount: Amount::from_integer(7),
        },
        Entry {
            account: acct_id("equity/net"),
            amount: Amount::from_integer(-7),
        },
    ];
    let mut registered = AccountMap::new();
    let retained = Account {
        id: acct_id("equity/net"),
        class: AccountClass::Equity,
    };
    assert_eq!(add_retained(vec![], &entries, &registered), vec![retained.clone()]);
    assert_eq!(add_retained(vec![], &entries[..1].to_vec(), &registered), vec![]);
    assert_eq!(
        add_retained(vec![retained.clone()], &entries, &registered),
        vec![retained]
    );
    registered.insert(&acct_id("equity/net"), AccountClass::Equity);
    assert_eq!(add_retained(vec![], &entries, &registered), vec![]);
}

#[test]
fn the_screen_has_a_title_a_table_and_a_status() {
    for y in [0u16, 5, 60_000] {
        for height in [2u16, 3, 4, 24, 1001, 5_535] {
            let area = Area {
                x: 3,
                y,
                width: 80,
                height,
            };
            let (title, body, status) = screen_rows(area);
            assert_eq!((title.y, title.height), (y, 1));
            assert_eq!((body.y, body.height), (y + 1, height - 2));
            assert_eq!((status.y, status.height), (y + height - 1, 1));
            assert_eq!((body.x, body.width), (3, 80));
        }
        for height in [1u16, 2, 3, 4, 5, 24, 1001, 5_535] {
            let area = Area {
                x: 3,
                y,
                width: 80,
                height,
            };
            let row = message_row(area);
            assert_eq!((row.x, row.y, row.width, row.height), (3, y + height / 2, 80, 1));
        }
        let (title, body, status) = screen_rows(Area {
            x: 0,
            y,
            width: 1,
            height: 0,
        });
        assert_eq!((title.height, body.height, status.height), (0, 0, 0));
        let (title, body, status) = screen_rows(Area {
            x: 0,
            y,
            width: 1,
            height: 1,
        });
        assert_eq!((title.y, body.height, title.height + status.height), (y, 0, 1));
        assert_eq!(status.y, y + title.height);
    }
}

#[test]
fn parts_of_an_area_have_their_places() {
    let sizes: [u16; 8] = [0, 1, 2, 7, 40, 301, 20_000, 65_535];
    let split = |rect: Rect, parts: [Constraint; 3]| {
        Layout::default()
            .direction(Direction::Horizontal)
            .constraints(parts)
            .split(rect)
    };
    for whole in sizes {
        let rect = Rect {
            x: 65_535 - whole,
            y: 0,
            width: whole,
            height: 1,
        };
        for first in sizes {
            if first <= whole {
                let parts = [Constraint::Min(0), Constraint::Length(first), Constraint::Min(0)];
                let middle = split(rect, parts)[1];
                let lead = ((u32::from(whole) - u32::from(first) + 1) / 2) as u16;
                assert_eq!((middle.x, middle.width), (rect.x + lead, first));
            }
            for last in sizes {
                if u32::from(first) + u32::from(last) <= u32::from(whole) {
                    let parts = [
                        Constraint::Length(first),
                        Constraint::Min(0),
                        Constraint::Length(last),
                    ];
                    let rects = split(rect, parts);
                    assert_eq!((rects[0].x, rects[0].width), (rect.x, first));
                    assert_eq!(
                        (rects[1].x, rects[1].width),
                        (rect.x + first, whole - first - last)
                    );
                    assert_eq!((rects[2].x, rects[2].width), (rect.x + (whole - last), last));
                } else {
                    let parts = [
                        Constraint::Length(first),
                        Constraint::Min(0),
                        Constraint::Length(last),
                    ];
                    let rects = split(rect, parts);
                    assert_eq!(rects[1].width, 0, "nothing is left for the middle");
                }
                for parts in [
                    [Constraint::Length(first), Constraint::Min(0), Constraint::Length(last)],
                    [Constraint::Length(first), Constraint::Length(last), Constraint::Min(0)],
                    [Constraint::Min(0), Constraint::Length(last), Constraint::Min(0)],
                    [Constraint::Min(0), Constraint::Length(first), Constraint::Length(last)],
                ] {
                    let rects = split(rect, parts);
                    assert_eq!(rects[0].x, rect.x);
                    assert_eq!(rects[1].x, rects[0].x + rects[0].width);
                    assert_eq!(rects[2].x, rects[1].x + rects[1].width);
                    assert_eq!(rects[2].x + rects[2].width, rect.x + rect.width);
                }
            }
        }
    }
}

#[test]
fn boxes_are_centered() {
    let sizes: [u16; 9] = [0, 1, 2, 3, 17, 64, 255, 40_001, 65_535];
    for width in sizes {
        for whole in sizes {
            for start in [0, 1, 7, 65_535 - whole] {
                if start > 65_535 - whole {
                    continue;
                }
                let place = centered_rect(
                    width,
                    width,
                    Area {
                        x: start,
                        y: 3,
                        width: whole,
                        height: 9,
                    },
                );
                let lead = whole.saturating_sub(width) / 2;
                assert_eq!((place.x, place.width), (start + lead, width.min(whole)));
                let lead = 9u16.saturating_sub(width) / 2;
                assert_eq!((place.y, place.height), (3 + lead, width.min(9)));
                let place = centered_rect(
                    5,
                    width,
                    Area {
                        x: 2,
                        y: start,
                        width: 4,
                        height: whole,
                    },
                );
                let lead = whole.saturating_sub(width) / 2;
                assert_eq!((place.y, place.height), (start + lead, width.min(whole)));
                assert_eq!((place.x, place.width), (2, 4));
            }
        }
    }
}

#[test]
fn boxes_stay_on_the_screen() {
    let place = centered_rect(64, 17, terminal(80, 24));
    assert_eq!((place.x, place.y, place.width, place.height), (8, 3, 64, 17));
    for (w, h) in [(1, 1), (0, 0), (10, 40), (200, 5), (63, 16)] {
        let place = centered_rect(64, 17, terminal(w, h));
        assert!(place.width == 0 || place.x + place.width <= w);
        assert!(place.height == 0 || place.y + place.height <= h);
    }
    let a = Area {
        x: 1,
        y: 2,
        width: 3,
        height: 4,
    };
    let b = Area {
        x: 2,
        y: 3,
        width: 4,
        height: 5,
    };
    assert_eq!(
        a.intersection(&b),
        Area {
            x: 2,
            y: 3,
            width: 2,
            height: 3
        }
    );
    assert_eq!(
        terminal(1, 2).inside_border(),
        Area {
            x: 1,
            y: 1,
            width: 0,
            height: 0
        }
    );
}
