use ledger::cli::{new_transaction, plan_entries, AuditArgs, CliError};
use ledger::decimal::Amount;
use ledger::fiscal::{
    check_empty, class_map, closing_entries, fiscal_period, opening_entries,
    parse_transaction_id, report_period, retained_account, with_kind_named,
};
use ledger::model::{
    checked_balances, Account, AccountClass, AccountId, AccountMap, Entry, ReconstructError, Transaction,
    TransactionError, TransactionId, TransactionKind,
};
use ledger::time::Timestamp;

fn acct(id: &str) -> AccountId {
    AccountId::parse(id).expect("account parses")
}

fn entry(account: &str, amount: i64) -> Entry {
    Entry {
        account: acct(account),
        amount: Amount::from_integer(amount),
    }
}

fn date(s: &str) -> Timestamp {
    Timestamp::parse_date(s).expect("date parses")
}

fn registered() -> Vec<Account> {
    [
        ("checking", AccountClass::Asset),
        ("equity/net", AccountClass::Equity),
        ("food", AccountClass::Expense),
        ("rent", AccountClass::Expense),
        ("salary", AccountClass::Income),
    ]
    .iter()
    .map(|(id, class)| Account {
        id: acct(id),
        class: *class,
    })
    .collect()
}

fn posted(day: &str, kind: TransactionKind, entries: Vec<Entry>) -> Transaction {
    let tx = Transaction::new(TransactionId::new(), date(day), String::new(), entries)
        .expect("balances");
    if kind == TransactionKind::Normal {
        return tx;
    }
    tx.with_kind(kind, &class_map(&registered())).expect("shape")
}

#[test]
fn a_close_zeroes_income_and_expenses_into_equity() {
    let mut book = vec![
        entry("checking", 1000),
        entry("salary", -1000),
        entry("checking", -400),
        entry("rent", 400),
    ];
    let balances = checked_balances(&book).expect("sums fit");
    let close = closing_entries(&registered(), &balances).expect("something to close");
    let shown: Vec<(&str, String)> = close
        .iter()
        .map(|e| (e.account.as_str(), e.amount.to_text()))
        .collect();
    assert_eq!(
        shown,
        vec![
            ("rent", "-400".to_string()),
            ("salary", "1000".to_string()),
            ("equity/net", "-600".to_string()),
        ]
    );
    let tx = new_transaction(TransactionId::new(), date("2024-12-31"), None, close)
        .expect("sums to zero");
    let tx = tx
        .with_kind(TransactionKind::Close, &class_map(&registered()))
        .expect("the shape of a close");
    book.extend(tx.entries);
    let after = checked_balances(&book).expect("sums fit");
    assert_eq!(after.get(&acct("salary")), Some(Amount::zero()));
    assert_eq!(after.get(&acct("rent")), Some(Amount::zero()));
    assert_eq!(after.get(&acct("checking")), Some(Amount::from_integer(600)));
    assert_eq!(
        closing_entries(&registered(), &after).expect_err("nothing left").message(),
        "no income or expense account has a balance to close"
    );
}

#[test]
fn a_year_without_profit_needs_no_equity() {
    let book = vec![entry("salary", -400), entry("rent", 400)];
    let balances = checked_balances(&book).expect("sums fit");
    let close = closing_entries(&registered(), &balances).expect("something to close");
    assert_eq!(close.len(), 2);
}

#[test]
fn an_opening_puts_the_difference_into_equity() {
    let texts = vec![
        "checking:asset:1000".to_string(),
        "mortgage:liability:-300".to_string(),
    ];
    let plan = plan_entries(&texts, &AccountMap::new());
    let entries = opening_entries(plan.entries.expect("entries")).expect("adds up");
    assert_eq!(entries.len(), 3);
    assert_eq!(entries[2].account, retained_account());
    assert_eq!(entries[2].account.as_str(), "equity/net");
    assert_eq!(entries[2].amount, Amount::from_integer(-700));
    let even = opening_entries(vec![entry("a", 5), entry("b", -5)]).expect("adds up");
    assert_eq!(even.len(), 2);
    let big = Amount::parse("79228162514264337593543950335").unwrap();
    let huge = vec![
        Entry {
            account: acct("a"),
            amount: big,
        },
        Entry {
            account: acct("b"),
            amount: big,
        },
    ];
    assert!(matches!(opening_entries(huge), Err(CliError::OutOfRange)));
    assert!(check_empty(&[]).is_ok());
    let err = check_empty(&three_years()).expect_err("not empty");
    assert_eq!(err.message(), "opening balances need an empty database");
}

fn three_years() -> Vec<Transaction> {
    let close = |day: &str, n: i64| {
        posted(
            day,
            TransactionKind::Close,
            vec![entry("salary", n), entry("equity/net", -n)],
        )
    };
    vec![
        posted(
            "2023-03-01",
            TransactionKind::Normal,
            vec![entry("checking", 10), entry("salary", -10)],
        ),
        close("2023-12-31", 10),
        close("2024-12-31", 20),
        close("2025-06-30", 30),
        close("2025-12-31", 40),
    ]
}

#[test]
fn a_fiscal_year_runs_from_close_to_close() {
    let book = three_years();
    assert_eq!(
        fiscal_period(&book, "2023").expect("first year"),
        (date("2023-03-01"), date("2024-01-01"))
    );
    assert_eq!(
        fiscal_period(&book, "2024").expect("second year"),
        (date("2024-01-01"), date("2025-01-01"))
    );
    assert_eq!(
        fiscal_period(&book, "latest").expect("latest"),
        (date("2025-07-01"), date("2026-01-01"))
    );
    assert_eq!(
        fiscal_period(&book, "2025").expect_err("two closes").message(),
        "invalid fiscal year: more than one close in 2025; use --from and --to"
    );
    assert_eq!(
        fiscal_period(&book, "2022").expect_err("no close").message(),
        "invalid fiscal year: no close in 2022"
    );
    assert_eq!(
        fiscal_period(&book[..1], "latest").expect_err("no close").message(),
        "invalid fiscal year: no close yet"
    );
    assert!(fiscal_period(&book, "202").is_err());
}

#[test]
fn a_report_has_a_period() {
    let book = three_years();
    let args = |from: Option<&str>, to: Option<&str>, fy: Option<&str>| AuditArgs {
        from: from.map(str::to_string),
        to: to.map(str::to_string),
        fy: fy.map(str::to_string),
        json: false,
    };
    assert_eq!(
        report_period(&args(Some("2024-02-01"), Some("2024-03-01"), None), &book).expect("dates"),
        (date("2024-02-01"), date("2024-03-01"))
    );
    assert_eq!(
        report_period(&args(None, None, Some("2024")), &book).expect("year"),
        (date("2024-01-01"), date("2025-01-01"))
    );
    assert_eq!(
        report_period(&args(Some("2024-02-01"), None, None), &book)
            .expect_err("no end")
            .message(),
        "invalid date: a report needs --from and --to, or --fy"
    );
}

#[test]
fn a_kind_is_asked_for_by_name() {
    let tx = posted(
        "2024-12-31",
        TransactionKind::Normal,
        vec![entry("salary", 10), entry("equity/net", -10)],
    );
    let classes = class_map(&registered());
    let plain = with_kind_named(tx.clone(), None, &classes).expect("as it is");
    assert_eq!(plain.kind, TransactionKind::Normal);
    let closed = with_kind_named(tx.clone(), Some("close"), &classes).expect("a close");
    assert_eq!(closed.kind, TransactionKind::Close);
    assert_eq!(closed.entries, tx.entries);
    let err = with_kind_named(tx.clone(), Some("open"), &classes).expect_err("no open");
    assert!(matches!(
        err,
        CliError::Transaction(TransactionError::WrongShape { .. })
    ));
    let err = with_kind_named(tx, Some("banana"), &classes).expect_err("no kind");
    assert!(matches!(
        err,
        CliError::Transaction(TransactionError::UnknownKind(_))
    ));
}

#[test]
fn ids_are_asked_for_by_text() {
    let id = TransactionId(77);
    assert_eq!(parse_transaction_id(&id.to_text()).expect("id"), id);
    assert_eq!(
        parse_transaction_id("77").expect_err("no id").message(),
        "invalid transaction id: 77"
    );
    assert_eq!(
        CliError::Reconstruct(ReconstructError::UnknownAccount(acct("ghost"))).message(),
        "unknown account: ghost"
    );
    assert_eq!(
        CliError::OutOfRange.message(),
        "amounts do not add up: out of range"
    );
}
