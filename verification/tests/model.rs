use ledger::decimal::Amount;
use ledger::model::{
    checked_balances, checked_sum, class_named, class_to_str, closes, lifetime_activity,
    period_start, render_all_add_commands, Account, AccountClass, AccountId, AccountIdError,
    AccountMap, CloseInfo, Entry, ReconstructError, Summary, Transaction, TransactionError,
    TransactionId, TransactionKind,
};
use ledger::time::Timestamp;

fn ts(s: &str) -> Timestamp {
    Timestamp::parse_date(s).expect("date parses")
}

fn entry(account: &str, amount: &str) -> Entry {
    Entry {
        account: AccountId::parse(account).expect("account parses"),
        amount: Amount::parse(amount).expect("amount parses"),
    }
}

fn tx(memo: &str, entries: Vec<Entry>) -> Transaction {
    Transaction::new(
        TransactionId::new(),
        ts("2024-01-15"),
        memo.to_string(),
        entries,
    )
    .expect("tx balances")
}

fn dated(day: &str, memo: &str, entries: Vec<Entry>) -> Transaction {
    Transaction::new(TransactionId::new(), ts(day), memo.to_string(), entries)
        .expect("tx balances")
}

fn boundary(
    day: &str,
    kind: TransactionKind,
    entries: Vec<Entry>,
    classes: &AccountMap<AccountClass>,
) -> Transaction {
    dated(day, "", entries)
        .with_kind(kind, classes)
        .expect("boundary shape is valid")
}

fn classes(pairs: &[(&str, AccountClass)]) -> AccountMap<AccountClass> {
    let mut map = AccountMap::new();
    for (id, class) in pairs {
        map.insert(&AccountId::parse(id).expect("account parses"), *class);
    }
    map
}

fn dec(s: &str) -> Amount {
    Amount::parse(s).expect("amount parses")
}

/// A book mid-year: no close has happened yet, so equity is still zero
/// and every dollar of net income is sitting in the asset accounts.
fn open_book() -> Vec<(AccountClass, Amount)> {
    vec![
        (AccountClass::Asset, dec("1500")),
        (AccountClass::Liability, dec("-265.44")),
        (AccountClass::Equity, dec("0")),
        (AccountClass::Income, dec("-2000")),
        (AccountClass::Expense, dec("765.44")),
    ]
}

/// The same book after a prior year closed 1000 of net income into
/// `equity/net`, which the signed convention records as a negative.
fn closed_book() -> Vec<(AccountClass, Amount)> {
    vec![
        (AccountClass::Asset, dec("2500")),
        (AccountClass::Liability, dec("-265.44")),
        (AccountClass::Equity, dec("-1000")),
        (AccountClass::Income, dec("-2000")),
        (AccountClass::Expense, dec("765.44")),
    ]
}

#[test]
fn summary_reports_income_and_expenses_as_magnitudes() {
    let summary = Summary::from_balances(open_book());
    assert_eq!(summary.assets, dec("1500"));
    assert_eq!(summary.liabilities, dec("-265.44"));
    assert_eq!(
        summary.activity.income,
        dec("2000"),
        "income flips to positive"
    );
    assert_eq!(
        summary.activity.expenses,
        dec("765.44"),
        "expenses stay positive"
    );
    assert_eq!(summary.net_worth(), dec("1234.56"));
    assert_eq!(summary.activity.net(), dec("1234.56"));
}

#[test]
fn summary_sums_multiple_accounts_per_class() {
    let summary = Summary::from_balances(vec![
        (AccountClass::Asset, dec("1000")),
        (AccountClass::Asset, dec("500")),
        (AccountClass::Expense, dec("300")),
        (AccountClass::Expense, dec("465.44")),
    ]);
    assert_eq!(summary.assets, dec("1500"));
    assert_eq!(summary.activity.expenses, dec("765.44"));
}

#[test]
fn summary_of_an_empty_book_is_all_zero() {
    let summary = Summary::from_balances(vec![]);
    assert_eq!(summary, Summary::default());
    assert_eq!(summary.net_worth(), Amount::zero());
    assert_eq!(summary.activity.net(), Amount::zero());
}

/// The accounting identity, restated in the summary's terms: every
/// dollar of net worth is either this period's net income or a prior
/// period's, parked in equity by a close.
#[test]
fn summary_satisfies_the_accounting_identity() {
    for balances in [open_book(), closed_book()] {
        let summary = Summary::from_balances(balances);
        assert_eq!(
            summary.net_worth().plus(&summary.equity),
            summary.activity.net(),
            "identity broken for {summary:?}"
        );
    }
}

/// A close moves net income out of the nominal accounts and into
/// equity without touching net worth.
#[test]
fn summary_net_worth_survives_a_close() {
    let before = Summary::from_balances(closed_book());
    let after = Summary::from_balances(vec![
        (AccountClass::Asset, dec("2500")),
        (AccountClass::Liability, dec("-265.44")),
        (AccountClass::Equity, dec("-2234.56")),
        (AccountClass::Income, dec("0")),
        (AccountClass::Expense, dec("0")),
    ]);
    assert_eq!(before.net_worth(), after.net_worth());
    assert_eq!(after.activity.net(), Amount::zero());
}

fn fy_book() -> (Vec<Transaction>, AccountMap<AccountClass>) {
    let classes = classes(&[
        ("checking", AccountClass::Asset),
        ("salary", AccountClass::Income),
        ("rent", AccountClass::Expense),
        ("equity/net", AccountClass::Equity),
    ]);
    let transactions = vec![
        tx(
            "Paycheck",
            vec![entry("checking", "1000"), entry("salary", "-1000")],
        ),
        tx(
            "Rent",
            vec![entry("checking", "-400"), entry("rent", "400")],
        ),
        dated(
            "2024-01-15",
            "FY close",
            vec![
                entry("salary", "1000"),
                entry("rent", "-400"),
                entry("equity/net", "-600"),
            ],
        )
        .with_kind(TransactionKind::Close, &classes)
        .expect("close shape is valid"),
        tx(
            "Paycheck",
            vec![entry("checking", "1200"), entry("salary", "-1200")],
        ),
    ];
    (transactions, classes)
}

/// The close is skipped, so the year it retired still counts.
#[test]
fn lifetime_activity_counts_through_closes() {
    let (transactions, classes) = fy_book();
    assert_eq!(closes(&transactions).len(), 1, "close not marked");

    let lifetime = lifetime_activity(&transactions, &classes);
    assert_eq!(lifetime.income, dec("2200"), "both paychecks");
    assert_eq!(lifetime.expenses, dec("400"));
    assert_eq!(lifetime.net(), dec("1800"));
}

/// The balance-derived activity only sees the period since the close,
/// which is exactly what makes the two views worth toggling between.
#[test]
fn lifetime_activity_exceeds_the_current_fiscal_year() {
    let (transactions, classes) = fy_book();
    let lifetime = lifetime_activity(&transactions, &classes);

    let mut entries = Vec::new();
    for tx in &transactions {
        for entry in &tx.entries {
            entries.push(entry.clone());
        }
    }
    let balances = checked_balances(&entries).expect("sums fit");
    let mut rows = Vec::new();
    for i in 0..balances.len() {
        if let Some(class) = classes.get(balances.id_at(i)) {
            rows.push((class, balances.value_at(i)));
        }
    }
    let fiscal_year = Summary::from_balances(rows);

    assert_eq!(fiscal_year.activity.income, dec("1200"), "since the close");
    assert_eq!(fiscal_year.activity.expenses, Amount::zero());
    assert_eq!(lifetime.net(), dec("1800"));
    assert_eq!(fiscal_year.activity.net(), dec("1200"));
    assert_eq!(
        fiscal_year.net_worth(),
        dec("1800"),
        "net worth is a position, unaffected by which period you view"
    );
}

/// With no close on the books the two views agree.
#[test]
fn lifetime_activity_matches_balances_before_any_close() {
    let classes = classes(&[
        ("checking", AccountClass::Asset),
        ("salary", AccountClass::Income),
        ("rent", AccountClass::Expense),
    ]);
    let transactions = vec![
        tx(
            "Paycheck",
            vec![entry("checking", "1000"), entry("salary", "-1000")],
        ),
        tx(
            "Rent",
            vec![entry("checking", "-400"), entry("rent", "400")],
        ),
    ];
    assert!(closes(&transactions).is_empty());

    let lifetime = lifetime_activity(&transactions, &classes);
    assert_eq!(lifetime.income, dec("1000"));
    assert_eq!(lifetime.expenses, dec("400"));
}

/// Opening balances are asset/liability plus an equity plug, so they
/// never register as income — "since open" and "all time" agree until
/// the first close.
#[test]
fn lifetime_activity_ignores_opening_balances() {
    let classes = classes(&[
        ("checking", AccountClass::Asset),
        ("equity/net", AccountClass::Equity),
        ("salary", AccountClass::Income),
    ]);
    let transactions = vec![
        tx(
            "Opening balances",
            vec![entry("checking", "5000"), entry("equity/net", "-5000")],
        ),
        tx(
            "Paycheck",
            vec![entry("checking", "1000"), entry("salary", "-1000")],
        ),
    ];
    let lifetime = lifetime_activity(&transactions, &classes);
    assert_eq!(lifetime.income, dec("1000"), "the plug is not income");
    assert_eq!(lifetime.expenses, Amount::zero());
}

#[test]
fn render_two_entry_paycheck() {
    let transaction = tx(
        "Paycheck",
        vec![entry("checking", "1000"), entry("income", "-1000")],
    );
    let classes = classes(&[
        ("checking", AccountClass::Asset),
        ("income", AccountClass::Equity),
    ]);
    let cmd = transaction.render_add_command(&classes).expect("ok");
    assert_eq!(
        cmd,
        "ledger add --date 2024-01-15 \\\n  --memo Paycheck \\\n  --entry checking:asset:1000 \\\n  --entry income:equity:-1000\n"
    );
}

#[test]
fn render_income_class_entry() {
    let transaction = tx(
        "Paycheck",
        vec![entry("checking", "1000"), entry("income", "-1000")],
    );
    let classes = classes(&[
        ("checking", AccountClass::Asset),
        ("income", AccountClass::Income),
    ]);
    let cmd = transaction.render_add_command(&classes).expect("ok");
    assert!(cmd.contains("--entry income:income:-1000"), "got: {cmd}");
}

#[test]
fn render_omits_memo_when_empty() {
    let transaction = tx(
        "",
        vec![entry("checking", "1000"), entry("income", "-1000")],
    );
    let classes = classes(&[
        ("checking", AccountClass::Asset),
        ("income", AccountClass::Equity),
    ]);
    let cmd = transaction.render_add_command(&classes).expect("ok");
    assert_eq!(
        cmd,
        "ledger add --date 2024-01-15 \\\n  --entry checking:asset:1000 \\\n  --entry income:equity:-1000\n"
    );
}

#[test]
fn render_quotes_memo_with_spaces() {
    let transaction = tx(
        "Paycheck January",
        vec![entry("checking", "500"), entry("income", "-500")],
    );
    let classes = classes(&[
        ("checking", AccountClass::Asset),
        ("income", AccountClass::Equity),
    ]);
    let cmd = transaction.render_add_command(&classes).expect("ok");
    assert!(cmd.contains("'Paycheck January'"), "got: {cmd}");
}

#[test]
fn render_quotes_account_id_with_spaces() {
    let transaction = tx(
        "",
        vec![entry("cash on hand", "100"), entry("income", "-100")],
    );
    let classes = classes(&[
        ("cash on hand", AccountClass::Asset),
        ("income", AccountClass::Equity),
    ]);
    let cmd = transaction.render_add_command(&classes).expect("ok");
    assert!(cmd.contains("'cash on hand':asset:100"), "got: {cmd}");
}

#[test]
fn render_escapes_single_quote_in_memo() {
    let transaction = tx(
        "Bob's rent",
        vec![entry("checking", "100"), entry("rent", "-100")],
    );
    let classes = classes(&[
        ("checking", AccountClass::Asset),
        ("rent", AccountClass::Expense),
    ]);
    let cmd = transaction.render_add_command(&classes).expect("ok");
    assert!(cmd.contains("'Bob'\\''s rent'"), "got: {cmd}");
}

#[test]
fn render_preserves_decimal_amounts_without_trailing_zeros() {
    let transaction = tx(
        "",
        vec![entry("checking", "12.5"), entry("income", "-12.5")],
    );
    let classes = classes(&[
        ("checking", AccountClass::Asset),
        ("income", AccountClass::Equity),
    ]);
    let cmd = transaction.render_add_command(&classes).expect("ok");
    assert!(cmd.contains("--entry checking:asset:12.5"), "got: {cmd}");
}

#[test]
fn render_handles_multi_entry_with_continuations() {
    let transaction = tx(
        "split",
        vec![
            entry("expenses/dining", "80"),
            entry("checking", "-60"),
            entry("receivable/alex", "-20"),
        ],
    );
    let classes = classes(&[
        ("expenses/dining", AccountClass::Expense),
        ("checking", AccountClass::Asset),
        ("receivable/alex", AccountClass::Asset),
    ]);
    let cmd = transaction.render_add_command(&classes).expect("ok");
    let expected = "ledger add --date 2024-01-15 \\\n  --memo split \\\n  --entry expenses/dining:expense:80 \\\n  --entry checking:asset:-60 \\\n  --entry receivable/alex:asset:-20\n";
    assert_eq!(cmd, expected);
}

#[test]
fn render_errors_on_unknown_account() {
    let transaction = tx("", vec![entry("checking", "100"), entry("ghost", "-100")]);
    let classes = classes(&[("checking", AccountClass::Asset)]);
    let err = transaction
        .render_add_command(&classes)
        .expect_err("missing class");
    assert_eq!(
        err,
        ReconstructError::UnknownAccount(AccountId::parse("ghost").unwrap())
    );
}

#[test]
fn render_all_emits_each_command_in_input_order() {
    let classes = classes(&[
        ("checking", AccountClass::Asset),
        ("income", AccountClass::Equity),
    ]);
    let transactions = vec![
        tx(
            "first",
            vec![entry("checking", "100"), entry("income", "-100")],
        ),
        tx(
            "second",
            vec![entry("checking", "200"), entry("income", "-200")],
        ),
    ];
    let out = render_all_add_commands(&transactions, &classes).expect("ok");
    let first_pos = out.find("first").expect("first present");
    let second_pos = out.find("second").expect("second present");
    assert!(first_pos < second_pos);
    assert!(
        out.contains("--entry income:equity:-100\n\nledger add"),
        "got: {out}"
    );
}

#[test]
fn render_all_empty_input_is_empty_string() {
    let classes = classes(&[]);
    let out = render_all_add_commands(&[], &classes).expect("ok");
    assert_eq!(out, "");
}

#[test]
fn render_all_propagates_first_error() {
    let classes = classes(&[
        ("checking", AccountClass::Asset),
        ("income", AccountClass::Equity),
    ]);
    let transactions = vec![
        tx(
            "ok",
            vec![entry("checking", "100"), entry("income", "-100")],
        ),
        tx(
            "broken",
            vec![entry("checking", "50"), entry("ghost", "-50")],
        ),
    ];
    let err = render_all_add_commands(&transactions, &classes).expect_err("missing class");
    assert_eq!(
        err,
        ReconstructError::UnknownAccount(AccountId::parse("ghost").unwrap())
    );
}

fn fy_classes() -> AccountMap<AccountClass> {
    classes(&[
        ("checking", AccountClass::Asset),
        ("salary", AccountClass::Income),
        ("expenses/food", AccountClass::Expense),
        ("equity/net", AccountClass::Equity),
    ])
}

#[test]
fn closes_returns_close_kind_in_posted_order() {
    let classes = fy_classes();
    let first = boundary(
        "2024-12-31",
        TransactionKind::Close,
        vec![entry("salary", "1000"), entry("equity/net", "-1000")],
        &classes,
    );
    let second = boundary(
        "2025-12-31",
        TransactionKind::Close,
        vec![entry("salary", "500"), entry("equity/net", "-500")],
        &classes,
    );
    let (first_id, second_id) = (first.id, second.id);
    let transactions = vec![
        tx(
            "",
            vec![entry("checking", "1000"), entry("salary", "-1000")],
        ),
        first,
        tx("", vec![entry("checking", "500"), entry("salary", "-500")]),
        second,
    ];

    let found = closes(&transactions);
    assert_eq!(
        found,
        vec![
            CloseInfo {
                id: first_id,
                posted_at: ts("2024-12-31")
            },
            CloseInfo {
                id: second_id,
                posted_at: ts("2025-12-31")
            },
        ]
    );
}

#[test]
fn closes_ignores_normal_and_open_transactions() {
    let classes = fy_classes();
    let transactions = vec![
        boundary(
            "2024-01-01",
            TransactionKind::Open,
            vec![entry("checking", "100"), entry("equity/net", "-100")],
            &classes,
        ),
        tx("", vec![entry("checking", "200"), entry("salary", "-200")]),
    ];
    assert_eq!(closes(&transactions), vec![]);
}

/// The reason kinds are recorded rather than inferred. These two
/// transactions share a date, so their relative order is decided by
/// ULID and is not stable — but the close is still a close either way.
#[test]
fn a_close_survives_same_day_ordering() {
    let classes = fy_classes();
    let closing = boundary(
        "2024-12-31",
        TransactionKind::Close,
        vec![entry("salary", "1000"), entry("equity/net", "-1000")],
        &classes,
    );
    let same_day = dated(
        "2024-12-31",
        "late paycheck",
        vec![entry("checking", "1000"), entry("salary", "-1000")],
    );

    let close_first = vec![closing.clone(), same_day.clone()];
    let close_last = vec![same_day, closing];
    assert_eq!(closes(&close_first).len(), 1);
    assert_eq!(closes(&close_last).len(), 1);
    assert_eq!(period_start(&close_first), Some(ts("2024-12-31")));
    assert_eq!(period_start(&close_last), Some(ts("2024-12-31")));
}

#[test]
fn period_start_takes_the_latest_boundary() {
    let classes = fy_classes();
    let transactions = vec![
        boundary(
            "2024-01-01",
            TransactionKind::Open,
            vec![entry("checking", "100"), entry("equity/net", "-100")],
            &classes,
        ),
        tx("", vec![entry("checking", "200"), entry("salary", "-200")]),
        boundary(
            "2024-12-31",
            TransactionKind::Close,
            vec![entry("salary", "200"), entry("equity/net", "-200")],
            &classes,
        ),
        tx("", vec![entry("checking", "300"), entry("salary", "-300")]),
    ];
    assert_eq!(period_start(&transactions), Some(ts("2024-12-31")));
}

/// An open is a boundary too — it is where the first period starts.
#[test]
fn period_start_counts_an_open_when_nothing_has_closed() {
    let classes = fy_classes();
    let transactions = vec![
        boundary(
            "2024-01-01",
            TransactionKind::Open,
            vec![entry("checking", "100"), entry("equity/net", "-100")],
            &classes,
        ),
        tx("", vec![entry("checking", "200"), entry("salary", "-200")]),
    ];
    assert!(closes(&transactions).is_empty());
    assert_eq!(period_start(&transactions), Some(ts("2024-01-01")));
}

#[test]
fn period_start_is_none_without_a_boundary() {
    let transactions = vec![tx(
        "",
        vec![entry("checking", "200"), entry("salary", "-200")],
    )];
    assert_eq!(period_start(&transactions), None);
    assert_eq!(period_start(&[]), None);
}

#[test]
fn with_kind_accepts_the_shapes_close_and_open_actually_produce() {
    let classes = fy_classes();
    dated(
        "2024-12-31",
        "",
        vec![
            entry("salary", "1000"),
            entry("expenses/food", "-400"),
            entry("equity/net", "-600"),
        ],
    )
    .with_kind(TransactionKind::Close, &classes)
    .expect("nominal + equity is a close");

    dated(
        "2024-01-01",
        "",
        vec![entry("checking", "100"), entry("equity/net", "-100")],
    )
    .with_kind(TransactionKind::Open, &classes)
    .expect("real + equity is an open");
}

/// A close settles nominal balances into equity; touching an asset
/// means it is a transfer, not a close.
#[test]
fn with_kind_rejects_a_close_that_touches_assets() {
    let classes = fy_classes();
    let err = dated(
        "2024-12-31",
        "",
        vec![entry("checking", "100"), entry("salary", "-100")],
    )
    .with_kind(TransactionKind::Close, &classes)
    .expect_err("assets are not allowed in a close");
    assert!(
        matches!(
            err,
            TransactionError::WrongShape {
                kind: TransactionKind::Close,
                class: AccountClass::Asset,
                ..
            }
        ),
        "{}",
err.message()
);
}

#[test]
fn with_kind_rejects_an_open_that_touches_nominals() {
    let classes = fy_classes();
    let err = dated(
        "2024-01-01",
        "",
        vec![entry("salary", "-100"), entry("checking", "100")],
    )
    .with_kind(TransactionKind::Open, &classes)
    .expect_err("income is not an opening balance");
    assert!(
        matches!(
            err,
            TransactionError::WrongShape {
                kind: TransactionKind::Open,
                class: AccountClass::Income,
                ..
            }
        ),
        "{}",
err.message()
);
}

#[test]
fn with_kind_rejects_an_unknown_account() {
    let err = dated(
        "2024-12-31",
        "",
        vec![entry("salary", "100"), entry("nowhere", "-100")],
    )
    .with_kind(TransactionKind::Close, &fy_classes())
    .expect_err("unregistered account");
    assert!(matches!(err, TransactionError::UnknownAccount(_)), "{}", err.message());
}

/// Normal is the default and imposes no shape at all.
#[test]
fn transactions_are_normal_unless_marked() {
    let plain = tx("", vec![entry("checking", "100"), entry("salary", "-100")]);
    assert_eq!(plain.kind, TransactionKind::Normal);
    assert_eq!(TransactionKind::default(), TransactionKind::Normal);
    assert!(!TransactionKind::Normal.is_boundary());
    assert!(TransactionKind::Close.is_boundary());
    assert!(TransactionKind::Open.is_boundary());
}

#[test]
fn kind_round_trips_through_its_string_form() {
    for kind in [
        TransactionKind::Normal,
        TransactionKind::Close,
        TransactionKind::Open,
    ] {
        assert_eq!(TransactionKind::parse(kind.as_str()), Ok(kind));
    }
    let err = TransactionKind::parse("banana").expect_err("not a kind");
    assert!(matches!(err, TransactionError::UnknownKind(_)), "{}", err.message());
}

#[test]
fn reconstruct_emits_the_kind_so_a_rebuild_keeps_it() {
    let classes = fy_classes();
    let closing = boundary(
        "2024-12-31",
        TransactionKind::Close,
        vec![entry("salary", "1000"), entry("equity/net", "-1000")],
        &classes,
    );
    let cmd = closing.render_add_command(&classes).expect("renders");
    assert!(cmd.contains("--kind close"), "{cmd}");

    let plain = tx("", vec![entry("checking", "100"), entry("salary", "-100")]);
    let cmd = plain.render_add_command(&classes).expect("renders");
    assert!(!cmd.contains("--kind"), "normal needs no flag: {cmd}");
}

#[test]
fn a_transaction_has_two_entries_or_more() {
    let err = Transaction::new(
        TransactionId::new(),
        ts("2024-01-15"),
        String::new(),
        vec![entry("checking", "0")],
    )
    .expect_err("one entry");
    assert_eq!(err, TransactionError::TooFewEntries { got: 1, min: 2 });
    assert_eq!(err.message(), "transaction has 1 entries, minimum is 2");
}

#[test]
fn a_transaction_sums_to_zero() {
    let err = Transaction::new(
        TransactionId::new(),
        ts("2024-01-15"),
        String::new(),
        vec![entry("checking", "100"), entry("income", "-99.75")],
    )
    .expect_err("unbalanced");
    assert_eq!(err, TransactionError::Unbalanced { sum: dec("0.25") });
    assert_eq!(err.message(), "entries do not sum to zero; sum is 0.25");
}

#[test]
fn an_accepted_transaction_keeps_what_it_was_given() {
    let id = TransactionId::new();
    let made = Transaction::new(
        id,
        ts("2024-01-15"),
        "Paycheck".to_string(),
        vec![entry("checking", "100.00"), entry("income", "-100")],
    )
    .expect("balances");
    assert_eq!(made.id, id);
    assert_eq!(made.posted_at, ts("2024-01-15"));
    assert_eq!(made.memo, "Paycheck");
    assert_eq!(made.entries[0].account.as_str(), "checking");
    assert_eq!(made.entries[0].amount.to_text(), "100.00");
    assert_eq!(checked_sum(&made.entries), Some(Amount::zero()));
}

#[test]
fn a_kind_keeps_the_entries() {
    let classes = fy_classes();
    let before = dated(
        "2024-12-31",
        "close",
        vec![entry("salary", "10"), entry("equity/net", "-10")],
    );
    let copy = before.clone();
    let after = before
        .with_kind(TransactionKind::Close, &classes)
        .expect("a close");
    assert_eq!(after.entries, copy.entries);
    assert_eq!(after.id, copy.id);
    assert_eq!(after.kind, TransactionKind::Close);
    assert_eq!(copy.kind, TransactionKind::Normal);
}

#[test]
fn the_words_of_a_wrong_shape_name_the_rule() {
    let err = TransactionError::WrongShape {
        kind: TransactionKind::Close,
        account: AccountId::parse("checking").unwrap(),
        class: AccountClass::Asset,
    };
    assert_eq!(
        err.message(),
        "a close cannot touch checking (asset); a close moves income and expense balances into equity"
    );
    let err = TransactionError::WrongShape {
        kind: TransactionKind::Open,
        account: AccountId::parse("salary").unwrap(),
        class: AccountClass::Income,
    };
    assert_eq!(
        err.message(),
        "an open cannot touch salary (income); an open records asset and liability balances against equity"
    );
    assert_eq!(
        TransactionError::UnknownAccount(AccountId::parse("ghost").unwrap()).message(),
        "unknown account: ghost"
    );
    assert_eq!(
        TransactionError::UnknownKind("ba\"nana".to_string()).message(),
        "unknown transaction kind \"ba\\\"nana\" (expected normal, close, or open)"
    );
}

#[test]
fn balances_of_a_transaction_add_up_by_account() {
    let transaction = tx(
        "",
        vec![
            entry("checking", "-50"),
            entry("rent", "30"),
            entry("checking", "-10.50"),
            entry("food", "30.50"),
        ],
    );
    let balances = transaction.balance_by_account();
    assert_eq!(balances.len(), 3);
    assert_eq!(
        balances.get(&AccountId::parse("checking").unwrap()),
        Some(dec("-60.50"))
    );
    assert_eq!(
        balances.get(&AccountId::parse("rent").unwrap()),
        Some(dec("30"))
    );
    assert_eq!(balances.get(&AccountId::parse("ghost").unwrap()), None);
    assert!(!balances.is_empty());
}

#[test]
fn sums_out_of_range_are_told() {
    let big = "79228162514264337593543950335";
    let entries = vec![entry("a", big), entry("a", "1")];
    assert_eq!(checked_sum(&entries), None);
    assert!(checked_balances(&entries).is_none());
    let apart = vec![entry("a", big), entry("b", big)];
    assert!(checked_balances(&apart).is_some());
}

#[test]
fn classes_round_trip_through_their_names() {
    for class in [
        AccountClass::Asset,
        AccountClass::Liability,
        AccountClass::Equity,
        AccountClass::Income,
        AccountClass::Expense,
    ] {
        assert_eq!(class_named(class_to_str(class)), Some(class));
    }
    assert_eq!(class_named("Asset"), None);
    assert_eq!(class_named(""), None);
}

#[test]
fn account_ids_are_lower_case_with_single_spaces() {
    let id = AccountId::parse("\t  Cash  ON \u{3000} hand\r\n").expect("id");
    assert_eq!(id.as_str(), "cash on hand");
    assert_eq!(
        AccountId::parse(id.as_str()).expect("same"),
        id,
        "an id is read as itself"
    );
    assert_eq!(AccountId::parse("CAF\u{c9}").expect("id").as_str(), "caf\u{e9}");
    assert_eq!(
        AccountId::parse("\u{130}").expect("id").as_str(),
        "i\u{307}"
    );
    assert_eq!(AccountId::parse("Expenses/Food").unwrap().as_str(), "expenses/food");
    assert_eq!(AccountId::parse("credit_card").unwrap().as_str(), "credit_card");
}

#[test]
fn account_ids_refuse_reserved_characters() {
    assert_eq!(AccountId::parse("a.b"), Err(AccountIdError::InvalidChar('.')));
    assert_eq!(AccountId::parse("a:b"), Err(AccountIdError::InvalidChar(':')));
    assert_eq!(AccountId::parse("a\\b"), Err(AccountIdError::InvalidChar('\\')));
    assert_eq!(
        AccountId::parse("a\u{0}b.c"),
        Err(AccountIdError::InvalidChar('\u{0}'))
    );
    for c in ['\t', '\n', '\u{85}', '\u{1f}', '\u{7f}'] {
        assert_eq!(
            AccountId::parse(&format!("a{c}b")),
            Err(AccountIdError::InvalidChar(c)),
            "control characters are refused"
        );
    }
    assert_eq!(AccountId::parse("\ta\n").unwrap().as_str(), "a");
    assert_eq!(AccountId::parse("\t\n"), Err(AccountIdError::Empty));
    assert_eq!(
        AccountIdError::InvalidChar('\u{0}').message(),
        "account id contains invalid character: '\\0'"
    );
}

#[test]
fn account_ids_are_neither_empty_nor_too_long() {
    assert_eq!(AccountId::parse(" \u{3000} "), Err(AccountIdError::Empty));
    assert_eq!(AccountIdError::Empty.message(), "account id is empty");
    let longest = "a".repeat(100);
    assert_eq!(AccountId::parse(&longest).unwrap().as_str(), longest);
    let err = AccountId::parse(&"a".repeat(101)).expect_err("too long");
    assert_eq!(err, AccountIdError::TooLong { max: 100 });
    assert_eq!(err.message(), "account id exceeds 100 characters");
    assert_eq!(
        AccountId::parse(&"\u{e9}".repeat(51)),
        Err(AccountIdError::TooLong { max: 100 }),
        "bytes count"
    );
}

#[test]
fn a_map_keeps_one_value_for_an_account() {
    let mut map = AccountMap::new();
    assert!(map.is_empty());
    let id = AccountId::parse("checking").unwrap();
    map.insert(&id, AccountClass::Asset);
    map.insert(&AccountId::parse("rent").unwrap(), AccountClass::Expense);
    map.insert(&AccountId::parse("Checking").unwrap(), AccountClass::Equity);
    assert_eq!(map.len(), 2);
    assert_eq!(map.get(&id), Some(AccountClass::Equity));
    assert!(map.contains(&id));
    assert_eq!(map.id_at(1).as_str(), "rent");
    assert_eq!(map.value_at(1), AccountClass::Expense);
}

#[test]
fn the_words_of_a_reconstruction_name_the_account() {
    assert_eq!(
        ReconstructError::UnknownAccount(AccountId::parse("ghost").unwrap()).message(),
        "unknown account: ghost"
    );
}

#[test]
fn accounts_are_copied_whole() {
    let account = Account {
        id: AccountId::parse("savings").unwrap(),
        class: AccountClass::Asset,
    };
    assert_eq!(account.clone(), account);
}

#[test]
fn closes_are_the_same_in_any_order() {
    let (mut transactions, _) = fy_book();
    let forth: Vec<TransactionId> = closes(&transactions).iter().map(|c| c.id).collect();
    assert!(!forth.is_empty());
    transactions.reverse();
    let mut back: Vec<TransactionId> = closes(&transactions).iter().map(|c| c.id).collect();
    back.reverse();
    assert_eq!(forth, back);
    for tx in &mut transactions {
        tx.memo.push('!');
        tx.entries.clear();
    }
    let mut bare: Vec<TransactionId> = closes(&transactions).iter().map(|c| c.id).collect();
    bare.reverse();
    assert_eq!(forth, bare);
}

#[test]
fn a_summary_is_the_same_in_any_order_and_in_parts() {
    let rows = open_book();
    let whole = Summary::from_balances(rows.clone());
    let mut back = rows.clone();
    back.reverse();
    assert_eq!(Summary::from_balances(back), whole);
    let (class, balance) = rows[0];
    let part = dec("0.25");
    let mut parts = vec![(class, balance.minus(&part)), (class, part)];
    parts.extend_from_slice(&rows[1..]);
    assert_eq!(Summary::from_balances(parts), whole);
}

#[test]
fn the_whole_history_is_that_of_its_normal_transactions() {
    let (mut transactions, classes) = fy_book();
    let all = lifetime_activity(&transactions, &classes);
    transactions.reverse();
    assert_eq!(lifetime_activity(&transactions, &classes), all);
    transactions.retain(|tx| tx.kind == TransactionKind::Normal);
    assert_eq!(lifetime_activity(&transactions, &classes), all);
    let entries: Vec<Entry> = transactions.iter().flat_map(|tx| tx.entries.clone()).collect();
    let balances = checked_balances(&entries).expect("in range");
    let rows: Vec<(AccountClass, Amount)> = (0..balances.len())
        .map(|i| (classes.get(balances.id_at(i)).expect("class"), balances.value_at(i)))
        .collect();
    assert_eq!(Summary::from_balances(rows).activity, all);
}
