use ledger::audit::checked_audit_report;
use ledger::cli::{
    added_line, asset_accounts, audit_json, audit_period, audit_text, build_audit_report,
    database_file_name, date_or, income_entries, new_transaction, parse_date, parse_entry, plan_entries,
    resolve_date, validate_book_name, AccountClassArg, AddArgs, AuditArgs, Cli, CliError, Command,
    Database, IncomeArgs, TuiArgs,
};
use ledger::decimal::Amount;
use ledger::model::{
    render_all_add_commands, Account, AccountClass, AccountId, AccountIdError, AccountMap, Entry,
    Transaction, TransactionError, TransactionId, TransactionKind,
};
use ledger::storage::StorageError;
use ledger::sums::total_of;
use ledger::time::Timestamp;

fn date(s: &str) -> Timestamp {
    Timestamp::parse_date(s).expect("date parses")
}

fn entry(account: &str, amount: i64) -> Entry {
    Entry {
        account: AccountId::parse(account).expect("account parses"),
        amount: Amount::from_integer(amount),
    }
}

fn tx(day: &str, entries: Vec<Entry>) -> Transaction {
    Transaction::new(TransactionId::new(), date(day), String::new(), entries)
        .expect("transaction balances")
}

fn assets(names: &[&str]) -> Vec<AccountId> {
    names
        .iter()
        .map(|n| AccountId::parse(n).expect("account parses"))
        .collect()
}

fn total(balances: &[(AccountId, Amount)]) -> Amount {
    let amounts: Vec<Amount> = balances.iter().map(|(_, a)| *a).collect();
    total_of(&amounts)
}

fn acct(id: &str) -> AccountId {
    AccountId::parse(id).unwrap()
}

#[test]
fn audit_report_reconciles() {
    let our = assets(&["checking"]);
    let transactions = vec![
        tx(
            "2024-01-15",
            vec![entry("checking", 500), entry("income", -500)],
        ),
        tx(
            "2024-02-10",
            vec![entry("checking", 1000), entry("income", -1000)],
        ),
        tx(
            "2024-02-20",
            vec![entry("checking", -300), entry("rent", 300)],
        ),
        tx(
            "2024-03-05",
            vec![entry("checking", -200), entry("rent", 200)],
        ),
    ];
    let report =
        build_audit_report(&transactions, date("2024-02-01"), date("2024-03-01"), &our);

    assert_eq!(total(&report.beginning_balances), Amount::from_integer(500));
    assert_eq!(report.total_receipts, Amount::from_integer(1000));
    assert_eq!(report.total_disbursements, Amount::from_integer(300));
    assert_eq!(report.receipts, vec![(acct("income"), Amount::from_integer(1000))]);
    assert_eq!(
        report.disbursements,
        vec![(acct("rent"), Amount::from_integer(300))]
    );
    let ending =
        total(&report.beginning_balances).plus(&report.total_receipts).minus(&report.total_disbursements);
    assert_eq!(ending, Amount::from_integer(1200));
    assert_eq!(total(&report.ending_balances), ending);
}

#[test]
fn audit_report_empty_period() {
    let our = assets(&["checking"]);
    let transactions = vec![tx(
        "2024-01-15",
        vec![entry("checking", 500), entry("income", -500)],
    )];
    let report =
        build_audit_report(&transactions, date("2024-02-01"), date("2024-03-01"), &our);

    assert_eq!(total(&report.beginning_balances), Amount::from_integer(500));
    assert_eq!(report.total_receipts, Amount::zero());
    assert_eq!(report.total_disbursements, Amount::zero());
    assert!(report.receipts.is_empty());
    assert!(report.disbursements.is_empty());
}

#[test]
fn audit_report_ignores_pure_non_asset_transactions() {
    let our = assets(&["checking", "savings"]);
    let transactions = vec![tx(
        "2024-02-10",
        vec![entry("expense", 100), entry("income", -100)],
    )];
    let report =
        build_audit_report(&transactions, date("2024-02-01"), date("2024-03-01"), &our);

    assert_eq!(total(&report.beginning_balances), Amount::zero());
    assert_eq!(report.total_receipts, Amount::zero());
    assert_eq!(report.total_disbursements, Amount::zero());
}

#[test]
fn audit_report_from_is_inclusive_to_is_exclusive() {
    let our = assets(&["checking"]);
    let transactions = vec![
        tx(
            "2024-02-01",
            vec![entry("checking", 100), entry("income", -100)],
        ),
        tx(
            "2024-02-28",
            vec![entry("checking", 200), entry("income", -200)],
        ),
        tx(
            "2024-03-01",
            vec![entry("checking", 400), entry("income", -400)],
        ),
    ];
    let report =
        build_audit_report(&transactions, date("2024-02-01"), date("2024-03-01"), &our);

    assert_eq!(total(&report.beginning_balances), Amount::zero());
    assert_eq!(report.total_receipts, Amount::from_integer(300));
    assert_eq!(report.total_disbursements, Amount::zero());
}

#[test]
fn audit_report_sums_all_asset_accounts() {
    let our = assets(&["checking", "savings"]);
    let transactions = vec![
        tx(
            "2024-01-15",
            vec![entry("checking", 500), entry("income", -500)],
        ),
        tx(
            "2024-01-20",
            vec![entry("savings", 300), entry("income", -300)],
        ),
        tx(
            "2024-02-10",
            vec![entry("savings", 1000), entry("income", -1000)],
        ),
        tx(
            "2024-02-20",
            vec![entry("checking", -250), entry("rent", 250)],
        ),
    ];
    let report =
        build_audit_report(&transactions, date("2024-02-01"), date("2024-03-01"), &our);

    assert_eq!(total(&report.beginning_balances), Amount::from_integer(800));
    assert_eq!(report.total_receipts, Amount::from_integer(1000));
    assert_eq!(report.total_disbursements, Amount::from_integer(250));
    let ending =
        total(&report.beginning_balances).plus(&report.total_receipts).minus(&report.total_disbursements);
    assert_eq!(ending, Amount::from_integer(1550));
    assert_eq!(total(&report.ending_balances), ending);
}

#[test]
fn audit_report_breaks_down_beginning_and_ending_by_account() {
    let our = assets(&["checking", "savings"]);
    let transactions = vec![
        tx(
            "2024-01-15",
            vec![entry("checking", 500), entry("income", -500)],
        ),
        tx(
            "2024-01-20",
            vec![entry("savings", 300), entry("income", -300)],
        ),
        tx(
            "2024-02-10",
            vec![entry("savings", 1000), entry("income", -1000)],
        ),
        tx(
            "2024-02-20",
            vec![entry("checking", -250), entry("rent", 250)],
        ),
    ];
    let report =
        build_audit_report(&transactions, date("2024-02-01"), date("2024-03-01"), &our);

    assert_eq!(
        report.beginning_balances,
        vec![
            (acct("checking"), Amount::from_integer(500)),
            (acct("savings"), Amount::from_integer(300))
        ]
    );
    assert_eq!(
        report.ending_balances,
        vec![
            (acct("checking"), Amount::from_integer(250)),
            (acct("savings"), Amount::from_integer(1300))
        ]
    );
}

#[test]
fn audit_report_transfers_between_asset_accounts_are_neutral() {
    let our = assets(&["checking", "savings"]);
    let transactions = vec![tx(
        "2024-02-10",
        vec![entry("savings", 1000), entry("checking", -1000)],
    )];
    let report =
        build_audit_report(&transactions, date("2024-02-01"), date("2024-03-01"), &our);

    assert_eq!(total(&report.beginning_balances), Amount::zero());
    assert_eq!(report.total_receipts, Amount::zero());
    assert_eq!(report.total_disbursements, Amount::zero());
    assert!(report.receipts.is_empty());
    assert!(report.disbursements.is_empty());
}

fn february() -> Vec<Transaction> {
    vec![
        tx(
            "2024-01-15",
            vec![entry("checking", 1500), entry("salary", -1500)],
        ),
        tx(
            "2024-02-20",
            vec![entry("checking", -300), entry("rent", 300)],
        ),
        tx(
            "2024-02-21",
            vec![
                entry("savings", 90),
                entry("interest", -100),
                entry("fees", 10),
            ],
        ),
    ]
}

#[test]
fn the_report_in_lines() {
    let report = build_audit_report(
        &february(),
        date("2024-02-01"),
        date("2024-03-01"),
        &assets(&["savings", "checking", "savings"]),
    );
    let lines = audit_text(&report).expect("sums fit");
    assert_eq!(
        lines,
        vec![
            "Audit Report (2024-02-01 to 2024-03-01)",
            "==================================================",
            "Beginning balances by account:",
            "  checking                           1500.00",
            "  savings                               0.00",
            "  Total                              1500.00",
            "",
            "Ending balances by account:",
            "  checking                           1200.00",
            "  savings                              90.00",
            "  Total                              1290.00",
            "",
            "Receipts by account:",
            "  interest                            100.00",
            "  Total receipts                       90.00",
            "",
            "Disbursements by account:",
            "  rent                                300.00",
            "  Total disbursements                 300.00",
        ]
    );
}

#[test]
fn the_report_of_nothing_in_lines() {
    let report = build_audit_report(&[], date("2024-02-01"), date("2024-02-01"), &vec![]);
    let lines = audit_text(&report).expect("sums fit");
    assert_eq!(lines[3], "  (none)");
    assert_eq!(lines[4], "  Total                                 0.00");
    assert_eq!(lines.len(), 17);
}

#[test]
fn the_report_for_json() {
    let report = build_audit_report(
        &february(),
        date("2024-02-01"),
        date("2024-03-01"),
        &assets(&["checking", "savings"]),
    );
    let json = audit_json(&report);
    assert_eq!(json.from, "2024-02-01");
    assert_eq!(json.to, "2024-03-01");
    assert_eq!(
        json.ending_balances,
        vec![
            ("checking".to_string(), "1200.00".to_string()),
            ("savings".to_string(), "90.00".to_string())
        ]
    );
    assert_eq!(json.receipts, vec![("interest".to_string(), "100.00".to_string())]);
    assert_eq!(json.total_receipts, "90.00");
    assert_eq!(json.total_disbursements, "300.00");
}

#[test]
fn a_report_out_of_range_is_told() {
    let big = Amount::parse("79228162514264337593543950335").unwrap();
    let huge = Transaction::new(
        TransactionId::new(),
        date("2024-01-01"),
        String::new(),
        vec![
            Entry {
                account: acct("checking"),
                amount: big,
            },
            Entry {
                account: acct("income"),
                amount: big.negate(),
            },
        ],
    )
    .expect("balances");
    let twice = vec![huge.clone(), huge];
    let our = assets(&["checking"]);
    assert!(checked_audit_report(&twice, date("2024-02-01"), date("2024-03-01"), &our).is_none());
    assert!(checked_audit_report(&twice, date("2023-02-01"), date("2023-03-01"), &our).is_some());
}

#[test]
fn entries_are_read_with_and_without_a_class() {
    let parsed = parse_entry("checking:asset:1000").expect("entry");
    assert_eq!(parsed.id, acct("checking"));
    assert_eq!(parsed.class, Some(AccountClassArg::Asset));
    assert_eq!(parsed.amount, Amount::from_integer(1000));
    let parsed = parse_entry("Checking:-12.50").expect("entry");
    assert_eq!(parsed.id, acct("checking"));
    assert_eq!(parsed.class, None);
    assert_eq!(parsed.amount.to_text(), "-12.50");
    let parsed = parse_entry("income:income:-1000").expect("an income account");
    assert_eq!(parsed.class, Some(AccountClassArg::Income));
    for (name, class) in [
        ("asset", AccountClass::Asset),
        ("liability", AccountClass::Liability),
        ("equity", AccountClass::Equity),
        ("income", AccountClass::Income),
        ("expense", AccountClass::Expense),
    ] {
        let parsed = parse_entry(&format!("a:{name}:1")).expect("entry");
        assert_eq!(AccountClass::from(parsed.class.expect("class")), class);
    }
}

#[test]
fn entries_that_cannot_be_read() {
    let err = parse_entry("checking").expect_err("no amount");
    assert_eq!(
        err.message(),
        "invalid entry: checking (expected ID[:CLASS]:AMOUNT)"
    );
    let err = parse_entry("a:b:c:d").expect_err("too many");
    assert!(matches!(err, CliError::Entry(_)));
    let err = parse_entry("checking:money:5").expect_err("class");
    assert_eq!(
        err.message(),
        "invalid entry: checking:money:5: unknown class 'money' (expected ID[:CLASS]:AMOUNT)"
    );
    let err = parse_entry("checking:asset:five").expect_err("amount");
    assert!(
        err.message().starts_with("invalid entry: checking:asset:five: invalid amount ("),
        "{}",
        err.message()
    );
    let err = parse_entry("a.b:5").expect_err("id");
    assert!(matches!(
        err,
        CliError::AccountId(AccountIdError::InvalidChar('.'))
    ));
    assert!(parse_entry(":5").is_err());
}

#[test]
fn a_plan_registers_new_accounts_alone() {
    let texts: Vec<String> = ["a:asset:5", "b:-5", "a:equity:1", "c:income:-1", "d:asset:0"]
        .iter()
        .map(|s| s.to_string())
        .collect();
    let mut registered = AccountMap::new();
    registered.insert(&acct("d"), AccountClass::Liability);
    let plan = plan_entries(&texts, &registered);
    let new: Vec<(&str, AccountClass)> = plan
        .accounts
        .iter()
        .map(|a| (a.id.as_str(), a.class))
        .collect();
    assert_eq!(new, vec![("a", AccountClass::Asset), ("c", AccountClass::Income)]);
    let entries = plan.entries.expect("entries");
    assert_eq!(entries.len(), 5);
    assert_eq!(entries[1].account.as_str(), "b");
    assert_eq!(entries[1].amount, Amount::from_integer(-5));
}

#[test]
fn a_plan_that_cannot_be_read_registers_nothing() {
    let texts: Vec<String> = ["a:asset:5", "b:-5", "d:what:1", "e:asset:1"]
        .iter()
        .map(|s| s.to_string())
        .collect();
    let plan = plan_entries(&texts, &AccountMap::new());
    assert_eq!(plan.accounts, vec![]);
    assert!(matches!(plan.entries, Err(CliError::Entry(s)) if s == "d:what:1: unknown class 'what'"));
}

#[test]
fn a_rendered_command_is_read_back() {
    let transaction = Transaction::new(
        TransactionId::new(),
        date("2024-02-20"),
        "Bob's $5 \"deal\"\nnext".to_string(),
        vec![
            Entry {
                account: acct("cash on hand"),
                amount: Amount::parse("12.50").unwrap(),
            },
            Entry {
                account: acct("income"),
                amount: Amount::parse("-12.5").unwrap(),
            },
        ],
    )
    .expect("balances");
    let mut classes = AccountMap::new();
    classes.insert(&acct("cash on hand"), AccountClass::Asset);
    classes.insert(&acct("income"), AccountClass::Income);
    let script = render_all_add_commands(&[transaction.clone()], &classes).expect("renders");
    let words = shell_words(&script);
    assert_eq!(words.len(), 1);
    let words = &words[0];
    assert_eq!(words[..3], ["ledger", "add", "--date"]);
    assert_eq!(parse_date(&words[3]).expect("date"), date("2024-02-20"));
    assert_eq!(words[4], "--memo");
    assert_eq!(words[5], transaction.memo);
    let texts: Vec<String> = words[6..]
        .chunks(2)
        .map(|pair| {
            assert_eq!(pair[0], "--entry");
            pair[1].clone()
        })
        .collect();
    let plan = plan_entries(&texts, &AccountMap::new());
    assert_eq!(plan.entries.expect("entries"), transaction.entries);
    assert_eq!(
        plan.accounts,
        vec![
            Account {
                id: acct("cash on hand"),
                class: AccountClass::Asset
            },
            Account {
                id: acct("income"),
                class: AccountClass::Income
            },
        ]
    );
}

/// The words of a script as a shell takes them.
fn shell_words(script: &str) -> Vec<Vec<String>> {
    let mut commands = Vec::new();
    let mut words: Vec<String> = Vec::new();
    let mut word: Option<String> = None;
    let mut chars = script.chars();
    while let Some(c) = chars.next() {
        match c {
            '\'' => {
                let w = word.get_or_insert_with(String::new);
                for q in chars.by_ref() {
                    if q == '\'' {
                        break;
                    }
                    w.push(q);
                }
            }
            '\\' => match chars.next() {
                Some('\n') | None => {}
                Some(q) => word.get_or_insert_with(String::new).push(q),
            },
            ' ' => words.extend(word.take()),
            '\n' => {
                words.extend(word.take());
                if !words.is_empty() {
                    commands.push(std::mem::take(&mut words));
                }
            }
            _ => word.get_or_insert_with(String::new).push(c),
        }
    }
    commands
}

#[test]
fn a_new_transaction_says_what_is_wrong() {
    let err = new_transaction(TransactionId::new(), date("2024-01-01"), None, vec![])
        .expect_err("no entries");
    assert!(matches!(
        err,
        CliError::Transaction(TransactionError::TooFewEntries { got: 0, min: 2 })
    ));
    assert_eq!(err.message(), "transaction has 0 entries, minimum is 2");
    let made = new_transaction(
        TransactionId::new(),
        date("2024-01-01"),
        Some("memo"),
        vec![entry("a", 1), entry("b", -1)],
    )
    .expect("balances");
    assert_eq!(made.memo, "memo");
    assert_eq!(made.kind, TransactionKind::Normal);
    let line = added_line(TransactionId(0));
    assert_eq!(line, "added transaction 00000000000000000000000000");
}

#[test]
fn income_goes_from_income_to_checking() {
    assert_eq!(
        income_entries("500.0").expect("amount"),
        vec!["checking:asset:500.0", "income:income:-500.0"]
    );
    let err = income_entries("lots").expect_err("not an amount");
    assert!(matches!(err, CliError::Amount(_)));
    assert!(err.message().starts_with("invalid amount: "));
}

#[test]
fn dates_are_midnights_in_utc() {
    assert_eq!(
        parse_date("1970-01-02").expect("date").as_nanosecond(),
        86_400_000_000_000
    );
    assert_eq!(resolve_date(Some("1970-01-01")).expect("date").as_nanosecond(), 0);
    let err = parse_date("tomorrow").expect_err("not a date");
    assert!(
        err.message().starts_with("invalid date: tomorrow: "),
        "{}",
        err.message()
    );
    assert!(parse_date("2024-02-30").is_err());
    let day = date("2024-02-29");
    assert_eq!(date_or(None, day).expect("day"), day);
    assert_eq!(date_or(Some(""), day).expect("day"), day);
    assert_eq!(date_or(Some("1970-01-02"), day).expect("date").as_nanosecond(), 86_400_000_000_000);
    assert!(matches!(date_or(Some("soon"), day), Err(CliError::Date(_))));
    let today = resolve_date(None).expect("today");
    assert_eq!(today.as_nanosecond() % 86_400_000_000_000, 0);
    assert_eq!(resolve_date(Some("")).expect("today").date(), today.date());
}

#[test]
fn a_period_does_not_end_before_it_begins() {
    let (from, to) = audit_period("2024-02-01", "2024-02-01").expect("an empty period");
    assert_eq!(from, to);
    let err = audit_period("2024-02-02", "2024-02-01").expect_err("backwards");
    assert_eq!(
        err.message(),
        "invalid date: --to (2024-02-01) is before --from (2024-02-02)"
    );
    assert!(audit_period("x", "2024-02-01").is_err());
    assert!(audit_period("2024-02-01", "x").is_err());
}

#[test]
fn our_accounts_are_the_assets() {
    let accounts = vec![
        Account {
            id: acct("rent"),
            class: AccountClass::Expense,
        },
        Account {
            id: acct("savings"),
            class: AccountClass::Asset,
        },
        Account {
            id: acct("checking"),
            class: AccountClass::Asset,
        },
    ];
    assert_eq!(asset_accounts(&accounts), vec![acct("savings"), acct("checking")]);
}

#[test]
fn books_have_files() {
    assert_eq!(database_file_name(None).expect("file"), "ledger.db");
    assert_eq!(
        database_file_name(Some("personal")).expect("file"),
        "ledger.personal.db"
    );
    assert!(validate_book_name("Home2").is_ok());
    let err = database_file_name(Some("")).expect_err("empty");
    assert_eq!(
        err.message(),
        "invalid book name: \"(empty)\" (must contain only letters and numbers)"
    );
    let err = database_file_name(Some("../x")).expect_err("path");
    assert_eq!(
        err.message(),
        "invalid book name: \"../x\" (must contain only letters and numbers)"
    );
    assert!(validate_book_name("caf\u{e9}").is_err());
}

#[test]
fn without_a_command_the_interface_is_launched() {
    let cli: Cli<String> = Cli {
        db: None,
        book: None,
        command: None,
    };
    assert!(matches!(cli.chosen_command(), Command::Tui(TuiArgs {})));
    let cli: Cli<String> = Cli {
        db: None,
        book: None,
        command: Some(Command::Income(IncomeArgs {
            amount: "5".to_string(),
            date: None,
            memo: None,
        })),
    };
    assert!(matches!(cli.chosen_command(), Command::Income(args) if args.amount == "5"));
    let add = Command::Add(AddArgs {
        date: None,
        kind: None,
        memo: None,
        entries: vec![],
    });
    assert!(matches!(add, Command::Add(_)));
    let audit = Command::Audit(AuditArgs {
        from: Some("2024-01-01".to_string()),
        to: Some("2024-02-01".to_string()),
        fy: None,
        json: false,
    });
    assert!(matches!(audit, Command::Audit(_)));
}

#[test]
fn the_words_of_an_error_are_those_of_its_cause() {
    let err = CliError::Storage(StorageError::UnknownAccount("ghost".to_string()));
    assert_eq!(err.message(), "unknown account: ghost");
    assert_eq!(
        CliError::AccountId(AccountIdError::Empty).message(),
        "account id is empty"
    );
}

#[test]
fn a_file_goes_before_a_book() {
    let cli = |db: Option<u8>, book: Option<&str>| Cli {
        db,
        book: book.map(str::to_string),
        command: None,
    };
    assert!(matches!(cli(Some(7), Some("home")).database(), Database::File(7)));
    assert!(matches!(cli(Some(7), None).database(), Database::File(7)));
    assert!(matches!(cli(None, Some("home")).database(), Database::Book(Some("home"))));
    assert!(matches!(cli(None, None).database(), Database::Book(None)));
}
