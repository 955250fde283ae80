//! The command line: its arguments, dates, entries and reports.

use vstd::prelude::*;
use vstd::string::*;

pub use crate::audit::{build_audit_report, AuditReport};

use crate::account_id::{id_read, is_plain_id, law_plain_ids_read_back, AccountId, AccountIdError};
use crate::account_map::AccountMap;
use crate::audit::{id_views, row_views, AuditReportView};
use crate::book::{amounts, EntryView, TransactionView};
use crate::chars::{alphanumeric, is_alphanumeric};
use crate::decimal::{amount_read, Amount, Dec};
use crate::model::{
    class_named, class_read, debug_text, entry_views, imbalance, kind_read,
    law_class_names_read_back, law_kind_names_read_back, std_debug_text, Account, AccountClass, Entry, Transaction, TransactionError,
    TransactionErrorView, TransactionId, TransactionKind,
};
use crate::reconstruct::{
    add_words, entry_word, entry_words, kind_words, memo_words, ReconstructError,
};
use crate::storage::{account_views, StorageError, StorageErrorView};
use crate::sums::{checked_total_of, decs, total};
use crate::text::{
    chars_of, digit_char, digits, numeral, pad_left, pad_right, padded_left, padded_right,
    repeat_char, repeated, string_views,
};
use crate::time::{date_read, date_text, day_read, midnight, moment_of, Timestamp};
use crate::tui::text_view;

verus! {

/// The arguments of a run. `P` is what names a file.
pub struct Cli<P> {
    /// The database file, which goes before the book.
    pub db: Option<P>,
    /// The name of the set of books.
    pub book: Option<String>,
    /// What to do.
    pub command: Option<Command>,
}

/// What to do.
pub enum Command {
    /// Add a transaction to the ledger.
    Add(AddArgs),
    /// Record income (debit checking, credit income).
    Income(IncomeArgs),
    /// Record opening balances on an empty database.
    Open(OpenArgs),
    /// Close the fiscal year.
    Close(CloseArgs),
    /// Generate an audit report for a date range or a fiscal year.
    Audit(AuditArgs),
    /// Print the commands that would add transactions again.
    Reconstruct(ReconstructArgs),
    /// Launch the TUI.
    Tui(TuiArgs),
}

/// The arguments of `tui`.
pub struct TuiArgs {}

/// The arguments of `add`.
pub struct AddArgs {
    /// Date of the transaction (YYYY-MM-DD), today if there is none.
    pub date: Option<String>,
    /// Kind of the transaction, normal if there is none.
    pub kind: Option<String>,
    /// Memo describing the transaction.
    pub memo: Option<String>,
    /// Entries in the form ID[:CLASS]:AMOUNT.
    pub entries: Vec<String>,
}

/// The arguments of `income`.
pub struct IncomeArgs {
    /// Amount of income.
    pub amount: String,
    /// Date of the transaction (YYYY-MM-DD), today if there is none.
    pub date: Option<String>,
    /// Memo describing the transaction.
    pub memo: Option<String>,
}

/// The arguments of `open`.
pub struct OpenArgs {
    /// Date of the transaction (YYYY-MM-DD), today if there is none.
    pub date: Option<String>,
    /// Memo describing the transaction.
    pub memo: Option<String>,
    /// Entries in the form ID[:CLASS]:AMOUNT.
    pub entries: Vec<String>,
}

/// The arguments of `close`.
pub struct CloseArgs {
    /// Date of the transaction (YYYY-MM-DD), today if there is none.
    pub date: Option<String>,
    /// Memo describing the transaction.
    pub memo: Option<String>,
}

/// The arguments of `audit`: a date range, or a fiscal year.
pub struct AuditArgs {
    /// Start date of the report (inclusive, YYYY-MM-DD).
    pub from: Option<String>,
    /// End date of the report (exclusive, YYYY-MM-DD).
    pub to: Option<String>,
    /// The year in which the fiscal year was closed, or `latest`.
    pub fy: Option<String>,
    /// Whether the report is wanted as JSON.
    pub json: bool,
}

/// The arguments of `reconstruct`: a transaction, or all of them.
pub struct ReconstructArgs {
    /// The id of the transaction.
    pub id: Option<String>,
    /// Whether all transactions are wanted.
    pub all: bool,
}

/// Where the books are: in a file that was given, or in that of a set of
/// books, which may have a name.
pub enum Database<'a, P> {
    File(&'a P),
    Book(Option<&'a str>),
}

impl<P> Cli<P> {
    /// Where the books are: a file that was given goes before the name of a
    /// set of books.
    pub fn database(&self) -> (place: Database<'_, P>)
        ensures
            match self.db {
                Some(file) => place matches Database::File(f) && *f == file,
                None => place matches Database::Book(name) && text_given(name) == text_view(
                    self.book,
                ),
            },
    {
        match &self.db {
            Some(file) => Database::File(file),
            None => Database::Book(given(&self.book)),
        }
    }

    /// What to do: what was asked for, or else the TUI.
    pub fn chosen_command(self) -> (command: Command)
        ensures
            command == (match self.command {
                Some(c) => c,
                None => Command::Tui(TuiArgs {  }),
            }),
    {
        match self.command {
            Some(command) => command,
            None => Command::Tui(TuiArgs {  }),
        }
    }
}

/// The class of an account as an entry names it.
#[derive(Clone, Copy, Debug, PartialEq, Eq, Structural)]
pub enum AccountClassArg {
    Asset,
    Liability,
    Equity,
    Income,
    Expense,
}

impl AccountClassArg {
    /// The class that is named.
    pub open spec fn class(self) -> AccountClass {
        match self {
            AccountClassArg::Asset => AccountClass::Asset,
            AccountClassArg::Liability => AccountClass::Liability,
            AccountClassArg::Equity => AccountClass::Equity,
            AccountClassArg::Income => AccountClass::Income,
            AccountClassArg::Expense => AccountClass::Expense,
        }
    }

    fn of(class: AccountClass) -> (arg: AccountClassArg)
        ensures
            arg.class() == class,
    {
        match class {
            AccountClass::Asset => AccountClassArg::Asset,
            AccountClass::Liability => AccountClassArg::Liability,
            AccountClass::Equity => AccountClassArg::Equity,
            AccountClass::Income => AccountClassArg::Income,
            AccountClass::Expense => AccountClassArg::Expense,
        }
    }
}

impl From<AccountClassArg> for AccountClass {
    fn from(arg: AccountClassArg) -> (class: AccountClass) {
        match arg {
            AccountClassArg::Asset => AccountClass::Asset,
            AccountClassArg::Liability => AccountClass::Liability,
            AccountClassArg::Equity => AccountClass::Equity,
            AccountClassArg::Income => AccountClass::Income,
            AccountClassArg::Expense => AccountClass::Expense,
        }
    }
}

impl vstd::std_specs::convert::FromSpecImpl<AccountClassArg> for AccountClass {
    open spec fn obeys_from_spec() -> bool {
        true
    }

    open spec fn from_spec(arg: AccountClassArg) -> AccountClass {
        arg.class()
    }
}

/// Why a command fails.
#[derive(Debug)]
pub enum CliError {
    Storage(StorageError),
    Transaction(TransactionError),
    AccountId(AccountIdError),
    Entry(String),
    Amount(String),
    Date(String),
    BookName(String),
    FiscalYear(String),
    TransactionId(String),
    Reconstruct(ReconstructError),
    NotEmpty,
    NothingToClose,
    OutOfRange,
}

/// Why a command fails, as a value.
#[verifier::ext_equal]
pub enum CliErrorView {
    Storage(StorageErrorView),
    Transaction(TransactionErrorView),
    AccountId(AccountIdError),
    Entry(Seq<char>),
    Amount(Seq<char>),
    Date(Seq<char>),
    BookName(Seq<char>),
    FiscalYear(Seq<char>),
    TransactionId(Seq<char>),
    Reconstruct(Seq<char>),
    NotEmpty,
    NothingToClose,
    OutOfRange,
}

impl View for CliError {
    type V = CliErrorView;

    open spec fn view(&self) -> CliErrorView {
        match *self {
            CliError::Storage(e) => CliErrorView::Storage(e@),
            CliError::Transaction(e) => CliErrorView::Transaction(e@),
            CliError::AccountId(e) => CliErrorView::AccountId(e),
            CliError::Entry(s) => CliErrorView::Entry(s@),
            CliError::Amount(s) => CliErrorView::Amount(s@),
            CliError::Date(s) => CliErrorView::Date(s@),
            CliError::BookName(s) => CliErrorView::BookName(s@),
            CliError::FiscalYear(s) => CliErrorView::FiscalYear(s@),
            CliError::TransactionId(s) => CliErrorView::TransactionId(s@),
            CliError::Reconstruct(e) => CliErrorView::Reconstruct(e@),
            CliError::NotEmpty => CliErrorView::NotEmpty,
            CliError::NothingToClose => CliErrorView::NothingToClose,
            CliError::OutOfRange => CliErrorView::OutOfRange,
        }
    }
}

impl CliErrorView {
    /// The error in words.
    pub open spec fn words(self) -> Seq<char> {
        match self {
            CliErrorView::Storage(e) => e.words(),
            CliErrorView::Transaction(e) => e.words(),
            CliErrorView::AccountId(e) => e.words(),
            CliErrorView::Entry(s) => "invalid entry: "@ + s + " (expected ID[:CLASS]:AMOUNT)"@,
            CliErrorView::Amount(s) => "invalid amount: "@ + s,
            CliErrorView::Date(s) => "invalid date: "@ + s,
            CliErrorView::BookName(s) => "invalid book name: "@ + debug_text(s)
                + " (must contain only letters and numbers)"@,
            CliErrorView::FiscalYear(s) => "invalid fiscal year: "@ + s,
            CliErrorView::TransactionId(s) => "invalid transaction id: "@ + s,
            CliErrorView::Reconstruct(id) => "unknown account: "@ + id,
            CliErrorView::NotEmpty => "opening balances need an empty database"@,
            CliErrorView::NothingToClose => "no income or expense account has a balance to close"@,
            CliErrorView::OutOfRange => "amounts do not add up: out of range"@,
        }
    }
}

impl CliError {
    /// The error in words.
    pub fn message(&self) -> (s: String)
        ensures
            s@ == self@.words(),
    {
        match self {
            CliError::Storage(e) => e.message(),
            CliError::Transaction(e) => e.message(),
            CliError::AccountId(e) => e.message(),
            CliError::Entry(text) => {
                let mut s = "invalid entry: ".to_owned();
                s.append(text.as_str());
                s.append(" (expected ID[:CLASS]:AMOUNT)");
                s
            },
            CliError::Amount(text) => {
                let mut s = "invalid amount: ".to_owned();
                s.append(text.as_str());
                s
            },
            CliError::Date(text) => {
                let mut s = "invalid date: ".to_owned();
                s.append(text.as_str());
                s
            },
            CliError::BookName(text) => {
                let mut s = "invalid book name: ".to_owned();
                s.append(std_debug_text(text.as_str()).as_str());
                s.append(" (must contain only letters and numbers)");
                s
            },
            CliError::FiscalYear(text) => {
                let mut s = "invalid fiscal year: ".to_owned();
                s.append(text.as_str());
                s
            },
            CliError::TransactionId(text) => {
                let mut s = "invalid transaction id: ".to_owned();
                s.append(text.as_str());
                s
            },
            CliError::Reconstruct(e) => e.message(),
            CliError::NotEmpty => "opening balances need an empty database".to_owned(),
            CliError::NothingToClose => "no income or expense account has a balance to close".to_owned(),
            CliError::OutOfRange => "amounts do not add up: out of range".to_owned(),
        }
    }
}

/// The midnight in UTC of the date that a text gives, or why it gives none.
pub open spec fn day_of(s: Seq<char>) -> Result<int, CliErrorView> {
    match date_read(s) {
        Ok(t) => Ok(t),
        Err(words) => Err(CliErrorView::Date(s + ": "@ + words)),
    }
}

/// The midnight in UTC of the date that a text gives. A date in ten
/// characters is read as the midnight of its day.
pub fn parse_date(s: &str) -> (read: Result<Timestamp, CliError>)
    ensures
        match read {
            Ok(t) => day_of(s@) == Ok::<int, CliErrorView>(t@) && t@ == midnight(t@),
            Err(e) => day_of(s@) == Err::<int, CliErrorView>(e@),
        },
        forall|n: int| #[trigger]
            crate::time::writes_date(n, s@) ==> (read matches Ok(t) && t@ == midnight(n)),
{
    let read = Timestamp::parse_date(s);
    proof {
        assert forall|n: int| #[trigger] crate::time::writes_date(n, s@) implies (read matches Ok(t)
            && t@ == midnight(n)) by {
            assert(moment_of(read) == day_read(midnight(n)));
        }
    }
    match read {
        Ok(t) => Ok(t),
        Err(words) => {
            let mut text: String = s.to_owned();
            text.append(": ");
            text.append(words.as_str());
            Err(CliError::Date(text))
        },
    }
}

/// The text that may be given, borrowed.
pub(crate) fn given(s: &Option<String>) -> (text: Option<&str>)
    ensures
        text_given(text) == text_view(*s),
{
    match s {
        Some(s) => Some(s.as_str()),
        None => None,
    }
}

/// A text that may be given.
pub open spec fn text_given(s: Option<&str>) -> Option<Seq<char>> {
    match s {
        Some(s) => Some(s@),
        None => None,
    }
}

/// The midnight in UTC of the date that was given, or `today` where none or
/// an empty one was.
pub open spec fn given_day(text: Option<Seq<char>>, today: int) -> Result<int, CliErrorView> {
    match text {
        Some(text) if text.len() > 0 => day_of(text),
        _ => Ok(today),
    }
}

/// The midnight in UTC of the date that was given, or else `today`.
pub fn date_or(s: Option<&str>, today: Timestamp) -> (read: Result<Timestamp, CliError>)
    ensures
        match read {
            Ok(t) => given_day(text_given(s), today@) == Ok::<int, CliErrorView>(t@),
            Err(e) => given_day(text_given(s), today@) == Err::<int, CliErrorView>(e@),
        },
        today@ == midnight(today@) ==> (read matches Ok(t) ==> t@ == midnight(t@)),
        forall|n: int|
            s is Some && #[trigger] crate::time::writes_date(n, s.unwrap()@) ==> (read matches Ok(t)
                && t@ == midnight(n)),
{
    match s {
        None => Ok(today),
        Some(s) => if s.unicode_len() == 0 {
            Ok(today)
        } else {
            parse_date(s)
        },
    }
}

/// The midnight in UTC of the date that was given, or of today where none
/// was.
pub fn resolve_date(s: Option<&str>) -> (read: Result<Timestamp, CliError>)
    ensures
        exists|today: int|
            today == midnight(today) && #[trigger] given_day(text_given(s), today) == (match read {
                Ok(t) => Ok::<int, CliErrorView>(t@),
                Err(e) => Err::<int, CliErrorView>(e@),
            }),
        read matches Ok(t) ==> t@ == midnight(t@),
{
    let today = Timestamp::today();
    let read = date_or(s, today);
    assert(given_day(text_given(s), today@) == (match read {
        Ok(t) => Ok::<int, CliErrorView>(t@),
        Err(e) => Err::<int, CliErrorView>(e@),
    }));
    read
}

/// An entry of a command.
#[derive(Debug)]
pub struct ParsedEntry {
    pub id: AccountId,
    pub class: Option<AccountClassArg>,
    pub amount: Amount,
}

/// An entry of a command, as a value.
#[verifier::ext_equal]
pub struct ParsedEntryView {
    pub id: Seq<char>,
    pub class: Option<AccountClass>,
    pub amount: Dec,
}

impl View for ParsedEntry {
    type V = ParsedEntryView;

    open spec fn view(&self) -> ParsedEntryView {
        ParsedEntryView {
            id: self.id@,
            class: match self.class {
                Some(arg) => Some(arg.class()),
                None => None,
            },
            amount: self.amount@,
        }
    }
}

/// The pieces of a text between its colons.
pub open spec fn pieces(s: Seq<char>) -> Seq<Seq<char>>
    decreases s.len(),
{
    if s.len() == 0 {
        seq![Seq::empty()]
    } else {
        let before = pieces(s.drop_last());
        if s.last() == ':' {
            before.push(Seq::empty())
        } else {
            before.drop_last().push(before.last().push(s.last()))
        }
    }
}

proof fn lemma_pieces_nonempty(s: Seq<char>)
    ensures
        pieces(s).len() > 0,
    decreases s.len(),
{
    if s.len() > 0 {
        lemma_pieces_nonempty(s.drop_last());
    }
}

/// The pieces of a text between its colons.
fn split_at_colons(s: &str) -> (parts: Vec<String>)
    ensures
        string_views(parts@) == pieces(s@),
{
    let chars: Vec<char> = chars_of(s);
    let mut done: Vec<String> = Vec::new();
    let mut piece = String::new();
    assert(string_views(done@).push(piece@) =~= pieces(chars@.take(0)));
    for i in 0..chars.len()
        invariant
            string_views(done@).push(piece@) == pieces(chars@.take(i as int)),
    {
        let c: char = chars[i];
        let ghost before = chars@.take(i as int);
        let ghost was = string_views(done@);
        let ghost held = piece@;
        assert(chars@.take(i + 1).drop_last() =~= before);
        assert(was.push(held).drop_last() =~= was);
        if c == ':' {
            done.push(piece);
            piece = String::new();
            assert(string_views(done@) =~= was.push(held));
        } else {
            piece.push(c);
        }
    }
    assert(chars@.take(chars@.len() as int) =~= chars@);
    let ghost was = string_views(done@);
    done.push(piece);
    assert(string_views(done@) =~= was.push(piece@));
    done
}

/// The amount that a piece of an entry gives.
pub open spec fn entry_amount(s: Seq<char>, piece: Seq<char>) -> Result<Dec, CliErrorView> {
    match amount_read(piece) {
        Ok(amount) => Ok(amount),
        Err(words) => Err(CliErrorView::Entry(s + ": invalid amount ("@ + words + ")"@)),
    }
}

/// The entry that a text gives: account, class where there is one, and
/// amount, with colons between them.
pub open spec fn entry_read(s: Seq<char>) -> Result<ParsedEntryView, CliErrorView> {
    let parts = pieces(s);
    if parts.len() == 2 {
        match id_read(parts[0]) {
            Err(e) => Err(CliErrorView::AccountId(e)),
            Ok(id) => match entry_amount(s, parts[1]) {
                Err(e) => Err(e),
                Ok(amount) => Ok(ParsedEntryView { id, class: None, amount }),
            },
        }
    } else if parts.len() == 3 {
        match id_read(parts[0]) {
            Err(e) => Err(CliErrorView::AccountId(e)),
            Ok(id) => match class_read(parts[1]) {
                None => Err(CliErrorView::Entry(s + ": unknown class '"@ + parts[1] + "'"@)),
                Some(class) => match entry_amount(s, parts[2]) {
                    Err(e) => Err(e),
                    Ok(amount) => Ok(ParsedEntryView { id, class: Some(class), amount }),
                },
            },
        }
    } else {
        Err(CliErrorView::Entry(s))
    }
}

/// Whether the text is how a command writes the entry, and its account id
/// has the form of one.
pub open spec fn writes_entry(e: EntryView, class: AccountClass, s: Seq<char>) -> bool {
    e.amount.wf() && is_plain_id(e.account) && s == entry_word(e, class)
}

/// The entry that was written.
pub open spec fn written_entry(e: EntryView, class: AccountClass) -> ParsedEntryView {
    ParsedEntryView { id: e.account, class: Some(class), amount: e.amount }
}

/// Whether the text is the account and the amount of the entry with a colon
/// between them, and the account id has the form of one.
pub open spec fn writes_bare_entry(e: EntryView, s: Seq<char>) -> bool {
    e.amount.wf() && is_plain_id(e.account) && s == e.account + ":"@ + e.amount.plain_text()
}

/// The entry that was written without a class.
pub open spec fn bare_entry(e: EntryView) -> ParsedEntryView {
    ParsedEntryView { id: e.account, class: None, amount: e.amount }
}

/// The number of colons in a text.
pub open spec fn colons(s: Seq<char>) -> nat
    decreases s.len(),
{
    if s.len() == 0 {
        0
    } else if s.last() == ':' {
        colons(s.drop_last()) + 1
    } else {
        colons(s.drop_last())
    }
}

proof fn lemma_colons(s: Seq<char>)
    ensures
        pieces(s).len() == colons(s) + 1,
    decreases s.len(),
{
    if s.len() > 0 {
        lemma_colons(s.drop_last());
    }
}

/// An entry has one colon or two: any other text is no entry, and the error
/// holds it whole.
pub proof fn law_entries_have_one_or_two_colons(s: Seq<char>)
    requires
        colons(s) == 0 || colons(s) > 2,
    ensures
        entry_read(s) == Err::<ParsedEntryView, CliErrorView>(CliErrorView::Entry(s)),
{
    lemma_colons(s);
}

/// Whether a text has no colon.
pub open spec fn no_colon(s: Seq<char>) -> bool {
    forall|i: int| 0 <= i < s.len() ==> #[trigger] s[i] != ':'
}

/// The pieces of a text with something behind it that has no colon.
pub proof fn lemma_pieces_of(before: Seq<char>, s: Seq<char>)
    requires
        no_colon(s),
    ensures
        pieces(before + s).len() == pieces(before).len(),
        pieces(before + s) == pieces(before).drop_last().push(pieces(before).last() + s),
    decreases s.len(),
{
    lemma_pieces_nonempty(before);
    let p = pieces(before);
    if s.len() == 0 {
        assert(before + s =~= before);
        assert(p.last() + s =~= p.last());
        assert(p.drop_last().push(p.last()) =~= p);
    } else {
        let t = s.drop_last();
        let c = s.last();
        assert forall|i: int| 0 <= i < t.len() implies #[trigger] t[i] != ':' by {
            assert(t[i] == s[i]);
        }
        assert(s[s.len() - 1] != ':');
        lemma_pieces_of(before, t);
        assert((before + s).drop_last() =~= before + t);
        assert((p.last() + t).push(c) =~= p.last() + s);
        let q = p.drop_last().push(p.last() + t);
        assert(q.drop_last() =~= p.drop_last());
    }
}

proof fn lemma_numeral_colon(n: nat)
    ensures
        no_colon(numeral(n)),
    decreases n,
{
    if n >= 10 {
        lemma_numeral_colon(n / 10);
    }
    let s = numeral(n);
    assert forall|i: int| 0 <= i < s.len() implies #[trigger] s[i] != ':' by {
        if i < s.len() - 1 {
            assert(s[i] == numeral(n / 10)[i]);
        } else {
            assert(s[i] == digit_char((n % 10) as int));
        }
    }
}

proof fn lemma_digits_colon(n: nat, width: nat)
    ensures
        no_colon(digits(n, width)),
    decreases width,
{
    if width > 0 {
        lemma_digits_colon(n / 10, (width - 1) as nat);
        let s = digits(n, width);
        assert forall|i: int| 0 <= i < s.len() implies #[trigger] s[i] != ':' by {
            if i < s.len() - 1 {
                assert(s[i] == digits(n / 10, (width - 1) as nat)[i]);
            } else {
                assert(s[i] == digit_char((n % 10) as int));
            }
        }
    }
}

proof fn lemma_amount_colon(d: Dec)
    ensures
        no_colon(d.plain_text()),
{
    let unit = crate::decimal::pow10(d.scale);
    let whole = crate::decimal::magnitude(d.mantissa) / unit;
    let part = crate::decimal::magnitude(d.mantissa) % unit;
    let shown = part / crate::decimal::pow10(0);
    let sign = if d.mantissa < 0 {
        seq!['-']
    } else {
        Seq::empty()
    };
    let tail = digits(shown, d.scale);
    let point = if d.scale == 0 {
        Seq::empty()
    } else {
        seq!['.'] + tail
    };
    lemma_numeral_colon(whole);
    lemma_digits_colon(shown, d.scale);
    let s = d.plain_text();
    assert(s == sign + numeral(whole) + point);
    assert forall|i: int| 0 <= i < s.len() implies #[trigger] s[i] != ':' by {
        if i < sign.len() {
            assert(s[i] == sign[i]);
        } else if i < sign.len() + numeral(whole).len() {
            assert(s[i] == numeral(whole)[i - sign.len()]);
        } else {
            let k = i - sign.len() - numeral(whole).len();
            assert(s[i] == point[k]);
            if k > 0 {
                assert(point[k] == tail[k - 1]);
            }
        }
    }
}

proof fn lemma_written_pieces(e: EntryView, class: AccountClass)
    requires
        is_plain_id(e.account),
    ensures
        pieces(entry_word(e, class)) == seq![e.account, class.name(), e.amount.plain_text()],
{
    reveal(is_plain_id);
    reveal_strlit("asset");
    reveal_strlit("liability");
    reveal_strlit("equity");
    reveal_strlit("income");
    reveal_strlit("expense");
    reveal_strlit(":");
    let name = class.name();
    let amount = e.amount.plain_text();
    assert forall|i: int| 0 <= i < e.account.len() implies #[trigger] e.account[i] != ':' by {
        assert(crate::chars::lower(e.account[i]) == seq![e.account[i]]);
    }
    assert(no_colon(name));
    lemma_amount_colon(e.amount);
    let empty = Seq::<char>::empty();
    let a = e.account;
    let b = a.push(':');
    let c = b + name;
    let d = c.push(':');
    let s = d + amount;
    assert(entry_word(e, class) =~= s);
    assert(empty + a =~= a);
    lemma_pieces_of(empty, a);
    assert(pieces(a) =~= seq![a]);
    assert(b.drop_last() =~= a);
    assert(pieces(b) =~= seq![a, empty]);
    lemma_pieces_of(b, name);
    assert(empty + name =~= name);
    assert(pieces(c) =~= seq![a, name]);
    assert(d.drop_last() =~= c);
    assert(pieces(d) =~= seq![a, name, empty]);
    lemma_pieces_of(d, amount);
    assert(empty + amount =~= amount);
    assert(pieces(s) =~= seq![a, name, amount]);
}

proof fn lemma_bare_pieces(e: EntryView)
    requires
        is_plain_id(e.account),
    ensures
        pieces(e.account + ":"@ + e.amount.plain_text()) == seq![e.account, e.amount.plain_text()],
{
    reveal(is_plain_id);
    reveal_strlit(":");
    let amount = e.amount.plain_text();
    assert forall|i: int| 0 <= i < e.account.len() implies #[trigger] e.account[i] != ':' by {
        assert(crate::chars::lower(e.account[i]) == seq![e.account[i]]);
    }
    lemma_amount_colon(e.amount);
    let empty = Seq::<char>::empty();
    let a = e.account;
    let b = a.push(':');
    let s = b + amount;
    assert(e.account + ":"@ + amount =~= s);
    assert(empty + a =~= a);
    lemma_pieces_of(empty, a);
    assert(pieces(a) =~= seq![a]);
    assert(b.drop_last() =~= a);
    assert(pieces(b) =~= seq![a, empty]);
    lemma_pieces_of(b, amount);
    assert(empty + amount =~= amount);
    assert(pieces(s) =~= seq![a, amount]);
}

fn amount_from_piece(s: &str, piece: &str) -> (read: Result<Amount, CliError>)
    ensures
        match read {
            Ok(a) => entry_amount(s@, piece@) == Ok::<Dec, CliErrorView>(a@),
            Err(e) => entry_amount(s@, piece@) == Err::<Dec, CliErrorView>(e@),
        },
        forall|d: Dec| #[trigger] d.writes(piece@) ==> entry_amount(s@, piece@) == Ok::<
            Dec,
            CliErrorView,
        >(d),
{
    match Amount::parse(piece) {
        Ok(amount) => Ok(amount),
        Err(words) => {
            let mut text: String = s.to_owned();
            text.append(": invalid amount (");
            text.append(words.as_str());
            text.append(")");
            Err(CliError::Entry(text))
        },
    }
}

/// Reads an entry of a command. What a command writes is read back as it
/// was, with a class and without.
pub fn parse_entry(s: &str) -> (read: Result<ParsedEntry, CliError>)
    ensures
        match read {
            Ok(e) => entry_read(s@) == Ok::<ParsedEntryView, CliErrorView>(e@),
            Err(e) => entry_read(s@) == Err::<ParsedEntryView, CliErrorView>(e@),
        },
        forall|e: EntryView, class: AccountClass| #[trigger]
            writes_entry(e, class, s@) ==> entry_read(s@) == Ok::<ParsedEntryView, CliErrorView>(
                written_entry(e, class),
            ),
        forall|e: EntryView| #[trigger]
            writes_bare_entry(e, s@) ==> entry_read(s@) == Ok::<ParsedEntryView, CliErrorView>(
                bare_entry(e),
            ),
{
    let parts: Vec<String> = split_at_colons(s);
    let ghost p = pieces(s@);
    assert(string_views(parts@) == p);
    if parts.len() != 2 && parts.len() != 3 {
        proof {
            assert forall|e: EntryView, class: AccountClass|
                !#[trigger] writes_entry(e, class, s@) by {
                if writes_entry(e, class, s@) {
                    lemma_written_pieces(e, class);
                }
            }
            assert forall|e: EntryView| !#[trigger] writes_bare_entry(e, s@) by {
                if writes_bare_entry(e, s@) {
                    lemma_bare_pieces(e);
                }
            }
        }
        return Err(CliError::Entry(s.to_owned()));
    }
    let last: usize = parts.len() - 1;
    assert(p[0] == parts@[0]@);
    assert(p[last as int] == parts@[last as int]@);
    let id = AccountId::parse(parts[0].as_str());
    let amount = amount_from_piece(s, parts[last].as_str());
    proof {
        assert forall|e: EntryView, class: AccountClass| #[trigger] writes_entry(e, class, s@) implies entry_read(
            s@,
        ) == Ok::<ParsedEntryView, CliErrorView>(written_entry(e, class)) by {
            lemma_written_pieces(e, class);
            law_plain_ids_read_back(e.account);
            law_class_names_read_back(class);
            assert(e.amount.writes(p[2]));
        }
        assert forall|e: EntryView| #[trigger] writes_bare_entry(e, s@) implies entry_read(s@) == Ok::<
            ParsedEntryView,
            CliErrorView,
        >(bare_entry(e)) by {
            lemma_bare_pieces(e);
            law_plain_ids_read_back(e.account);
            assert(e.amount.writes(p[1]));
        }
    }
    let id = match id {
        Ok(id) => id,
        Err(e) => {
            return Err(CliError::AccountId(e));
        },
    };
    let class: Option<AccountClassArg> = if last == 1 {
        None
    } else {
        assert(p[1] == parts@[1]@);
        match class_named(parts[1].as_str()) {
            Some(class) => Some(AccountClassArg::of(class)),
            None => {
                let mut text: String = s.to_owned();
                text.append(": unknown class '");
                text.append(parts[1].as_str());
                text.append("'");
                return Err(CliError::Entry(text));
            },
        }
    };
    match amount {
        Ok(amount) => Ok(ParsedEntry { id, class, amount }),
        Err(e) => Err(e),
    }
}

/// The accounts that entries register, and the entries themselves or why
/// the first that cannot be read cannot.
#[derive(Debug)]
pub struct EntryPlan {
    pub accounts: Vec<Account>,
    pub entries: Result<Vec<Entry>, CliError>,
}

/// The plan of entries, as a value.
#[verifier::ext_equal]
pub struct EntryPlanView {
    pub accounts: Seq<(Seq<char>, AccountClass)>,
    pub entries: Result<Seq<EntryView>, CliErrorView>,
}

impl View for EntryPlan {
    type V = EntryPlanView;

    open spec fn view(&self) -> EntryPlanView {
        EntryPlanView {
            accounts: account_views(self.accounts@),
            entries: match self.entries {
                Ok(entries) => Ok(entry_views(entries@)),
                Err(e) => Err(e@),
            },
        }
    }
}

/// The entries that the texts give, or why the first that cannot be read
/// cannot.
pub open spec fn entries_read(texts: Seq<Seq<char>>) -> Result<Seq<ParsedEntryView>, CliErrorView>
    decreases texts.len(),
{
    if texts.len() == 0 {
        Ok(Seq::empty())
    } else {
        match entries_read(texts.drop_last()) {
            Err(e) => Err(e),
            Ok(before) => match entry_read(texts.last()) {
                Err(e) => Err(e),
                Ok(p) => Ok(before.push(p)),
            },
        }
    }
}

/// The entries without their classes.
pub open spec fn plain_entries(parsed: Seq<ParsedEntryView>) -> Seq<EntryView> {
    Seq::new(parsed.len(), |i: int| EntryView { account: parsed[i].id, amount: parsed[i].amount })
}

/// Whether an account is one of those listed.
pub open spec fn is_listed(accounts: Seq<(Seq<char>, AccountClass)>, id: Seq<char>) -> bool {
    exists|i: int| 0 <= i < accounts.len() && (#[trigger] accounts[i]).0 == id
}

/// The accounts that the entries register: those that are named with a class
/// and are new, with the first class that they are named with.
pub open spec fn new_accounts(
    parsed: Seq<ParsedEntryView>,
    registered: Map<Seq<char>, AccountClass>,
) -> Seq<(Seq<char>, AccountClass)>
    decreases parsed.len(),
{
    if parsed.len() == 0 {
        Seq::empty()
    } else {
        let before = new_accounts(parsed.drop_last(), registered);
        let p = parsed.last();
        match p.class {
            Some(class) if !registered.dom().contains(p.id) && !is_listed(before, p.id) => before.push(
                (p.id, class),
            ),
            _ => before,
        }
    }
}

/// The plan of entries: where one cannot be read, nothing is registered.
pub open spec fn entries_plan(
    texts: Seq<Seq<char>>,
    registered: Map<Seq<char>, AccountClass>,
) -> EntryPlanView {
    match entries_read(texts) {
        Err(e) => EntryPlanView { accounts: Seq::empty(), entries: Err(e) },
        Ok(parsed) => EntryPlanView {
            accounts: new_accounts(parsed, registered),
            entries: Ok(plain_entries(parsed)),
        },
    }
}

/// Whether the texts are how a command writes the entries, and their account
/// ids have the form of ids.
pub open spec fn writes_entries(
    entries: Seq<EntryView>,
    classes: Seq<AccountClass>,
    texts: Seq<Seq<char>>,
) -> bool {
    &&& entries.len() == texts.len()
    &&& classes.len() == texts.len()
    &&& forall|i: int|
        0 <= i < texts.len() ==> writes_entry(entries[i], classes[i], #[trigger] texts[i])
}

/// The entries that were written with their classes.
pub open spec fn written_entries(
    entries: Seq<EntryView>,
    classes: Seq<AccountClass>,
) -> Seq<ParsedEntryView> {
    Seq::new(entries.len(), |i: int| written_entry(entries[i], classes[i]))
}

/// The plan of the entries that were written.
pub open spec fn written_plan(
    entries: Seq<EntryView>,
    classes: Seq<AccountClass>,
    registered: Map<Seq<char>, AccountClass>,
) -> EntryPlanView {
    EntryPlanView {
        accounts: new_accounts(written_entries(entries, classes), registered),
        entries: Ok(entries),
    }
}

/// Whether an entry that a command writes is read back as it was.
spec fn entry_reads_back(s: Seq<char>) -> bool {
    forall|e: EntryView, class: AccountClass| #[trigger]
        writes_entry(e, class, s) ==> entry_read(s) == Ok::<ParsedEntryView, CliErrorView>(
            written_entry(e, class),
        )
}

proof fn lemma_read_error(texts: Seq<Seq<char>>, n: int)
    requires
        0 <= n <= texts.len(),
        entries_read(texts.take(n)) is Err,
    ensures
        entries_read(texts) == entries_read(texts.take(n)),
    decreases texts.len(),
{
    if n == texts.len() {
        assert(texts.take(n) =~= texts);
    } else {
        assert(texts.drop_last().take(n) =~= texts.take(n));
        lemma_read_error(texts.drop_last(), n);
    }
}

proof fn lemma_written_entries(
    entries: Seq<EntryView>,
    classes: Seq<AccountClass>,
    texts: Seq<Seq<char>>,
    n: int,
)
    requires
        writes_entries(entries, classes, texts),
        0 <= n <= texts.len(),
        forall|i: int| 0 <= i < n ==> entry_reads_back(#[trigger] texts[i]),
    ensures
        entries_read(texts.take(n)) == Ok::<Seq<ParsedEntryView>, CliErrorView>(
            written_entries(entries, classes).take(n),
        ),
    decreases n,
{
    let written = written_entries(entries, classes);
    if n == 0 {
        assert(written.take(0) =~= Seq::empty());
    } else {
        lemma_written_entries(entries, classes, texts, n - 1);
        assert(texts.take(n).drop_last() =~= texts.take(n - 1));
        assert(texts.take(n).last() == texts[n - 1]);
        assert(entry_reads_back(texts[n - 1]));
        assert(writes_entry(entries[n - 1], classes[n - 1], texts[n - 1]));
        assert(written.take(n) =~= written.take(n - 1).push(written[n - 1]));
    }
}

proof fn lemma_new_accounts(
    parsed: Seq<ParsedEntryView>,
    registered: Map<Seq<char>, AccountClass>,
)
    ensures
        ({
            let accounts = new_accounts(parsed, registered);
            &&& forall|i: int|
                0 <= i < accounts.len() ==> !registered.dom().contains((#[trigger] accounts[i]).0)
            &&& forall|i: int, j: int|
                0 <= i < j < accounts.len() ==> (#[trigger] accounts[i]).0 != (#[trigger] accounts[j]).0
        }),
    decreases parsed.len(),
{
    if parsed.len() > 0 {
        let before = new_accounts(parsed.drop_last(), registered);
        let accounts = new_accounts(parsed, registered);
        lemma_new_accounts(parsed.drop_last(), registered);
        assert forall|i: int| 0 <= i < accounts.len() implies !registered.dom().contains(
            (#[trigger] accounts[i]).0,
        ) by {
            if i < before.len() {
                assert(accounts[i] == before[i]);
            }
        }
        assert forall|i: int, j: int| 0 <= i < j < accounts.len() implies (#[trigger] accounts[i]).0
            != (#[trigger] accounts[j]).0 by {
            assert(accounts[i] == before[i]);
            if j < before.len() {
                assert(accounts[j] == before[j]);
            }
        }
    }
}

/// Registering is careful: a plan registers no account that is registered
/// already, none twice, and none at all where an entry cannot be read.
pub proof fn law_plans_register_new_accounts_alone(
    texts: Seq<Seq<char>>,
    registered: Map<Seq<char>, AccountClass>,
)
    ensures
        ({
            let plan = entries_plan(texts, registered);
            &&& plan.entries is Err ==> plan.accounts.len() == 0
            &&& forall|i: int|
                0 <= i < plan.accounts.len() ==> !registered.dom().contains(
                    (#[trigger] plan.accounts[i]).0,
                )
            &&& forall|i: int, j: int|
                0 <= i < j < plan.accounts.len() ==> (#[trigger] plan.accounts[i]).0
                    != (#[trigger] plan.accounts[j]).0
        }),
{
    if let Ok(parsed) = entries_read(texts) {
        lemma_new_accounts(parsed, registered);
    }
}

/// Whether an account is one of those listed.
pub(crate) fn lists_account(accounts: &Vec<Account>, id: &AccountId) -> (yes: bool)
    ensures
        yes == is_listed(account_views(accounts@), id@),
{
    for i in 0..accounts.len()
        invariant
            forall|j: int| 0 <= j < i ==> (#[trigger] account_views(accounts@)[j]).0 != id@,
    {
        assert(account_views(accounts@)[i as int].0 == accounts@[i as int].id@);
        if accounts[i].id.same(id) {
            return true;
        }
    }
    false
}

/// Reads the entries of a command, and says which accounts they register:
/// those that are named with a class and are new. Where an entry cannot be
/// read, there are none. What a command writes is read back as it was.
pub fn plan_entries(texts: &Vec<String>, registered: &AccountMap<AccountClass>) -> (plan: EntryPlan)
    ensures
        plan@ == entries_plan(string_views(texts@), registered@),
        plan@.entries is Err ==> plan@.accounts.len() == 0,
        forall|i: int|
            0 <= i < plan@.accounts.len() ==> !registered@.dom().contains(
                (#[trigger] plan@.accounts[i]).0,
            ),
        forall|entries: Seq<EntryView>, classes: Seq<AccountClass>| #[trigger]
            writes_entries(entries, classes, string_views(texts@)) ==> plan@ == written_plan(
                entries,
                classes,
                registered@,
            ),
{
    let ghost all = string_views(texts@);
    let ghost mut parsed: Seq<ParsedEntryView> = Seq::empty();
    let mut accounts: Vec<Account> = Vec::new();
    let mut entries: Vec<Entry> = Vec::new();
    assert(account_views(accounts@) =~= Seq::empty());
    assert(entry_views(entries@) =~= plain_entries(parsed));
    for i in 0..texts.len()
        invariant
            all == string_views(texts@),
            entries_read(all.take(i as int)) == Ok::<Seq<ParsedEntryView>, CliErrorView>(parsed),
            account_views(accounts@) == new_accounts(parsed, registered@),
            entry_views(entries@) == plain_entries(parsed),
            forall|j: int| 0 <= j < i ==> entry_reads_back(#[trigger] all[j]),
    {
        assert(all.take(i + 1).drop_last() =~= all.take(i as int));
        assert(all.take(i + 1).last() == texts@[i as int]@);
        let read = parse_entry(texts[i].as_str());
        assert(entry_reads_back(all[i as int]));
        match read {
            Err(e) => {
                let none: Vec<Account> = Vec::new();
                assert(account_views(none@) =~= Seq::empty());
                let plan = EntryPlan { accounts: none, entries: Err(e) };
                proof {
                    lemma_read_error(all, i + 1);
                    assert forall|stored: Seq<EntryView>, classes: Seq<AccountClass>|
                        !#[trigger] writes_entries(stored, classes, all) by {
                        if writes_entries(stored, classes, all) {
                            assert(writes_entry(stored[i as int], classes[i as int], all[i as int]));
                        }
                    }
                }
                return plan;
            },
            Ok(p) => {
                let ghost had = (account_views(accounts@), entry_views(entries@));
                let ghost view = p@;
                proof {
                    assert(parsed.push(view).drop_last() =~= parsed);
                    assert(plain_entries(parsed.push(view)) =~= plain_entries(parsed).push(
                        EntryView { account: view.id, amount: view.amount },
                    ));
                }
                if let Some(arg) = p.class {
                    if !registered.contains(&p.id) && !lists_account(&accounts, &p.id) {
                        let class: AccountClass = AccountClass::from(arg);
                        accounts.push(Account { id: p.id.clone(), class });
                        assert(account_views(accounts@) =~= had.0.push((view.id, class)));
                    }
                }
                entries.push(Entry { account: p.id, amount: p.amount });
                assert(entry_views(entries@) =~= had.1.push(
                    EntryView { account: view.id, amount: view.amount },
                ));
                proof {
                    parsed = parsed.push(view);
                }
            },
        }
    }
    proof {
        assert(all.take(all.len() as int) =~= all);
        lemma_new_accounts(parsed, registered@);
        assert forall|stored: Seq<EntryView>, classes: Seq<AccountClass>| #[trigger]
            writes_entries(stored, classes, all) implies entries_plan(all, registered@)
            == written_plan(stored, classes, registered@) by {
            lemma_written_entries(stored, classes, all, all.len() as int);
            let written = written_entries(stored, classes);
            assert(written.take(all.len() as int) =~= written);
            assert(plain_entries(written) =~= stored);
        }
    }
    EntryPlan { accounts, entries: Ok(entries) }
}

/// The values that the words of a command give to an option, in order: the
/// words stand in pairs of an option and its value.
pub open spec fn option_values(words: Seq<Seq<char>>, option: Seq<char>) -> Seq<Seq<char>>
    decreases words.len(),
{
    if words.len() < 2 {
        Seq::empty()
    } else {
        let before = option_values(words.take(words.len() - 2), option);
        if words[words.len() - 2] == option {
            before.push(words.last())
        } else {
            before
        }
    }
}

/// The value of an option that is given once or not at all, and then stands
/// for nothing.
pub open spec fn value_or_empty(values: Seq<Seq<char>>) -> Seq<char> {
    if values.len() == 0 {
        Seq::empty()
    } else {
        values.last()
    }
}

/// The classes of the accounts of the entries.
pub open spec fn entry_classes(
    entries: Seq<EntryView>,
    classes: Map<Seq<char>, AccountClass>,
) -> Seq<AccountClass> {
    Seq::new(entries.len(), |i: int| classes[entries[i].account])
}

proof fn lemma_option_pair(words: Seq<Seq<char>>, name: Seq<char>, value: Seq<char>, option: Seq<char>)
    ensures
        option_values(words + seq![name, value], option) == (if name == option {
            option_values(words, option).push(value)
        } else {
            option_values(words, option)
        }),
{
    let all = words + seq![name, value];
    assert(all.take(all.len() - 2) =~= words);
    assert(all[all.len() - 2] == name);
    assert(all.last() == value);
}

proof fn lemma_entry_options(
    front: Seq<Seq<char>>,
    entries: Seq<EntryView>,
    classes: Map<Seq<char>, AccountClass>,
    option: Seq<char>,
)
    ensures
        option != "--entry"@ ==> option_values(front + entry_words(entries, classes), option)
            == option_values(front, option),
        option == "--entry"@ ==> option_values(front + entry_words(entries, classes), option)
            == option_values(front, option) + Seq::new(
            entries.len(),
            |i: int| entry_word(entries[i], classes[entries[i].account]),
        ),
    decreases entries.len(),
{
    if entries.len() == 0 {
        assert(front + entry_words(entries, classes) =~= front);
        assert(option_values(front, option) + Seq::new(
            entries.len(),
            |i: int| entry_word(entries[i], classes[entries[i].account]),
        ) =~= option_values(front, option));
    } else {
        let t = entries.drop_last();
        let e = entries.last();
        let word = entry_word(e, classes[e.account]);
        lemma_entry_options(front, t, classes, option);
        assert(front + entry_words(entries, classes) =~= (front + entry_words(t, classes)) + seq![
            "--entry"@,
            word,
        ]);
        lemma_option_pair(front + entry_words(t, classes), "--entry"@, word, option);
        if option == "--entry"@ {
            assert(option_values(front + entry_words(entries, classes), option) =~= option_values(
                front,
                option,
            ) + Seq::new(
                entries.len(),
                |i: int| entry_word(entries[i], classes[entries[i].account]),
            ));
        }
    }
}

proof fn lemma_options_differ()
    ensures
        "ledger"@ != "--date"@,
        "ledger"@ != "--kind"@,
        "ledger"@ != "--memo"@,
        "ledger"@ != "--entry"@,
        "--date"@ != "--kind"@,
        "--date"@ != "--memo"@,
        "--date"@ != "--entry"@,
        "--kind"@ != "--memo"@,
        "--kind"@ != "--entry"@,
        "--memo"@ != "--entry"@,
{
    reveal_strlit("ledger");
    reveal_strlit("--date");
    reveal_strlit("--kind");
    reveal_strlit("--memo");
    reveal_strlit("--entry");
    assert("ledger"@[0] == 'l');
    assert("--date"@[0] == '-' && "--date"@[2] == 'd');
    assert("--kind"@[0] == '-' && "--kind"@[2] == 'k');
    assert("--memo"@[0] == '-' && "--memo"@[2] == 'm');
    assert("--entry"@[0] == '-' && "--entry"@[2] == 'e');
}

/// A command that adds a transaction again carries all of it: its options
/// give the date, the kind, the memo and the entries with the classes of
/// their accounts. Entries are read back from what is given as they were, if
/// the ids of their accounts have the form of ids.
pub proof fn law_commands_carry_transactions(
    tx: TransactionView,
    classes: Map<Seq<char>, AccountClass>,
)
    ensures
        ({
            let words = add_words(tx, classes);
            let kind = option_values(words, "--kind"@);
            let texts = option_values(words, "--entry"@);
            &&& option_values(words, "--date"@) == seq![date_text(tx.posted_at)]
            &&& tx.kind is Normal ==> kind.len() == 0
            &&& !(tx.kind is Normal) ==> kind.len() == 1 && kind_read(kind[0]) == Some(tx.kind)
            &&& value_or_empty(option_values(words, "--memo"@)) == tx.memo
            &&& texts.len() == tx.entries.len()
            &&& forall|i: int|
                0 <= i < texts.len() ==> #[trigger] texts[i] == entry_word(
                    tx.entries[i],
                    classes[tx.entries[i].account],
                )
            &&& (forall|i: int|
                0 <= i < tx.entries.len() ==> (#[trigger] tx.entries[i]).amount.wf() && is_plain_id(
                    tx.entries[i].account,
                )) ==> writes_entries(tx.entries, entry_classes(tx.entries, classes), texts)
        }),
{
    let head = seq!["ledger"@, "add"@];
    let date = date_text(tx.posted_at);
    let dated = head + seq!["--date"@, date];
    let kinded = dated + kind_words(tx.kind);
    let front = kinded + memo_words(tx.memo);
    let none = Seq::<Seq<char>>::empty();
    assert(add_words(tx, classes) =~= front + entry_words(tx.entries, classes));
    lemma_options_differ();
    law_kind_names_read_back(tx.kind);
    assert forall|option: Seq<char>|
        option == "--date"@ || option == "--kind"@ || option == "--memo"@ || option
            == "--entry"@ implies #[trigger] option_values(front, option) == (if option == "--date"@ {
        seq![date]
    } else if option == "--kind"@ && !(tx.kind is Normal) {
        seq![tx.kind.name()]
    } else if option == "--memo"@ && tx.memo.len() > 0 {
        seq![tx.memo]
    } else {
        none
    }) by {
        lemma_option_pair(none, "ledger"@, "add"@, option);
        assert(none + head =~= head);
        lemma_option_pair(head, "--date"@, date, option);
        assert(none.push(date) =~= seq![date]);
        if tx.kind is Normal {
            assert(kinded =~= dated);
        } else {
            lemma_option_pair(dated, "--kind"@, tx.kind.name(), option);
            assert(none.push(tx.kind.name()) =~= seq![tx.kind.name()]);
        }
        if tx.memo.len() == 0 {
            assert(front =~= kinded);
        } else {
            lemma_option_pair(kinded, "--memo"@, tx.memo, option);
            assert(none.push(tx.memo) =~= seq![tx.memo]);
        }
    }
    lemma_entry_options(front, tx.entries, classes, "--date"@);
    lemma_entry_options(front, tx.entries, classes, "--kind"@);
    lemma_entry_options(front, tx.entries, classes, "--memo"@);
    lemma_entry_options(front, tx.entries, classes, "--entry"@);
    if tx.memo.len() == 0 {
        assert(tx.memo =~= Seq::empty());
    }
    let words = add_words(tx, classes);
    let texts = option_values(words, "--entry"@);
    assert(option_values(front, "--entry"@) == none);
    assert(texts =~= Seq::new(
        tx.entries.len(),
        |i: int| entry_word(tx.entries[i], classes[tx.entries[i].account]),
    ));
    if forall|i: int|
        0 <= i < tx.entries.len() ==> (#[trigger] tx.entries[i]).amount.wf() && is_plain_id(
            tx.entries[i].account,
        ) {
        assert forall|i: int| 0 <= i < texts.len() implies writes_entry(
            tx.entries[i],
            entry_classes(tx.entries, classes)[i],
            #[trigger] texts[i],
        ) by {
            assert(tx.entries[i].amount.wf());
        }
    }
}

/// The memo that was given, or none.
pub open spec fn memo_text(memo: Option<&str>) -> Seq<char> {
    match memo {
        Some(memo) => memo@,
        None => Seq::empty(),
    }
}

/// The transaction that a command adds.
pub fn new_transaction(
    id: TransactionId,
    posted_at: Timestamp,
    memo: Option<&str>,
    entries: Vec<Entry>,
) -> (made: Result<Transaction, CliError>)
    requires
        entries.len() >= 2 ==> total(amounts(entry_views(entries@))) is Some,
    ensures
        match made {
            Ok(tx) => imbalance(entry_views(entries@)) is None && tx@ == (TransactionView {
                id: id.0,
                posted_at: posted_at@,
                memo: memo_text(memo),
                entries: entry_views(entries@),
                kind: TransactionKind::Normal,
            }),
            Err(e) => imbalance(entry_views(entries@)) matches Some(why) && e@
                == CliErrorView::Transaction(why),
        },
{
    let memo: String = match memo {
        Some(memo) => memo.to_owned(),
        None => String::new(),
    };
    match Transaction::new(id, posted_at, memo, entries) {
        Ok(tx) => Ok(tx),
        Err(e) => Err(CliError::Transaction(e)),
    }
}

/// What is said of a transaction that was added.
pub fn added_line(id: TransactionId) -> (line: String)
    ensures
        line@ == "added transaction "@ + crate::transaction_id::id_text(id.0 as int),
{
    let mut line = "added transaction ".to_owned();
    line.append(id.to_text().as_str());
    line
}

/// The entries of an income: it goes from `income`, an income account, to
/// `checking`, an asset.
pub open spec fn income_read(amount: Seq<char>) -> Result<Seq<Seq<char>>, CliErrorView> {
    match amount_read(amount) {
        Err(words) => Err(CliErrorView::Amount(words)),
        Ok(amount) => Ok(
            seq![
                "checking:asset:"@ + amount.plain_text(),
                "income:income:-"@ + amount.plain_text(),
            ],
        ),
    }
}

/// The entries of an income: it goes from `income`, an income account, to
/// `checking`, an asset.
pub fn income_entries(amount: &str) -> (made: Result<Vec<String>, CliError>)
    ensures
        match made {
            Ok(texts) => income_read(amount@) == Ok::<Seq<Seq<char>>, CliErrorView>(
                string_views(texts@),
            ),
            Err(e) => income_read(amount@) == Err::<Seq<Seq<char>>, CliErrorView>(e@),
        },
        amount_read(amount@) matches Ok(d) ==> d.wf(),
{
    match Amount::parse(amount) {
        Err(words) => Err(CliError::Amount(words)),
        Ok(amount) => {
            let mut debit = "checking:asset:".to_owned();
            debit.append(amount.to_text().as_str());
            let mut credit = "income:income:-".to_owned();
            credit.append(amount.to_text().as_str());
            let mut texts: Vec<String> = Vec::new();
            texts.push(debit);
            texts.push(credit);
            assert(string_views(texts@) =~= seq![debit@, credit@]);
            Ok(texts)
        },
    }
}

/// Why a text is no book name, if it is none: it is empty, or has something
/// other than letters and digits.
pub open spec fn book_fault(name: Seq<char>) -> Option<CliErrorView> {
    if name.len() == 0 {
        Some(CliErrorView::BookName("(empty)"@))
    } else if exists|i: int| 0 <= i < name.len() && !is_alphanumeric(#[trigger] name[i]) {
        Some(CliErrorView::BookName(name))
    } else {
        None
    }
}

/// Whether a text is a book name.
pub fn validate_book_name(name: &str) -> (checked: Result<(), CliError>)
    ensures
        match checked {
            Ok(()) => book_fault(name@) is None,
            Err(e) => book_fault(name@) == Some(e@),
        },
{
    let chars: Vec<char> = chars_of(name);
    if chars.len() == 0 {
        return Err(CliError::BookName("(empty)".to_owned()));
    }
    for i in 0..chars.len()
        invariant
            chars@ == name@,
            chars@.len() > 0,
            forall|j: int| 0 <= j < i ==> is_alphanumeric(#[trigger] name@[j]),
    {
        if !alphanumeric(chars[i]) {
            assert(!is_alphanumeric(name@[i as int]));
            return Err(CliError::BookName(name.to_owned()));
        }
    }
    Ok(())
}

/// The name of the file in which a set of books is kept.
pub open spec fn book_file(book: Option<Seq<char>>) -> Seq<char> {
    match book {
        Some(name) => "ledger."@ + name + ".db"@,
        None => "ledger.db"@,
    }
}

/// The name of the file in which a set of books is kept.
pub fn database_file_name(book: Option<&str>) -> (made: Result<String, CliError>)
    ensures
        match book {
            None => made matches Ok(file) && file@ == book_file(None),
            Some(name) => match book_fault(name@) {
                Some(fault) => made matches Err(e) && e@ == fault,
                None => made matches Ok(file) && file@ == book_file(Some(name@)),
            },
        },
{
    match book {
        None => Ok("ledger.db".to_owned()),
        Some(name) => match validate_book_name(name) {
            Err(e) => Err(e),
            Ok(()) => {
                let mut file = "ledger.".to_owned();
                file.append(name);
                file.append(".db");
                Ok(file)
            },
        },
    }
}

/// The period of an audit, or why there is none: a date cannot be read, or
/// the end is before the beginning.
pub open spec fn period_read(from: Seq<char>, to: Seq<char>) -> Result<(int, int), CliErrorView> {
    match day_of(from) {
        Err(e) => Err(e),
        Ok(start) => match day_of(to) {
            Err(e) => Err(e),
            Ok(end) => if end < start {
                Err(CliErrorView::Date("--to ("@ + to + ") is before --from ("@ + from + ")"@))
            } else {
                Ok((start, end))
            },
        },
    }
}

/// The period of an audit.
pub fn audit_period(from: &str, to: &str) -> (read: Result<(Timestamp, Timestamp), CliError>)
    ensures
        match read {
            Ok((start, end)) => period_read(from@, to@) == Ok::<(int, int), CliErrorView>(
                (start@, end@),
            ),
            Err(e) => period_read(from@, to@) == Err::<(int, int), CliErrorView>(e@),
        },
        read matches Ok((start, end)) ==> start@ <= end@,
{
    let start: Timestamp = match parse_date(from) {
        Ok(t) => t,
        Err(e) => {
            return Err(e);
        },
    };
    let end: Timestamp = match parse_date(to) {
        Ok(t) => t,
        Err(e) => {
            return Err(e);
        },
    };
    if end.is_before(&start) {
        let mut text = "--to (".to_owned();
        text.append(to);
        text.append(") is before --from (");
        text.append(from);
        text.append(")");
        return Err(CliError::Date(text));
    }
    Ok((start, end))
}

/// The ids of the asset accounts, in their order.
pub open spec fn assets_of(accounts: Seq<(Seq<char>, AccountClass)>) -> Seq<Seq<char>>
    decreases accounts.len(),
{
    if accounts.len() == 0 {
        Seq::empty()
    } else {
        let before = assets_of(accounts.drop_last());
        if accounts.last().1 is Asset {
            before.push(accounts.last().0)
        } else {
            before
        }
    }
}

/// The "our" accounts of an audit: every account of class asset. Receipts
/// flow into these, disbursements flow out of them.
pub fn asset_accounts(accounts: &Vec<Account>) -> (ids: Vec<AccountId>)
    ensures
        id_views(ids@) == assets_of(account_views(accounts@)),
{
    let ghost all = account_views(accounts@);
    let mut ids: Vec<AccountId> = Vec::new();
    assert(id_views(ids@) =~= Seq::empty());
    for i in 0..accounts.len()
        invariant
            all == account_views(accounts@),
            id_views(ids@) == assets_of(all.take(i as int)),
    {
        let ghost was = id_views(ids@);
        assert(all.take(i + 1).drop_last() =~= all.take(i as int));
        if accounts[i].class == AccountClass::Asset {
            ids.push(accounts[i].id.clone());
            assert(id_views(ids@) =~= was.push(all[i as int].0));
        }
    }
    assert(all.take(all.len() as int) =~= all);
    ids
}

/// The date of a point in time.
pub fn format_date(t: &Timestamp) -> (s: String)
    ensures
        s@ == date_text(t@),
{
    t.date()
}

/// An amount with two decimal places.
pub fn format_money(d: &Amount) -> (s: String)
    ensures
        s@ == d@.text(2),
{
    d.to_money_text()
}

/// A line of the report: a label and an amount in columns.
pub open spec fn amount_line(label: Seq<char>, amount: Dec) -> Seq<char> {
    "  "@ + padded_right(label, 28) + padded_left(amount.text(2), 14)
}

/// The lines of rows.
pub open spec fn row_lines(rows: Seq<(Seq<char>, Dec)>) -> Seq<Seq<char>> {
    if rows.len() == 0 {
        seq!["  (none)"@]
    } else {
        Seq::new(rows.len(), |i: int| amount_line(rows[i].0, rows[i].1))
    }
}

/// A section of the report: heading, rows and their total.
pub open spec fn section(
    heading: Seq<char>,
    rows: Seq<(Seq<char>, Dec)>,
    label: Seq<char>,
    sum: Dec,
) -> Seq<Seq<char>> {
    seq![heading] + row_lines(rows) + seq![amount_line(label, sum)]
}

/// The sum of the rows.
pub open spec fn rows_total(rows: Seq<(Seq<char>, Dec)>) -> Option<Dec> {
    total(Seq::new(rows.len(), |i: int| rows[i].1))
}

/// The lines of the report.
pub open spec fn report_lines(r: AuditReportView) -> Seq<Seq<char>> {
    seq![
        "Audit Report ("@ + date_text(r.from) + " to "@ + date_text(r.to) + ")"@,
        repeated('=', 50),
    ] + section(
        "Beginning balances by account:"@,
        r.beginning_balances,
        "Total"@,
        rows_total(r.beginning_balances).unwrap(),
    ) + seq![""@] + section(
        "Ending balances by account:"@,
        r.ending_balances,
        "Total"@,
        rows_total(r.ending_balances).unwrap(),
    ) + seq![""@] + section(
        "Receipts by account:"@,
        r.receipts,
        "Total receipts"@,
        r.total_receipts,
    ) + seq![""@] + section(
        "Disbursements by account:"@,
        r.disbursements,
        "Total disbursements"@,
        r.total_disbursements,
    )
}

fn line_of(label: &str, amount: &Amount) -> (line: String)
    ensures
        line@ == amount_line(label@, amount@),
{
    let mut line = "  ".to_owned();
    line.append(pad_right(label, 28).as_str());
    line.append(pad_left(format_money(amount).as_str(), 14).as_str());
    line
}

fn push_line(lines: &mut Vec<String>, line: String)
    ensures
        string_views(final(lines)@) == string_views(old(lines)@).push(line@),
{
    let ghost was = string_views(lines@);
    lines.push(line);
    assert(string_views(lines@) =~= was.push(line@));
}

fn push_section(
    lines: &mut Vec<String>,
    heading: &str,
    rows: &Vec<(AccountId, Amount)>,
    label: &str,
    sum: &Amount,
)
    ensures
        string_views(final(lines)@) == string_views(old(lines)@) + section(
            heading@,
            row_views(rows@),
            label@,
            sum@,
        ),
{
    let ghost start = string_views(lines@);
    let ghost all = row_views(rows@);
    push_line(lines, heading.to_owned());
    if rows.len() == 0 {
        push_line(lines, "  (none)".to_owned());
        assert(string_views(lines@) =~= start + (seq![heading@] + row_lines(all)));
    } else {
        assert(string_views(lines@) =~= start + (seq![heading@] + row_lines(all).take(0)));
        for i in 0..rows.len()
            invariant
                all == row_views(rows@),
                rows.len() > 0,
                string_views(lines@) == start + (seq![heading@] + row_lines(all).take(i as int)),
        {
            push_line(lines, line_of(rows[i].0.as_str(), &rows[i].1));
            assert(row_lines(all).take(i + 1) =~= row_lines(all).take(i as int).push(
                row_lines(all)[i as int],
            ));
            assert(string_views(lines@) =~= start + (seq![heading@] + row_lines(all).take(i + 1)));
        }
        assert(row_lines(all).take(all.len() as int) =~= row_lines(all));
    }
    push_line(lines, line_of(label, sum));
    assert(string_views(lines@) =~= start + section(heading@, all, label@, sum@));
}

fn sum_rows(rows: &Vec<(AccountId, Amount)>) -> (sum: Option<Amount>)
    ensures
        rows_total(row_views(rows@)) == (match sum {
            Some(s) => Some(s@),
            None => None,
        }),
{
    let mut amounts: Vec<Amount> = Vec::new();
    for i in 0..rows.len()
        invariant
            amounts@.len() == i,
            forall|j: int| 0 <= j < i ==> #[trigger] amounts@[j] == rows@[j].1,
    {
        amounts.push(rows[i].1);
    }
    let ghost all = row_views(rows@);
    assert(decs(amounts@) =~= Seq::new(all.len(), |i: int| all[i].1));
    checked_total_of(&amounts)
}

/// The report in lines, or nothing where the sum of the balances is out of
/// range.
pub fn audit_text(report: &AuditReport) -> (text: Option<Vec<String>>)
    ensures
        match text {
            Some(lines) => {
                &&& rows_total(report@.beginning_balances) is Some
                &&& rows_total(report@.ending_balances) is Some
                &&& string_views(lines@) == report_lines(report@)
            },
            None => rows_total(report@.beginning_balances) is None || rows_total(
                report@.ending_balances,
            ) is None,
        },
{
    let beginning: Amount = match sum_rows(&report.beginning_balances) {
        Some(sum) => sum,
        None => {
            return None;
        },
    };
    let ending: Amount = match sum_rows(&report.ending_balances) {
        Some(sum) => sum,
        None => {
            return None;
        },
    };
    let mut lines: Vec<String> = Vec::new();
    let mut title = "Audit Report (".to_owned();
    title.append(format_date(&report.from).as_str());
    title.append(" to ");
    title.append(format_date(&report.to).as_str());
    title.append(")");
    push_line(&mut lines, title);
    push_line(&mut lines, repeat_char('=', 50));
    assert(string_views(lines@) =~= seq![title@, repeated('=', 50)]);
    push_section(
        &mut lines,
        "Beginning balances by account:",
        &report.beginning_balances,
        "Total",
        &beginning,
    );
    let ghost one = string_views(lines@);
    push_line(&mut lines, "".to_owned());
    assert(string_views(lines@) =~= one + seq![""@]);
    push_section(
        &mut lines,
        "Ending balances by account:",
        &report.ending_balances,
        "Total",
        &ending,
    );
    let ghost two = string_views(lines@);
    push_line(&mut lines, "".to_owned());
    assert(string_views(lines@) =~= two + seq![""@]);
    push_section(
        &mut lines,
        "Receipts by account:",
        &report.receipts,
        "Total receipts",
        &report.total_receipts,
    );
    let ghost three = string_views(lines@);
    push_line(&mut lines, "".to_owned());
    assert(string_views(lines@) =~= three + seq![""@]);
    push_section(
        &mut lines,
        "Disbursements by account:",
        &report.disbursements,
        "Total disbursements",
        &report.total_disbursements,
    );
    Some(lines)
}

/// The report as strings, for JSON.
#[derive(Debug)]
pub struct AuditJson {
    pub from: String,
    pub to: String,
    pub beginning_balances: Vec<(String, String)>,
    pub ending_balances: Vec<(String, String)>,
    pub receipts: Vec<(String, String)>,
    pub disbursements: Vec<(String, String)>,
    pub total_receipts: String,
    pub total_disbursements: String,
}

/// Pairs of strings, as text.
pub open spec fn pair_views(pairs: Seq<(String, String)>) -> Seq<(Seq<char>, Seq<char>)> {
    Seq::new(pairs.len(), |i: int| (pairs[i].0@, pairs[i].1@))
}

/// The rows with their amounts as text.
pub open spec fn money_rows(rows: Seq<(Seq<char>, Dec)>) -> Seq<(Seq<char>, Seq<char>)> {
    Seq::new(rows.len(), |i: int| (rows[i].0, rows[i].1.text(2)))
}

/// The rows with their amounts as text.
pub fn balances_to_map(balances: &Vec<(AccountId, Amount)>) -> (pairs: Vec<(String, String)>)
    ensures
        pair_views(pairs@) == money_rows(row_views(balances@)),
{
    let mut pairs: Vec<(String, String)> = Vec::new();
    for i in 0..balances.len()
        invariant
            pairs@.len() == i,
            forall|j: int|
                0 <= j < i ==> (#[trigger] pairs@[j]).0@ == balances@[j].0@ && pairs@[j].1@
                    == balances@[j].1@.text(2),
    {
        pairs.push((balances[i].0.as_str().to_owned(), format_money(&balances[i].1)));
    }
    assert(pair_views(pairs@) =~= money_rows(row_views(balances@)));
    pairs
}

/// The report as strings, for JSON.
pub fn audit_json(report: &AuditReport) -> (json: AuditJson)
    ensures
        json.from@ == date_text(report@.from),
        json.to@ == date_text(report@.to),
        pair_views(json.beginning_balances@) == money_rows(report@.beginning_balances),
        pair_views(json.ending_balances@) == money_rows(report@.ending_balances),
        pair_views(json.receipts@) == money_rows(report@.receipts),
        pair_views(json.disbursements@) == money_rows(report@.disbursements),
        json.total_receipts@ == report@.total_receipts.text(2),
        json.total_disbursements@ == report@.total_disbursements.text(2),
{
    AuditJson {
        from: format_date(&report.from),
        to: format_date(&report.to),
        beginning_balances: balances_to_map(&report.beginning_balances),
        ending_balances: balances_to_map(&report.ending_balances),
        receipts: balances_to_map(&report.receipts),
        disbursements: balances_to_map(&report.disbursements),
        total_receipts: format_money(&report.total_receipts),
        total_disbursements: format_money(&report.total_disbursements),
    }
}

} // verus!
