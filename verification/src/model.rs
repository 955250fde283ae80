//! Accounts, entries and transactions, and what a book adds up to.

use vstd::prelude::*;
use vstd::string::*;

pub use crate::account_id::{AccountId, AccountIdError};
pub use crate::account_map::AccountMap;
pub use crate::reconstruct::{render_all_add_commands, ReconstructError};
pub use crate::summary::{
    closes, lifetime_activity, period_start, Activity, CloseInfo, Summary,
};
pub use crate::transaction_id::TransactionId;

use crate::book::{
    account_amounts, amounts, balances_of, entries_wf, lemma_balances_push, lemma_summable_prefix,
    lemma_unmentioned, mentions, summable, EntryView, TransactionView,
};
use crate::decimal::{Amount, Dec};
use crate::storage::account_views;
use crate::sums::{lemma_total_prefix, lemma_total_push, total};
use crate::text::{numeral, numeral_of, same_text};
use crate::time::Timestamp;

verus! {

/// The five classes of accounts.
#[derive(Debug, Clone, Copy, PartialEq, Eq, Hash, Structural)]
pub enum AccountClass {
    Asset,
    Liability,
    Equity,
    Income,
    Expense,
}

impl View for AccountClass {
    type V = AccountClass;

    open spec fn view(&self) -> AccountClass {
        *self
    }
}

impl AccountClass {
    /// The name of the class.
    pub open spec fn name(self) -> Seq<char> {
        match self {
            AccountClass::Asset => "asset"@,
            AccountClass::Liability => "liability"@,
            AccountClass::Equity => "equity"@,
            AccountClass::Income => "income"@,
            AccountClass::Expense => "expense"@,
        }
    }
}

/// The name of a class.
pub fn class_to_str(class: AccountClass) -> (s: &'static str)
    ensures
        s@ == class.name(),
{
    match class {
        AccountClass::Asset => "asset",
        AccountClass::Liability => "liability",
        AccountClass::Equity => "equity",
        AccountClass::Income => "income",
        AccountClass::Expense => "expense",
    }
}

/// The class that a text names, if it names one.
pub open spec fn class_read(s: Seq<char>) -> Option<AccountClass> {
    if s == "asset"@ {
        Some(AccountClass::Asset)
    } else if s == "liability"@ {
        Some(AccountClass::Liability)
    } else if s == "equity"@ {
        Some(AccountClass::Equity)
    } else if s == "income"@ {
        Some(AccountClass::Income)
    } else if s == "expense"@ {
        Some(AccountClass::Expense)
    } else {
        None
    }
}

/// The class that a text names, if it names one.
pub fn class_named(s: &str) -> (class: Option<AccountClass>)
    ensures
        class == class_read(s@),
{
    if same_text(s, "asset") {
        Some(AccountClass::Asset)
    } else if same_text(s, "liability") {
        Some(AccountClass::Liability)
    } else if same_text(s, "equity") {
        Some(AccountClass::Equity)
    } else if same_text(s, "income") {
        Some(AccountClass::Income)
    } else if same_text(s, "expense") {
        Some(AccountClass::Expense)
    } else {
        None
    }
}

/// A class is read back from its name.
pub proof fn law_class_names_read_back(class: AccountClass)
    ensures
        class_read(class.name()) == Some(class),
{
    reveal_strlit("asset");
    reveal_strlit("liability");
    reveal_strlit("equity");
    reveal_strlit("income");
    reveal_strlit("expense");
    assert("liability"@.len() == 9);
    assert("equity"@[0] == 'e' && "equity"@[1] == 'q');
    assert("income"@[0] == 'i');
    assert("expense"@[0] == 'e' && "expense"@[1] == 'x');
    assert("asset"@[0] == 'a');
}

/// An account and its class.
#[derive(Debug, PartialEq, Eq)]
pub struct Account {
    pub id: AccountId,
    pub class: AccountClass,
}

impl View for Account {
    type V = (Seq<char>, AccountClass);

    open spec fn view(&self) -> (Seq<char>, AccountClass) {
        (self.id@, self.class)
    }
}

impl Clone for Account {
    fn clone(&self) -> (copy: Account)
        ensures
            copy@ == self@,
    {
        Account { id: self.id.clone(), class: self.class }
    }
}

/// What a transaction adds to an account.
#[derive(Debug, PartialEq, Eq)]
pub struct Entry {
    pub account: AccountId,
    pub amount: Amount,
}

impl View for Entry {
    type V = EntryView;

    open spec fn view(&self) -> EntryView {
        EntryView { account: self.account@, amount: self.amount@ }
    }
}

impl Clone for Entry {
    fn clone(&self) -> (copy: Entry)
        ensures
            copy@ == self@,
    {
        Entry { account: self.account.clone(), amount: self.amount }
    }
}

/// The entries as values.
pub open spec fn entry_views(entries: Seq<Entry>) -> Seq<EntryView> {
    Seq::new(entries.len(), |i: int| entries[i]@)
}

/// A copy of the entries.
pub fn clone_entries(entries: &Vec<Entry>) -> (copy: Vec<Entry>)
    ensures
        entry_views(copy@) == entry_views(entries@),
{
    let mut copy: Vec<Entry> = Vec::new();
    for i in 0..entries.len()
        invariant
            copy@.len() == i,
            forall|j: int| 0 <= j < i ==> (#[trigger] copy@[j])@ == entries@[j]@,
    {
        copy.push(entries[i].clone());
    }
    assert(entry_views(copy@) =~= entry_views(entries@));
    copy
}

/// What role a transaction plays in the book. `Normal` is the overwhelming
/// majority; the other two are period boundaries: a close moves what was
/// earned and spent into equity, an open records the first balances.
///
/// The kind is recorded, not inferred from the entries, so that a boundary
/// stays one however it is ordered against transactions of the same day.
#[derive(Debug, Clone, Copy, PartialEq, Eq, Hash, Structural)]
pub enum TransactionKind {
    Normal,
    Close,
    Open,
}

impl Default for TransactionKind {
    fn default() -> (kind: TransactionKind)
        ensures
            kind == TransactionKind::Normal,
    {
        TransactionKind::Normal
    }
}

/// The kind that a text names, if it names one.
pub open spec fn kind_read(s: Seq<char>) -> Option<TransactionKind> {
    if s == "normal"@ {
        Some(TransactionKind::Normal)
    } else if s == "close"@ {
        Some(TransactionKind::Close)
    } else if s == "open"@ {
        Some(TransactionKind::Open)
    } else {
        None
    }
}

impl TransactionKind {
    /// The name of the kind.
    pub open spec fn name(self) -> Seq<char> {
        match self {
            TransactionKind::Normal => "normal"@,
            TransactionKind::Close => "close"@,
            TransactionKind::Open => "open"@,
        }
    }

    /// Whether the kind starts a period.
    pub open spec fn starts_period(self) -> bool {
        self is Close || self is Open
    }

    /// Whether an entry of an account of the class may stand in a
    /// transaction of this kind: a close moves income and expenses into
    /// equity, an open records assets and liabilities against equity.
    pub open spec fn allows(self, class: AccountClass) -> bool {
        match self {
            TransactionKind::Normal => true,
            TransactionKind::Close => class is Income || class is Expense || class is Equity,
            TransactionKind::Open => class is Asset || class is Liability || class is Equity,
        }
    }

    /// The name of the kind.
    pub fn as_str(self) -> (s: &'static str)
        ensures
            s@ == self.name(),
    {
        match self {
            TransactionKind::Normal => "normal",
            TransactionKind::Close => "close",
            TransactionKind::Open => "open",
        }
    }

    /// Both ends of a fiscal period. A summary treats them alike: each one
    /// starts a fresh period, and `Open` additionally means nothing precedes
    /// it.
    pub fn is_boundary(self) -> (yes: bool)
        ensures
            yes == self.starts_period(),
    {
        match self {
            TransactionKind::Normal => false,
            TransactionKind::Close => true,
            TransactionKind::Open => true,
        }
    }

    /// Reads a kind from its name.
    pub fn parse(s: &str) -> (read: Result<TransactionKind, TransactionError>)
        ensures
            match read {
                Ok(kind) => kind_read(s@) == Some(kind),
                Err(e) => kind_read(s@) is None && e@ == TransactionErrorView::UnknownKind(s@),
            },
    {
        if same_text(s, "normal") {
            Ok(TransactionKind::Normal)
        } else if same_text(s, "close") {
            Ok(TransactionKind::Close)
        } else if same_text(s, "open") {
            Ok(TransactionKind::Open)
        } else {
            Err(TransactionError::UnknownKind(s.to_owned()))
        }
    }

    fn allowed(self, class: AccountClass) -> (yes: bool)
        ensures
            yes == self.allows(class),
    {
        match self {
            TransactionKind::Normal => true,
            TransactionKind::Close => class == AccountClass::Income || class
                == AccountClass::Expense || class == AccountClass::Equity,
            TransactionKind::Open => class == AccountClass::Asset || class
                == AccountClass::Liability || class == AccountClass::Equity,
        }
    }
}

/// A kind is read back from its name.
pub proof fn law_kind_names_read_back(kind: TransactionKind)
    ensures
        kind_read(kind.name()) == Some(kind),
{
    reveal_strlit("normal");
    reveal_strlit("close");
    reveal_strlit("open");
    assert("normal"@[0] == 'n' && "close"@[0] == 'c' && "open"@[0] == 'o');
}

/// Why a transaction is refused.
#[derive(Debug, PartialEq, Eq)]
pub enum TransactionError {
    TooFewEntries { got: usize, min: usize },
    Unbalanced { sum: Amount },
    UnknownKind(String),
    UnknownAccount(AccountId),
    WrongShape { kind: TransactionKind, account: AccountId, class: AccountClass },
}

/// Why a transaction is refused, as a value.
#[verifier::ext_equal]
pub enum TransactionErrorView {
    TooFewEntries { got: int, min: int },
    Unbalanced { sum: Dec },
    UnknownKind(Seq<char>),
    UnknownAccount(Seq<char>),
    WrongShape { kind: TransactionKind, account: Seq<char>, class: AccountClass },
}

impl View for TransactionError {
    type V = TransactionErrorView;

    open spec fn view(&self) -> TransactionErrorView {
        match *self {
            TransactionError::TooFewEntries { got, min } => TransactionErrorView::TooFewEntries {
                got: got as int,
                min: min as int,
            },
            TransactionError::Unbalanced { sum } => TransactionErrorView::Unbalanced { sum: sum@ },
            TransactionError::UnknownKind(s) => TransactionErrorView::UnknownKind(s@),
            TransactionError::UnknownAccount(id) => TransactionErrorView::UnknownAccount(id@),
            TransactionError::WrongShape { kind, account, class } => TransactionErrorView::WrongShape {
                kind,
                account: account@,
                class,
            },
        }
    }
}

/// A text as it is written in program text, in double quotes.
pub uninterp spec fn debug_text(s: Seq<char>) -> Seq<char>;

/// `str`'s `Debug` formatting: the text depends on the string alone.
#[verifier::external_body]
pub(crate) fn std_debug_text(s: &str) -> (out: String)
    ensures
        out@ == debug_text(s@),
{
    format!("{:?}", s)
}

impl TransactionErrorView {
    /// What a kind of transaction is called in an error, and its rule.
    pub open spec fn rule(kind: TransactionKind) -> (Seq<char>, Seq<char>) {
        match kind {
            TransactionKind::Close => (
                "a close"@,
                "a close moves income and expense balances into equity"@,
            ),
            TransactionKind::Open => (
                "an open"@,
                "an open records asset and liability balances against equity"@,
            ),
            TransactionKind::Normal => (
                "a normal transaction"@,
                "normal transactions have no restriction"@,
            ),
        }
    }

    /// The error in words.
    pub open spec fn words(self) -> Seq<char> {
        match self {
            TransactionErrorView::TooFewEntries { got, min } => "transaction has "@ + numeral(
                got as nat,
            ) + " entries, minimum is "@ + numeral(min as nat),
            TransactionErrorView::Unbalanced { sum } => "entries do not sum to zero; sum is "@
                + sum.plain_text(),
            TransactionErrorView::UnknownKind(s) => "unknown transaction kind "@ + debug_text(s)
                + " (expected normal, close, or open)"@,
            TransactionErrorView::UnknownAccount(id) => "unknown account: "@ + id,
            TransactionErrorView::WrongShape { kind, account, class } => {
                let (subject, rule) = TransactionErrorView::rule(kind);
                subject + " cannot touch "@ + account + " ("@ + class.name() + "); "@ + rule
            },
        }
    }
}

impl TransactionError {
    /// The error in words.
    pub fn message(&self) -> (s: String)
        ensures
            s@ == self@.words(),
    {
        match self {
            TransactionError::TooFewEntries { got, min } => {
                let mut s = "transaction has ".to_owned();
                s.append(numeral_of(*got).as_str());
                s.append(" entries, minimum is ");
                s.append(numeral_of(*min).as_str());
                s
            },
            TransactionError::Unbalanced { sum } => {
                let mut s = "entries do not sum to zero; sum is ".to_owned();
                s.append(sum.to_text().as_str());
                s
            },
            TransactionError::UnknownKind(name) => {
                let mut s = "unknown transaction kind ".to_owned();
                s.append(std_debug_text(name.as_str()).as_str());
                s.append(" (expected normal, close, or open)");
                s
            },
            TransactionError::UnknownAccount(id) => {
                let mut s = "unknown account: ".to_owned();
                s.append(id.as_str());
                s
            },
            TransactionError::WrongShape { kind, account, class } => {
                let (subject, rule) = match kind {
                    TransactionKind::Close => (
                        "a close",
                        "a close moves income and expense balances into equity",
                    ),
                    TransactionKind::Open => (
                        "an open",
                        "an open records asset and liability balances against equity",
                    ),
                    TransactionKind::Normal => (
                        "a normal transaction",
                        "normal transactions have no restriction",
                    ),
                };
                let mut s = subject.to_owned();
                s.append(" cannot touch ");
                s.append(account.as_str());
                s.append(" (");
                s.append(class_to_str(*class));
                s.append("); ");
                s.append(rule);
                s
            },
        }
    }
}

/// A transaction: amounts moved between accounts at a point in time.
#[derive(Debug, PartialEq, Eq)]
pub struct Transaction {
    pub id: TransactionId,
    pub posted_at: Timestamp,
    pub memo: String,
    pub entries: Vec<Entry>,
    pub kind: TransactionKind,
}

impl View for Transaction {
    type V = TransactionView;

    open spec fn view(&self) -> TransactionView {
        TransactionView {
            id: self.id.0,
            posted_at: self.posted_at@,
            memo: self.memo@,
            entries: entry_views(self.entries@),
            kind: self.kind,
        }
    }
}

impl Clone for Transaction {
    fn clone(&self) -> (copy: Transaction)
        ensures
            copy@ == self@,
    {
        Transaction {
            id: self.id,
            posted_at: self.posted_at,
            memo: self.memo.clone(),
            entries: clone_entries(&self.entries),
            kind: self.kind,
        }
    }
}

/// The transactions as values.
pub open spec fn transaction_views(transactions: Seq<Transaction>) -> Seq<TransactionView> {
    Seq::new(transactions.len(), |i: int| transactions[i]@)
}

/// The fewest entries of a transaction.
pub const MIN_ENTRIES: usize = 2;

/// Why entries make no transaction, if they make none: there are fewer than
/// two, or they do not sum to zero.
pub open spec fn imbalance(entries: Seq<EntryView>) -> Option<TransactionErrorView> {
    if entries.len() < MIN_ENTRIES {
        Some(
            TransactionErrorView::TooFewEntries {
                got: entries.len() as int,
                min: MIN_ENTRIES as int,
            },
        )
    } else {
        let sum = total(amounts(entries)).unwrap();
        if sum.mantissa != 0 {
            Some(TransactionErrorView::Unbalanced { sum })
        } else {
            None
        }
    }
}

/// Why an entry does not fit a kind of transaction, if it does not.
pub open spec fn entry_misfit(
    e: EntryView,
    kind: TransactionKind,
    classes: Map<Seq<char>, AccountClass>,
) -> Option<TransactionErrorView> {
    if !classes.dom().contains(e.account) {
        Some(TransactionErrorView::UnknownAccount(e.account))
    } else if !kind.allows(classes[e.account]) {
        Some(
            TransactionErrorView::WrongShape {
                kind,
                account: e.account,
                class: classes[e.account],
            },
        )
    } else {
        None
    }
}

/// Why the first entry that does not fit a kind of transaction does not, if
/// there is one.
pub open spec fn misfit(
    entries: Seq<EntryView>,
    kind: TransactionKind,
    classes: Map<Seq<char>, AccountClass>,
) -> Option<TransactionErrorView>
    decreases entries.len(),
{
    if entries.len() == 0 {
        None
    } else {
        match entry_misfit(entries[0], kind, classes) {
            Some(e) => Some(e),
            None => misfit(entries.drop_first(), kind, classes),
        }
    }
}

/// The classes of some accounts and of those that come to them.
pub open spec fn classes_with(
    base: Map<Seq<char>, AccountClass>,
    accounts: Seq<(Seq<char>, AccountClass)>,
) -> Map<Seq<char>, AccountClass>
    decreases accounts.len(),
{
    if accounts.len() == 0 {
        base
    } else {
        classes_with(base, accounts.drop_last()).insert(accounts.last().0, accounts.last().1)
    }
}

/// The classes of some accounts and of those that come to them.
pub(crate) fn add_classes(base: AccountMap<AccountClass>, accounts: &Vec<Account>) -> (classes:
    AccountMap<AccountClass>)
    ensures
        classes@ == classes_with(base@, account_views(accounts@)),
{
    let ghost all = account_views(accounts@);
    let ghost start = base@;
    let mut classes: AccountMap<AccountClass> = base;
    assert(all.take(0) =~= Seq::empty());
    for i in 0..accounts.len()
        invariant
            all == account_views(accounts@),
            classes@ == classes_with(start, all.take(i as int)),
    {
        assert(all.take(i + 1).drop_last() =~= all.take(i as int));
        classes.insert(&accounts[i].id, accounts[i].class);
    }
    assert(all.take(all.len() as int) =~= all);
    classes
}

/// Whether an entry is of the account.
pub(crate) fn speaks_of(entries: &Vec<Entry>, account: &AccountId) -> (yes: bool)
    ensures
        yes == mentions(entry_views(entries@), account@),
{
    for i in 0..entries.len()
        invariant
            forall|j: int| 0 <= j < i ==> entry_views(entries@)[j].account != account@,
    {
        if entries[i].account.same(account) {
            assert(entry_views(entries@)[i as int].account == account@);
            return true;
        }
    }
    false
}

/// The sum of the amounts of the entries, or nothing where one of the sums
/// on the way is out of range.
pub fn checked_sum(entries: &Vec<Entry>) -> (sum: Option<Amount>)
    ensures
        total(amounts(entry_views(entries@))) == (match sum {
            Some(s) => Some(s@),
            None => None,
        }),
        sum is Some ==> entries_wf(entry_views(entries@)),
{
    let ghost all = amounts(entry_views(entries@));
    let mut sum: Amount = Amount::zero();
    for i in 0..entries.len()
        invariant
            all == amounts(entry_views(entries@)),
            total(all.take(i as int)) == Some(sum@),
            forall|j: int| 0 <= j < i ==> (#[trigger] entry_views(entries@)[j]).amount.wf(),
    {
        proof {
            lemma_total_push(all.take(i as int), all[i as int]);
            assert(all.take(i + 1) =~= all.take(i as int).push(all[i as int]));
        }
        match sum.checked_plus(&entries[i].amount) {
            Some(next) => {
                sum = next;
            },
            None => {
                proof {
                    if total(all) is Some {
                        lemma_total_prefix(all, i + 1);
                    }
                }
                return None;
            },
        }
    }
    assert(all.take(all.len() as int) =~= all);
    Some(sum)
}

/// The balance of every account that the entries speak of, or nothing where
/// one of the sums on the way is out of range.
pub fn checked_balances(entries: &Vec<Entry>) -> (balances: Option<AccountMap<Amount>>)
    ensures
        match balances {
            Some(map) => summable(entry_views(entries@)) && map@ == balances_of(
                entry_views(entries@),
            ),
            None => !summable(entry_views(entries@)),
        },
{
    let ghost all = entry_views(entries@);
    let mut map: AccountMap<Amount> = AccountMap::new();
    proof {
        assert(all.take(0) =~= Seq::empty());
        assert forall|a: Seq<char>| total(#[trigger] account_amounts(all.take(0), a)) is Some by {
            lemma_unmentioned(all.take(0), a);
        }
        assert(map@ =~= balances_of(all.take(0)));
    }
    for i in 0..entries.len()
        invariant
            all == entry_views(entries@),
            summable(all.take(i as int)),
            map@ == balances_of(all.take(i as int)),
    {
        let ghost before = all.take(i as int);
        let ghost e = all[i as int];
        let id = &entries[i].account;
        let balance: Amount = match map.get(id) {
            Some(b) => b,
            None => Amount::zero(),
        };
        proof {
            assert(all.take(i + 1) =~= before.push(e));
            lemma_balances_push(before, e);
            lemma_total_push(account_amounts(before, e.account), e.amount);
            assert(total(account_amounts(before, e.account)) is Some);
            if !crate::book::mentions(before, e.account) {
                lemma_unmentioned(before, e.account);
            }
            assert(total(account_amounts(before, e.account)) == Some(balance@));
        }
        match balance.checked_plus(&entries[i].amount) {
            Some(next) => {
                map.insert(id, next);
                proof {
                    let after = before.push(e);
                    assert forall|a: Seq<char>| total(#[trigger] account_amounts(after, a)) is Some by {
                        if a != e.account {
                            assert(account_amounts(after, a) == account_amounts(before, a));
                        }
                    }
                    assert forall|a: Seq<char>| #[trigger] map@.dom().contains(a) implies map@[a]
                        == balances_of(after)[a] by {
                        if a != e.account {
                            assert(account_amounts(after, a) == account_amounts(before, a));
                        }
                    }
                    assert(map@ =~= balances_of(after));
                }
            },
            None => {
                proof {
                    if summable(all) {
                        lemma_summable_prefix(all, i + 1);
                        assert(total(account_amounts(all.take(i + 1), e.account)) is Some);
                    }
                }
                return None;
            },
        }
    }
    assert(all.take(all.len() as int) =~= all);
    Some(map)
}

impl Transaction {
    /// A normal transaction, if there are two entries or more and they sum
    /// to zero.
    pub fn new(
        id: TransactionId,
        posted_at: Timestamp,
        memo: String,
        entries: Vec<Entry>,
    ) -> (made: Result<Transaction, TransactionError>)
        requires
            entries.len() >= MIN_ENTRIES ==> total(amounts(entry_views(entries@))) is Some,
        ensures
            match made {
                Ok(tx) => imbalance(entry_views(entries@)) is None && tx@ == (TransactionView {
                    id: id.0,
                    posted_at: posted_at@,
                    memo: memo@,
                    entries: entry_views(entries@),
                    kind: TransactionKind::Normal,
                }),
                Err(e) => imbalance(entry_views(entries@)) == Some(e@),
            },
    {
        if entries.len() < MIN_ENTRIES {
            return Err(TransactionError::TooFewEntries { got: entries.len(), min: MIN_ENTRIES });
        }
        let sum: Amount = checked_sum(&entries).unwrap();
        if !sum.is_zero() {
            return Err(TransactionError::Unbalanced { sum });
        }
        Ok(Transaction { id, posted_at, memo, entries, kind: TransactionKind::Normal })
    }

    /// Record this transaction as one of a kind.
    ///
    /// The kind is checked against the entries so that a marker never
    /// describes a transaction that is not shaped like one: a close only
    /// moves nominal balances into equity, an open only records real
    /// balances against equity.
    pub fn with_kind(
        self,
        kind: TransactionKind,
        classes: &AccountMap<AccountClass>,
    ) -> (made: Result<Transaction, TransactionError>)
        ensures
            match made {
                Ok(tx) => misfit(self@.entries, kind, classes@) is None && tx@ == (TransactionView {
                    kind,
                    ..self@
                }),
                Err(e) => misfit(self@.entries, kind, classes@) == Some(e@),
            },
    {
        let ghost all = entry_views(self.entries@);
        assert(all.skip(0) =~= all);
        for i in 0..self.entries.len()
            invariant
                all == entry_views(self.entries@),
                misfit(all, kind, classes@) == misfit(all.skip(i as int), kind, classes@),
        {
            let account = &self.entries[i].account;
            assert(all.skip(i as int)[0] == all[i as int]);
            assert(all.skip(i as int).drop_first() =~= all.skip(i + 1));
            match classes.get(account) {
                None => {
                    return Err(TransactionError::UnknownAccount(account.clone()));
                },
                Some(class) => {
                    if !kind.allowed(class) {
                        return Err(
                            TransactionError::WrongShape { kind, account: account.clone(), class },
                        );
                    }
                },
            }
        }
        Ok(
            Transaction {
                id: self.id,
                posted_at: self.posted_at,
                memo: self.memo,
                entries: self.entries,
                kind,
            },
        )
    }

    /// A transaction as it was stored, without any check.
    pub fn from_raw(
        id: TransactionId,
        posted_at: Timestamp,
        memo: String,
        entries: Vec<Entry>,
        kind: TransactionKind,
    ) -> (tx: Transaction)
        ensures
            tx@ == (TransactionView {
                id: id.0,
                posted_at: posted_at@,
                memo: memo@,
                entries: entry_views(entries@),
                kind,
            }),
    {
        Transaction { id, posted_at, memo, entries, kind }
    }

    /// What the transaction adds to each of its accounts.
    pub fn balance_by_account(&self) -> (balances: AccountMap<Amount>)
        requires
            summable(self@.entries),
        ensures
            balances@ == balances_of(self@.entries),
    {
        checked_balances(&self.entries).unwrap()
    }
}

} // verus!
