//! Accounts and transactions as rows of text, and back.

use vstd::prelude::*;
use vstd::string::*;

use crate::account_id::{id_read, is_plain_id, law_plain_ids_read_back, AccountId};
use crate::book::{EntryView, TransactionView};
use crate::decimal::{amount_read, Amount};
use crate::model::{
    class_named, class_read, class_to_str, entry_views, kind_read, law_class_names_read_back,
    law_kind_names_read_back, transaction_views, Account, AccountClass, Entry, Transaction,
    TransactionError, TransactionErrorView, TransactionKind,
};
use crate::text::{glued, same_text, string_views};
use crate::time::{in_time, timestamp_read, timestamp_text, writes_timestamp, Timestamp};
use crate::transaction_id::{id_number, id_text, law_ids_read_back, TransactionId};

verus! {

/// Why something cannot be stored or read back.
#[derive(Debug)]
pub enum StorageError {
    InvalidClass(String),
    InvalidUlid(String),
    InvalidTimestamp(String),
    InvalidDecimal(String),
    InvalidAccountId(String),
    UnknownAccount(String),
    UnknownTransaction(String),
    InvalidTransaction(TransactionError),
    InvalidKind(String),
}

/// Why something cannot be stored or read back, as a value.
#[verifier::ext_equal]
pub enum StorageErrorView {
    InvalidClass(Seq<char>),
    InvalidUlid(Seq<char>),
    InvalidTimestamp(Seq<char>),
    InvalidDecimal(Seq<char>),
    InvalidAccountId(Seq<char>),
    UnknownAccount(Seq<char>),
    UnknownTransaction(Seq<char>),
    InvalidTransaction(TransactionErrorView),
    InvalidKind(Seq<char>),
}

impl View for StorageError {
    type V = StorageErrorView;

    open spec fn view(&self) -> StorageErrorView {
        match *self {
            StorageError::InvalidClass(s) => StorageErrorView::InvalidClass(s@),
            StorageError::InvalidUlid(s) => StorageErrorView::InvalidUlid(s@),
            StorageError::InvalidTimestamp(s) => StorageErrorView::InvalidTimestamp(s@),
            StorageError::InvalidDecimal(s) => StorageErrorView::InvalidDecimal(s@),
            StorageError::InvalidAccountId(s) => StorageErrorView::InvalidAccountId(s@),
            StorageError::UnknownAccount(s) => StorageErrorView::UnknownAccount(s@),
            StorageError::UnknownTransaction(s) => StorageErrorView::UnknownTransaction(s@),
            StorageError::InvalidTransaction(e) => StorageErrorView::InvalidTransaction(e@),
            StorageError::InvalidKind(s) => StorageErrorView::InvalidKind(s@),
        }
    }
}

impl StorageErrorView {
    /// The error in words.
    pub open spec fn words(self) -> Seq<char> {
        match self {
            StorageErrorView::InvalidClass(s) => "invalid account class in db: "@ + s,
            StorageErrorView::InvalidUlid(s) => "invalid ulid in db: "@ + s,
            StorageErrorView::InvalidTimestamp(s) => "invalid timestamp in db: "@ + s,
            StorageErrorView::InvalidDecimal(s) => "invalid decimal in db: "@ + s,
            StorageErrorView::InvalidAccountId(s) => "invalid account id in db: "@ + s,
            StorageErrorView::UnknownAccount(s) => "unknown account: "@ + s,
            StorageErrorView::UnknownTransaction(s) => "unknown transaction: "@ + s,
            StorageErrorView::InvalidTransaction(e) => "invalid transaction: "@ + e.words(),
            StorageErrorView::InvalidKind(s) => "invalid transaction kind in db: "@ + s,
        }
    }
}

impl StorageError {
    /// The error in words.
    pub fn message(&self) -> (s: String)
        ensures
            s@ == self@.words(),
    {
        match self {
            StorageError::InvalidClass(s) => glued("invalid account class in db: ", s.as_str()),
            StorageError::InvalidUlid(s) => glued("invalid ulid in db: ", s.as_str()),
            StorageError::InvalidTimestamp(s) => glued("invalid timestamp in db: ", s.as_str()),
            StorageError::InvalidDecimal(s) => glued("invalid decimal in db: ", s.as_str()),
            StorageError::InvalidAccountId(s) => glued("invalid account id in db: ", s.as_str()),
            StorageError::UnknownAccount(s) => glued("unknown account: ", s.as_str()),
            StorageError::UnknownTransaction(s) => glued("unknown transaction: ", s.as_str()),
            StorageError::InvalidTransaction(e) => glued(
                "invalid transaction: ",
                e.message().as_str(),
            ),
            StorageError::InvalidKind(s) => glued("invalid transaction kind in db: ", s.as_str()),
        }
    }
}

/// An account as it is stored.
#[derive(Debug, PartialEq, Eq)]
pub struct AccountRow {
    pub id: String,
    pub class: String,
}

/// A transaction as it is stored, without its entries.
#[derive(Debug, PartialEq, Eq)]
pub struct TransactionRow {
    pub id: String,
    pub posted_at: String,
    pub memo: String,
    pub kind: String,
}

/// An entry as it is stored.
#[derive(Debug, PartialEq, Eq)]
pub struct EntryRow {
    pub account: String,
    pub amount: String,
}

/// An entry as it is stored, beside its transaction.
#[derive(Debug, PartialEq, Eq)]
pub struct JoinedRow {
    pub transaction: TransactionRow,
    pub entry: EntryRow,
}

/// A transaction as it is stored, as text.
#[verifier::ext_equal]
pub struct TransactionRowView {
    pub id: Seq<char>,
    pub posted_at: Seq<char>,
    pub memo: Seq<char>,
    pub kind: Seq<char>,
}

/// An entry as it is stored, as text.
#[verifier::ext_equal]
pub struct EntryRowView {
    pub account: Seq<char>,
    pub amount: Seq<char>,
}

/// An entry beside its transaction, as text.
#[verifier::ext_equal]
pub struct JoinedRowView {
    pub transaction: TransactionRowView,
    pub entry: EntryRowView,
}

impl View for AccountRow {
    type V = (Seq<char>, Seq<char>);

    open spec fn view(&self) -> (Seq<char>, Seq<char>) {
        (self.id@, self.class@)
    }
}

impl View for TransactionRow {
    type V = TransactionRowView;

    open spec fn view(&self) -> TransactionRowView {
        TransactionRowView {
            id: self.id@,
            posted_at: self.posted_at@,
            memo: self.memo@,
            kind: self.kind@,
        }
    }
}

impl View for EntryRow {
    type V = EntryRowView;

    open spec fn view(&self) -> EntryRowView {
        EntryRowView { account: self.account@, amount: self.amount@ }
    }
}

impl View for JoinedRow {
    type V = JoinedRowView;

    open spec fn view(&self) -> JoinedRowView {
        JoinedRowView { transaction: self.transaction@, entry: self.entry@ }
    }
}

/// Stored accounts, as text.
pub open spec fn account_row_views(rows: Seq<AccountRow>) -> Seq<(Seq<char>, Seq<char>)> {
    Seq::new(rows.len(), |i: int| rows[i]@)
}

/// Stored entries, as text.
pub open spec fn entry_row_views(rows: Seq<EntryRow>) -> Seq<EntryRowView> {
    Seq::new(rows.len(), |i: int| rows[i]@)
}

/// Stored entries beside their transactions, as text.
pub open spec fn joined_row_views(rows: Seq<JoinedRow>) -> Seq<JoinedRowView> {
    Seq::new(rows.len(), |i: int| rows[i]@)
}

/// Accounts, as values.
pub open spec fn account_views(accounts: Seq<Account>) -> Seq<(Seq<char>, AccountClass)> {
    Seq::new(accounts.len(), |i: int| accounts[i]@)
}

/// The class that a stored text names.
pub fn class_from_str(s: &str) -> (read: Result<AccountClass, StorageError>)
    ensures
        match read {
            Ok(class) => class_read(s@) == Some(class),
            Err(e) => class_read(s@) is None && e@ == StorageErrorView::InvalidClass(s@),
        },
{
    match class_named(s) {
        Some(class) => Ok(class),
        None => Err(StorageError::InvalidClass(s.to_owned())),
    }
}

/// Whether a database of these columns of transactions lacks the one for
/// their kind.
pub fn lacks_kind_column(names: &Vec<String>) -> (lacks: bool)
    ensures
        lacks == !string_views(names@).contains("kind"@),
{
    for i in 0..names.len()
        invariant
            forall|j: int| 0 <= j < i ==> string_views(names@)[j] != "kind"@,
    {
        if same_text(names[i].as_str(), "kind") {
            assert(string_views(names@)[i as int] == "kind"@);
            return false;
        }
    }
    true
}

/// An account as it is stored.
pub fn account_row(account: &Account) -> (row: AccountRow)
    ensures
        row@ == (account@.0, account@.1.name()),
{
    AccountRow {
        id: account.id.as_str().to_owned(),
        class: class_to_str(account.class).to_owned(),
    }
}

/// The account that a row holds.
pub open spec fn account_row_read(row: (Seq<char>, Seq<char>)) -> Result<
    (Seq<char>, AccountClass),
    StorageErrorView,
> {
    match id_read(row.0) {
        Err(_) => Err(StorageErrorView::InvalidAccountId(row.0)),
        Ok(id) => match class_read(row.1) {
            None => Err(StorageErrorView::InvalidClass(row.1)),
            Some(class) => Ok((id, class)),
        },
    }
}

/// The accounts that the rows hold, or why the first that holds none does
/// not.
pub open spec fn account_rows_read(rows: Seq<(Seq<char>, Seq<char>)>) -> Result<
    Seq<(Seq<char>, AccountClass)>,
    StorageErrorView,
>
    decreases rows.len(),
{
    if rows.len() == 0 {
        Ok(Seq::empty())
    } else {
        match account_rows_read(rows.drop_last()) {
            Err(e) => Err(e),
            Ok(accounts) => match account_row_read(rows.last()) {
                Err(e) => Err(e),
                Ok(account) => Ok(accounts.push(account)),
            },
        }
    }
}

proof fn lemma_account_rows_error(rows: Seq<(Seq<char>, Seq<char>)>, n: int)
    requires
        0 <= n <= rows.len(),
        account_rows_read(rows.take(n)) is Err,
    ensures
        account_rows_read(rows) == account_rows_read(rows.take(n)),
    decreases rows.len(),
{
    if n == rows.len() {
        assert(rows.take(n) =~= rows);
    } else {
        assert(rows.drop_last().take(n) =~= rows.take(n));
        lemma_account_rows_error(rows.drop_last(), n);
    }
}

/// The accounts that the rows hold.
pub fn accounts_from_rows(rows: &Vec<AccountRow>) -> (read: Result<Vec<Account>, StorageError>)
    ensures
        match read {
            Ok(accounts) => account_rows_read(account_row_views(rows@)) == Ok::<
                Seq<(Seq<char>, AccountClass)>,
                StorageErrorView,
            >(account_views(accounts@)),
            Err(e) => account_rows_read(account_row_views(rows@)) == Err::<
                Seq<(Seq<char>, AccountClass)>,
                StorageErrorView,
            >(e@),
        },
{
    let ghost all = account_row_views(rows@);
    let mut accounts: Vec<Account> = Vec::new();
    assert(account_views(accounts@) =~= Seq::empty());
    for i in 0..rows.len()
        invariant
            all == account_row_views(rows@),
            account_rows_read(all.take(i as int)) == Ok::<
                Seq<(Seq<char>, AccountClass)>,
                StorageErrorView,
            >(account_views(accounts@)),
    {
        let row = &rows[i];
        assert(all.take(i + 1).drop_last() =~= all.take(i as int));
        let id = match AccountId::parse(row.id.as_str()) {
            Ok(id) => id,
            Err(_) => {
                proof {
                    lemma_account_rows_error(all, i + 1);
                }
                return Err(StorageError::InvalidAccountId(row.id.clone()));
            },
        };
        let class = match class_from_str(row.class.as_str()) {
            Ok(class) => class,
            Err(e) => {
                proof {
                    lemma_account_rows_error(all, i + 1);
                }
                return Err(e);
            },
        };
        let ghost was = accounts@;
        accounts.push(Account { id, class });
        assert(account_views(accounts@) =~= account_views(was).push((id@, class)));
    }
    assert(all.take(all.len() as int) =~= all);
    Ok(accounts)
}

/// An account is read back as it was stored, if its id has the form of one.
pub proof fn law_accounts_read_back(account: (Seq<char>, AccountClass))
    requires
        is_plain_id(account.0),
    ensures
        account_row_read((account.0, account.1.name())) == Ok::<
            (Seq<char>, AccountClass),
            StorageErrorView,
        >(account),
{
    law_plain_ids_read_back(account.0);
    law_class_names_read_back(account.1);
}

/// The first of the entries whose account is not registered.
pub open spec fn first_unregistered(entries: Seq<EntryView>, registered: Seq<bool>) -> Option<
    Seq<char>,
>
    decreases entries.len(),
{
    if entries.len() == 0 {
        None
    } else if !registered[0] {
        Some(entries[0].account)
    } else {
        first_unregistered(entries.drop_first(), registered.drop_first())
    }
}

/// Whether a transaction can be stored: the account of every entry is
/// registered. `registered` says so for each entry.
pub fn check_registered(tx: &Transaction, registered: &Vec<bool>) -> (checked: Result<
    (),
    StorageError,
>)
    requires
        registered.len() == tx.entries.len(),
    ensures
        match checked {
            Ok(()) => first_unregistered(tx@.entries, registered@) is None,
            Err(e) => first_unregistered(tx@.entries, registered@) matches Some(a) && e@
                == StorageErrorView::UnknownAccount(a),
        },
{
    let ghost all = entry_views(tx.entries@);
    assert(all.skip(0) =~= all);
    assert(registered@.skip(0) =~= registered@);
    for i in 0..tx.entries.len()
        invariant
            registered.len() == tx.entries.len(),
            all == entry_views(tx.entries@),
            first_unregistered(all, registered@) == first_unregistered(
                all.skip(i as int),
                registered@.skip(i as int),
            ),
    {
        assert(all.skip(i as int)[0] == all[i as int]);
        assert(registered@.skip(i as int)[0] == registered@[i as int]);
        assert(all.skip(i as int).drop_first() =~= all.skip(i + 1));
        assert(registered@.skip(i as int).drop_first() =~= registered@.skip(i + 1));
        if !registered[i] {
            return Err(
                StorageError::UnknownAccount(tx.entries[i].account.as_str().to_owned()),
            );
        }
    }
    Ok(())
}

/// Whether a deletion that changed so many rows found its transaction.
pub fn check_deleted(id: TransactionId, changed: usize) -> (checked: Result<(), StorageError>)
    ensures
        match checked {
            Ok(()) => changed > 0,
            Err(e) => changed == 0 && e@ == StorageErrorView::UnknownTransaction(
                id_text(id.0 as int),
            ),
        },
{
    if changed == 0 {
        Err(StorageError::UnknownTransaction(id.to_text()))
    } else {
        Ok(())
    }
}

/// A transaction as it is stored, as text.
pub open spec fn transaction_row_of(tx: TransactionView) -> TransactionRowView {
    TransactionRowView {
        id: id_text(tx.id as int),
        posted_at: timestamp_text(tx.posted_at),
        memo: tx.memo,
        kind: tx.kind.name(),
    }
}

/// An entry as it is stored, as text.
pub open spec fn entry_row_of(e: EntryView) -> EntryRowView {
    EntryRowView { account: e.account, amount: e.amount.plain_text() }
}

/// Entries as they are stored, as text.
pub open spec fn entry_rows_of(entries: Seq<EntryView>) -> Seq<EntryRowView> {
    Seq::new(entries.len(), |i: int| entry_row_of(entries[i]))
}

/// A transaction as it is stored.
pub fn transaction_row(tx: &Transaction) -> (row: TransactionRow)
    ensures
        row@ == transaction_row_of(tx@),
{
    TransactionRow {
        id: tx.id.to_text(),
        posted_at: tx.posted_at.to_text(),
        memo: tx.memo.clone(),
        kind: tx.kind.as_str().to_owned(),
    }
}

/// The entries of a transaction as they are stored.
pub fn entry_rows(tx: &Transaction) -> (rows: Vec<EntryRow>)
    ensures
        entry_row_views(rows@) == entry_rows_of(tx@.entries),
{
    let ghost all = entry_views(tx.entries@);
    let mut rows: Vec<EntryRow> = Vec::new();
    for i in 0..tx.entries.len()
        invariant
            all == entry_views(tx.entries@),
            rows@.len() == i,
            forall|j: int| 0 <= j < i ==> (#[trigger] rows@[j])@ == entry_row_of(all[j]),
    {
        let e = &tx.entries[i];
        rows.push(
            EntryRow { account: e.account.as_str().to_owned(), amount: e.amount.to_text() },
        );
    }
    assert(entry_row_views(rows@) =~= entry_rows_of(tx@.entries));
    rows
}

/// The entry that a row holds.
pub open spec fn entry_row_read(row: EntryRowView) -> Result<EntryView, StorageErrorView> {
    match id_read(row.account) {
        Err(_) => Err(StorageErrorView::InvalidAccountId(row.account)),
        Ok(account) => match amount_read(row.amount) {
            Err(_) => Err(StorageErrorView::InvalidDecimal(row.amount)),
            Ok(amount) => Ok(EntryView { account, amount }),
        },
    }
}

/// Whether the row is how the entry is stored, and its account id has the
/// form of one.
pub open spec fn stores_entry(e: EntryView, row: EntryRowView) -> bool {
    e.amount.wf() && is_plain_id(e.account) && row == entry_row_of(e)
}

/// The entry that a row holds.
fn entry_from_row(row: &EntryRow) -> (read: Result<Entry, StorageError>)
    ensures
        match read {
            Ok(e) => entry_row_read(row@) == Ok::<EntryView, StorageErrorView>(e@),
            Err(e) => entry_row_read(row@) == Err::<EntryView, StorageErrorView>(e@),
        },
        forall|e: EntryView|
            #[trigger] stores_entry(e, row@) ==> entry_row_read(row@) == Ok::<
                EntryView,
                StorageErrorView,
            >(e),
{
    let ghost v = row@;
    let account = AccountId::parse(row.account.as_str());
    let amount = Amount::parse(row.amount.as_str());
    proof {
        assert forall|e: EntryView| #[trigger] stores_entry(e, v) implies entry_row_read(v) == Ok::<
            EntryView,
            StorageErrorView,
        >(e) by {
            law_plain_ids_read_back(e.account);
            assert(e.amount.writes(v.amount));
        }
    }
    match account {
        Err(_) => Err(StorageError::InvalidAccountId(row.account.clone())),
        Ok(account) => match amount {
            Err(_) => Err(StorageError::InvalidDecimal(row.amount.clone())),
            Ok(amount) => Ok(Entry { account, amount }),
        },
    }
}

/// The entries that the rows hold, or why the first that holds none does
/// not.
pub open spec fn entry_rows_read(rows: Seq<EntryRowView>) -> Result<
    Seq<EntryView>,
    StorageErrorView,
>
    decreases rows.len(),
{
    if rows.len() == 0 {
        Ok(Seq::empty())
    } else {
        match entry_rows_read(rows.drop_last()) {
            Err(e) => Err(e),
            Ok(entries) => match entry_row_read(rows.last()) {
                Err(e) => Err(e),
                Ok(entry) => Ok(entries.push(entry)),
            },
        }
    }
}

proof fn lemma_entry_rows_error(rows: Seq<EntryRowView>, n: int)
    requires
        0 <= n <= rows.len(),
        entry_rows_read(rows.take(n)) is Err,
    ensures
        entry_rows_read(rows) == entry_rows_read(rows.take(n)),
    decreases rows.len(),
{
    if n == rows.len() {
        assert(rows.take(n) =~= rows);
    } else {
        assert(rows.drop_last().take(n) =~= rows.take(n));
        lemma_entry_rows_error(rows.drop_last(), n);
    }
}

/// Whether the rows are how the entries are stored, and their account ids
/// have the form of ids.
pub open spec fn stores_entries(entries: Seq<EntryView>, rows: Seq<EntryRowView>) -> bool {
    &&& entries.len() == rows.len()
    &&& forall|i: int| 0 <= i < entries.len() ==> stores_entry(#[trigger] entries[i], rows[i])
}

/// The entries that the rows hold. What was stored is read back as it was.
pub fn entries_from_rows(rows: &Vec<EntryRow>) -> (read: Result<Vec<Entry>, StorageError>)
    ensures
        match read {
            Ok(entries) => entry_rows_read(entry_row_views(rows@)) == Ok::<
                Seq<EntryView>,
                StorageErrorView,
            >(entry_views(entries@)),
            Err(e) => entry_rows_read(entry_row_views(rows@)) == Err::<
                Seq<EntryView>,
                StorageErrorView,
            >(e@),
        },
        forall|entries: Seq<EntryView>| #[trigger]
            stores_entries(entries, entry_row_views(rows@)) ==> (read matches Ok(found)
                && entry_views(found@) == entries),
{
    let ghost all = entry_row_views(rows@);
    let mut entries: Vec<Entry> = Vec::new();
    assert(entry_views(entries@) =~= Seq::empty());
    for i in 0..rows.len()
        invariant
            all == entry_row_views(rows@),
            entries@.len() == i,
            entry_rows_read(all.take(i as int)) == Ok::<Seq<EntryView>, StorageErrorView>(
                entry_views(entries@),
            ),
            forall|stored: Seq<EntryView>| #[trigger]
                stores_entries(stored, all) ==> entry_views(entries@) == stored.take(i as int),
    {
        assert(all.take(i + 1).drop_last() =~= all.take(i as int));
        let ghost was = entry_views(entries@);
        match entry_from_row(&rows[i]) {
            Err(e) => {
                proof {
                    lemma_entry_rows_error(all, i + 1);
                    assert forall|stored: Seq<EntryView>| #[trigger] stores_entries(stored, all) implies false by {
                        assert(stores_entry(stored[i as int], all[i as int]));
                    }
                }
                return Err(e);
            },
            Ok(entry) => {
                entries.push(entry);
                proof {
                    assert(entry_views(entries@) =~= was.push(entry@));
                    assert forall|stored: Seq<EntryView>| #[trigger] stores_entries(stored, all) implies entry_views(
                        entries@,
                    ) == stored.take(i + 1) by {
                        assert(stores_entry(stored[i as int], all[i as int]));
                        assert(stored.take(i + 1) =~= stored.take(i as int).push(stored[i as int]));
                    }
                }
            },
        }
    }
    proof {
        assert(all.take(all.len() as int) =~= all);
        assert forall|stored: Seq<EntryView>| #[trigger] stores_entries(stored, all) implies entry_views(
            entries@,
        ) == stored by {
            assert(stored.take(all.len() as int) =~= stored);
        }
    }
    Ok(entries)
}

/// The point in time and the kind that a stored transaction has.
pub open spec fn header_read(row: TransactionRowView) -> Result<
    (int, TransactionKind),
    StorageErrorView,
> {
    match timestamp_read(row.posted_at) {
        None => Err(StorageErrorView::InvalidTimestamp(row.posted_at)),
        Some(posted_at) => match kind_read(row.kind) {
            None => Err(StorageErrorView::InvalidKind(row.kind)),
            Some(kind) => Ok((posted_at, kind)),
        },
    }
}

/// Whether the row is how the transaction is stored.
pub open spec fn stores_header(tx: TransactionView, row: TransactionRowView) -> bool {
    in_time(tx.posted_at) && row == transaction_row_of(tx)
}

/// The point in time and the kind that a stored transaction has. What was
/// stored is read back as it was.
pub fn header_from_row(row: &TransactionRow) -> (read: Result<
    (Timestamp, TransactionKind),
    StorageError,
>)
    ensures
        match read {
            Ok((t, kind)) => header_read(row@) == Ok::<(int, TransactionKind), StorageErrorView>(
                (t@, kind),
            ),
            Err(e) => header_read(row@) == Err::<(int, TransactionKind), StorageErrorView>(e@),
        },
        forall|tx: TransactionView|
            #[trigger] stores_header(tx, row@) ==> header_read(row@) == Ok::<
                (int, TransactionKind),
                StorageErrorView,
            >((tx.posted_at, tx.kind)),
{
    let ghost v = row@;
    let posted_at = Timestamp::parse(row.posted_at.as_str());
    proof {
        assert forall|tx: TransactionView| #[trigger] stores_header(tx, v) implies header_read(v) == Ok::<
            (int, TransactionKind),
            StorageErrorView,
        >((tx.posted_at, tx.kind)) by {
            assert(writes_timestamp(tx.posted_at, v.posted_at));
            law_kind_names_read_back(tx.kind);
        }
    }
    match posted_at {
        None => Err(StorageError::InvalidTimestamp(row.posted_at.clone())),
        Some(t) => match TransactionKind::parse(row.kind.as_str()) {
            Err(_) => Err(StorageError::InvalidKind(row.kind.clone())),
            Ok(kind) => Ok((t, kind)),
        },
    }
}

/// The transaction of an id from the row that was found for it, if one was,
/// and from its entries. What was stored is read back as it was.
pub fn transaction_from_rows(
    id: TransactionId,
    found: &Option<TransactionRow>,
    rows: &Vec<EntryRow>,
) -> (read: Result<Transaction, StorageError>)
    ensures
        match *found {
            None => read matches Err(e) && e@ == StorageErrorView::UnknownTransaction(
                id_text(id.0 as int),
            ),
            Some(row) => match header_read(row@) {
                Err(e) => read matches Err(f) && f@ == e,
                Ok((posted_at, kind)) => match entry_rows_read(entry_row_views(rows@)) {
                    Err(e) => read matches Err(f) && f@ == e,
                    Ok(entries) => read matches Ok(tx) && tx@ == (TransactionView {
                        id: id.0,
                        posted_at,
                        memo: row.memo@,
                        entries,
                        kind,
                    }),
                },
            },
        },
        forall|tx: TransactionView|
            tx.id == id.0 && (*found matches Some(row) && stores_header(tx, row@)) && #[trigger]
            stores_entries(tx.entries, entry_row_views(rows@)) ==> (read matches Ok(got) && got@ == tx),
{
    match found {
        None => Err(StorageError::UnknownTransaction(id.to_text())),
        Some(row) => match header_from_row(row) {
            Err(e) => {
                proof {
                    assert forall|tx: TransactionView|
                        stores_header(tx, row@) && #[trigger] stores_entries(
                            tx.entries,
                            entry_row_views(rows@),
                        ) implies false by {
                        assert(stores_header(tx, row@));
                    }
                }
                Err(e)
            },
            Ok((posted_at, kind)) => match entries_from_rows(rows) {
                Err(e) => Err(e),
                Ok(entries) => {
                    let tx = Transaction::from_raw(id, posted_at, row.memo.clone(), entries, kind);
                    proof {
                        assert forall|t: TransactionView|
                            t.id == id.0 && stores_header(t, row@) && #[trigger] stores_entries(
                                t.entries,
                                entry_row_views(rows@),
                            ) implies tx@ == t by {
                            assert(stores_header(t, row@));
                        }
                    }
                    Ok(tx)
                },
            },
        },
    }
}

/// What a row of an entry beside its transaction holds.
#[verifier::ext_equal]
pub struct JoinedView {
    pub id: u128,
    pub posted_at: int,
    pub memo: Seq<char>,
    pub kind: TransactionKind,
    pub entry: EntryView,
}

/// What a row of an entry beside its transaction holds.
#[verifier::opaque]
pub open spec fn joined_read(row: JoinedRowView) -> Result<JoinedView, StorageErrorView> {
    match id_number(row.transaction.id) {
        None => Err(StorageErrorView::InvalidUlid(row.transaction.id)),
        Some(id) => match header_read(row.transaction) {
            Err(e) => Err(e),
            Ok((posted_at, kind)) => match entry_row_read(row.entry) {
                Err(e) => Err(e),
                Ok(entry) => Ok(
                    JoinedView {
                        id: id as u128,
                        posted_at,
                        memo: row.transaction.memo,
                        kind,
                        entry,
                    },
                ),
            },
        },
    }
}

/// The transactions with one row more: the entry goes to the last one where
/// the id is the same, and begins a new one elsewhere.
pub open spec fn with_row(transactions: Seq<TransactionView>, row: JoinedView) -> Seq<
    TransactionView,
> {
    if transactions.len() > 0 && transactions.last().id == row.id {
        transactions.drop_last().push(
            TransactionView {
                entries: transactions.last().entries.push(row.entry),
                ..transactions.last()
            },
        )
    } else {
        transactions.push(
            TransactionView {
                id: row.id,
                posted_at: row.posted_at,
                memo: row.memo,
                entries: seq![row.entry],
                kind: row.kind,
            },
        )
    }
}

/// The transactions that the rows hold, or why the first that holds no
/// entry does not.
pub open spec fn joined_rows_read(rows: Seq<JoinedRowView>) -> Result<
    Seq<TransactionView>,
    StorageErrorView,
>
    decreases rows.len(),
{
    if rows.len() == 0 {
        Ok(Seq::empty())
    } else {
        match joined_rows_read(rows.drop_last()) {
            Err(e) => Err(e),
            Ok(transactions) => match joined_read(rows.last()) {
                Err(e) => Err(e),
                Ok(row) => Ok(with_row(transactions, row)),
            },
        }
    }
}

proof fn lemma_joined_rows_error(rows: Seq<JoinedRowView>, n: int)
    requires
        0 <= n <= rows.len(),
        joined_rows_read(rows.take(n)) is Err,
    ensures
        joined_rows_read(rows) == joined_rows_read(rows.take(n)),
    decreases rows.len(),
{
    if n == rows.len() {
        assert(rows.take(n) =~= rows);
    } else {
        assert(rows.drop_last().take(n) =~= rows.take(n));
        lemma_joined_rows_error(rows.drop_last(), n);
    }
}

/// The rows of a transaction's entries, each beside the transaction.
pub open spec fn joined_rows_of(tx: TransactionView) -> Seq<JoinedRowView> {
    Seq::new(
        tx.entries.len(),
        |i: int|
            JoinedRowView {
                transaction: transaction_row_of(tx),
                entry: entry_row_of(tx.entries[i]),
            },
    )
}

/// The rows of the transactions, one after the other.
pub open spec fn all_joined_rows(transactions: Seq<TransactionView>) -> Seq<JoinedRowView>
    decreases transactions.len(),
{
    if transactions.len() == 0 {
        Seq::empty()
    } else {
        all_joined_rows(transactions.drop_last()) + joined_rows_of(transactions.last())
    }
}

/// Whether a transaction is read back as it was stored: it has entries, its
/// point in time and its amounts are in range, and its account ids have the
/// form of ids.
pub open spec fn is_storable(tx: TransactionView) -> bool {
    &&& tx.entries.len() > 0
    &&& in_time(tx.posted_at)
    &&& forall|i: int|
        0 <= i < tx.entries.len() ==> (#[trigger] tx.entries[i]).amount.wf() && is_plain_id(
            tx.entries[i].account,
        )
}

/// Whether transactions that follow each other have different ids.
pub open spec fn neighbours_differ(transactions: Seq<TransactionView>) -> bool {
    forall|i: int, j: int|
        0 <= i < j < transactions.len() && j == i + 1 ==> (#[trigger] transactions[i]).id != (
        #[trigger] transactions[j]).id
}

/// Whether the rows are how the transactions are stored, and they can be
/// told apart: those that follow each other have different ids.
pub open spec fn stores_all(transactions: Seq<TransactionView>, rows: Seq<JoinedRowView>) -> bool {
    &&& rows == all_joined_rows(transactions)
    &&& forall|i: int| 0 <= i < transactions.len() ==> is_storable(#[trigger] transactions[i])
    &&& neighbours_differ(transactions)
}

/// Whether what the row stores is what it is read as.
#[verifier::opaque]
spec fn reads_back(row: JoinedRowView) -> bool {
    forall|v: JoinedView|
        in_time(v.posted_at) && v.entry.amount.wf() && is_plain_id(v.entry.account) && #[trigger]
        joined_row_of(v) == row ==> joined_read(row) == Ok::<JoinedView, StorageErrorView>(v)
}

/// A row as it is stored.
spec fn joined_row_of(v: JoinedView) -> JoinedRowView {
    JoinedRowView {
        transaction: TransactionRowView {
            id: id_text(v.id as int),
            posted_at: timestamp_text(v.posted_at),
            memo: v.memo,
            kind: v.kind.name(),
        },
        entry: entry_row_of(v.entry),
    }
}

/// What the row of an entry of a transaction holds.
spec fn joined_view_of(tx: TransactionView, i: int) -> JoinedView {
    JoinedView {
        id: tx.id,
        posted_at: tx.posted_at,
        memo: tx.memo,
        kind: tx.kind,
        entry: tx.entries[i],
    }
}

proof fn lemma_row_reads_back(tx: TransactionView, i: int)
    requires
        is_storable(tx),
        0 <= i < tx.entries.len(),
        reads_back(joined_rows_of(tx)[i]),
    ensures
        joined_read(joined_rows_of(tx)[i]) == Ok::<JoinedView, StorageErrorView>(
            joined_view_of(tx, i),
        ),
{
    reveal(reads_back);
    let v = joined_view_of(tx, i);
    assert(tx.entries[i].amount.wf());
    assert(joined_row_of(v) == joined_rows_of(tx)[i]);
}

proof fn lemma_rows_read_back(before: Seq<TransactionView>, tx: TransactionView, n: int)
    requires
        is_storable(tx),
        0 <= n <= tx.entries.len(),
        before.len() > 0 ==> before.last().id != tx.id,
        joined_rows_read(all_joined_rows(before)) == Ok::<Seq<TransactionView>, StorageErrorView>(
            before,
        ),
        forall|i: int| 0 <= i < tx.entries.len() ==> reads_back(#[trigger] joined_rows_of(tx)[i]),
    ensures
        joined_rows_read(all_joined_rows(before) + joined_rows_of(tx).take(n)) == Ok::<
            Seq<TransactionView>,
            StorageErrorView,
        >(
            if n == 0 {
                before
            } else {
                before.push(TransactionView { entries: tx.entries.take(n), ..tx })
            },
        ),
    decreases n,
{
    let front = all_joined_rows(before);
    let own = joined_rows_of(tx);
    if n == 0 {
        assert(front + own.take(0) =~= front);
    } else {
        lemma_rows_read_back(before, tx, n - 1);
        let rows = front + own.take(n);
        assert(rows.drop_last() =~= front + own.take(n - 1));
        assert(rows.last() == own[n - 1]);
        lemma_row_reads_back(tx, n - 1);
        if n == 1 {
            assert(tx.entries.take(1) =~= seq![tx.entries[0]]);
        } else {
            assert(tx.entries.take(n) =~= tx.entries.take(n - 1).push(tx.entries[n - 1]));
            let partial = before.push(TransactionView { entries: tx.entries.take(n - 1), ..tx });
            assert(partial.drop_last() =~= before);
        }
    }
}

proof fn lemma_all_rows_read_back(transactions: Seq<TransactionView>)
    requires
        forall|i: int| 0 <= i < transactions.len() ==> is_storable(#[trigger] transactions[i]),
        neighbours_differ(transactions),
        forall|i: int|
            0 <= i < all_joined_rows(transactions).len() ==> reads_back(
                #[trigger] all_joined_rows(transactions)[i],
            ),
    ensures
        joined_rows_read(all_joined_rows(transactions)) == Ok::<
            Seq<TransactionView>,
            StorageErrorView,
        >(transactions),
    decreases transactions.len(),
{
    if transactions.len() == 0 {
        assert(transactions =~= Seq::empty());
    } else {
        let t = transactions.drop_last();
        let tx = transactions.last();
        let front = all_joined_rows(t);
        let own = joined_rows_of(tx);
        let all = all_joined_rows(transactions);
        assert forall|i: int| 0 <= i < t.len() implies is_storable(#[trigger] t[i]) by {
            assert(t[i] == transactions[i]);
        }
        assert forall|i: int, j: int| 0 <= i < j < t.len() && j == i + 1 implies (#[trigger] t[i]).id
            != (#[trigger] t[j]).id by {
            assert(t[i] == transactions[i] && t[j] == transactions[j]);
        }
        assert forall|i: int| 0 <= i < front.len() implies reads_back(#[trigger] front[i]) by {
            assert(all[i] == front[i]);
        }
        assert forall|i: int| 0 <= i < own.len() implies reads_back(#[trigger] own[i]) by {
            assert(all[front.len() + i] == own[i]);
        }
        lemma_all_rows_read_back(t);
        assert(is_storable(transactions[transactions.len() - 1]));
        if t.len() > 0 {
            assert(transactions[transactions.len() - 1].id != transactions[transactions.len() - 2].id);
        }
        let n = tx.entries.len() as int;
        lemma_rows_read_back(t, tx, n);
        assert(own.take(n) =~= own);
        assert(tx.entries.take(n) =~= tx.entries);
        assert(t.push(tx) =~= transactions);
    }
}

/// What a row of an entry beside its transaction holds.
fn joined_from_row(row: &JoinedRow) -> (read: Result<
    (TransactionId, Timestamp, TransactionKind, Entry),
    StorageError,
>)
    ensures
        match read {
            Ok((id, posted_at, kind, entry)) => joined_read(row@) == Ok::<
                JoinedView,
                StorageErrorView,
            >(
                (JoinedView {
                    id: id.0,
                    posted_at: posted_at@,
                    memo: row@.transaction.memo,
                    kind,
                    entry: entry@,
                }),
            ),
            Err(e) => joined_read(row@) == Err::<JoinedView, StorageErrorView>(e@),
        },
        reads_back(row@),
{
    let ghost v = row@;
    let id = TransactionId::parse(row.transaction.id.as_str());
    let header = header_from_row(&row.transaction);
    let entry = entry_from_row(&row.entry);
    proof {
        reveal(joined_read);
        reveal(reads_back);
        assert forall|w: JoinedView|
            in_time(w.posted_at) && w.entry.amount.wf() && is_plain_id(w.entry.account)
                && #[trigger] joined_row_of(w) == v implies joined_read(v) == Ok::<
            JoinedView,
            StorageErrorView,
        >(w) by {
            law_ids_read_back(w.id as int);
            let tx = TransactionView {
                id: w.id,
                posted_at: w.posted_at,
                memo: w.memo,
                entries: seq![w.entry],
                kind: w.kind,
            };
            assert(stores_header(tx, v.transaction));
            assert(stores_entry(w.entry, v.entry));
        }
    }
    match id {
        None => Err(StorageError::InvalidUlid(row.transaction.id.clone())),
        Some(id) => match header {
            Err(e) => Err(e),
            Ok((posted_at, kind)) => match entry {
                Err(e) => Err(e),
                Ok(entry) => Ok((id, posted_at, kind, entry)),
            },
        },
    }
}

/// The transactions that the rows hold, whose entries follow each other.
/// What was stored is read back as it was.
pub fn transactions_from_rows(rows: &Vec<JoinedRow>) -> (read: Result<
    Vec<Transaction>,
    StorageError,
>)
    ensures
        match read {
            Ok(txs) => joined_rows_read(joined_row_views(rows@)) == Ok::<
                Seq<TransactionView>,
                StorageErrorView,
            >(transaction_views(txs@)),
            Err(e) => joined_rows_read(joined_row_views(rows@)) == Err::<
                Seq<TransactionView>,
                StorageErrorView,
            >(e@),
        },
        forall|txs: Seq<TransactionView>| #[trigger]
            stores_all(txs, joined_row_views(rows@)) ==> (read matches Ok(found)
                && transaction_views(found@) == txs),
{
    let ghost all = joined_row_views(rows@);
    let mut transactions: Vec<Transaction> = Vec::new();
    let mut current: Option<Transaction> = None;
    assert(transaction_views(transactions@) =~= Seq::empty());
    for i in 0..rows.len()
        invariant
            all == joined_row_views(rows@),
            joined_rows_read(all.take(i as int)) == Ok::<Seq<TransactionView>, StorageErrorView>(
                match current {
                    None => Seq::empty(),
                    Some(t) => transaction_views(transactions@).push(t@),
                },
            ),
            current is None ==> transactions@.len() == 0,
            forall|j: int| 0 <= j < i ==> reads_back(#[trigger] all[j]),
    {
        let row = &rows[i];
        let ghost v = all[i as int];
        assert(all.take(i + 1).drop_last() =~= all.take(i as int));
        let (id, posted_at, kind, entry) = match joined_from_row(row) {
            Ok(read) => read,
            Err(e) => {
                proof {
                    lemma_joined_rows_error(all, i + 1);
                    lemma_stored_row(all, i as int);
                }
                return Err(e);
            },
        };
        let ghost was = transaction_views(transactions@);
        let ghost value = JoinedView {
            id: id.0,
            posted_at: posted_at@,
            memo: row@.transaction.memo,
            kind,
            entry: entry@,
        };
        match current {
            Some(mut t) => {
                if t.id == id {
                    let ghost had = t.entries@;
                    let ghost told = t@;
                    t.entries.push(entry);
                    proof {
                        assert(entry_views(t.entries@) =~= entry_views(had).push(entry@));
                        assert(was.push(told).drop_last() =~= was);
                        assert(with_row(was.push(told), value) == was.push(t@));
                    }
                    current = Some(t);
                } else {
                    let ghost tv = t@;
                    transactions.push(t);
                    let mut entries: Vec<Entry> = Vec::new();
                    entries.push(entry);
                    assert(entry_views(entries@) =~= seq![entry@]);
                    assert(transaction_views(transactions@) =~= was.push(tv));
                    current = Some(
                        Transaction::from_raw(
                            id,
                            posted_at,
                            row.transaction.memo.clone(),
                            entries,
                            kind,
                        ),
                    );
                    assert(with_row(was.push(tv), value) == was.push(tv).push(current.unwrap()@));
                }
            },
            None => {
                let mut entries: Vec<Entry> = Vec::new();
                entries.push(entry);
                assert(entry_views(entries@) =~= seq![entry@]);
                assert(was =~= Seq::empty());
                current = Some(
                    Transaction::from_raw(
                        id,
                        posted_at,
                        row.transaction.memo.clone(),
                        entries,
                        kind,
                    ),
                );
                assert(with_row(Seq::empty(), value) == was.push(current.unwrap()@));
            },
        }
    }
    let ghost was = transaction_views(transactions@);
    match current {
        Some(t) => {
            let ghost tv = t@;
            transactions.push(t);
            assert(transaction_views(transactions@) =~= was.push(tv));
        },
        None => {
            assert(was =~= Seq::empty());
        },
    }
    proof {
        assert(all.take(all.len() as int) =~= all);
        assert forall|txs: Seq<TransactionView>| #[trigger] stores_all(txs, all) implies transaction_views(
            transactions@,
        ) == txs by {
            lemma_all_rows_read_back(txs);
        }
    }
    Ok(transactions)
}

/// A row that is read as an error stores no transaction.
proof fn lemma_stored_row(rows: Seq<JoinedRowView>, i: int)
    requires
        0 <= i < rows.len(),
        reads_back(rows[i]),
        joined_read(rows[i]) is Err,
    ensures
        forall|txs: Seq<TransactionView>| !#[trigger] stores_all(txs, rows),
{
    assert forall|txs: Seq<TransactionView>| !#[trigger] stores_all(txs, rows) by {
        if stores_all(txs, rows) {
            lemma_stored_row_value(txs, i);
            reveal(reads_back);
        }
    }
}

proof fn lemma_stored_row_value(transactions: Seq<TransactionView>, i: int)
    requires
        0 <= i < all_joined_rows(transactions).len(),
        forall|k: int| 0 <= k < transactions.len() ==> is_storable(#[trigger] transactions[k]),
    ensures
        exists|v: JoinedView|
            in_time(v.posted_at) && v.entry.amount.wf() && is_plain_id(v.entry.account) && #[trigger]
            joined_row_of(v) == all_joined_rows(transactions)[i],
    decreases transactions.len(),
{
    let t = transactions.drop_last();
    let tx = transactions.last();
    let front = all_joined_rows(t);
    assert forall|k: int| 0 <= k < t.len() implies is_storable(#[trigger] t[k]) by {
        assert(t[k] == transactions[k]);
    }
    if i < front.len() {
        lemma_stored_row_value(t, i);
        assert(all_joined_rows(transactions)[i] == front[i]);
    } else {
        let j = i - front.len();
        assert(is_storable(transactions[transactions.len() - 1]));
        assert(tx.entries[j].amount.wf());
        let v = JoinedView {
            id: tx.id,
            posted_at: tx.posted_at,
            memo: tx.memo,
            kind: tx.kind,
            entry: tx.entries[j],
        };
        assert(joined_row_of(v) =~= all_joined_rows(transactions)[i]);
    }
}

} // verus!
