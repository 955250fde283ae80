//! Posting: what a command registers and stores, once all of it is valid.

use vstd::prelude::*;

use crate::account_map::AccountMap;
use crate::book::{amounts, mentions, EntryView, TransactionView};
use crate::cli::{
    entries_plan, is_listed, lists_account, memo_text, new_transaction, text_given, CliError,
    CliErrorView,
};
use crate::fiscal::{kinded, retained, retained_account, with_kind_named};
use crate::model::{
    add_classes, classes_with, entry_views, imbalance, speaks_of, Account, AccountClass, Entry, Transaction, TransactionId,
    TransactionKind,
};
use crate::reconstruct::first_unknown;
use crate::storage::{account_views, StorageError, StorageErrorView};
use crate::sums::total;
use crate::time::Timestamp;

verus! {

/// What goes to the database: the accounts to register, and the transaction
/// to store behind them.
#[derive(Debug)]
pub struct Addition {
    pub accounts: Vec<Account>,
    pub transaction: Transaction,
}

/// What goes to the database, as a value.
#[verifier::ext_equal]
pub struct AdditionView {
    pub accounts: Seq<(Seq<char>, AccountClass)>,
    pub transaction: TransactionView,
}

impl View for Addition {
    type V = AdditionView;

    open spec fn view(&self) -> AdditionView {
        AdditionView { accounts: account_views(self.accounts@), transaction: self.transaction@ }
    }
}

/// What a command adds, or why it adds nothing: the entries are too few or
/// do not sum to zero, have not the shape of their kind, or speak of an
/// account that is not registered.
pub open spec fn addition_of(
    tx: TransactionView,
    kind: Option<Seq<char>>,
    accounts: Seq<(Seq<char>, AccountClass)>,
    registered: Map<Seq<char>, AccountClass>,
) -> Result<AdditionView, CliErrorView> {
    let known = classes_with(registered, accounts);
    match imbalance(tx.entries) {
        Some(why) => Err(CliErrorView::Transaction(why)),
        None => match kinded(tx, kind, known) {
            Err(e) => Err(e),
            Ok(transaction) => match first_unknown(tx.entries, known) {
                Some(account) => Err(
                    CliErrorView::Storage(StorageErrorView::UnknownAccount(account)),
                ),
                None => Ok(AdditionView { accounts, transaction }),
            },
        },
    }
}

/// Whether all accounts of the entries are known.
fn check_known(entries: &Vec<Entry>, known: &AccountMap<AccountClass>) -> (checked: Result<
    (),
    CliError,
>)
    ensures
        match checked {
            Ok(()) => first_unknown(entry_views(entries@), known@) is None,
            Err(e) => first_unknown(entry_views(entries@), known@) matches Some(a) && e@
                == CliErrorView::Storage(StorageErrorView::UnknownAccount(a)),
        },
{
    let ghost all = entry_views(entries@);
    assert(all.skip(0) =~= all);
    for i in 0..entries.len()
        invariant
            all == entry_views(entries@),
            first_unknown(all, known@) == first_unknown(all.skip(i as int), known@),
    {
        assert(all.skip(i as int)[0] == all[i as int]);
        assert(all.skip(i as int).drop_first() =~= all.skip(i + 1));
        if !known.contains(&entries[i].account) {
            return Err(
                CliError::Storage(
                    StorageError::UnknownAccount(entries[i].account.as_str().to_owned()),
                ),
            );
        }
    }
    Ok(())
}

/// What a command adds. Nothing is handed out to be registered or stored
/// unless all of it is valid.
pub fn plan_addition(
    id: TransactionId,
    posted_at: Timestamp,
    memo: Option<&str>,
    kind: Option<&str>,
    accounts: Vec<Account>,
    entries: Vec<Entry>,
    registered: &AccountMap<AccountClass>,
) -> (made: Result<Addition, CliError>)
    requires
        entries.len() >= 2 ==> total(amounts(entry_views(entries@))) is Some,
    ensures
        ({
            let tx = TransactionView {
                id: id.0,
                posted_at: posted_at@,
                memo: memo_text(memo),
                entries: entry_views(entries@),
                kind: TransactionKind::Normal,
            };
            let added = addition_of(tx, text_given(kind), account_views(accounts@), registered@);
            match made {
                Ok(a) => added == Ok::<AdditionView, CliErrorView>(a@),
                Err(e) => added == Err::<AdditionView, CliErrorView>(e@),
            }
        }),
{
    let known: AccountMap<AccountClass> = add_classes(registered.copied(), &accounts);
    let tx = match new_transaction(id, posted_at, memo, entries) {
        Ok(tx) => tx,
        Err(e) => {
            return Err(e);
        },
    };
    let transaction = match with_kind_named(tx, kind, &known) {
        Ok(transaction) => transaction,
        Err(e) => {
            return Err(e);
        },
    };
    match check_known(&transaction.entries, &known) {
        Ok(()) => Ok(Addition { accounts, transaction }),
        Err(e) => Err(e),
    }
}

/// The accounts, and the one of retained earnings where the entries speak of
/// it and it is new.
pub open spec fn with_retained(
    accounts: Seq<(Seq<char>, AccountClass)>,
    entries: Seq<EntryView>,
    registered: Map<Seq<char>, AccountClass>,
) -> Seq<(Seq<char>, AccountClass)> {
    if mentions(entries, retained()) && !registered.dom().contains(retained()) && !is_listed(
        accounts,
        retained(),
    ) {
        accounts.push((retained(), AccountClass::Equity))
    } else {
        accounts
    }
}

/// The accounts that an opening or a close registers: those of its entries,
/// and that of retained earnings, as equity, where it is new.
pub fn add_retained(
    accounts: Vec<Account>,
    entries: &Vec<Entry>,
    registered: &AccountMap<AccountClass>,
) -> (all: Vec<Account>)
    ensures
        account_views(all@) == with_retained(
            account_views(accounts@),
            entry_views(entries@),
            registered@,
        ),
{
    let id = retained_account();
    let ghost before = account_views(accounts@);
    let mut all: Vec<Account> = accounts;
    if speaks_of(entries, &id) && !registered.contains(&id) && !lists_account(&all, &id) {
        all.push(Account { id, class: AccountClass::Equity });
        assert(account_views(all@) =~= before.push((retained(), AccountClass::Equity)));
    }
    all
}

proof fn lemma_classes_stay(
    registered: Map<Seq<char>, AccountClass>,
    accounts: Seq<(Seq<char>, AccountClass)>,
)
    requires
        forall|i: int| 0 <= i < accounts.len() ==> !registered.dom().contains((#[trigger] accounts[i]).0),
    ensures
        forall|a: Seq<char>| #[trigger]
            registered.dom().contains(a) ==> classes_with(registered, accounts).dom().contains(a)
                && classes_with(registered, accounts)[a] == registered[a],
    decreases accounts.len(),
{
    if accounts.len() > 0 {
        let t = accounts.drop_last();
        assert forall|i: int| 0 <= i < t.len() implies !registered.dom().contains((#[trigger] t[i]).0) by {
            assert(t[i] == accounts[i]);
        }
        lemma_classes_stay(registered, t);
        assert(!registered.dom().contains(accounts[accounts.len() - 1].0));
    }
}

/// A class is for good: what a command registers leaves every registered
/// account with the class that it has.
pub proof fn law_registered_classes_stay(
    texts: Seq<Seq<char>>,
    registered: Map<Seq<char>, AccountClass>,
    account: Seq<char>,
)
    requires
        registered.dom().contains(account),
    ensures
        ({
            let known = classes_with(registered, entries_plan(texts, registered).accounts);
            known.dom().contains(account) && known[account] == registered[account]
        }),
{
    crate::cli::law_plans_register_new_accounts_alone(texts, registered);
    lemma_classes_stay(registered, entries_plan(texts, registered).accounts);
}

proof fn lemma_all_known(
    entries: Seq<EntryView>,
    known: Map<Seq<char>, AccountClass>,
    i: int,
)
    requires
        first_unknown(entries, known) is None,
        0 <= i < entries.len(),
    ensures
        known.dom().contains(entries[i].account),
    decreases entries.len(),
{
    if i > 0 {
        lemma_all_known(entries.drop_first(), known, i - 1);
        assert(entries.drop_first()[i - 1] == entries[i]);
    }
}

/// Only what is valid reaches the database: accounts are registered and a
/// transaction is stored only where it has two entries or more that sum to
/// zero, and every account that it speaks of is registered or comes to be.
pub proof fn law_only_valid_transactions_are_added(
    tx: TransactionView,
    kind: Option<Seq<char>>,
    accounts: Seq<(Seq<char>, AccountClass)>,
    registered: Map<Seq<char>, AccountClass>,
)
    ensures
        addition_of(tx, kind, accounts, registered) matches Ok(added) ==> {
            &&& added.accounts == accounts
            &&& added.transaction.entries == tx.entries
            &&& imbalance(added.transaction.entries) is None
            &&& forall|i: int|
                0 <= i < tx.entries.len() ==> classes_with(registered, accounts).dom().contains(
                    (#[trigger] tx.entries[i]).account,
                )
        },
{
    if addition_of(tx, kind, accounts, registered) is Ok {
        let known = classes_with(registered, accounts);
        assert forall|i: int| 0 <= i < tx.entries.len() implies known.dom().contains(
            (#[trigger] tx.entries[i]).account,
        ) by {
            lemma_all_known(tx.entries, known, i);
        }
    }
}

} // verus!
