//! Entries and transactions as values, and the sums over them.

use vstd::prelude::*;

use crate::decimal::Dec;
use crate::model::TransactionKind;
use crate::sums::{total, units_total};

verus! {

/// An entry: what a transaction adds to an account.
#[verifier::ext_equal]
pub struct EntryView {
    pub account: Seq<char>,
    pub amount: Dec,
}

/// A transaction.
#[verifier::ext_equal]
pub struct TransactionView {
    pub id: u128,
    pub posted_at: int,
    pub memo: Seq<char>,
    pub entries: Seq<EntryView>,
    pub kind: TransactionKind,
}

/// The amounts of the entries that `p` picks, in order.
pub open spec fn amounts_where(entries: Seq<EntryView>, p: spec_fn(EntryView) -> bool) -> Seq<Dec>
    decreases entries.len(),
{
    if entries.len() == 0 {
        Seq::empty()
    } else {
        let before = amounts_where(entries.drop_last(), p);
        if p(entries.last()) {
            before.push(entries.last().amount)
        } else {
            before
        }
    }
}

/// The amounts of the entries.
pub open spec fn amounts(entries: Seq<EntryView>) -> Seq<Dec> {
    Seq::new(entries.len(), |i: int| entries[i].amount)
}

/// Picks the entries of an account.
pub open spec fn is_account(account: Seq<char>) -> spec_fn(EntryView) -> bool {
    |e: EntryView| e.account == account
}

/// Picks the entries of some accounts.
pub open spec fn is_one_of(accounts: Seq<Seq<char>>) -> spec_fn(EntryView) -> bool {
    |e: EntryView| accounts.contains(e.account)
}

/// The amounts of the entries of an account, in order.
pub open spec fn account_amounts(entries: Seq<EntryView>, account: Seq<char>) -> Seq<Dec> {
    amounts_where(entries, is_account(account))
}

/// Whether an entry is of the account.
pub open spec fn mentions(entries: Seq<EntryView>, account: Seq<char>) -> bool {
    exists|i: int| 0 <= i < entries.len() && (#[trigger] entries[i]).account == account
}

/// Whether the entries of every account add up.
pub open spec fn summable(entries: Seq<EntryView>) -> bool {
    forall|a: Seq<char>| total(#[trigger] account_amounts(entries, a)) is Some
}

/// The balance of every account that the entries speak of.
pub open spec fn balances_of(entries: Seq<EntryView>) -> Map<Seq<char>, Dec> {
    Map::new(
        |a: Seq<char>| mentions(entries, a),
        |a: Seq<char>| total(account_amounts(entries, a)).unwrap(),
    )
}

/// Whether the amounts of all entries are amounts.
pub open spec fn entries_wf(entries: Seq<EntryView>) -> bool {
    forall|i: int| 0 <= i < entries.len() ==> (#[trigger] entries[i]).amount.wf()
}

/// The picked amounts with one entry more.
pub proof fn lemma_amounts_push(entries: Seq<EntryView>, e: EntryView, p: spec_fn(EntryView) -> bool)
    ensures
        amounts_where(entries.push(e), p) == (if p(e) {
            amounts_where(entries, p).push(e.amount)
        } else {
            amounts_where(entries, p)
        }),
{
    assert(entries.push(e).drop_last() =~= entries);
}

/// The amounts picked from two lists of entries, one after the other.
pub proof fn lemma_amounts_concat(
    a: Seq<EntryView>,
    b: Seq<EntryView>,
    p: spec_fn(EntryView) -> bool,
)
    ensures
        amounts_where(a + b, p) == amounts_where(a, p) + amounts_where(b, p),
    decreases b.len(),
{
    if b.len() == 0 {
        assert(a + b =~= a);
        assert(amounts_where(a, p) + amounts_where(b, p) =~= amounts_where(a, p));
    } else {
        lemma_amounts_concat(a, b.drop_last(), p);
        assert((a + b).drop_last() =~= a + b.drop_last());
        assert(amounts_where(a + b, p) =~= amounts_where(a, p) + amounts_where(b, p));
    }
}

/// The picked amounts are amounts.
pub proof fn lemma_amounts_wf(entries: Seq<EntryView>, p: spec_fn(EntryView) -> bool)
    requires
        entries_wf(entries),
    ensures
        crate::sums::all_wf(amounts_where(entries, p)),
    decreases entries.len(),
{
    if entries.len() > 0 {
        let t = entries.drop_last();
        assert forall|i: int| 0 <= i < t.len() implies (#[trigger] t[i]).amount.wf() by {
            assert(t[i] == entries[i]);
        }
        lemma_amounts_wf(t, p);
        assert(entries[entries.len() - 1].amount.wf());
    }
}

/// Where all entries are picked, the picked amounts are all amounts.
pub proof fn lemma_amounts_all(entries: Seq<EntryView>, p: spec_fn(EntryView) -> bool)
    requires
        forall|i: int| 0 <= i < entries.len() ==> p(#[trigger] entries[i]),
    ensures
        amounts_where(entries, p) == amounts(entries),
    decreases entries.len(),
{
    if entries.len() > 0 {
        let t = entries.drop_last();
        assert forall|i: int| 0 <= i < t.len() implies p(#[trigger] t[i]) by {
            assert(t[i] == entries[i]);
        }
        lemma_amounts_all(t, p);
        assert(p(entries[entries.len() - 1]));
        assert(amounts(entries) =~= amounts(t).push(entries.last().amount));
    } else {
        assert(amounts(entries) =~= Seq::empty());
    }
}

/// Where no entry is picked, there are no amounts.
pub proof fn lemma_amounts_none(entries: Seq<EntryView>, p: spec_fn(EntryView) -> bool)
    requires
        forall|i: int| 0 <= i < entries.len() ==> !p(#[trigger] entries[i]),
    ensures
        amounts_where(entries, p) == Seq::<Dec>::empty(),
    decreases entries.len(),
{
    if entries.len() > 0 {
        let t = entries.drop_last();
        assert forall|i: int| 0 <= i < t.len() implies !p(#[trigger] t[i]) by {
            assert(t[i] == entries[i]);
        }
        lemma_amounts_none(t, p);
        assert(!p(entries[entries.len() - 1]));
    }
}

/// Entries that `p` and `q` pick alike give the same amounts.
pub proof fn lemma_amounts_same(
    entries: Seq<EntryView>,
    p: spec_fn(EntryView) -> bool,
    q: spec_fn(EntryView) -> bool,
)
    requires
        forall|i: int| 0 <= i < entries.len() ==> p(#[trigger] entries[i]) == q(entries[i]),
    ensures
        amounts_where(entries, p) == amounts_where(entries, q),
    decreases entries.len(),
{
    if entries.len() > 0 {
        let t = entries.drop_last();
        assert forall|i: int| 0 <= i < t.len() implies p(#[trigger] t[i]) == q(t[i]) by {
            assert(t[i] == entries[i]);
        }
        lemma_amounts_same(t, p, q);
        assert(p(entries[entries.len() - 1]) == q(entries[entries.len() - 1]));
    }
}

/// The units of several accounts together.
pub open spec fn accounts_units(entries: Seq<EntryView>, accounts: Seq<Seq<char>>) -> int
    decreases accounts.len(),
{
    if accounts.len() == 0 {
        0
    } else {
        accounts_units(entries, accounts.drop_last()) + units_total(
            account_amounts(entries, accounts.last()),
        )
    }
}

proof fn lemma_accounts_units_push(entries: Seq<EntryView>, e: EntryView, accounts: Seq<Seq<char>>)
    requires
        accounts.no_duplicates(),
    ensures
        accounts_units(entries.push(e), accounts) == accounts_units(entries, accounts) + (
        if accounts.contains(e.account) {
            e.amount.units()
        } else {
            0
        }),
    decreases accounts.len(),
{
    if accounts.len() > 0 {
        let rest = accounts.drop_last();
        let last = accounts.last();
        lemma_accounts_units_push(entries, e, rest);
        lemma_amounts_push(entries, e, is_account(last));
        crate::sums::lemma_total_push(account_amounts(entries, last), e.amount);
        if e.account == last {
            assert(accounts[accounts.len() - 1] == last);
            if rest.contains(e.account) {
                let i = rest.index_of(e.account);
                assert(accounts[i] == accounts[accounts.len() - 1]);
            }
        } else if accounts.contains(e.account) {
            let i = accounts.index_of(e.account);
            assert(rest[i] == e.account);
        } else if rest.contains(e.account) {
            let i = rest.index_of(e.account);
            assert(accounts[i] == e.account);
        }
    }
}

/// The balances of different accounts together are the sum of all their
/// entries.
pub proof fn lemma_accounts_units(entries: Seq<EntryView>, accounts: Seq<Seq<char>>)
    requires
        accounts.no_duplicates(),
    ensures
        accounts_units(entries, accounts) == units_total(amounts_where(entries, is_one_of(accounts))),
    decreases entries.len(),
{
    if entries.len() == 0 {
        lemma_no_entries(entries, accounts);
    } else {
        let t = entries.drop_last();
        let e = entries.last();
        lemma_accounts_units(t, accounts);
        assert(entries =~= t.push(e));
        lemma_accounts_units_push(t, e, accounts);
        lemma_amounts_push(t, e, is_one_of(accounts));
        crate::sums::lemma_total_push(amounts_where(t, is_one_of(accounts)), e.amount);
    }
}

proof fn lemma_no_entries(entries: Seq<EntryView>, accounts: Seq<Seq<char>>)
    requires
        entries.len() == 0,
    ensures
        accounts_units(entries, accounts) == 0,
    decreases accounts.len(),
{
    if accounts.len() > 0 {
        lemma_no_entries(entries, accounts.drop_last());
    }
}

/// The balances with one entry more.
pub proof fn lemma_balances_push(entries: Seq<EntryView>, e: EntryView)
    ensures
        forall|a: Seq<char>|
            a != e.account ==> #[trigger] account_amounts(entries.push(e), a) == account_amounts(
                entries,
                a,
            ),
        account_amounts(entries.push(e), e.account) == account_amounts(entries, e.account).push(
            e.amount,
        ),
        forall|a: Seq<char>|
            #[trigger] mentions(entries.push(e), a) <==> mentions(entries, a) || a == e.account,
{
    assert forall|a: Seq<char>| a != e.account implies #[trigger] account_amounts(entries.push(e), a)
        == account_amounts(entries, a) by {
        lemma_amounts_push(entries, e, is_account(a));
    }
    lemma_amounts_push(entries, e, is_account(e.account));
    assert forall|a: Seq<char>|
        #[trigger] mentions(entries.push(e), a) <==> mentions(entries, a) || a == e.account by {
        let more = entries.push(e);
        if mentions(entries, a) {
            let i = choose|i: int| 0 <= i < entries.len() && (#[trigger] entries[i]).account == a;
            assert(more[i].account == a);
        }
        if a == e.account {
            assert(more[entries.len() as int].account == a);
        }
        if mentions(more, a) {
            let i = choose|i: int| 0 <= i < more.len() && (#[trigger] more[i]).account == a;
            if i < entries.len() {
                assert(entries[i].account == a);
            }
        }
    }
}

/// An account of which no entry speaks has no amounts.
pub proof fn lemma_unmentioned(entries: Seq<EntryView>, account: Seq<char>)
    requires
        !mentions(entries, account),
    ensures
        account_amounts(entries, account) == Seq::<Dec>::empty(),
    decreases entries.len(),
{
    if entries.len() > 0 {
        let t = entries.drop_last();
        assert(entries[entries.len() - 1].account != account);
        if mentions(t, account) {
            let i = choose|i: int| 0 <= i < t.len() && (#[trigger] t[i]).account == account;
            assert(entries[i].account == account);
        }
        lemma_unmentioned(t, account);
    }
}

/// What adds up for every account does so at every point on the way.
pub proof fn lemma_summable_prefix(entries: Seq<EntryView>, n: int)
    requires
        summable(entries),
        0 <= n <= entries.len(),
    ensures
        summable(entries.take(n)),
{
    assert forall|a: Seq<char>| total(#[trigger] account_amounts(entries.take(n), a)) is Some by {
        lemma_amounts_concat(entries.take(n), entries.skip(n), is_account(a));
        assert(entries.take(n) + entries.skip(n) =~= entries);
        let all = account_amounts(entries, a);
        assert(total(all) is Some);
        let part = account_amounts(entries.take(n), a);
        crate::sums::lemma_total_prefix(all, part.len() as int);
        assert(all.take(part.len() as int) =~= part);
    }
}

/// The entries of the transactions, one after the other.
pub open spec fn all_entries(transactions: Seq<TransactionView>) -> Seq<EntryView>
    decreases transactions.len(),
{
    if transactions.len() == 0 {
        Seq::empty()
    } else {
        all_entries(transactions.drop_last()) + transactions.last().entries
    }
}

/// Whether the transactions' amounts are amounts.
pub open spec fn transactions_wf(transactions: Seq<TransactionView>) -> bool {
    forall|i: int| 0 <= i < transactions.len() ==> entries_wf((#[trigger] transactions[i]).entries)
}

} // verus!
