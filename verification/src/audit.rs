//! The audit report: what came into the own accounts and what went out.

use vstd::prelude::*;

use crate::account_id::AccountId;
use crate::account_map::AccountMap;
use crate::book::{
    account_amounts, accounts_units, amounts, amounts_where, balances_of, entries_wf, is_account,
    is_one_of, lemma_accounts_units, lemma_amounts_concat, lemma_amounts_push, lemma_amounts_same,
    lemma_amounts_wf, lemma_unmentioned, mentions, summable, EntryView, TransactionView,
};
use crate::decimal::{Amount, Dec};
use crate::model::{checked_balances, entry_views, transaction_views, Entry, Transaction};
use crate::sums::{
    adds_up_exactly, all_wf, checked_total_of, decs, lemma_negated_units, lemma_total_exact,
    lemma_total_push, lemma_units_concat, total, units_total,
};
use crate::text::{
    lemma_precedes_irreflexive, lemma_precedes_total, lemma_precedes_transitive, precedes,
    text_precedes,
};
use crate::time::Timestamp;

verus! {

/// Rows of accounts and amounts, as values.
pub open spec fn row_views(rows: Seq<(AccountId, Amount)>) -> Seq<(Seq<char>, Dec)> {
    Seq::new(rows.len(), |i: int| (rows[i].0@, rows[i].1@))
}

/// Account ids, as text.
pub open spec fn id_views(ids: Seq<AccountId>) -> Seq<Seq<char>> {
    Seq::new(ids.len(), |i: int| ids[i]@)
}

/// Whether the rows are those of the map, in the order of their accounts.
pub open spec fn lists(rows: Seq<(Seq<char>, Dec)>, map: Map<Seq<char>, Dec>) -> bool {
    &&& forall|i: int, j: int| 0 <= i < j < rows.len() ==> precedes(#[trigger] rows[i].0, #[trigger] rows[j].0)
    &&& forall|i: int|
        0 <= i < rows.len() ==> map.dom().contains((#[trigger] rows[i]).0) && rows[i].1 == map[rows[i].0]
    &&& forall|a: Seq<char>| #[trigger] map.dom().contains(a) ==> has_row(rows, a)
}

/// Whether there is a row of the account.
pub open spec fn has_row(rows: Seq<(Seq<char>, Dec)>, account: Seq<char>) -> bool {
    exists|i: int| 0 <= i < rows.len() && (#[trigger] rows[i]).0 == account
}

/// The rows of the map, in the order of their accounts.
fn sort_by_account(map: &AccountMap<Amount>) -> (rows: Vec<(AccountId, Amount)>)
    ensures
        lists(row_views(rows@), map@),
{
    let mut rows: Vec<(AccountId, Amount)> = Vec::new();
    let n: usize = map.len();
    for i in 0..n
        invariant
            n == map.order().len(),
            map.order().no_duplicates(),
            forall|k: Seq<char>| #[trigger] map@.dom().contains(k) <==> map.order().contains(k),
            forall|a: int, b: int|
                0 <= a < b < rows@.len() ==> precedes(
                    #[trigger] row_views(rows@)[a].0,
                    #[trigger] row_views(rows@)[b].0,
                ),
            forall|j: int|
                0 <= j < rows@.len() ==> map@.dom().contains((#[trigger] row_views(rows@)[j]).0)
                    && row_views(rows@)[j].1 == map@[row_views(rows@)[j].0],
            forall|k: int| 0 <= k < i ==> has_row(row_views(rows@), #[trigger] map.order()[k]),
            forall|j: int|
                0 <= j < rows@.len() ==> map.order().take(i as int).contains(
                    (#[trigger] row_views(rows@)[j]).0,
                ),
    {
        let id = map.id_at(i);
        let value: Amount = map.value_at(i);
        let ghost before = row_views(rows@);
        let ghost key = id@;
        let mut at: usize = 0;
        while at < rows.len() && text_precedes(rows[at].0.as_str(), id.as_str())
            invariant
                at <= rows.len(),
                id@ == key,
                before == row_views(rows@),
                forall|j: int| 0 <= j < at ==> precedes((#[trigger] before[j]).0, key),
            decreases rows.len() - at,
        {
            assert(before[at as int].0 == rows@[at as int].0@);
            at = at + 1;
        }
        proof {
            if at < rows.len() {
                assert(before[at as int].0 == rows@[at as int].0@);
                lemma_precedes_total(before[at as int].0, key);
                if before[at as int].0 == key {
                    let front = map.order().take(i as int);
                    assert(front.contains(key));
                    let k = front.index_of(key);
                    assert(map.order()[k] == map.order()[i as int]);
                }
                assert(precedes(key, before[at as int].0));
            }
            assert forall|j: int| at <= j < before.len() implies precedes(key, (#[trigger] before[j]).0) by {
                if j > at {
                    lemma_precedes_transitive(key, before[at as int].0, before[j].0);
                }
            }
        }
        rows.insert(at, (id.clone(), value));
        proof {
            let after = row_views(rows@);
            assert(after =~= before.insert(at as int, (key, value@)));
            assert forall|a: int, b: int| 0 <= a < b < after.len() implies precedes(
                #[trigger] after[a].0,
                #[trigger] after[b].0,
            ) by {
                let x = if a < at { a } else { a - 1 };
                let y = if b < at { b } else { b - 1 };
                if a != at {
                    assert(after[a] == before[x]);
                }
                if b != at {
                    assert(after[b] == before[y]);
                }
            }
            assert forall|j: int| 0 <= j < after.len() implies map@.dom().contains((#[trigger] after[j]).0)
                && after[j].1 == map@[after[j].0] && map.order().take(i + 1).contains(after[j].0) by {
                let front = map.order().take(i as int);
                let more = map.order().take(i + 1);
                if j == at {
                    assert(more[i as int] == key);
                } else {
                    let x = if j < at { j } else { j - 1 };
                    assert(after[j] == before[x]);
                    assert(front.contains(before[x].0));
                    let k = front.index_of(before[x].0);
                    assert(more[k] == before[x].0);
                }
            }
            assert forall|k: int| 0 <= k < i + 1 implies has_row(after, #[trigger] map.order()[k]) by {
                if k == i {
                    assert(after[at as int].0 == key);
                } else {
                    assert(has_row(before, map.order()[k]));
                    let j = choose|j: int| 0 <= j < before.len() && (#[trigger] before[j]).0 == map.order()[k];
                    let x = if j < at { j } else { j + 1 };
                    assert(after[x] == before[j]);
                }
            }
        }
    }
    proof {
        assert forall|a: Seq<char>| #[trigger] map@.dom().contains(a) implies has_row(row_views(rows@), a) by {
            let k = map.order().index_of(a);
            assert(has_row(row_views(rows@), map.order()[k]));
        }
    }
    rows
}

/// Whether an account is one of the own ones.
fn is_own(own: &Vec<AccountId>, id: &AccountId) -> (yes: bool)
    ensures
        yes == id_views(own@).contains(id@),
{
    for i in 0..own.len()
        invariant
            forall|j: int| 0 <= j < i ==> id_views(own@)[j] != id@,
    {
        if own[i].same(id) {
            assert(id_views(own@)[i as int] == id@);
            return true;
        }
    }
    false
}

/// The entries of the transactions before a point in time.
pub open spec fn entries_before(transactions: Seq<TransactionView>, boundary: int) -> Seq<EntryView>
    decreases transactions.len(),
{
    if transactions.len() == 0 {
        Seq::empty()
    } else {
        let before = entries_before(transactions.drop_last(), boundary);
        if transactions.last().posted_at < boundary {
            before + transactions.last().entries
        } else {
            before
        }
    }
}

/// The balances of the own accounts before a point in time.
pub open spec fn own_balances(
    transactions: Seq<TransactionView>,
    boundary: int,
    own: Seq<Seq<char>>,
) -> Map<Seq<char>, Dec> {
    Map::new(
        |a: Seq<char>| own.contains(a),
        |a: Seq<char>| total(account_amounts(entries_before(transactions, boundary), a)).unwrap(),
    )
}

/// Whether the balances of the own accounts add up.
pub open spec fn own_summable(
    transactions: Seq<TransactionView>,
    boundary: int,
    own: Seq<Seq<char>>,
) -> bool {
    forall|a: Seq<char>|
        #[trigger] own.contains(a) ==> total(
            account_amounts(entries_before(transactions, boundary), a),
        ) is Some
}

/// The entries that `p` picks, in order.
spec fn entries_where(entries: Seq<EntryView>, p: spec_fn(EntryView) -> bool) -> Seq<EntryView>
    decreases entries.len(),
{
    if entries.len() == 0 {
        Seq::empty()
    } else {
        let before = entries_where(entries.drop_last(), p);
        if p(entries.last()) {
            before.push(entries.last())
        } else {
            before
        }
    }
}

proof fn lemma_entries_where_concat(
    a: Seq<EntryView>,
    b: Seq<EntryView>,
    p: spec_fn(EntryView) -> bool,
)
    ensures
        entries_where(a + b, p) == entries_where(a, p) + entries_where(b, p),
    decreases b.len(),
{
    if b.len() == 0 {
        assert(a + b =~= a);
        assert(entries_where(a, p) + entries_where(b, p) =~= entries_where(a, p));
    } else {
        lemma_entries_where_concat(a, b.drop_last(), p);
        assert((a + b).drop_last() =~= a + b.drop_last());
        assert(entries_where(a + b, p) =~= entries_where(a, p) + entries_where(b, p));
    }
}

proof fn lemma_own_part(entries: Seq<EntryView>, own: Seq<Seq<char>>, a: Seq<char>)
    ensures
        own.contains(a) ==> account_amounts(entries_where(entries, is_one_of(own)), a)
            == account_amounts(entries, a),
        !own.contains(a) ==> account_amounts(entries_where(entries, is_one_of(own)), a) == Seq::<
            Dec,
        >::empty(),
    decreases entries.len(),
{
    if entries.len() > 0 {
        let t = entries.drop_last();
        let e = entries.last();
        lemma_own_part(t, own, a);
        lemma_amounts_push(entries_where(t, is_one_of(own)), e, is_account(a));
    }
}

/// The entries of own accounts in the transactions before a point in time.
fn own_entries_before(
    transactions: &[Transaction],
    boundary: &Timestamp,
    own: &Vec<AccountId>,
) -> (found: Vec<Entry>)
    ensures
        entry_views(found@) == entries_where(
            entries_before(transaction_views(transactions@), boundary@),
            is_one_of(id_views(own@)),
        ),
{
    let ghost txs = transaction_views(transactions@);
    let ghost p = is_one_of(id_views(own@));
    let mut found: Vec<Entry> = Vec::new();
    assert(txs.take(0) =~= Seq::empty());
    assert(entry_views(found@) =~= Seq::empty());
    for i in 0..transactions.len()
        invariant
            txs == transaction_views(transactions@),
            p == is_one_of(id_views(own@)),
            entry_views(found@) == entries_where(entries_before(txs.take(i as int), boundary@), p),
    {
        let tx = &transactions[i];
        let ghost before = entries_before(txs.take(i as int), boundary@);
        assert(txs.take(i + 1).drop_last() =~= txs.take(i as int));
        if tx.posted_at.is_before(boundary) {
            let ghost all = entry_views(tx.entries@);
            let ghost start = entry_views(found@);
            proof {
                assert(all.take(0) =~= Seq::empty());
                assert(start =~= start + entries_where(all.take(0), p));
            }
            for j in 0..tx.entries.len()
                invariant
                    all == entry_views(tx.entries@),
                    p == is_one_of(id_views(own@)),
                    entry_views(found@) == start + entries_where(all.take(j as int), p),
            {
                let e = &tx.entries[j];
                let ghost was = found@;
                assert(all.take(j + 1).drop_last() =~= all.take(j as int));
                if is_own(own, &e.account) {
                    found.push(e.clone());
                    assert(entry_views(found@) =~= entry_views(was).push(all[j as int]));
                }
                assert(entry_views(found@) =~= start + entries_where(all.take(j + 1), p));
            }
            proof {
                assert(all.take(all.len() as int) =~= all);
                lemma_entries_where_concat(before, all, p);
            }
        }
    }
    assert(txs.take(txs.len() as int) =~= txs);
    found
}

/// The balance of each account before a point in time, in the order in which
/// the accounts are given.
pub open spec fn balance_list(
    transactions: Seq<TransactionView>,
    boundary: int,
    ids: Seq<Seq<char>>,
) -> Seq<(Seq<char>, Dec)> {
    Seq::new(
        ids.len(),
        |i: int|
            (ids[i], total(account_amounts(entries_before(transactions, boundary), ids[i])).unwrap()),
    )
}

/// Sum each account in `asset_ids` over all entries of transactions strictly
/// before `boundary`, or nothing where one of the sums on the way is out of
/// range. There is one row per account, in the same order as `asset_ids`,
/// zero balances among them.
fn balances_until(
    transactions: &[Transaction],
    boundary: &Timestamp,
    asset_ids: &Vec<AccountId>,
) -> (rows: Option<Vec<(AccountId, Amount)>>)
    ensures
        ({
            let txs = transaction_views(transactions@);
            let ids = id_views(asset_ids@);
            match rows {
                Some(rows) => own_summable(txs, boundary@, ids) && row_views(rows@) == balance_list(
                    txs,
                    boundary@,
                    ids,
                ),
                None => !own_summable(txs, boundary@, ids),
            }
        }),
{
    let ghost txs = transaction_views(transactions@);
    let ghost ids = id_views(asset_ids@);
    let ghost all = entries_before(txs, boundary@);
    let entries: Vec<Entry> = own_entries_before(transactions, boundary, asset_ids);
    let ghost part = entry_views(entries@);
    let balances = match checked_balances(&entries) {
        Some(balances) => balances,
        None => {
            proof {
                if own_summable(txs, boundary@, ids) {
                    assert forall|a: Seq<char>| total(#[trigger] account_amounts(part, a)) is Some by {
                        lemma_own_part(all, ids, a);
                        if ids.contains(a) {
                            assert(total(account_amounts(all, a)) is Some);
                        }
                    }
                }
            }
            return None;
        },
    };
    let ghost list = balance_list(txs, boundary@, ids);
    let mut rows: Vec<(AccountId, Amount)> = Vec::new();
    assert(row_views(rows@) =~= list.take(0));
    for i in 0..asset_ids.len()
        invariant
            ids == id_views(asset_ids@),
            all == entries_before(txs, boundary@),
            part == entry_views(entries@),
            part == entries_where(all, is_one_of(ids)),
            list == balance_list(txs, boundary@, ids),
            summable(part),
            balances@ == balances_of(part),
            row_views(rows@) == list.take(i as int),
    {
        let id = &asset_ids[i];
        let balance: Amount = match balances.get(id) {
            Some(balance) => balance,
            None => Amount::zero(),
        };
        let ghost before = row_views(rows@);
        proof {
            assert(ids[i as int] == id@);
            assert(total(account_amounts(part, id@)) is Some);
            lemma_own_part(all, ids, id@);
            if !mentions(part, id@) {
                lemma_unmentioned(part, id@);
            }
        }
        rows.push((id.clone(), balance));
        proof {
            assert(row_views(rows@) =~= before.push((id@, balance@)));
            assert(list.take(i + 1) =~= list.take(i as int).push(list[i as int]));
        }
    }
    proof {
        assert(list.take(list.len() as int) =~= list);
        assert forall|a: Seq<char>| #[trigger] ids.contains(a) implies total(account_amounts(all, a)) is Some by {
            lemma_own_part(all, ids, a);
            assert(total(account_amounts(part, a)) is Some);
        }
    }
    Some(rows)
}

/// Whether the ids stand in order, each once.
pub open spec fn ascend(ids: Seq<Seq<char>>) -> bool {
    forall|i: int, j: int| 0 <= i < j < ids.len() ==> precedes(#[trigger] ids[i], #[trigger] ids[j])
}

/// The accounts in order, each once.
fn in_order(own: &Vec<AccountId>) -> (ids: Vec<AccountId>)
    ensures
        ascend(id_views(ids@)),
        forall|a: Seq<char>| #[trigger] id_views(ids@).contains(a) <==> id_views(own@).contains(a),
{
    let ghost all = id_views(own@);
    let mut map: AccountMap<Amount> = AccountMap::new();
    for i in 0..own.len()
        invariant
            all == id_views(own@),
            forall|a: Seq<char>| #[trigger] map@.dom().contains(a) <==> all.take(i as int).contains(a),
    {
        map.insert(&own[i], Amount::zero());
        proof {
            let front = all.take(i as int);
            let more = all.take(i + 1);
            assert forall|a: Seq<char>| #[trigger] map@.dom().contains(a) <==> more.contains(a) by {
                if front.contains(a) {
                    let k = front.index_of(a);
                    assert(more[k] == a);
                }
                if more.contains(a) {
                    let k = more.index_of(a);
                    if k < i {
                        assert(front[k] == a);
                    }
                }
                assert(more[i as int] == all[i as int]);
            }
        }
    }
    assert(all.take(all.len() as int) =~= all);
    let rows: Vec<(AccountId, Amount)> = sort_by_account(&map);
    let ghost views = row_views(rows@);
    let mut ids: Vec<AccountId> = Vec::new();
    for i in 0..rows.len()
        invariant
            views == row_views(rows@),
            id_views(ids@) == Seq::new(i as nat, |k: int| views[k].0),
    {
        let ghost before = id_views(ids@);
        ids.push(rows[i].0.clone());
        assert(id_views(ids@) =~= before.push(views[i as int].0));
        assert(id_views(ids@) =~= Seq::new((i + 1) as nat, |k: int| views[k].0));
    }
    proof {
        let found = id_views(ids@);
        assert forall|i: int, j: int| 0 <= i < j < found.len() implies precedes(
            #[trigger] found[i],
            #[trigger] found[j],
        ) by {
            assert(precedes(views[i].0, views[j].0));
        }
        assert forall|a: Seq<char>| #[trigger] found.contains(a) <==> all.contains(a) by {
            if found.contains(a) {
                let k = found.index_of(a);
                assert(map@.dom().contains(views[k].0));
            }
            if all.contains(a) {
                assert(map@.dom().contains(a));
                assert(has_row(views, a));
                let k = choose|k: int| 0 <= k < views.len() && (#[trigger] views[k]).0 == a;
                assert(found[k] == a);
            }
        }
    }
    ids
}

proof fn lemma_ordered_balances(
    transactions: Seq<TransactionView>,
    boundary: int,
    own: Seq<Seq<char>>,
    ids: Seq<Seq<char>>,
)
    requires
        ascend(ids),
        forall|a: Seq<char>| #[trigger] ids.contains(a) <==> own.contains(a),
    ensures
        own_summable(transactions, boundary, ids) == own_summable(transactions, boundary, own),
        lists(balance_list(transactions, boundary, ids), own_balances(transactions, boundary, own)),
{
    let all = entries_before(transactions, boundary);
    let list = balance_list(transactions, boundary, ids);
    let map = own_balances(transactions, boundary, own);
    if own_summable(transactions, boundary, own) {
        assert forall|a: Seq<char>| #[trigger] ids.contains(a) implies total(account_amounts(all, a)) is Some by {
            assert(own.contains(a));
        }
    }
    if own_summable(transactions, boundary, ids) {
        assert forall|a: Seq<char>| #[trigger] own.contains(a) implies total(account_amounts(all, a)) is Some by {
            assert(ids.contains(a));
        }
    }
    assert forall|i: int, j: int| 0 <= i < j < list.len() implies precedes(
        #[trigger] list[i].0,
        #[trigger] list[j].0,
    ) by {
        assert(precedes(ids[i], ids[j]));
    }
    assert forall|i: int| 0 <= i < list.len() implies map.dom().contains((#[trigger] list[i]).0) && list[i].1
        == map[list[i].0] by {
        assert(ids.contains(ids[i]));
    }
    assert forall|a: Seq<char>| #[trigger] map.dom().contains(a) implies has_row(list, a) by {
        assert(ids.contains(a));
        let k = ids.index_of(a);
        assert(list[k].0 == a);
    }
}

/// The net effect of a transaction on the own accounts.
pub open spec fn own_delta(tx: TransactionView, own: Seq<Seq<char>>) -> Option<Dec> {
    total(amounts_where(tx.entries, is_one_of(own)))
}

/// Whether a transaction falls into the period: `from` is in it, `to` is not.
pub open spec fn in_period(tx: TransactionView, from: int, to: int) -> bool {
    from <= tx.posted_at < to
}

/// Whether a transaction of the period brings the own accounts something
/// (with `incoming`), or takes something out of them (without).
pub open spec fn flows(tx: TransactionView, from: int, to: int, own: Seq<Seq<char>>, incoming: bool) -> bool {
    &&& in_period(tx, from, to)
    &&& own_delta(tx, own) matches Some(d) && if incoming {
        d.mantissa > 0
    } else {
        d.mantissa < 0
    }
}

/// What an entry outside the own accounts gives (with `incoming`) or takes
/// (without), if it does.
pub open spec fn outside_flow(e: EntryView, own: Seq<Seq<char>>, incoming: bool) -> Option<EntryView> {
    if own.contains(e.account) {
        None
    } else if incoming && e.amount.mantissa < 0 {
        Some(EntryView { account: e.account, amount: e.amount.negated() })
    } else if !incoming && e.amount.mantissa > 0 {
        Some(e)
    } else {
        None
    }
}

/// What the entries outside the own accounts give or take.
pub open spec fn outside_flows(entries: Seq<EntryView>, own: Seq<Seq<char>>, incoming: bool) -> Seq<EntryView>
    decreases entries.len(),
{
    if entries.len() == 0 {
        Seq::empty()
    } else {
        let before = outside_flows(entries.drop_last(), own, incoming);
        match outside_flow(entries.last(), own, incoming) {
            Some(e) => before.push(e),
            None => before,
        }
    }
}

/// Where the receipts (with `incoming`) or the disbursements (without) of
/// the period come from or go to.
pub open spec fn flow_entries(
    transactions: Seq<TransactionView>,
    from: int,
    to: int,
    own: Seq<Seq<char>>,
    incoming: bool,
) -> Seq<EntryView>
    decreases transactions.len(),
{
    if transactions.len() == 0 {
        Seq::empty()
    } else {
        let before = flow_entries(transactions.drop_last(), from, to, own, incoming);
        if flows(transactions.last(), from, to, own, incoming) {
            before + outside_flows(transactions.last().entries, own, incoming)
        } else {
            before
        }
    }
}

/// The receipts or the disbursements of the period, each as a positive
/// amount.
pub open spec fn flow_deltas(
    transactions: Seq<TransactionView>,
    from: int,
    to: int,
    own: Seq<Seq<char>>,
    incoming: bool,
) -> Seq<Dec>
    decreases transactions.len(),
{
    if transactions.len() == 0 {
        Seq::empty()
    } else {
        let before = flow_deltas(transactions.drop_last(), from, to, own, incoming);
        if flows(transactions.last(), from, to, own, incoming) {
            let delta = own_delta(transactions.last(), own).unwrap();
            before.push(
                if incoming {
                    delta
                } else {
                    delta.negated()
                },
            )
        } else {
            before
        }
    }
}

/// Whether all sums of the report add up.
pub open spec fn audit_sums(
    transactions: Seq<TransactionView>,
    from: int,
    to: int,
    own: Seq<Seq<char>>,
) -> bool {
    &&& own_summable(transactions, from, own)
    &&& own_summable(transactions, to, own)
    &&& forall|i: int|
        0 <= i < transactions.len() && in_period(#[trigger] transactions[i], from, to) ==> own_delta(
            transactions[i],
            own,
        ) is Some
    &&& summable(flow_entries(transactions, from, to, own, true))
    &&& summable(flow_entries(transactions, from, to, own, false))
    &&& total(flow_deltas(transactions, from, to, own, true)) is Some
    &&& total(flow_deltas(transactions, from, to, own, false)) is Some
}

/// What came into the own accounts in a period and what went out.
#[derive(Debug)]
pub struct AuditReport {
    pub from: Timestamp,
    pub to: Timestamp,
    pub beginning_balances: Vec<(AccountId, Amount)>,
    pub ending_balances: Vec<(AccountId, Amount)>,
    pub receipts: Vec<(AccountId, Amount)>,
    pub disbursements: Vec<(AccountId, Amount)>,
    pub total_receipts: Amount,
    pub total_disbursements: Amount,
}

/// The report as a value.
pub struct AuditReportView {
    pub from: int,
    pub to: int,
    pub beginning_balances: Seq<(Seq<char>, Dec)>,
    pub ending_balances: Seq<(Seq<char>, Dec)>,
    pub receipts: Seq<(Seq<char>, Dec)>,
    pub disbursements: Seq<(Seq<char>, Dec)>,
    pub total_receipts: Dec,
    pub total_disbursements: Dec,
}

impl View for AuditReport {
    type V = AuditReportView;

    open spec fn view(&self) -> AuditReportView {
        AuditReportView {
            from: self.from@,
            to: self.to@,
            beginning_balances: row_views(self.beginning_balances@),
            ending_balances: row_views(self.ending_balances@),
            receipts: row_views(self.receipts@),
            disbursements: row_views(self.disbursements@),
            total_receipts: self.total_receipts@,
            total_disbursements: self.total_disbursements@,
        }
    }
}

impl AuditReportView {
    /// Whether this is the report on the transactions of a period.
    pub open spec fn reports(
        self,
        transactions: Seq<TransactionView>,
        from: int,
        to: int,
        own: Seq<Seq<char>>,
    ) -> bool {
        &&& self.from == from
        &&& self.to == to
        &&& lists(self.beginning_balances, own_balances(transactions, from, own))
        &&& lists(self.ending_balances, own_balances(transactions, to, own))
        &&& lists(self.receipts, balances_of(flow_entries(transactions, from, to, own, true)))
        &&& lists(self.disbursements, balances_of(flow_entries(transactions, from, to, own, false)))
        &&& total(flow_deltas(transactions, from, to, own, true)) == Some(self.total_receipts)
        &&& total(flow_deltas(transactions, from, to, own, false)) == Some(self.total_disbursements)
    }
}

/// The net effect of entries on the own accounts, or nothing where one of
/// the sums on the way is out of range.
fn delta_of(entries: &Vec<Entry>, own: &Vec<AccountId>) -> (delta: Option<Amount>)
    ensures
        total(amounts_where(entry_views(entries@), is_one_of(id_views(own@)))) == (match delta {
            Some(d) => Some(d@),
            None => None,
        }),
{
    let ghost all = entry_views(entries@);
    let ghost p = is_one_of(id_views(own@));
    let mut picked: Vec<Amount> = Vec::new();
    assert(all.take(0) =~= Seq::empty());
    assert(decs(picked@) =~= Seq::empty());
    for i in 0..entries.len()
        invariant
            all == entry_views(entries@),
            p == is_one_of(id_views(own@)),
            decs(picked@) == amounts_where(all.take(i as int), p),
    {
        let ghost was = picked@;
        assert(all.take(i + 1).drop_last() =~= all.take(i as int));
        if is_own(own, &entries[i].account) {
            picked.push(entries[i].amount);
            assert(decs(picked@) =~= decs(was).push(all[i as int].amount));
        }
    }
    assert(all.take(all.len() as int) =~= all);
    checked_total_of(&picked)
}

/// What the entries outside the own accounts give or take, put behind what
/// is there.
fn push_outside_flows(found: &mut Vec<Entry>, entries: &Vec<Entry>, own: &Vec<AccountId>, incoming: bool)
    ensures
        entry_views(final(found)@) == entry_views(old(found)@) + outside_flows(
            entry_views(entries@),
            id_views(own@),
            incoming,
        ),
{
    let ghost all = entry_views(entries@);
    let ghost ids = id_views(own@);
    let ghost start = entry_views(found@);
    assert(all.take(0) =~= Seq::empty());
    assert(start =~= start + outside_flows(all.take(0), ids, incoming));
    for i in 0..entries.len()
        invariant
            all == entry_views(entries@),
            ids == id_views(own@),
            entry_views(found@) == start + outside_flows(all.take(i as int), ids, incoming),
    {
        let e = &entries[i];
        let ghost was = found@;
        assert(all.take(i + 1).drop_last() =~= all.take(i as int));
        if !is_own(own, &e.account) {
            if incoming && e.amount.is_negative() {
                found.push(Entry { account: e.account.clone(), amount: e.amount.negate() });
                assert(entry_views(found@) =~= entry_views(was).push(
                    outside_flow(all[i as int], ids, incoming).unwrap(),
                ));
            } else if !incoming && e.amount.is_positive() {
                found.push(e.clone());
                assert(entry_views(found@) =~= entry_views(was).push(
                    outside_flow(all[i as int], ids, incoming).unwrap(),
                ));
            }
        }
        assert(entry_views(found@) =~= start + outside_flows(all.take(i + 1), ids, incoming));
    }
    assert(all.take(all.len() as int) =~= all);
}

/// Build an audit report from a set of transactions, or nothing where one of
/// the sums on the way is out of range.
pub fn checked_audit_report(
    transactions: &[Transaction],
    from: Timestamp,
    to: Timestamp,
    our_accounts: &Vec<AccountId>,
) -> (report: Option<AuditReport>)
    ensures
        match report {
            Some(r) => audit_sums(
                transaction_views(transactions@),
                from@,
                to@,
                id_views(our_accounts@),
            ) && r@.reports(
                transaction_views(transactions@),
                from@,
                to@,
                id_views(our_accounts@),
            ),
            None => !audit_sums(
                transaction_views(transactions@),
                from@,
                to@,
                id_views(our_accounts@),
            ),
        },
{
    let ghost txs = transaction_views(transactions@);
    let ghost own = id_views(our_accounts@);
    let asset_ids: Vec<AccountId> = in_order(our_accounts);
    proof {
        lemma_ordered_balances(txs, from@, own, id_views(asset_ids@));
        lemma_ordered_balances(txs, to@, own, id_views(asset_ids@));
    }
    let beginning_balances = match balances_until(transactions, &from, &asset_ids) {
        Some(rows) => rows,
        None => {
            return None;
        },
    };
    let ending_balances = match balances_until(transactions, &to, &asset_ids) {
        Some(rows) => rows,
        None => {
            return None;
        },
    };
    let mut receipts: Vec<Entry> = Vec::new();
    let mut disbursements: Vec<Entry> = Vec::new();
    let mut received: Vec<Amount> = Vec::new();
    let mut disbursed: Vec<Amount> = Vec::new();
    assert(txs.take(0) =~= Seq::empty());
    assert(entry_views(receipts@) =~= Seq::empty());
    assert(decs(received@) =~= Seq::empty());
    for i in 0..transactions.len()
        invariant
            txs == transaction_views(transactions@),
            own == id_views(our_accounts@),
            entry_views(receipts@) == flow_entries(txs.take(i as int), from@, to@, own, true),
            entry_views(disbursements@) == flow_entries(txs.take(i as int), from@, to@, own, false),
            decs(received@) == flow_deltas(txs.take(i as int), from@, to@, own, true),
            decs(disbursed@) == flow_deltas(txs.take(i as int), from@, to@, own, false),
            forall|k: int|
                0 <= k < i && in_period(#[trigger] txs[k], from@, to@) ==> own_delta(txs[k], own) is Some,
    {
        let tx = &transactions[i];
        assert(txs.take(i + 1).drop_last() =~= txs.take(i as int));
        if !tx.posted_at.is_before(&from) && tx.posted_at.is_before(&to) {
            match delta_of(&tx.entries, our_accounts) {
                None => {
                    assert(in_period(txs[i as int], from@, to@));
                    return None;
                },
                Some(delta) => {
                    let ghost was = (received@, disbursed@);
                    if delta.is_positive() {
                        received.push(delta);
                        assert(decs(received@) =~= decs(was.0).push(delta@));
                        push_outside_flows(&mut receipts, &tx.entries, our_accounts, true);
                    } else if delta.is_negative() {
                        let out: Amount = delta.negate();
                        disbursed.push(out);
                        assert(decs(disbursed@) =~= decs(was.1).push(out@));
                        push_outside_flows(&mut disbursements, &tx.entries, our_accounts, false);
                    }
                },
            }
        }
    }
    assert(txs.take(txs.len() as int) =~= txs);
    let receipts = match checked_balances(&receipts) {
        Some(map) => sort_by_account(&map),
        None => {
            return None;
        },
    };
    let disbursements = match checked_balances(&disbursements) {
        Some(map) => sort_by_account(&map),
        None => {
            return None;
        },
    };
    match (checked_total_of(&received), checked_total_of(&disbursed)) {
        (Some(total_receipts), Some(total_disbursements)) => Some(
            AuditReport {
                from,
                to,
                beginning_balances,
                ending_balances,
                receipts,
                disbursements,
                total_receipts,
                total_disbursements,
            },
        ),
        _ => None,
    }
}

/// Build an audit report from a set of transactions.
///
/// `from` is inclusive and `to` is exclusive. "Our" accounts are the asset
/// accounts in `our_accounts`. The beginning and ending balances are broken
/// down per asset account, computed as the sum of each account's entries over
/// all transactions strictly before `from` (beginning) and strictly before
/// `to` (ending). Within the period, a transaction whose net effect on our
/// asset accounts is positive is a receipt (attributed to the non-asset
/// accounts it leaves), and one whose net effect is negative is a
/// disbursement (attributed to the non-asset accounts it enters). The totals
/// are the net change of our asset accounts, so the sum of beginning balances
/// plus total receipts minus total disbursements ties to the sum of ending
/// balances. Transfers between our own asset accounts net to zero and are
/// neither receipts nor disbursements.
pub fn build_audit_report(
    transactions: &[Transaction],
    from: Timestamp,
    to: Timestamp,
    our_accounts: &Vec<AccountId>,
) -> (report: AuditReport)
    requires
        audit_sums(transaction_views(transactions@), from@, to@, id_views(our_accounts@)),
    ensures
        report@.reports(transaction_views(transactions@), from@, to@, id_views(our_accounts@)),
{
    checked_audit_report(transactions, from, to, our_accounts).unwrap()
}

/// The units of all rows together.
pub open spec fn account_rows_units(rows: Seq<(Seq<char>, Dec)>) -> int
    decreases rows.len(),
{
    if rows.len() == 0 {
        0
    } else {
        account_rows_units(rows.drop_last()) + rows.last().1.units()
    }
}

/// Whether no sum of the report needs rounding.
pub open spec fn audit_exact(
    transactions: Seq<TransactionView>,
    from: int,
    to: int,
    own: Seq<Seq<char>>,
) -> bool {
    &&& forall|a: Seq<char>|
        #[trigger] own.contains(a) ==> {
            &&& adds_up_exactly(account_amounts(entries_before(transactions, from), a))
            &&& adds_up_exactly(account_amounts(entries_before(transactions, to), a))
        }
    &&& forall|i: int|
        0 <= i < transactions.len() && in_period(#[trigger] transactions[i], from, to)
            ==> adds_up_exactly(amounts_where(transactions[i].entries, is_one_of(own)))
    &&& adds_up_exactly(flow_deltas(transactions, from, to, own, true))
    &&& adds_up_exactly(flow_deltas(transactions, from, to, own, false))
}

/// Rows that hold the sums of accounts hold the sum of all of them.
pub proof fn lemma_rows_are_accounts(
    rows: Seq<(Seq<char>, Dec)>,
    entries: Seq<EntryView>,
    keys: Seq<Seq<char>>,
)
    requires
        entries_wf(entries),
        keys.len() == rows.len(),
        forall|i: int| 0 <= i < rows.len() ==> keys[i] == (#[trigger] rows[i]).0,
        forall|i: int|
            0 <= i < rows.len() ==> adds_up_exactly(account_amounts(entries, #[trigger] keys[i]))
                && total(account_amounts(entries, keys[i])) == Some(rows[i].1),
    ensures
        account_rows_units(rows) == accounts_units(entries, keys),
    decreases rows.len(),
{
    if rows.len() > 0 {
        let n = rows.len() - 1;
        assert forall|i: int| 0 <= i < n implies keys.drop_last()[i] == (#[trigger] rows.drop_last()[i]).0 by {
            assert(rows.drop_last()[i] == rows[i]);
        }
        assert forall|i: int| 0 <= i < n implies adds_up_exactly(
            account_amounts(entries, #[trigger] keys.drop_last()[i]),
        ) && total(account_amounts(entries, keys.drop_last()[i])) == Some(rows.drop_last()[i].1) by {
            assert(keys.drop_last()[i] == keys[i]);
        }
        lemma_rows_are_accounts(rows.drop_last(), entries, keys.drop_last());
        lemma_amounts_wf(entries, is_account(keys[n]));
        lemma_total_exact(account_amounts(entries, keys[n]));
        assert(rows[n] == rows.last());
    }
}

proof fn lemma_balances_units(
    rows: Seq<(Seq<char>, Dec)>,
    transactions: Seq<TransactionView>,
    boundary: int,
    own: Seq<Seq<char>>,
)
    requires
        crate::book::transactions_wf(transactions),
        lists(rows, own_balances(transactions, boundary, own)),
        forall|a: Seq<char>|
            #[trigger] own.contains(a) ==> adds_up_exactly(
                account_amounts(entries_before(transactions, boundary), a),
            ),
    ensures
        account_rows_units(rows) == units_total(
            amounts_where(entries_before(transactions, boundary), is_one_of(own)),
        ),
{
    let entries = entries_before(transactions, boundary);
    let map = own_balances(transactions, boundary, own);
    let keys = Seq::new(rows.len(), |i: int| rows[i].0);
    lemma_entries_before_wf(transactions, boundary);
    assert forall|i: int| 0 <= i < rows.len() implies adds_up_exactly(
        account_amounts(entries, #[trigger] keys[i]),
    ) && total(account_amounts(entries, keys[i])) == Some(rows[i].1) by {
        assert(map.dom().contains(rows[i].0));
        assert(own.contains(keys[i]));
        lemma_amounts_wf(entries, is_account(keys[i]));
        lemma_total_exact(account_amounts(entries, keys[i]));
    }
    lemma_rows_are_accounts(rows, entries, keys);
    assert forall|i: int, j: int| 0 <= i < keys.len() && 0 <= j < keys.len() && i != j implies keys[i]
        != keys[j] by {
        if i < j {
            assert(precedes(rows[i].0, rows[j].0));
            lemma_precedes_irreflexive(keys[i]);
        } else {
            assert(precedes(rows[j].0, rows[i].0));
            lemma_precedes_irreflexive(keys[i]);
        }
    }
    lemma_accounts_units(entries, keys);
    let p = is_one_of(keys);
    let q = is_one_of(own);
    assert forall|i: int| 0 <= i < entries.len() implies p(#[trigger] entries[i]) == q(entries[i]) by {
        let a = entries[i].account;
        if own.contains(a) {
            assert(map.dom().contains(a));
            assert(has_row(rows, a));
            let k = choose|k: int| 0 <= k < rows.len() && (#[trigger] rows[k]).0 == a;
            assert(keys[k] == a);
        }
        if keys.contains(a) {
            let k = keys.index_of(a);
            assert(map.dom().contains(rows[k].0));
        }
    }
    lemma_amounts_same(entries, p, q);
}

/// The amounts before a point in time are amounts.
pub proof fn lemma_entries_before_wf(transactions: Seq<TransactionView>, boundary: int)
    requires
        crate::book::transactions_wf(transactions),
    ensures
        entries_wf(entries_before(transactions, boundary)),
    decreases transactions.len(),
{
    if transactions.len() > 0 {
        let t = transactions.drop_last();
        assert forall|i: int| 0 <= i < t.len() implies entries_wf((#[trigger] t[i]).entries) by {
            assert(t[i] == transactions[i]);
        }
        lemma_entries_before_wf(t, boundary);
        assert(entries_wf(transactions[transactions.len() - 1].entries));
        let a = entries_before(t, boundary);
        let b = transactions.last().entries;
        assert forall|i: int| 0 <= i < (a + b).len() implies (#[trigger] (a + b)[i]).amount.wf() by {
            if i < a.len() {
                assert(a[i].amount.wf());
            } else {
                assert(b[i - a.len()].amount.wf());
            }
        }
    }
}

proof fn lemma_flow_units(
    transactions: Seq<TransactionView>,
    from: int,
    to: int,
    own: Seq<Seq<char>>,
)
    requires
        from <= to,
        crate::book::transactions_wf(transactions),
        forall|i: int|
            0 <= i < transactions.len() && in_period(#[trigger] transactions[i], from, to)
                ==> adds_up_exactly(amounts_where(transactions[i].entries, is_one_of(own))),
    ensures
        units_total(amounts_where(entries_before(transactions, to), is_one_of(own))) == units_total(
            amounts_where(entries_before(transactions, from), is_one_of(own)),
        ) + units_total(flow_deltas(transactions, from, to, own, true)) - units_total(
            flow_deltas(transactions, from, to, own, false),
        ),
        all_wf(flow_deltas(transactions, from, to, own, true)),
        all_wf(flow_deltas(transactions, from, to, own, false)),
    decreases transactions.len(),
{
    if transactions.len() > 0 {
        let t = transactions.drop_last();
        let tx = transactions.last();
        let p = is_one_of(own);
        assert forall|i: int| 0 <= i < t.len() implies entries_wf((#[trigger] t[i]).entries) by {
            assert(t[i] == transactions[i]);
        }
        assert forall|i: int| 0 <= i < t.len() && in_period(#[trigger] t[i], from, to) implies adds_up_exactly(
            amounts_where(t[i].entries, p),
        ) by {
            assert(t[i] == transactions[i]);
        }
        lemma_flow_units(t, from, to, own);
        assert(entries_wf(transactions[transactions.len() - 1].entries));
        let mine = amounts_where(tx.entries, p);
        lemma_amounts_concat(entries_before(t, to), tx.entries, p);
        lemma_amounts_concat(entries_before(t, from), tx.entries, p);
        lemma_units_concat(amounts_where(entries_before(t, to), p), mine);
        lemma_units_concat(amounts_where(entries_before(t, from), p), mine);
        if in_period(tx, from, to) {
            assert(in_period(transactions[transactions.len() - 1], from, to));
            lemma_amounts_wf(tx.entries, p);
            lemma_total_exact(mine);
            let delta = total(mine).unwrap();
            lemma_negated_units(delta);
            lemma_total_push(flow_deltas(t, from, to, own, true), delta);
            lemma_total_push(flow_deltas(t, from, to, own, false), delta.negated());
            if delta.mantissa == 0 {
                assert(0 * crate::decimal::pow10(
                    (crate::decimal::MAX_SCALE - delta.scale) as nat,
                ) == 0) by (nonlinear_arith);
            }
        }
    }
}

/// The report reconciles: the beginning balances and the receipts, without
/// the disbursements, are the ending balances, as long as the period does
/// not end before it begins and no sum needs rounding.
pub proof fn law_audit_reconciles(
    report: AuditReportView,
    transactions: Seq<TransactionView>,
    from: int,
    to: int,
    own: Seq<Seq<char>>,
)
    requires
        from <= to,
        crate::book::transactions_wf(transactions),
        audit_exact(transactions, from, to, own),
        report.reports(transactions, from, to, own),
    ensures
        account_rows_units(report.beginning_balances) + report.total_receipts.units()
            - report.total_disbursements.units() == account_rows_units(report.ending_balances),
{
    lemma_balances_units(report.beginning_balances, transactions, from, own);
    lemma_balances_units(report.ending_balances, transactions, to, own);
    lemma_flow_units(transactions, from, to, own);
    lemma_total_exact(flow_deltas(transactions, from, to, own, true));
    lemma_total_exact(flow_deltas(transactions, from, to, own, false));
}

/// Transfers between own accounts are neutral: a transaction that sums to
/// zero and speaks of own accounts alone is neither a receipt nor a
/// disbursement.
pub proof fn law_own_transfers_are_neutral(
    transactions: Seq<TransactionView>,
    tx: TransactionView,
    from: int,
    to: int,
    own: Seq<Seq<char>>,
    incoming: bool,
)
    requires
        forall|i: int| 0 <= i < tx.entries.len() ==> own.contains((#[trigger] tx.entries[i]).account),
        total(amounts(tx.entries)) matches Some(sum) && sum.mantissa == 0,
    ensures
        flow_entries(transactions.push(tx), from, to, own, incoming) == flow_entries(
            transactions,
            from,
            to,
            own,
            incoming,
        ),
        flow_deltas(transactions.push(tx), from, to, own, incoming) == flow_deltas(
            transactions,
            from,
            to,
            own,
            incoming,
        ),
{
    assert(transactions.push(tx).drop_last() =~= transactions);
    let p = is_one_of(own);
    assert forall|i: int| 0 <= i < tx.entries.len() implies p(#[trigger] tx.entries[i]) by {
        assert(own.contains(tx.entries[i].account));
    }
    crate::book::lemma_amounts_all(tx.entries, p);
}

/// A transaction that leaves the own accounts alone is neither a receipt
/// nor a disbursement.
pub proof fn law_foreign_transactions_are_neutral(
    transactions: Seq<TransactionView>,
    tx: TransactionView,
    from: int,
    to: int,
    own: Seq<Seq<char>>,
    incoming: bool,
)
    requires
        forall|i: int| 0 <= i < tx.entries.len() ==> !own.contains((#[trigger] tx.entries[i]).account),
    ensures
        flow_entries(transactions.push(tx), from, to, own, incoming) == flow_entries(
            transactions,
            from,
            to,
            own,
            incoming,
        ),
        flow_deltas(transactions.push(tx), from, to, own, incoming) == flow_deltas(
            transactions,
            from,
            to,
            own,
            incoming,
        ),
{
    assert(transactions.push(tx).drop_last() =~= transactions);
    let p = is_one_of(own);
    assert forall|i: int| 0 <= i < tx.entries.len() implies !p(#[trigger] tx.entries[i]) by {
        assert(!own.contains(tx.entries[i].account));
    }
    crate::book::lemma_amounts_none(tx.entries, p);
}

} // verus!
