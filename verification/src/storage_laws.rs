//! What holds of stored rows: which are read, and as what.

use vstd::prelude::*;

use crate::account_id::{id_read, AccountIdError};
use crate::book::{all_entries, EntryView, TransactionView};
use crate::decimal::{amount_read, Dec};
use crate::model::{class_read, kind_read, AccountClass};
use crate::reconstruct::{first_unknown, first_unknown_of};
use crate::storage::{
    account_row_read, account_rows_read, entry_row_read, entry_rows_read, first_unregistered,
    header_read, joined_read, joined_rows_read, neighbours_differ, with_row, EntryRowView,
    JoinedRowView, JoinedView, StorageErrorView, TransactionRowView,
};
use crate::time::timestamp_read;
use crate::transaction_id::id_number;

verus! {

/// A row holds an account exactly if it has an id and the name of a class,
/// and then holds that account with that class.
pub proof fn law_a_row_holds_an_account(row: (Seq<char>, Seq<char>))
    ensures
        account_row_read(row) is Ok <==> id_read(row.0) is Ok && class_read(row.1) is Some,
        account_row_read(row) matches Ok(account) ==> id_read(row.0) == Ok::<
            Seq<char>,
            AccountIdError,
        >(account.0) && class_read(row.1) == Some(account.1),
{
}

/// Accounts are read row by row: all of them where each can be, and
/// otherwise the first that cannot tells why.
pub proof fn law_accounts_are_read_row_by_row(rows: Seq<(Seq<char>, Seq<char>)>)
    ensures
        account_rows_read(rows) is Ok <==> forall|i: int|
            0 <= i < rows.len() ==> account_row_read(#[trigger] rows[i]) is Ok,
        account_rows_read(rows) matches Ok(read) ==> read.len() == rows.len() && forall|i: int|
            0 <= i < rows.len() ==> account_row_read(#[trigger] rows[i]) == Ok::<
                (Seq<char>, AccountClass),
                StorageErrorView,
            >(read[i]),
        account_rows_read(rows) matches Err(e) ==> exists|k: int|
            0 <= k < rows.len() && account_row_read(#[trigger] rows[k]) == Err::<
                (Seq<char>, AccountClass),
                StorageErrorView,
            >(e) && forall|i: int| 0 <= i < k ==> account_row_read(#[trigger] rows[i]) is Ok,
    decreases rows.len(),
{
    if rows.len() > 0 {
        let t = rows.drop_last();
        let n = rows.len() - 1;
        law_accounts_are_read_row_by_row(t);
        assert(rows[n] == rows.last());
        match account_rows_read(t) {
            Err(e) => {
                let k = choose|k: int|
                    0 <= k < t.len() && account_row_read(#[trigger] t[k]) == Err::<
                        (Seq<char>, AccountClass),
                        StorageErrorView,
                    >(e) && forall|i: int| 0 <= i < k ==> account_row_read(#[trigger] t[i]) is Ok;
                assert(rows[k] == t[k]);
                assert forall|i: int| 0 <= i < k implies account_row_read(#[trigger] rows[i]) is Ok by {
                    assert(rows[i] == t[i]);
                }
            },
            Ok(before) => {
                assert forall|i: int| 0 <= i < n implies account_row_read(#[trigger] rows[i]) == Ok::<
                    (Seq<char>, AccountClass),
                    StorageErrorView,
                >(before[i]) by {
                    assert(rows[i] == t[i]);
                }
            },
        }
    }
}

/// A row holds an entry exactly if it has an id and an amount, and then holds
/// that amount on that account.
pub proof fn law_a_row_holds_an_entry(row: EntryRowView)
    ensures
        entry_row_read(row) is Ok <==> id_read(row.account) is Ok && amount_read(row.amount) is Ok,
        entry_row_read(row) matches Ok(e) ==> id_read(row.account) == Ok::<
            Seq<char>,
            AccountIdError,
        >(e.account) && amount_read(row.amount) == Ok::<Dec, Seq<char>>(e.amount),
{
}

/// Entries are read row by row: all of them where each can be, and otherwise
/// the first that cannot tells why.
pub proof fn law_entries_are_read_row_by_row(rows: Seq<EntryRowView>)
    ensures
        entry_rows_read(rows) is Ok <==> forall|i: int|
            0 <= i < rows.len() ==> entry_row_read(#[trigger] rows[i]) is Ok,
        entry_rows_read(rows) matches Ok(read) ==> read.len() == rows.len() && forall|i: int|
            0 <= i < rows.len() ==> entry_row_read(#[trigger] rows[i]) == Ok::<
                EntryView,
                StorageErrorView,
            >(read[i]),
        entry_rows_read(rows) matches Err(e) ==> exists|k: int|
            0 <= k < rows.len() && entry_row_read(#[trigger] rows[k]) == Err::<
                EntryView,
                StorageErrorView,
            >(e) && forall|i: int| 0 <= i < k ==> entry_row_read(#[trigger] rows[i]) is Ok,
    decreases rows.len(),
{
    if rows.len() > 0 {
        let t = rows.drop_last();
        let n = rows.len() - 1;
        law_entries_are_read_row_by_row(t);
        assert(rows[n] == rows.last());
        match entry_rows_read(t) {
            Err(e) => {
                let k = choose|k: int|
                    0 <= k < t.len() && entry_row_read(#[trigger] t[k]) == Err::<
                        EntryView,
                        StorageErrorView,
                    >(e) && forall|i: int| 0 <= i < k ==> entry_row_read(#[trigger] t[i]) is Ok;
                assert(rows[k] == t[k]);
                assert forall|i: int| 0 <= i < k implies entry_row_read(#[trigger] rows[i]) is Ok by {
                    assert(rows[i] == t[i]);
                }
            },
            Ok(before) => {
                assert forall|i: int| 0 <= i < n implies entry_row_read(#[trigger] rows[i]) == Ok::<
                    EntryView,
                    StorageErrorView,
                >(before[i]) by {
                    assert(rows[i] == t[i]);
                }
            },
        }
    }
}

/// A row holds a transaction exactly if its point in time and its kind can
/// be read, and then has both.
pub proof fn law_a_row_holds_a_point_in_time_and_a_kind(row: TransactionRowView)
    ensures
        header_read(row) is Ok <==> timestamp_read(row.posted_at) is Some && kind_read(
            row.kind,
        ) is Some,
        header_read(row) matches Ok(header) ==> timestamp_read(row.posted_at) == Some(header.0)
            && kind_read(row.kind) == Some(header.1),
{
}

/// A row of an entry beside its transaction holds both exactly if all of it
/// can be read, and then holds what is read.
pub proof fn law_a_joined_row_holds_both(row: JoinedRowView)
    ensures
        joined_read(row) is Ok <==> id_number(row.transaction.id) is Some && timestamp_read(
            row.transaction.posted_at,
        ) is Some && kind_read(row.transaction.kind) is Some && id_read(row.entry.account) is Ok
            && amount_read(row.entry.amount) is Ok,
        joined_read(row) matches Ok(v) ==> {
            &&& v.id == id_number(row.transaction.id)->0 as u128
            &&& timestamp_read(row.transaction.posted_at) == Some(v.posted_at)
            &&& v.memo == row.transaction.memo
            &&& kind_read(row.transaction.kind) == Some(v.kind)
            &&& id_read(row.entry.account) == Ok::<Seq<char>, AccountIdError>(v.entry.account)
            &&& amount_read(row.entry.amount) == Ok::<Dec, Seq<char>>(v.entry.amount)
        },
{
    reveal(joined_read);
}

/// Whether a row is one of those that a transaction was read from: it has
/// its id, date, memo and kind.
pub open spec fn heads(row: JoinedRowView, tx: TransactionView) -> bool {
    joined_read(row) matches Ok(v) && v.id == tx.id && v.posted_at == tx.posted_at && v.memo
        == tx.memo && v.kind == tx.kind
}

/// Rows are read one by one. Every row gives one entry of one transaction,
/// in their order; rows of the same id that follow each other are one
/// transaction, so that transactions that follow each other have different
/// ids; and each has its head from one of its rows.
pub proof fn law_rows_that_follow_each_other_are_one_transaction(rows: Seq<JoinedRowView>)
    ensures
        joined_rows_read(rows) is Ok <==> forall|i: int|
            0 <= i < rows.len() ==> joined_read(#[trigger] rows[i]) is Ok,
        joined_rows_read(rows) matches Ok(txs) ==> {
            &&& all_entries(txs).len() == rows.len()
            &&& forall|i: int|
                0 <= i < rows.len() ==> joined_read(#[trigger] rows[i])->Ok_0.entry == all_entries(
                    txs,
                )[i]
            &&& neighbours_differ(txs)
            &&& forall|k: int|
                0 <= k < txs.len() ==> (#[trigger] txs[k]).entries.len() > 0 && exists|i: int|
                    0 <= i < rows.len() && heads(#[trigger] rows[i], txs[k])
            &&& rows.len() > 0 ==> txs.len() > 0 && txs.last().id == joined_read(
                rows.last(),
            )->Ok_0.id
        },
    decreases rows.len(),
{
    if rows.len() > 0 {
        let t = rows.drop_last();
        let n = rows.len() - 1;
        law_rows_that_follow_each_other_are_one_transaction(t);
        assert(rows[n] == rows.last());
        assert forall|i: int| 0 <= i < n implies #[trigger] rows[i] == t[i] by {}
        if joined_rows_read(t) is Err {
            let i = choose|i: int| 0 <= i < t.len() && joined_read(#[trigger] t[i]) is Err;
            assert(joined_read(rows[i]) is Err);
        } else if joined_read(rows[n]) is Ok {
            let before = joined_rows_read(t)->Ok_0;
            let v = joined_read(rows[n])->Ok_0;
            let txs = with_row(before, v);
            assert forall|i: int| 0 <= i < rows.len() implies joined_read(#[trigger] rows[i]) is Ok by {
                if i < n {
                    assert(joined_read(t[i]) is Ok);
                }
            }
            lemma_with_row(before, v);
            assert forall|i: int| 0 <= i < rows.len() implies joined_read(#[trigger] rows[i])->Ok_0.entry
                == all_entries(txs)[i] by {
                if i < n {
                    assert(joined_read(t[i])->Ok_0.entry == all_entries(before)[i]);
                }
            }
            assert forall|k: int| 0 <= k < txs.len() implies (#[trigger] txs[k]).entries.len() > 0
                && exists|i: int| 0 <= i < rows.len() && heads(#[trigger] rows[i], txs[k]) by {
                if k < before.len() {
                    assert(before[k].entries.len() > 0);
                    let i = choose|i: int| 0 <= i < t.len() && heads(#[trigger] t[i], before[k]);
                    assert(heads(rows[i], txs[k]));
                } else {
                    assert(heads(rows[n], txs[k]));
                }
            }
        }
    }
}

proof fn lemma_with_row(before: Seq<TransactionView>, v: JoinedView)
    requires
        neighbours_differ(before),
    ensures
        all_entries(with_row(before, v)) == all_entries(before).push(v.entry),
        neighbours_differ(with_row(before, v)),
{
    let txs = with_row(before, v);
    let n = before.len() - 1;
    if before.len() > 0 && before.last().id == v.id {
        assert(txs.drop_last() =~= before.drop_last());
        assert(all_entries(txs) =~= all_entries(before).push(v.entry));
        assert forall|i: int, j: int| 0 <= i < j < txs.len() && j == i + 1 implies (
        #[trigger] txs[i]).id != (#[trigger] txs[j]).id by {
            assert(before[i].id != before[j].id);
        }
    } else {
        assert(txs.drop_last() =~= before);
        assert(all_entries(txs) =~= all_entries(before).push(v.entry));
        assert forall|i: int, j: int| 0 <= i < j < txs.len() && j == i + 1 implies (
        #[trigger] txs[i]).id != (#[trigger] txs[j]).id by {
            if j < before.len() {
                assert(before[i].id != before[j].id);
            } else {
                assert(txs[i] == before.last());
            }
        }
    }
}

/// A transaction can be stored exactly if the account of every entry is
/// registered; else the first that is not is named.
pub proof fn law_every_account_has_to_be_registered(
    entries: Seq<EntryView>,
    registered: Seq<bool>,
    k: int,
)
    requires
        entries.len() == registered.len(),
        0 <= k <= entries.len(),
        forall|i: int| 0 <= i < k ==> #[trigger] registered[i],
    ensures
        k == entries.len() ==> first_unregistered(entries, registered) is None,
        k < entries.len() && !registered[k] ==> first_unregistered(entries, registered) == Some(
            entries[k].account,
        ),
    decreases entries.len(),
{
    if entries.len() > 0 && k > 0 {
        let rest = entries.drop_first();
        let flags = registered.drop_first();
        assert(registered[0]);
        assert forall|i: int| 0 <= i < k - 1 implies #[trigger] flags[i] by {
            assert(flags[i] == registered[i + 1]);
        }
        law_every_account_has_to_be_registered(rest, flags, k - 1);
    }
}

/// A book can be written as commands exactly if every account of every entry
/// has a class.
pub proof fn law_every_account_needs_a_class(
    transactions: Seq<TransactionView>,
    classes: Map<Seq<char>, AccountClass>,
)
    ensures
        first_unknown_of(transactions, classes) is None <==> forall|i: int|
            0 <= i < transactions.len() ==> first_unknown(
                (#[trigger] transactions[i]).entries,
                classes,
            ) is None,
        first_unknown_of(transactions, classes) matches Some(a) ==> !classes.dom().contains(a),
    decreases transactions.len(),
{
    if transactions.len() > 0 {
        let rest = transactions.drop_first();
        law_every_account_needs_a_class(rest, classes);
        crate::command_laws::law_an_unknown_account_is_found(transactions[0].entries, classes);
        if first_unknown(transactions[0].entries, classes) is None {
            if first_unknown_of(rest, classes) is None {
                assert forall|i: int| 0 <= i < transactions.len() implies first_unknown(
                    (#[trigger] transactions[i]).entries,
                    classes,
                ) is None by {
                    if i > 0 {
                        assert(rest[i - 1] == transactions[i]);
                    }
                }
            } else {
                let i = choose|i: int|
                    0 <= i < rest.len() && first_unknown(
                        (#[trigger] rest[i]).entries,
                        classes,
                    ) is Some;
                assert(transactions[i + 1] == rest[i]);
            }
        }
    }
}

} // verus!
