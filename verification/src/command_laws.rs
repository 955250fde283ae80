//! What holds of the commands: which are added, on what day, and with what
//! entries and accounts.

use vstd::prelude::*;

use crate::book::{amounts, mentions, EntryView};
use crate::cli::{
    entries_plan, entries_read, entry_read, is_listed, new_accounts, plain_entries, CliErrorView,
    ParsedEntryView,
};
use crate::commands::{
    closing_addition, command_addition, income_addition, opening_addition, CommandView,
};
use crate::decimal::Dec;
use crate::fiscal::{plugged, retained, zeroing};
use crate::model::{
    classes_with, kind_read, misfit, AccountClass, TransactionErrorView, TransactionKind,
};
use crate::posting::{with_retained, AdditionView};
use crate::reconstruct::first_unknown;
use crate::sums::total;
use crate::time::date_read;

verus! {

/// Whether a command falls on a day: on that of the date that it was given,
/// and on `today` only where it was given none or an empty one.
pub open spec fn falls_on(date: Option<Seq<char>>, today: int, day: int) -> bool {
    if date is Some && date->0.len() > 0 {
        date_read(date->0) == Ok::<int, Seq<char>>(day)
    } else {
        day == today
    }
}

/// Whether the text of an entry gives its account and its amount.
pub open spec fn gives(text: Seq<char>, e: EntryView) -> bool {
    entry_read(text) matches Ok(p) && p.id == e.account && p.amount == e.amount
}

/// The entries of a command are read one by one: all of them where each can
/// be, and otherwise the first that cannot tells why.
pub proof fn law_entries_are_read_one_by_one(texts: Seq<Seq<char>>)
    ensures
        entries_read(texts) is Ok <==> forall|i: int|
            0 <= i < texts.len() ==> entry_read(#[trigger] texts[i]) is Ok,
        entries_read(texts) matches Ok(parsed) ==> parsed.len() == texts.len() && forall|i: int|
            0 <= i < texts.len() ==> entry_read(#[trigger] texts[i]) == Ok::<
                ParsedEntryView,
                CliErrorView,
            >(parsed[i]),
        entries_read(texts) matches Err(e) ==> exists|k: int|
            0 <= k < texts.len() && entry_read(#[trigger] texts[k]) == Err::<
                ParsedEntryView,
                CliErrorView,
            >(e) && forall|i: int| 0 <= i < k ==> entry_read(#[trigger] texts[i]) is Ok,
    decreases texts.len(),
{
    if texts.len() > 0 {
        let t = texts.drop_last();
        let n = texts.len() - 1;
        law_entries_are_read_one_by_one(t);
        assert(texts[n] == texts.last());
        assert forall|i: int| 0 <= i < n implies #[trigger] texts[i] == t[i] by {}
        match entries_read(t) {
            Err(e) => {
                let k = choose|k: int|
                    0 <= k < t.len() && entry_read(#[trigger] t[k]) == Err::<
                        ParsedEntryView,
                        CliErrorView,
                    >(e) && forall|i: int| 0 <= i < k ==> entry_read(#[trigger] t[i]) is Ok;
                assert(texts[k] == t[k]);
                assert forall|i: int| 0 <= i < k implies entry_read(#[trigger] texts[i]) is Ok by {
                    assert(texts[i] == t[i]);
                }
            },
            Ok(before) => {
                assert forall|i: int| 0 <= i < n implies entry_read(#[trigger] texts[i]) == Ok::<
                    ParsedEntryView,
                    CliErrorView,
                >(before[i]) by {
                    assert(texts[i] == t[i]);
                }
                match entry_read(texts[n]) {
                    Ok(p) => {
                        assert forall|i: int| 0 <= i < texts.len() implies entry_read(
                            #[trigger] texts[i],
                        ) == Ok::<ParsedEntryView, CliErrorView>(before.push(p)[i]) by {}
                    },
                    Err(e) => {
                        assert(entry_read(texts[n]) is Err);
                    },
                }
            },
        }
    }
}

/// Whether an entry is the first that names an account with a class, and the
/// class is this one.
pub open spec fn names_first(
    parsed: Seq<ParsedEntryView>,
    j: int,
    account: Seq<char>,
    class: AccountClass,
) -> bool {
    &&& 0 <= j < parsed.len()
    &&& parsed[j].id == account
    &&& parsed[j].class == Some(class)
    &&& forall|i: int| 0 <= i < j && (#[trigger] parsed[i]).id == account ==> parsed[i].class is None
}

/// The accounts that entries register: exactly those that are new and that
/// one of the entries names with a class, each of them once, with the class
/// of the first such entry.
pub proof fn law_new_accounts_are_those_named_with_a_class(
    parsed: Seq<ParsedEntryView>,
    registered: Map<Seq<char>, AccountClass>,
)
    ensures
        ({
            let new = new_accounts(parsed, registered);
            &&& forall|k: int|
                0 <= k < new.len() ==> !registered.dom().contains((#[trigger] new[k]).0) && exists|
                    j: int,
                | #[trigger] names_first(parsed, j, new[k].0, new[k].1)
            &&& forall|j: int|
                0 <= j < parsed.len() && (#[trigger] parsed[j]).class is Some
                    && !registered.dom().contains(parsed[j].id) ==> exists|k: int|
                    0 <= k < new.len() && (#[trigger] new[k]).0 == parsed[j].id
            &&& forall|i: int, k: int|
                0 <= i < k < new.len() ==> (#[trigger] new[i]).0 != (#[trigger] new[k]).0
        }),
    decreases parsed.len(),
{
    if parsed.len() > 0 {
        let t = parsed.drop_last();
        let n = parsed.len() - 1;
        let p = parsed.last();
        let before = new_accounts(t, registered);
        let new = new_accounts(parsed, registered);
        law_new_accounts_are_those_named_with_a_class(t, registered);
        assert(parsed[n] == p);
        assert forall|k: int| 0 <= k < new.len() implies !registered.dom().contains(
            (#[trigger] new[k]).0,
        ) && exists|j: int| #[trigger] names_first(parsed, j, new[k].0, new[k].1) by {
            if k < before.len() {
                assert(new[k] == before[k]);
                let j = choose|j: int| #[trigger] names_first(t, j, before[k].0, before[k].1);
                assert(parsed[j] == t[j]);
                assert forall|i: int| 0 <= i < j && (#[trigger] parsed[i]).id == new[k].0 implies parsed[i].class is None by {
                    assert(t[i] == parsed[i]);
                }
                assert(names_first(parsed, j, new[k].0, new[k].1));
            } else {
                assert forall|i: int| 0 <= i < n && (#[trigger] parsed[i]).id == p.id implies parsed[i].class is None by {
                    assert(t[i] == parsed[i]);
                    if t[i].class is Some {
                        assert(is_listed(before, p.id));
                    }
                }
                assert(names_first(parsed, n, new[k].0, new[k].1));
            }
        }
        assert forall|j: int|
            0 <= j < parsed.len() && (#[trigger] parsed[j]).class is Some
                && !registered.dom().contains(parsed[j].id) implies exists|k: int|
            0 <= k < new.len() && (#[trigger] new[k]).0 == parsed[j].id by {
            if j < n {
                assert(t[j] == parsed[j]);
                let k = choose|k: int| 0 <= k < before.len() && (#[trigger] before[k]).0 == t[j].id;
                assert(new[k] == before[k]);
            } else if is_listed(before, p.id) {
                let k = choose|k: int| 0 <= k < before.len() && (#[trigger] before[k]).0 == p.id;
                assert(new[k] == before[k]);
            } else {
                assert(new[before.len() as int].0 == p.id);
            }
        }
        assert forall|i: int, k: int| 0 <= i < k < new.len() implies (#[trigger] new[i]).0 != (
        #[trigger] new[k]).0 by {
            assert(new[i] == before[i]);
            if k < before.len() {
                assert(new[k] == before[k]);
            } else if before[i].0 == p.id {
                assert(is_listed(before, p.id));
            }
        }
    }
}

/// Accounts that come to others leave them as they are, and have the classes
/// that they come with.
pub proof fn law_accounts_have_the_classes_they_come_with(
    base: Map<Seq<char>, AccountClass>,
    accounts: Seq<(Seq<char>, AccountClass)>,
)
    requires
        forall|i: int, k: int|
            0 <= i < k < accounts.len() ==> (#[trigger] accounts[i]).0 != (#[trigger] accounts[k]).0,
    ensures
        ({
            let known = classes_with(base, accounts);
            &&& forall|k: int|
                0 <= k < accounts.len() ==> known.dom().contains((#[trigger] accounts[k]).0)
                    && known[accounts[k].0] == accounts[k].1
            &&& forall|a: Seq<char>|
                #![trigger known.dom().contains(a)]
                #![trigger known[a]]
                !is_listed(accounts, a) ==> known.dom().contains(a) == base.dom().contains(a)
                    && known[a] == base[a]
        }),
    decreases accounts.len(),
{
    if accounts.len() > 0 {
        let t = accounts.drop_last();
        let n = accounts.len() - 1;
        let known = classes_with(base, accounts);
        let before = classes_with(base, t);
        assert forall|i: int, k: int| 0 <= i < k < t.len() implies (#[trigger] t[i]).0 != (
        #[trigger] t[k]).0 by {
            assert(t[i] == accounts[i] && t[k] == accounts[k]);
        }
        law_accounts_have_the_classes_they_come_with(base, t);
        assert forall|k: int| 0 <= k < accounts.len() implies known.dom().contains(
            (#[trigger] accounts[k]).0,
        ) && known[accounts[k].0] == accounts[k].1 by {
            if k < n {
                assert(t[k] == accounts[k]);
                assert(accounts[k].0 != accounts[n].0);
            }
        }
        assert forall|a: Seq<char>| !is_listed(accounts, a) implies known.dom().contains(a)
            == base.dom().contains(a) && known[a] == base[a] by {
            assert(accounts[n].0 != a);
            if is_listed(t, a) {
                let k = choose|k: int| 0 <= k < t.len() && (#[trigger] t[k]).0 == a;
                assert(accounts[k].0 == a);
            }
            assert(before.dom().contains(a) == base.dom().contains(a));
        }
    }
}

/// Whether an account has a class behind the entries of a command: it is
/// registered with it, or new and first named with it.
pub open spec fn has_class(
    parsed: Seq<ParsedEntryView>,
    registered: Map<Seq<char>, AccountClass>,
    account: Seq<char>,
    class: AccountClass,
) -> bool {
    if registered.dom().contains(account) {
        registered[account] == class
    } else {
        exists|j: int| #[trigger] names_first(parsed, j, account, class)
    }
}

proof fn lemma_known(
    parsed: Seq<ParsedEntryView>,
    registered: Map<Seq<char>, AccountClass>,
    a: Seq<char>,
)
    ensures
        ({
            let known = classes_with(registered, new_accounts(parsed, registered));
            &&& known.dom().contains(a) <==> exists|c: AccountClass| #[trigger]
                has_class(parsed, registered, a, c)
            &&& known.dom().contains(a) ==> has_class(parsed, registered, a, known[a])
            &&& forall|c: AccountClass| #[trigger]
                has_class(parsed, registered, a, c) ==> known.dom().contains(a) && known[a] == c
        }),
{
    let new = new_accounts(parsed, registered);
    let known = classes_with(registered, new);
    let listed = is_listed(new, a);
    assert(listed ==> !registered.dom().contains(a) && known.dom().contains(a) && exists|j: int|
        #[trigger] names_first(parsed, j, a, known[a])) by {
        law_new_accounts_are_those_named_with_a_class(parsed, registered);
        law_accounts_have_the_classes_they_come_with(registered, new);
        if listed {
            let k = choose|k: int| 0 <= k < new.len() && (#[trigger] new[k]).0 == a;
            let j = choose|j: int| #[trigger] names_first(parsed, j, new[k].0, new[k].1);
            assert(names_first(parsed, j, a, known[a]));
        }
    }
    assert(!listed ==> known.dom().contains(a) == registered.dom().contains(a) && known[a]
        == registered[a]) by {
        law_new_accounts_are_those_named_with_a_class(parsed, registered);
        law_accounts_have_the_classes_they_come_with(registered, new);
    }
    assert forall|j: int|
        !listed && !registered.dom().contains(a) && 0 <= j < parsed.len() && (
        #[trigger] parsed[j]).id == a implies parsed[j].class is None by {
        law_new_accounts_are_those_named_with_a_class(parsed, registered);
        if parsed[j].class is Some {
            let k = choose|k: int| 0 <= k < new.len() && (#[trigger] new[k]).0 == parsed[j].id;
            assert(is_listed(new, a));
        }
    }
    if known.dom().contains(a) {
        assert(has_class(parsed, registered, a, known[a]));
    }
    assert forall|c: AccountClass| #[trigger] has_class(parsed, registered, a, c) implies known.dom().contains(
        a,
    ) && known[a] == c by {
        if !registered.dom().contains(a) {
            let i = choose|i: int| #[trigger] names_first(parsed, i, a, c);
            assert(parsed[i].class is Some);
            let j = choose|j: int| #[trigger] names_first(parsed, j, a, known[a]);
            if i < j {
                assert(parsed[i].class is None);
            }
            if j < i {
                assert(parsed[j].class is None);
            }
        }
    }
}

/// The entries have the shape of a kind exactly if each of their accounts
/// has a class, and one that the kind allows.
pub proof fn law_a_shape_is_that_of_every_entry(
    entries: Seq<EntryView>,
    kind: TransactionKind,
    classes: Map<Seq<char>, AccountClass>,
)
    ensures
        misfit(entries, kind, classes) is None <==> forall|i: int|
            0 <= i < entries.len() ==> classes.dom().contains((#[trigger] entries[i]).account)
                && match kind {
                TransactionKind::Normal => true,
                TransactionKind::Close => !(classes[entries[i].account] is Asset)
                    && !(classes[entries[i].account] is Liability),
                TransactionKind::Open => !(classes[entries[i].account] is Income)
                    && !(classes[entries[i].account] is Expense),
            },
    decreases entries.len(),
{
    if entries.len() > 0 {
        let rest = entries.drop_first();
        law_a_shape_is_that_of_every_entry(rest, kind, classes);
        if misfit(entries, kind, classes) is None {
            assert forall|i: int| 0 <= i < entries.len() implies classes.dom().contains(
                (#[trigger] entries[i]).account,
            ) && kind.allows(classes[entries[i].account]) by {
                if i > 0 {
                    assert(rest[i - 1] == entries[i]);
                }
            }
        } else {
            if misfit(rest, kind, classes) is Some {
                let i = choose|i: int|
                    0 <= i < rest.len() && !(classes.dom().contains((#[trigger] rest[i]).account)
                        && kind.allows(classes[rest[i].account]));
                assert(entries[i + 1] == rest[i]);
            } else {
                assert(entries[0].account == entries[0].account);
            }
        }
    }
}

/// An account that is not known is found exactly if there is one.
pub proof fn law_an_unknown_account_is_found(
    entries: Seq<EntryView>,
    classes: Map<Seq<char>, AccountClass>,
)
    ensures
        first_unknown(entries, classes) is None <==> forall|i: int|
            0 <= i < entries.len() ==> classes.dom().contains((#[trigger] entries[i]).account),
        first_unknown(entries, classes) matches Some(a) ==> !classes.dom().contains(a) && exists|
            k: int,
        |
            0 <= k < entries.len() && (#[trigger] entries[k]).account == a && forall|i: int|
                0 <= i < k ==> classes.dom().contains((#[trigger] entries[i]).account),
    decreases entries.len(),
{
    if entries.len() > 0 {
        let rest = entries.drop_first();
        law_an_unknown_account_is_found(rest, classes);
        if !classes.dom().contains(entries[0].account) {
            assert(entries[0].account == first_unknown(entries, classes)->0);
        } else if first_unknown(rest, classes) is None {
            assert forall|i: int| 0 <= i < entries.len() implies classes.dom().contains(
                (#[trigger] entries[i]).account,
            ) by {
                if i > 0 {
                    assert(rest[i - 1] == entries[i]);
                }
            }
        } else {
            let a = first_unknown(rest, classes)->0;
            let k = choose|k: int|
                0 <= k < rest.len() && (#[trigger] rest[k]).account == a && forall|i: int|
                    0 <= i < k ==> classes.dom().contains((#[trigger] rest[i]).account);
            assert(entries[k + 1].account == a);
            assert forall|i: int| 0 <= i < k + 1 implies classes.dom().contains(
                (#[trigger] entries[i]).account,
            ) by {
                if i > 0 {
                    assert(rest[i - 1] == entries[i]);
                }
            }
        }
    }
}

/// Whether a command can be added: its date, where it has one, and all its
/// entries can be read, they are two or more, sum to zero, each of their
/// accounts is registered or named with a class, and they have the shape of
/// the kind that it names, where it names one.
pub open spec fn is_valid(command: CommandView, registered: Map<Seq<char>, AccountClass>) -> bool {
    let texts = command.entries;
    let parsed = Seq::new(texts.len(), |i: int| entry_read(texts[i])->Ok_0);
    &&& command.date is Some && command.date->0.len() > 0 ==> date_read(command.date->0) is Ok
    &&& forall|i: int| 0 <= i < texts.len() ==> entry_read(#[trigger] texts[i]) is Ok
    &&& texts.len() >= 2
    &&& total(Seq::new(texts.len(), |i: int| parsed[i].amount)) matches Some(sum) && sum.mantissa
        == 0
    &&& forall|i: int|
        0 <= i < parsed.len() ==> exists|c: AccountClass| #[trigger]
            has_class(parsed, registered, (#[trigger] parsed[i]).id, c)
    &&& command.kind is Some ==> kind_read(command.kind->0) is Some && forall|
        i: int,
        c: AccountClass,
    |
        0 <= i < parsed.len() && #[trigger] has_class(parsed, registered, parsed[i].id, c)
            ==> match kind_read(command.kind->0)->0 {
            TransactionKind::Normal => true,
            TransactionKind::Close => !(c is Asset) && !(c is Liability),
            TransactionKind::Open => !(c is Income) && !(c is Expense),
        }
}

/// A command is added exactly if it is valid. What is added then falls on the
/// date that was given, or else on today, and has the memo, the entries and
/// the kind that were given, in their order. It has no answer only where its
/// sum is out of range.
pub proof fn law_valid_commands_are_added(
    command: CommandView,
    id: u128,
    today: int,
    registered: Map<Seq<char>, AccountClass>,
)
    ensures
        ({
            let made = command_addition(command, id, today, registered);
            &&& (made matches Some(r) && r is Ok) <==> is_valid(command, registered)
            &&& made matches Some(Ok(added)) ==> {
                let tx = added.transaction;
                &&& tx.id == id
                &&& falls_on(command.date, today, tx.posted_at)
                &&& tx.memo == (if command.memo is Some {
                    command.memo->0
                } else {
                    Seq::<char>::empty()
                })
                &&& tx.kind == (if command.kind is Some {
                    kind_read(command.kind->0)->0
                } else {
                    TransactionKind::Normal
                })
                &&& tx.entries.len() == command.entries.len()
                &&& forall|i: int|
                    0 <= i < tx.entries.len() ==> gives(
                        command.entries[i],
                        #[trigger] tx.entries[i],
                    )
            }
        }),
{
    let texts = command.entries;
    let parsed = Seq::new(texts.len(), |i: int| entry_read(texts[i])->Ok_0);
    let made = command_addition(command, id, today, registered);
    law_entries_are_read_one_by_one(texts);
    if entries_read(texts) is Ok {
        let read = entries_read(texts)->Ok_0;
        assert(read =~= parsed) by {
            assert forall|i: int| 0 <= i < texts.len() implies read[i] == parsed[i] by {
                assert(entry_read(texts[i]) is Ok);
            }
        }
        let entries = plain_entries(parsed);
        assert(amounts(entries) =~= Seq::new(texts.len(), |i: int| parsed[i].amount));
        let known = classes_with(registered, new_accounts(parsed, registered));
        assert forall|i: int| 0 <= i < texts.len() implies gives(
            texts[i],
            #[trigger] entries[i],
        ) by {
            assert(entry_read(texts[i]) is Ok);
        }
        assert forall|i: int| 0 <= i < parsed.len() implies (known.dom().contains(
            (#[trigger] entries[i]).account,
        ) <==> exists|c: AccountClass| #[trigger] has_class(parsed, registered, parsed[i].id, c)) by {
            lemma_known(parsed, registered, parsed[i].id);
        }
        law_an_unknown_account_is_found(entries, known);
        if command.kind is Some && kind_read(command.kind->0) is Some {
            let kind = kind_read(command.kind->0)->0;
            law_a_shape_is_that_of_every_entry(entries, kind, known);
            assert forall|i: int, c: AccountClass|
                0 <= i < parsed.len() && #[trigger] has_class(parsed, registered, parsed[i].id, c) implies known.dom().contains(
                entries[i].account,
            ) && known[entries[i].account] == c by {
                lemma_known(parsed, registered, parsed[i].id);
            }
            assert forall|i: int|
                0 <= i < parsed.len() && known.dom().contains((#[trigger] entries[i]).account) implies has_class(
                parsed,
                registered,
                parsed[i].id,
                known[entries[i].account],
            ) by {
                lemma_known(parsed, registered, parsed[i].id);
            }
            if is_valid(command, registered) {
                assert forall|i: int| 0 <= i < entries.len() implies known.dom().contains(
                    (#[trigger] entries[i]).account,
                ) && kind.allows(known[entries[i].account]) by {
                    assert(parsed[i].id == entries[i].account);
                }
                assert(misfit(entries, kind, known) is None);
            }
            if misfit(entries, kind, known) is None {
                assert forall|i: int, c: AccountClass|
                    0 <= i < parsed.len() && #[trigger] has_class(
                        parsed,
                        registered,
                        parsed[i].id,
                        c,
                    ) implies kind.allows(c) by {
                    assert(known[entries[i].account] == c);
                }
            }
        }
        if is_valid(command, registered) {
            assert forall|i: int| 0 <= i < entries.len() implies known.dom().contains(
                (#[trigger] entries[i]).account,
            ) by {
                assert(parsed[i].id == entries[i].account);
            }
            assert(first_unknown(entries, known) is None);
        }
        if first_unknown(entries, known) is None {
            assert forall|i: int| 0 <= i < parsed.len() implies exists|c: AccountClass| #[trigger]
                has_class(parsed, registered, (#[trigger] parsed[i]).id, c) by {
                assert(known.dom().contains(entries[i].account));
            }
        }
    }
}

/// A date that is given goes before today: what a command adds is the same
/// whatever day it is.
pub proof fn law_a_given_date_goes_before_today(
    command: CommandView,
    empty: bool,
    amount: Seq<char>,
    accounts: Seq<(Seq<char>, AccountClass)>,
    balances: Map<Seq<char>, Dec>,
    id: u128,
    today: int,
    other: int,
    registered: Map<Seq<char>, AccountClass>,
)
    requires
        command.date is Some,
        command.date->0.len() > 0,
    ensures
        command_addition(command, id, today, registered) == command_addition(
            command,
            id,
            other,
            registered,
        ),
        income_addition(amount, command.date, command.memo, id, today, registered)
            == income_addition(amount, command.date, command.memo, id, other, registered),
        opening_addition(
            command.date,
            command.memo,
            command.entries,
            empty,
            id,
            today,
            registered,
        ) == opening_addition(
            command.date,
            command.memo,
            command.entries,
            empty,
            id,
            other,
            registered,
        ),
        closing_addition(command.date, command.memo, accounts, balances, id, today)
            == closing_addition(command.date, command.memo, accounts, balances, id, other),
{
}

/// A date that cannot be read is refused, whatever else a command gives.
pub proof fn law_an_unreadable_date_is_refused(
    command: CommandView,
    empty: bool,
    amount: Seq<char>,
    accounts: Seq<(Seq<char>, AccountClass)>,
    balances: Map<Seq<char>, Dec>,
    id: u128,
    today: int,
    registered: Map<Seq<char>, AccountClass>,
)
    requires
        command.date is Some,
        command.date->0.len() > 0,
        date_read(command.date->0) is Err,
    ensures
        command_addition(command, id, today, registered) matches Some(r) && r is Err,
        income_addition(amount, command.date, command.memo, id, today, registered) matches Some(r)
            && r is Err,
        opening_addition(
            command.date,
            command.memo,
            command.entries,
            empty,
            id,
            today,
            registered,
        ) is Err,
        closing_addition(command.date, command.memo, accounts, balances, id, today) is Err,
{
}

/// An opening is posted on the date that it is given, and on today only
/// where it is given none. It has the memo and the entries that were given,
/// in their order, and behind them at most one on retained earnings, so that
/// all sum to zero; it is only made in a database without transactions.
pub proof fn law_an_opening_is_what_was_given(
    date: Option<Seq<char>>,
    memo: Option<Seq<char>>,
    texts: Seq<Seq<char>>,
    empty: bool,
    id: u128,
    today: int,
    registered: Map<Seq<char>, AccountClass>,
)
    ensures
        opening_addition(date, memo, texts, empty, id, today, registered) matches Ok(added) ==> {
            let tx = added.transaction;
            &&& empty
            &&& tx.id == id
            &&& falls_on(date, today, tx.posted_at)
            &&& tx.memo == (if memo is Some {
                memo->0
            } else {
                Seq::<char>::empty()
            })
            &&& tx.kind is Open
            &&& tx.entries.len() >= 2
            &&& total(amounts(tx.entries)).unwrap().mantissa == 0
            &&& texts.len() <= tx.entries.len() <= texts.len() + 1
            &&& forall|i: int| 0 <= i < texts.len() ==> gives(#[trigger] texts[i], tx.entries[i])
            &&& tx.entries.len() > texts.len() ==> tx.entries.last().account == "equity/net"@
        },
{
    law_entries_are_read_one_by_one(texts);
    crate::model::law_kind_names_read_back(TransactionKind::Open);
    if let Ok(added) = opening_addition(date, memo, texts, empty, id, today, registered) {
        let entries = entries_plan(texts, registered).entries->Ok_0;
        assert forall|i: int| 0 <= i < texts.len() implies gives(
            #[trigger] texts[i],
            plugged(entries)[i],
        ) by {
            assert(entry_read(texts[i]) is Ok);
            assert(plugged(entries)[i] == entries[i]);
        }
    }
}

/// A close is posted on the date that it is given, and on today only where
/// it is given none. It has the memo that was given, sums to zero, and each
/// of its entries but the one on retained earnings, which is the last where
/// there is one, is that of an income or expense account with a balance,
/// whose opposite it posts. Every such account has its entry.
pub proof fn law_a_close_is_what_the_balances_ask_for(
    date: Option<Seq<char>>,
    memo: Option<Seq<char>>,
    accounts: Seq<(Seq<char>, AccountClass)>,
    balances: Map<Seq<char>, Dec>,
    id: u128,
    today: int,
)
    ensures
        closing_addition(date, memo, accounts, balances, id, today) matches Ok(added) ==> {
            let tx = added.transaction;
            &&& tx.id == id
            &&& falls_on(date, today, tx.posted_at)
            &&& tx.memo == (if memo is Some {
                memo->0
            } else {
                Seq::<char>::empty()
            })
            &&& tx.kind is Close
            &&& total(amounts(tx.entries)).unwrap().mantissa == 0
            &&& forall|i: int|
                0 <= i < tx.entries.len() ==> closes_account(
                    accounts,
                    balances,
                    #[trigger] tx.entries[i],
                ) || (i == tx.entries.len() - 1 && tx.entries[i].account == "equity/net"@)
            &&& forall|k: int|
                0 <= k < accounts.len() && has_to_be_closed(#[trigger] accounts[k], balances)
                    ==> exists|i: int|
                    0 <= i < tx.entries.len() && (#[trigger] tx.entries[i]).account == accounts[k].0
                        && tx.entries[i].amount == balances[accounts[k].0].negated()
        },
        forall|k: int|
            0 <= k < accounts.len() && has_to_be_closed(#[trigger] accounts[k], balances)
                ==> closing_addition(date, memo, accounts, balances, id, today) != Err::<
                AdditionView,
                CliErrorView,
            >(CliErrorView::NothingToClose),
{
    crate::model::law_kind_names_read_back(TransactionKind::Close);
    lemma_zeroing(accounts, balances);
    let zeros = zeroing(accounts, balances);
    assert forall|k: int| 0 <= k < accounts.len() && has_to_be_closed(#[trigger] accounts[k], balances) implies zeros.len()
        > 0 by {
        let i = choose|i: int|
            0 <= i < zeros.len() && (#[trigger] zeros[i]).account == accounts[k].0
                && zeros[i].amount == balances[accounts[k].0].negated();
    }
    if let Ok(added) = closing_addition(date, memo, accounts, balances, id, today) {
        let tx = added.transaction;
        assert(tx.entries == plugged(zeros));
        assert forall|i: int| 0 <= i < zeros.len() implies tx.entries[i] == #[trigger] zeros[i] by {}
        assert forall|i: int| 0 <= i < tx.entries.len() implies closes_account(
            accounts,
            balances,
            #[trigger] tx.entries[i],
        ) || (i == tx.entries.len() - 1 && tx.entries[i].account == "equity/net"@) by {
            if i < zeros.len() {
                assert(tx.entries[i] == zeros[i]);
            }
        }
        assert forall|k: int|
            0 <= k < accounts.len() && has_to_be_closed(#[trigger] accounts[k], balances) implies exists|
            i: int,
        |
            0 <= i < tx.entries.len() && (#[trigger] tx.entries[i]).account == accounts[k].0
                && tx.entries[i].amount == balances[accounts[k].0].negated() by {
            let i = choose|i: int|
                0 <= i < zeros.len() && (#[trigger] zeros[i]).account == accounts[k].0
                    && zeros[i].amount == balances[accounts[k].0].negated();
            assert(tx.entries[i] == zeros[i]);
        }
    }
}

/// Whether an account is one of income or expense and has a balance that is
/// not zero.
pub open spec fn has_to_be_closed(
    account: (Seq<char>, AccountClass),
    balances: Map<Seq<char>, Dec>,
) -> bool {
    &&& account.1 is Income || account.1 is Expense
    &&& balances.dom().contains(account.0)
    &&& balances[account.0].mantissa != 0
}

/// Whether an entry posts the opposite of what an account that has to be
/// closed holds.
pub open spec fn closes_account(
    accounts: Seq<(Seq<char>, AccountClass)>,
    balances: Map<Seq<char>, Dec>,
    e: EntryView,
) -> bool {
    exists|k: int|
        0 <= k < accounts.len() && has_to_be_closed(#[trigger] accounts[k], balances)
            && accounts[k].0 == e.account && e.amount == balances[e.account].negated()
}

proof fn lemma_zeroing(accounts: Seq<(Seq<char>, AccountClass)>, balances: Map<Seq<char>, Dec>)
    ensures
        ({
            let zeros = zeroing(accounts, balances);
            &&& forall|i: int|
                0 <= i < zeros.len() ==> closes_account(accounts, balances, #[trigger] zeros[i])
            &&& forall|k: int|
                0 <= k < accounts.len() && has_to_be_closed(#[trigger] accounts[k], balances)
                    ==> exists|i: int|
                    0 <= i < zeros.len() && (#[trigger] zeros[i]).account == accounts[k].0
                        && zeros[i].amount == balances[accounts[k].0].negated()
        }),
    decreases accounts.len(),
{
    if accounts.len() > 0 {
        let t = accounts.drop_last();
        let n = accounts.len() - 1;
        let before = zeroing(t, balances);
        let zeros = zeroing(accounts, balances);
        lemma_zeroing(t, balances);
        assert forall|i: int| 0 <= i < zeros.len() implies closes_account(
            accounts,
            balances,
            #[trigger] zeros[i],
        ) by {
            if i < before.len() {
                assert(zeros[i] == before[i]);
                let k = choose|k: int|
                    0 <= k < t.len() && has_to_be_closed(#[trigger] t[k], balances) && t[k].0
                        == before[i].account && before[i].amount
                        == balances[before[i].account].negated();
                assert(accounts[k] == t[k]);
            } else {
                assert(has_to_be_closed(accounts[n], balances));
            }
        }
        assert forall|k: int|
            0 <= k < accounts.len() && has_to_be_closed(#[trigger] accounts[k], balances) implies exists|
            i: int,
        |
            0 <= i < zeros.len() && (#[trigger] zeros[i]).account == accounts[k].0
                && zeros[i].amount == balances[accounts[k].0].negated() by {
            if k < n {
                assert(t[k] == accounts[k]);
                let i = choose|i: int|
                    0 <= i < before.len() && (#[trigger] before[i]).account == t[k].0
                        && before[i].amount == balances[t[k].0].negated();
                assert(zeros[i] == before[i]);
            } else {
                assert(zeros[before.len() as int].account == accounts[n].0);
            }
        }
    }
}

/// An opening is made wherever it can be: in a database without
/// transactions, on a date that can be read or on today, of balances that can
/// all be read, sum up, are two or more or one that is not zero, and of
/// accounts that are registered or named with a class and are neither income
/// nor expense, where retained earnings are not either.
pub proof fn law_valid_openings_are_made(
    date: Option<Seq<char>>,
    memo: Option<Seq<char>>,
    texts: Seq<Seq<char>>,
    id: u128,
    today: int,
    registered: Map<Seq<char>, AccountClass>,
)
    requires
        date is Some && date->0.len() > 0 ==> date_read(date->0) is Ok,
        forall|i: int|
            0 <= i < texts.len() ==> entry_read(#[trigger] texts[i]) is Ok && entry_read(
                texts[i],
            )->Ok_0.amount.wf(),
        ({
            let parsed = Seq::new(texts.len(), |i: int| entry_read(texts[i])->Ok_0);
            &&& total(Seq::new(texts.len(), |i: int| parsed[i].amount)) matches Some(sum) && (
            texts.len() >= 2 || (texts.len() == 1 && sum.mantissa != 0))
            &&& forall|i: int|
                0 <= i < parsed.len() ==> exists|c: AccountClass| #[trigger]
                    has_class(parsed, registered, (#[trigger] parsed[i]).id, c)
            &&& forall|i: int, c: AccountClass|
                0 <= i < parsed.len() && #[trigger] has_class(parsed, registered, parsed[i].id, c)
                    ==> !(c is Income) && !(c is Expense)
            &&& forall|c: AccountClass| #[trigger]
                has_class(parsed, registered, retained(), c) ==> !(c is Income) && !(c is Expense)
        }),
    ensures
        opening_addition(date, memo, texts, true, id, today, registered) is Ok,
{
    let parsed = Seq::new(texts.len(), |i: int| entry_read(texts[i])->Ok_0);
    law_entries_are_read_one_by_one(texts);
    crate::model::law_kind_names_read_back(TransactionKind::Open);
    let read = entries_read(texts)->Ok_0;
    assert(read =~= parsed) by {
        assert forall|i: int| 0 <= i < texts.len() implies read[i] == parsed[i] by {
            assert(entry_read(texts[i]) is Ok);
        }
    }
    let entries = plain_entries(parsed);
    assert(amounts(entries) =~= Seq::new(texts.len(), |i: int| parsed[i].amount));
    assert forall|i: int| 0 <= i < entries.len() implies (#[trigger] entries[i]).amount.wf() by {
        assert(entry_read(texts[i]) is Ok);
    }
    crate::fiscal::lemma_plugged(entries);
    let all = plugged(entries);
    let new = new_accounts(parsed, registered);
    let known = classes_with(registered, new);
    let more = with_retained(new, all, registered);
    let wide = classes_with(registered, more);
    assert forall|i: int| 0 <= i < all.len() implies wide.dom().contains(
        (#[trigger] all[i]).account,
    ) && !(wide[all[i].account] is Income) && !(wide[all[i].account] is Expense) by {
        let a = all[i].account;
        lemma_known(parsed, registered, a);
        if i < entries.len() {
            assert(all[i] == entries[i]);
            assert(parsed[i].id == a);
            let c = choose|c: AccountClass| #[trigger]
                has_class(parsed, registered, parsed[i].id, c);
            assert(known.dom().contains(a) && known[a] == c);
        }
        if more != new {
            assert(more.drop_last() =~= new);
            assert(wide == known.insert(retained(), AccountClass::Equity));
        } else if i >= entries.len() {
            assert(all[i].account == retained());
            assert(crate::book::mentions(all, retained()));
            lemma_listed(parsed, registered, retained());
        }
    }
    law_a_shape_is_that_of_every_entry(all, TransactionKind::Open, wide);
    law_an_unknown_account_is_found(all, wide);
}

proof fn lemma_listed(
    parsed: Seq<ParsedEntryView>,
    registered: Map<Seq<char>, AccountClass>,
    a: Seq<char>,
)
    ensures
        ({
            let new = new_accounts(parsed, registered);
            registered.dom().contains(a) || is_listed(new, a) ==> classes_with(
                registered,
                new,
            ).dom().contains(a)
        }),
{
    law_new_accounts_are_those_named_with_a_class(parsed, registered);
    let new = new_accounts(parsed, registered);
    law_accounts_have_the_classes_they_come_with(registered, new);
    if is_listed(new, a) {
        let k = choose|k: int| 0 <= k < new.len() && (#[trigger] new[k]).0 == a;
    }
}

/// A close is made wherever there is something to close: on a date that can
/// be read or on today, where an income or expense account has a balance, the
/// balances sum up, every account is registered once, and retained earnings,
/// where they are registered, as equity.
pub proof fn law_valid_closes_are_made(
    date: Option<Seq<char>>,
    memo: Option<Seq<char>>,
    accounts: Seq<(Seq<char>, AccountClass)>,
    balances: Map<Seq<char>, Dec>,
    id: u128,
    today: int,
    at: int,
)
    requires
        date is Some && date->0.len() > 0 ==> date_read(date->0) is Ok,
        0 <= at < accounts.len(),
        has_to_be_closed(accounts[at], balances),
        forall|a: Seq<char>| #[trigger] balances.dom().contains(a) ==> balances[a].wf(),
        total(amounts(zeroing(accounts, balances))) is Some,
        total(amounts(zeroing(accounts, balances)))->0.mantissa != 0 || zeroing(
            accounts,
            balances,
        ).len() >= 2,
        forall|i: int, k: int|
            0 <= i < k < accounts.len() ==> (#[trigger] accounts[i]).0 != (#[trigger] accounts[k]).0,
        forall|k: int|
            0 <= k < accounts.len() && (#[trigger] accounts[k]).0 == "equity/net"@
                ==> accounts[k].1 is Equity,
    ensures
        closing_addition(date, memo, accounts, balances, id, today) is Ok,
{
    crate::model::law_kind_names_read_back(TransactionKind::Close);
    lemma_zeroing(accounts, balances);
    let zeros = zeroing(accounts, balances);
    let first = choose|i: int|
        0 <= i < zeros.len() && (#[trigger] zeros[i]).account == accounts[at].0 && zeros[i].amount
            == balances[accounts[at].0].negated();
    assert forall|i: int| 0 <= i < zeros.len() implies (#[trigger] zeros[i]).amount.wf() by {
        assert(closes_account(accounts, balances, zeros[i]));
        assert(balances.dom().contains(zeros[i].account));
    }
    crate::fiscal::lemma_plugged(zeros);
    let all = plugged(zeros);
    let registered = crate::fiscal::class_map_of(accounts);
    law_accounts_have_the_classes_they_come_with(Map::<Seq<char>, AccountClass>::empty(), accounts);
    let none = Seq::<(Seq<char>, AccountClass)>::empty();
    let more = with_retained(none, all, registered);
    let wide = classes_with(registered, more);
    if more != none {
        assert(more.drop_last() =~= none);
        assert(classes_with(registered, none) == registered);
        assert(wide == registered.insert(retained(), AccountClass::Equity));
    }
    assert forall|i: int| 0 <= i < all.len() implies wide.dom().contains(
        (#[trigger] all[i]).account,
    ) && !(wide[all[i].account] is Asset) && !(wide[all[i].account] is Liability) by {
        let a = all[i].account;
        if i < zeros.len() {
            assert(all[i] == zeros[i]);
            assert(closes_account(accounts, balances, zeros[i]));
            let k = choose|k: int|
                0 <= k < accounts.len() && has_to_be_closed(#[trigger] accounts[k], balances)
                    && accounts[k].0 == a && zeros[i].amount == balances[a].negated();
            assert(registered.dom().contains(accounts[k].0) && registered[a] == accounts[k].1);
        } else {
            assert(a == retained());
            assert(crate::book::mentions(all, retained()));
            if registered.dom().contains(a) {
                assert(is_listed(accounts, a));
                let k = choose|k: int|
                    0 <= k < accounts.len() && (#[trigger] accounts[k]).0 == a;
                assert(registered[a] == accounts[k].1);
            }
        }
    }
    law_a_shape_is_that_of_every_entry(all, TransactionKind::Close, wide);
    law_an_unknown_account_is_found(all, wide);
}

/// Whether an entry of a command names an account with a class.
pub open spec fn names_account(text: Seq<char>, account: Seq<char>) -> bool {
    entry_read(text) matches Ok(p) && p.id == account && p.class is Some
}

/// A command registers the accounts that are new and that one of its entries
/// names with a class, and no others. An opening does so too, and registers
/// retained earnings, as equity, besides, where it posts to them, they are
/// new, and it does not name them itself.
pub proof fn law_commands_register_what_they_name(
    command: CommandView,
    empty: bool,
    id: u128,
    today: int,
    registered: Map<Seq<char>, AccountClass>,
    account: Seq<char>,
)
    requires
        forall|i: int| 0 <= i < command.entries.len() ==> entry_read(#[trigger] command.entries[i]) is Ok,
    ensures
        ({
            let named = !registered.dom().contains(account) && exists|i: int|
                0 <= i < command.entries.len() && names_account(
                    #[trigger] command.entries[i],
                    account,
                );
            &&& command_addition(command, id, today, registered) matches Some(Ok(added)) ==> (
            is_listed(added.accounts, account) <==> named)
            &&& opening_addition(
                command.date,
                command.memo,
                command.entries,
                empty,
                id,
                today,
                registered,
            ) matches Ok(added) ==> (is_listed(added.accounts, account) <==> named || (account
                == "equity/net"@ && !registered.dom().contains(account) && mentions(
                added.transaction.entries,
                account,
            )))
        }),
{
    let texts = command.entries;
    law_entries_are_read_one_by_one(texts);
    let parsed = entries_read(texts)->Ok_0;
    let new = new_accounts(parsed, registered);
    law_new_accounts_are_those_named_with_a_class(parsed, registered);
    if is_listed(new, account) {
        let k = choose|k: int| 0 <= k < new.len() && (#[trigger] new[k]).0 == account;
        let j = choose|j: int| #[trigger] names_first(parsed, j, new[k].0, new[k].1);
        assert(names_account(texts[j], account));
    }
    if !registered.dom().contains(account) && exists|i: int|
        0 <= i < texts.len() && names_account(#[trigger] texts[i], account) {
        let i = choose|i: int| 0 <= i < texts.len() && names_account(#[trigger] texts[i], account);
        assert(parsed[i].class is Some);
        let k = choose|k: int| 0 <= k < new.len() && (#[trigger] new[k]).0 == parsed[i].id;
        assert(is_listed(new, account));
    }
    if let Ok(added) = opening_addition(
        command.date,
        command.memo,
        texts,
        empty,
        id,
        today,
        registered,
    ) {
        let more = added.accounts;
        assert(added.transaction.entries == plugged(plain_entries(parsed)));
        if more != new {
            assert(more[new.len() as int].0 == retained());
            if is_listed(new, account) {
                let k = choose|k: int| 0 <= k < new.len() && (#[trigger] new[k]).0 == account;
                assert(more[k] == new[k]);
            }
            if is_listed(more, account) && account != retained() {
                let k = choose|k: int| 0 <= k < more.len() && (#[trigger] more[k]).0 == account;
                assert(new[k] == more[k]);
            }
        }
    }
}

/// A close registers retained earnings, as equity, where it posts to them
/// and they are new, and nothing else.
pub proof fn law_a_close_registers_retained_earnings_alone(
    date: Option<Seq<char>>,
    memo: Option<Seq<char>>,
    accounts: Seq<(Seq<char>, AccountClass)>,
    balances: Map<Seq<char>, Dec>,
    id: u128,
    today: int,
)
    ensures
        closing_addition(date, memo, accounts, balances, id, today) matches Ok(added) ==> {
            let new = mentions(added.transaction.entries, "equity/net"@)
                && !crate::fiscal::class_map_of(accounts).dom().contains("equity/net"@);
            &&& new ==> added.accounts == seq![("equity/net"@, AccountClass::Equity)]
            &&& !new ==> added.accounts.len() == 0
        },
{
    if let Ok(added) = closing_addition(date, memo, accounts, balances, id, today) {
        if added.accounts.len() > 0 {
            assert(added.accounts =~= seq![("equity/net"@, AccountClass::Equity)]);
        }
    }
}

/// What is said of entries without the shape of a kind is said of the first
/// that does not fit: its account is not known, or has a class that the kind
/// does not allow.
pub proof fn law_the_first_misfit_is_told(
    entries: Seq<EntryView>,
    kind: TransactionKind,
    classes: Map<Seq<char>, AccountClass>,
    k: int,
)
    requires
        0 <= k < entries.len(),
        forall|i: int|
            0 <= i < k ==> classes.dom().contains((#[trigger] entries[i]).account) && kind.allows(
                classes[entries[i].account],
            ),
    ensures
        !classes.dom().contains(entries[k].account) ==> misfit(entries, kind, classes) == Some(
            TransactionErrorView::UnknownAccount(entries[k].account),
        ),
        classes.dom().contains(entries[k].account) && !kind.allows(classes[entries[k].account])
            ==> misfit(entries, kind, classes) == Some(
            TransactionErrorView::WrongShape {
                kind,
                account: entries[k].account,
                class: classes[entries[k].account],
            },
        ),
    decreases k,
{
    if k > 0 {
        let rest = entries.drop_first();
        assert(classes.dom().contains(entries[0].account) && kind.allows(
            classes[entries[0].account],
        ));
        assert forall|i: int| 0 <= i < k - 1 implies classes.dom().contains(
            (#[trigger] rest[i]).account,
        ) && kind.allows(classes[rest[i].account]) by {
            assert(rest[i] == entries[i + 1]);
        }
        assert(rest[k - 1] == entries[k]);
        law_the_first_misfit_is_told(rest, kind, classes, k - 1);
    }
}

/// A command that is refused is told why: for the first entry that cannot be
/// read, for too few entries, for a sum that is not zero, or for a kind that
/// there is not, in this order.
pub proof fn law_refused_commands_are_told_why(
    command: CommandView,
    id: u128,
    today: int,
    registered: Map<Seq<char>, AccountClass>,
    k: int,
)
    requires
        command.date is Some && command.date->0.len() > 0 ==> date_read(command.date->0) is Ok,
        0 <= k <= command.entries.len(),
        forall|i: int| 0 <= i < k ==> entry_read(#[trigger] command.entries[i]) is Ok,
    ensures
        ({
            let made = command_addition(command, id, today, registered);
            let texts = command.entries;
            let sum = total(Seq::new(texts.len(), |i: int| entry_read(texts[i])->Ok_0.amount));
            let all = k == texts.len();
            &&& !all ==> (entry_read(texts[k]) matches Err(e) ==> made == Some(
                Err::<AdditionView, CliErrorView>(e),
            ))
            &&& all && texts.len() < 2 ==> made == Some(
                Err::<AdditionView, CliErrorView>(
                    CliErrorView::Transaction(
                        TransactionErrorView::TooFewEntries { got: texts.len() as int, min: 2 },
                    ),
                ),
            )
            &&& all && texts.len() >= 2 ==> (sum matches Some(t) ==> t.mantissa != 0 ==> made
                == Some(
                Err::<AdditionView, CliErrorView>(
                    CliErrorView::Transaction(TransactionErrorView::Unbalanced { sum: t }),
                ),
            ))
            &&& all && texts.len() >= 2 && command.kind is Some && kind_read(
                command.kind->0,
            ) is None ==> (sum matches Some(t) ==> t.mantissa == 0 ==> made == Some(
                Err::<AdditionView, CliErrorView>(
                    CliErrorView::Transaction(TransactionErrorView::UnknownKind(command.kind->0)),
                ),
            ))
        }),
{
    let texts = command.entries;
    law_entries_are_read_one_by_one(texts);
    if k < texts.len() && entry_read(texts[k]) is Err {
        assert(entries_read(texts) is Err);
        let e = entries_read(texts)->Err_0;
        let j = choose|j: int|
            0 <= j < texts.len() && entry_read(#[trigger] texts[j]) == Err::<
                ParsedEntryView,
                CliErrorView,
            >(e) && forall|i: int| 0 <= i < j ==> entry_read(#[trigger] texts[i]) is Ok;
        if j < k {
            assert(entry_read(texts[j]) is Ok);
        }
        if k < j {
            assert(entry_read(texts[k]) is Ok);
        }
        assert(j == k);
    }
    if k == texts.len() {
        let read = entries_read(texts)->Ok_0;
        let entries = plain_entries(read);
        assert(amounts(entries) =~= Seq::new(
            texts.len(),
            |i: int| entry_read(texts[i])->Ok_0.amount,
        )) by {
            assert forall|i: int| 0 <= i < texts.len() implies read[i] == entry_read(
                #[trigger] texts[i],
            )->Ok_0 by {
                assert(entry_read(texts[i]) is Ok);
            }
        }
    }
}

/// An opening is refused for transactions that are there already, before
/// anything else; a close is refused where no income or expense account has a
/// balance.
pub proof fn law_openings_and_closes_are_refused_for_a_reason(
    date: Option<Seq<char>>,
    memo: Option<Seq<char>>,
    texts: Seq<Seq<char>>,
    id: u128,
    today: int,
    registered: Map<Seq<char>, AccountClass>,
    accounts: Seq<(Seq<char>, AccountClass)>,
    balances: Map<Seq<char>, Dec>,
)
    ensures
        opening_addition(date, memo, texts, false, id, today, registered) == Err::<
            AdditionView,
            CliErrorView,
        >(CliErrorView::NotEmpty),
        (date is Some && date->0.len() > 0 ==> date_read(date->0) is Ok) && (forall|k: int|
            0 <= k < accounts.len() ==> !has_to_be_closed(#[trigger] accounts[k], balances))
            ==> closing_addition(date, memo, accounts, balances, id, today) == Err::<
            AdditionView,
            CliErrorView,
        >(CliErrorView::NothingToClose),
{
    lemma_zeroing(accounts, balances);
    let zeros = zeroing(accounts, balances);
    if zeros.len() > 0 {
        assert(closes_account(accounts, balances, zeros[0]));
        let k = choose|k: int|
            0 <= k < accounts.len() && has_to_be_closed(#[trigger] accounts[k], balances)
                && accounts[k].0 == zeros[0].account && zeros[0].amount
                == balances[zeros[0].account].negated();
        assert(has_to_be_closed(accounts[k], balances));
    }
}

} // verus!
