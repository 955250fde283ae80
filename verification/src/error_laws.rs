//! What holds of errors in words: each names what it is about.

use vstd::prelude::*;

use crate::account_id::{debug_char, AccountIdError};
use crate::cli::{day_of, entry_amount, CliErrorView};
use crate::decimal::amount_read;
use crate::model::{debug_text, kind_read, TransactionErrorView, TransactionKind};
use crate::storage::StorageErrorView;
use crate::text::numeral;
use crate::time::date_read;
use crate::tui_laws::stands_in;

verus! {

proof fn lemma_stands(before: Seq<char>, part: Seq<char>, behind: Seq<char>, text: Seq<char>)
    requires
        text == before + part + behind,
    ensures
        stands_in(part, text),
{
    assert(text == before + part + behind);
}

proof fn lemma_ends(before: Seq<char>, part: Seq<char>)
    ensures
        stands_in(part, before + part),
{
    assert(before + part =~= before + part + Seq::<char>::empty());
    lemma_stands(before, part, Seq::empty(), before + part);
}

/// What is said of a transaction that is refused names what is wrong with
/// it: the number of entries, the sum, the kind, or the account and its class.
pub proof fn law_refused_transactions_are_explained(e: TransactionErrorView)
    ensures
        e matches TransactionErrorView::TooFewEntries { got, min } ==> stands_in(
            numeral(got as nat),
            e.words(),
        ) && stands_in(numeral(min as nat), e.words()),
        e matches TransactionErrorView::Unbalanced { sum } ==> stands_in(
            sum.plain_text(),
            e.words(),
        ),
        e matches TransactionErrorView::UnknownKind(s) ==> stands_in(debug_text(s), e.words()),
        e matches TransactionErrorView::UnknownAccount(a) ==> stands_in(a, e.words()),
        e matches TransactionErrorView::WrongShape { kind, account, class } ==> stands_in(
            account,
            e.words(),
        ) && stands_in(class.name(), e.words()),
{
    match e {
        TransactionErrorView::TooFewEntries { got, min } => {
            let a = "transaction has "@;
            let b = " entries, minimum is "@;
            let x = numeral(got as nat);
            let y = numeral(min as nat);
            assert(a + x + b + y =~= a + x + (b + y));
            lemma_stands(a, x, b + y, e.words());
            lemma_ends(a + x + b, y);
        },
        TransactionErrorView::Unbalanced { sum } => {
            lemma_ends("entries do not sum to zero; sum is "@, sum.plain_text());
        },
        TransactionErrorView::UnknownKind(s) => {
            lemma_stands(
                "unknown transaction kind "@,
                debug_text(s),
                " (expected normal, close, or open)"@,
                e.words(),
            );
        },
        TransactionErrorView::UnknownAccount(a) => {
            lemma_ends("unknown account: "@, a);
        },
        TransactionErrorView::WrongShape { kind, account, class } => {
            let (subject, rule) = TransactionErrorView::rule(kind);
            let before = subject + " cannot touch "@;
            let name = class.name();
            assert(e.words() =~= before + account + (" ("@ + name + "); "@ + rule));
            lemma_stands(before, account, " ("@ + name + "); "@ + rule, e.words());
            assert(e.words() =~= (before + account + " ("@) + name + ("); "@ + rule));
            lemma_stands(before + account + " ("@, name, "); "@ + rule, e.words());
        },
    }
}

/// What is said of stored rows that cannot be used names the text, the
/// account or the transaction that is at fault.
pub proof fn law_faulty_rows_are_named(e: StorageErrorView, s: Seq<char>)
    ensures
        e == StorageErrorView::InvalidClass(s) || e == StorageErrorView::InvalidUlid(s) || e
            == StorageErrorView::InvalidTimestamp(s) || e == StorageErrorView::InvalidDecimal(s)
            || e == StorageErrorView::InvalidAccountId(s) || e
            == StorageErrorView::UnknownAccount(s) || e == StorageErrorView::UnknownTransaction(s)
            || e == StorageErrorView::InvalidKind(s) ==> stands_in(s, e.words()),
        e matches StorageErrorView::InvalidTransaction(why) ==> stands_in(why.words(), e.words()),
{
    lemma_ends("invalid account class in db: "@, s);
    lemma_ends("invalid ulid in db: "@, s);
    lemma_ends("invalid timestamp in db: "@, s);
    lemma_ends("invalid decimal in db: "@, s);
    lemma_ends("invalid account id in db: "@, s);
    lemma_ends("unknown account: "@, s);
    lemma_ends("unknown transaction: "@, s);
    lemma_ends("invalid transaction kind in db: "@, s);
    if let StorageErrorView::InvalidTransaction(why) = e {
        lemma_ends("invalid transaction: "@, why.words());
    }
}

/// What is said of a command that fails names the text that is at fault, or
/// is what is said of the cause.
pub proof fn law_failed_commands_are_explained(e: CliErrorView, s: Seq<char>)
    ensures
        e == CliErrorView::Entry(s) || e == CliErrorView::Amount(s) || e == CliErrorView::Date(s)
            || e == CliErrorView::FiscalYear(s) || e == CliErrorView::TransactionId(s) || e
            == CliErrorView::Reconstruct(s) ==> stands_in(s, e.words()),
        e == CliErrorView::BookName(s) ==> stands_in(debug_text(s), e.words()),
        e matches CliErrorView::Storage(why) ==> e.words() == why.words(),
        e matches CliErrorView::Transaction(why) ==> e.words() == why.words(),
        e matches CliErrorView::AccountId(why) ==> e.words() == why.words(),
{
    lemma_stands(
        "invalid entry: "@,
        s,
        " (expected ID[:CLASS]:AMOUNT)"@,
        "invalid entry: "@ + s + " (expected ID[:CLASS]:AMOUNT)"@,
    );
    lemma_ends("invalid amount: "@, s);
    lemma_ends("invalid date: "@, s);
    lemma_ends("invalid fiscal year: "@, s);
    lemma_ends("invalid transaction id: "@, s);
    lemma_ends("unknown account: "@, s);
    lemma_stands(
        "invalid book name: "@,
        debug_text(s),
        " (must contain only letters and numbers)"@,
        "invalid book name: "@ + debug_text(s) + " (must contain only letters and numbers)"@,
    );
}

/// What is said of a text that is no account id names the character, or the
/// length that an id may have.
pub proof fn law_refused_ids_are_explained(e: AccountIdError)
    ensures
        e matches AccountIdError::InvalidChar(c) ==> stands_in(debug_char(c), e.words()),
        e matches AccountIdError::TooLong { max } ==> stands_in(numeral(max as nat), e.words()),
{
    if let AccountIdError::InvalidChar(c) = e {
        lemma_ends("account id contains invalid character: "@, debug_char(c));
    }
    if let AccountIdError::TooLong { max } = e {
        lemma_stands(
            "account id exceeds "@,
            numeral(max as nat),
            " characters"@,
            e.words(),
        );
    }
}

/// A date or an amount that cannot be read is told with its text and with
/// the reason.
pub proof fn law_unreadable_texts_are_told_with_a_reason(s: Seq<char>, piece: Seq<char>)
    ensures
        date_read(s) matches Err(why) ==> (day_of(s) matches Err(CliErrorView::Date(told))
            && stands_in(s, told) && stands_in(why, told)),
        amount_read(piece) matches Err(why) ==> (entry_amount(s, piece) matches Err(
            CliErrorView::Entry(told),
        ) && stands_in(s, told) && stands_in(why, told)),
{
    if let Err(why) = date_read(s) {
        let told = s + ": "@ + why;
        assert(told =~= Seq::<char>::empty() + s + (": "@ + why));
        lemma_stands(Seq::empty(), s, ": "@ + why, told);
        lemma_ends(s + ": "@, why);
    }
    if let Err(why) = amount_read(piece) {
        let told = s + ": invalid amount ("@ + why + ")"@;
        assert(told =~= Seq::<char>::empty() + s + (": invalid amount ("@ + why + ")"@));
        lemma_stands(Seq::empty(), s, ": invalid amount ("@ + why + ")"@, told);
        lemma_stands(s + ": invalid amount ("@, why, ")"@, told);
    }
}

/// The three names of kinds, and no other text, name a kind.
pub proof fn law_kinds_have_three_names(s: Seq<char>)
    ensures
        kind_read(s) == Some(TransactionKind::Normal) <==> s == "normal"@,
        kind_read(s) == Some(TransactionKind::Close) <==> s == "close"@,
        kind_read(s) == Some(TransactionKind::Open) <==> s == "open"@,
{
    crate::model::law_kind_names_read_back(TransactionKind::Normal);
    crate::model::law_kind_names_read_back(TransactionKind::Close);
    crate::model::law_kind_names_read_back(TransactionKind::Open);
}

} // verus!
