//! What holds of the written report, of the accounts that it is on, and of
//! the files that books are kept in.

use vstd::prelude::*;

use crate::audit::AuditReportView;
use crate::chars::is_alphanumeric;
use crate::cli::{
    amount_line, assets_of, book_fault, book_file, money_rows, report_lines, row_lines, rows_total,
    section, CliErrorView,
};
use crate::decimal::Dec;
use crate::model::AccountClass;
use crate::text::{padded_left, padded_right};
use crate::time::date_text;

verus! {

/// The own accounts are those of class asset, all of them, in their order.
pub proof fn law_own_accounts_are_the_assets(accounts: Seq<(Seq<char>, AccountClass)>)
    ensures
        assets_of(accounts) == accounts.filter(
            |a: (Seq<char>, AccountClass)| a.1 == AccountClass::Asset,
        ).map_values(|a: (Seq<char>, AccountClass)| a.0),
        forall|i: int|
            0 <= i < accounts.len() && (#[trigger] accounts[i]).1 == AccountClass::Asset
                ==> assets_of(accounts).contains(accounts[i].0),
    decreases accounts.len(),
{
    reveal(Seq::filter);
    let p = |a: (Seq<char>, AccountClass)| a.1 == AccountClass::Asset;
    let f = |a: (Seq<char>, AccountClass)| a.0;
    if accounts.len() > 0 {
        let t = accounts.drop_last();
        law_own_accounts_are_the_assets(t);
        assert(assets_of(accounts) =~= accounts.filter(p).map_values(f));
        assert forall|i: int|
            0 <= i < accounts.len() && (#[trigger] accounts[i]).1 == AccountClass::Asset implies assets_of(
            accounts,
        ).contains(accounts[i].0) by {
            if i < t.len() {
                assert(t[i] == accounts[i]);
                let k = assets_of(t).index_of(t[i].0);
                assert(assets_of(accounts)[k] == t[i].0);
            } else {
                assert(assets_of(accounts)[assets_of(t).len() as int] == accounts[i].0);
            }
        }
    } else {
        assert(assets_of(accounts) =~= accounts.filter(p).map_values(f));
    }
}

/// How many lines the rows of a section take: one for each, and one where
/// there are none.
pub open spec fn height(rows: Seq<(Seq<char>, Dec)>) -> int {
    if rows.len() == 0 {
        1
    } else {
        rows.len() as int
    }
}

/// Whether a line shows a label and an amount, each in its column.
pub open spec fn shows(line: Seq<char>, label: Seq<char>, amount: Dec) -> bool {
    line == "  "@ + padded_right(label, 28) + padded_left(amount.text(2), 14)
}

/// Whether a section stands in the lines from a line on: its heading, a line
/// for each of its rows in their order, and its total.
pub open spec fn stands_at(
    lines: Seq<Seq<char>>,
    at: int,
    heading: Seq<char>,
    rows: Seq<(Seq<char>, Dec)>,
    label: Seq<char>,
    sum: Dec,
) -> bool {
    &&& 0 <= at
    &&& at + height(rows) + 1 < lines.len()
    &&& lines[at] == heading
    &&& forall|i: int| 0 <= i < rows.len() ==> shows(lines[at + 1 + i], (#[trigger] rows[i]).0, rows[i].1)
    &&& rows.len() == 0 ==> lines[at + 1] == "  (none)"@
    &&& shows(lines[at + height(rows) + 1], label, sum)
}

proof fn lemma_section(
    lines: Seq<Seq<char>>,
    at: int,
    heading: Seq<char>,
    rows: Seq<(Seq<char>, Dec)>,
    label: Seq<char>,
    sum: Dec,
)
    requires
        0 <= at,
        at + height(rows) + 2 <= lines.len(),
        lines.subrange(at, at + height(rows) + 2) == section(heading, rows, label, sum),
    ensures
        stands_at(lines, at, heading, rows, label, sum),
{
    let part = lines.subrange(at, at + height(rows) + 2);
    assert(part[0] == heading);
    assert(row_lines(rows).len() == height(rows));
    assert forall|i: int| 0 <= i < rows.len() implies shows(
        lines[at + 1 + i],
        (#[trigger] rows[i]).0,
        rows[i].1,
    ) by {
        assert(part[1 + i] == row_lines(rows)[i]);
        assert(lines[at + 1 + i] == part[1 + i]);
    }
    if rows.len() == 0 {
        assert(part[1] == row_lines(rows)[0]);
        assert(lines[at + 1] == part[1]);
    }
    assert(part[height(rows) + 1] == amount_line(label, sum));
    assert(lines[at + height(rows) + 1] == part[height(rows) + 1]);
    assert(lines[at] == part[0]);
}

/// The report in lines shows everything that it holds: the period, and in
/// four sections every row with its account and its amount, and the totals.
pub proof fn law_the_report_shows_every_row(r: AuditReportView)
    ensures
        ({
            let lines = report_lines(r);
            let b = 2int;
            let e = b + height(r.beginning_balances) + 3;
            let i = e + height(r.ending_balances) + 3;
            let o = i + height(r.receipts) + 3;
            &&& lines.len() == o + height(r.disbursements) + 2
            &&& lines[0] == "Audit Report ("@ + date_text(r.from) + " to "@ + date_text(r.to) + ")"@
            &&& stands_at(
                lines,
                b,
                "Beginning balances by account:"@,
                r.beginning_balances,
                "Total"@,
                rows_total(r.beginning_balances).unwrap(),
            )
            &&& stands_at(
                lines,
                e,
                "Ending balances by account:"@,
                r.ending_balances,
                "Total"@,
                rows_total(r.ending_balances).unwrap(),
            )
            &&& stands_at(
                lines,
                i,
                "Receipts by account:"@,
                r.receipts,
                "Total receipts"@,
                r.total_receipts,
            )
            &&& stands_at(
                lines,
                o,
                "Disbursements by account:"@,
                r.disbursements,
                "Total disbursements"@,
                r.total_disbursements,
            )
        }),
{
    let lines = report_lines(r);
    let b = 2int;
    let e = b + height(r.beginning_balances) + 3;
    let i = e + height(r.ending_balances) + 3;
    let o = i + height(r.receipts) + 3;
    let s1 = section(
        "Beginning balances by account:"@,
        r.beginning_balances,
        "Total"@,
        rows_total(r.beginning_balances).unwrap(),
    );
    let s2 = section(
        "Ending balances by account:"@,
        r.ending_balances,
        "Total"@,
        rows_total(r.ending_balances).unwrap(),
    );
    let s3 = section("Receipts by account:"@, r.receipts, "Total receipts"@, r.total_receipts);
    let s4 = section(
        "Disbursements by account:"@,
        r.disbursements,
        "Total disbursements"@,
        r.total_disbursements,
    );
    assert(row_lines(r.beginning_balances).len() == height(r.beginning_balances));
    assert(row_lines(r.ending_balances).len() == height(r.ending_balances));
    assert(row_lines(r.receipts).len() == height(r.receipts));
    assert(row_lines(r.disbursements).len() == height(r.disbursements));
    assert(lines.subrange(b, b + height(r.beginning_balances) + 2) =~= s1);
    assert(lines.subrange(e, e + height(r.ending_balances) + 2) =~= s2);
    assert(lines.subrange(i, i + height(r.receipts) + 2) =~= s3);
    assert(lines.subrange(o, o + height(r.disbursements) + 2) =~= s4);
    lemma_section(
        lines,
        b,
        "Beginning balances by account:"@,
        r.beginning_balances,
        "Total"@,
        rows_total(r.beginning_balances).unwrap(),
    );
    lemma_section(
        lines,
        e,
        "Ending balances by account:"@,
        r.ending_balances,
        "Total"@,
        rows_total(r.ending_balances).unwrap(),
    );
    lemma_section(
        lines,
        i,
        "Receipts by account:"@,
        r.receipts,
        "Total receipts"@,
        r.total_receipts,
    );
    lemma_section(
        lines,
        o,
        "Disbursements by account:"@,
        r.disbursements,
        "Total disbursements"@,
        r.total_disbursements,
    );
}

/// The total of a section of balances counts every row.
pub proof fn law_a_total_counts_every_row(rows: Seq<(Seq<char>, Dec)>)
    requires
        forall|i: int| 0 <= i < rows.len() ==> (#[trigger] rows[i]).1.wf(),
        crate::sums::adds_up_exactly(Seq::new(rows.len(), |i: int| rows[i].1)),
    ensures
        rows_total(rows) matches Some(t) && t.units() == crate::audit_laws::sum_over(
            rows,
            |row: (Seq<char>, Dec)| row.1.units(),
        ),
{
    let s = Seq::new(rows.len(), |i: int| rows[i].1);
    assert forall|i: int| 0 <= i < s.len() implies (#[trigger] s[i]).wf() by {
        assert(rows[i].1.wf());
    }
    crate::sums::lemma_total_exact(s);
    lemma_rows_units(rows);
}

proof fn lemma_rows_units(rows: Seq<(Seq<char>, Dec)>)
    ensures
        crate::sums::units_total(Seq::new(rows.len(), |i: int| rows[i].1))
            == crate::audit_laws::sum_over(rows, |row: (Seq<char>, Dec)| row.1.units()),
    decreases rows.len(),
{
    let s = Seq::new(rows.len(), |i: int| rows[i].1);
    if rows.len() > 0 {
        let t = rows.drop_last();
        lemma_rows_units(t);
        assert(s.drop_last() =~= Seq::new(t.len(), |i: int| t[i].1));
    }
}

/// The report for other programs holds a pair for each row, in their order,
/// of its account and its amount.
pub proof fn law_pairs_are_those_of_the_rows(rows: Seq<(Seq<char>, Dec)>)
    ensures
        money_rows(rows).len() == rows.len(),
        forall|i: int|
            0 <= i < rows.len() ==> (#[trigger] money_rows(rows)[i]).0 == rows[i].0 && money_rows(
                rows,
            )[i].1 == rows[i].1.text(2),
{
}

/// A text is a book name exactly if it has letters and digits of seven bits
/// alone, and at least one.
pub proof fn law_book_names_are_letters_and_digits(name: Seq<char>)
    ensures
        book_fault(name) is None <==> name.len() > 0 && forall|i: int|
            0 <= i < name.len() ==> ('0' <= #[trigger] name[i] <= '9' || 'A' <= name[i] <= 'Z'
                || 'a' <= name[i] <= 'z'),
        name.len() > 0 && book_fault(name) is Some ==> book_fault(name) == Some(
            CliErrorView::BookName(name),
        ),
{
    if book_fault(name) is None {
        assert forall|i: int| 0 <= i < name.len() implies ('0' <= #[trigger] name[i] <= '9' || 'A'
            <= name[i] <= 'Z' || 'a' <= name[i] <= 'z') by {
            assert(is_alphanumeric(name[i]));
        }
    }
}

/// Every set of books has a file of its own: two names never share one, and
/// none is that of the books without a name.
pub proof fn law_every_book_has_its_own_file(a: Seq<char>, b: Seq<char>)
    ensures
        book_file(Some(a)) == book_file(Some(b)) ==> a == b,
        book_file(Some(a)) != book_file(None),
        book_file(Some(a)) == "ledger."@ + a + ".db"@,
{
    reveal_strlit("ledger.");
    reveal_strlit(".db");
    reveal_strlit("ledger.db");
    let x = book_file(Some(a));
    let y = book_file(Some(b));
    assert("ledger."@.len() == 7 && ".db"@.len() == 3 && "ledger.db"@.len() == 9);
    assert(x.len() == a.len() + 10);
    if x == y {
        assert(x.subrange(7, x.len() - 3) =~= a);
        assert(y.subrange(7, y.len() - 3) =~= b);
    }
}

} // verus!
