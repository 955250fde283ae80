//! Transactions as the shell commands that would add them again.

use vstd::prelude::*;
use vstd::string::*;

use crate::account_id::AccountId;
use crate::account_map::AccountMap;
use crate::book::{EntryView, TransactionView};
use crate::decimal::Dec;
use crate::model::{
    class_to_str, entry_views, transaction_views, AccountClass, Transaction, TransactionKind,
};
use crate::shell::{
    all_literal, is_literal, law_quoted_text_reads_back, lemma_read_char, lemma_read_concat,
    lemma_read_literal, quoted, shell_commands, shell_quote, ShellState,
};
use crate::text::{digit_char, digits, numeral, string_views};
use crate::time::{date_text, is_date_char};

verus! {

/// Why a transaction cannot be written as a command.
#[derive(Debug, PartialEq, Eq)]
pub enum ReconstructError {
    UnknownAccount(AccountId),
}

impl View for ReconstructError {
    type V = Seq<char>;

    open spec fn view(&self) -> Seq<char> {
        match *self {
            ReconstructError::UnknownAccount(id) => id@,
        }
    }
}

impl ReconstructError {
    /// The error in words.
    pub fn message(&self) -> (s: String)
        ensures
            s@ == "unknown account: "@ + self@,
    {
        match self {
            ReconstructError::UnknownAccount(id) => {
                let mut s = "unknown account: ".to_owned();
                s.append(id.as_str());
                s
            },
        }
    }
}

/// The account of the first entry that has no class.
pub open spec fn first_unknown(
    entries: Seq<EntryView>,
    classes: Map<Seq<char>, AccountClass>,
) -> Option<Seq<char>>
    decreases entries.len(),
{
    if entries.len() == 0 {
        None
    } else if !classes.dom().contains(entries[0].account) {
        Some(entries[0].account)
    } else {
        first_unknown(entries.drop_first(), classes)
    }
}

/// What follows the account in an entry of a command.
pub open spec fn entry_tail(class: AccountClass, amount: Dec) -> Seq<char> {
    ":"@ + class.name() + ":"@ + amount.plain_text()
}

/// An entry of a command, as the shell hands it on.
pub open spec fn entry_word(e: EntryView, class: AccountClass) -> Seq<char> {
    e.account + entry_tail(class, e.amount)
}

/// An entry of a command.
pub open spec fn entry_part(e: EntryView, class: AccountClass) -> Seq<char> {
    "--entry "@ + quoted(e.account) + ":"@ + class.name() + ":"@ + e.amount.plain_text()
}

/// The entries of a command.
pub open spec fn entry_parts(
    entries: Seq<EntryView>,
    classes: Map<Seq<char>, AccountClass>,
) -> Seq<Seq<char>> {
    Seq::new(entries.len(), |i: int| entry_part(entries[i], classes[entries[i].account]))
}

/// What a command says of the kind.
pub open spec fn kind_parts(kind: TransactionKind) -> Seq<Seq<char>> {
    if kind is Normal {
        Seq::empty()
    } else {
        seq!["--kind "@ + kind.name()]
    }
}

/// What a command says of the memo.
pub open spec fn memo_parts(memo: Seq<char>) -> Seq<Seq<char>> {
    if memo.len() == 0 {
        Seq::empty()
    } else {
        seq!["--memo "@ + quoted(memo)]
    }
}

/// The parts of a command, each on a line of its own.
pub open spec fn add_parts(
    tx: TransactionView,
    classes: Map<Seq<char>, AccountClass>,
) -> Seq<Seq<char>> {
    seq!["ledger add --date "@ + date_text(tx.posted_at)] + kind_parts(tx.kind) + memo_parts(tx.memo)
        + entry_parts(tx.entries, classes)
}

/// What stands between the parts of a command: the line is continued.
pub open spec fn continuation() -> Seq<char> {
    " \\\n  "@
}

/// The parts with continued lines.
pub open spec fn continued(parts: Seq<Seq<char>>) -> Seq<char>
    decreases parts.len(),
{
    if parts.len() == 0 {
        Seq::empty()
    } else if parts.len() == 1 {
        parts[0]
    } else {
        continued(parts.drop_last()) + continuation() + parts.last()
    }
}

/// The command that adds a transaction.
pub open spec fn add_command(
    tx: TransactionView,
    classes: Map<Seq<char>, AccountClass>,
) -> Seq<char> {
    continued(add_parts(tx, classes)).push('\n')
}

/// The commands that add the transactions, each with an empty line behind it.
pub open spec fn add_script(
    transactions: Seq<TransactionView>,
    classes: Map<Seq<char>, AccountClass>,
) -> Seq<char>
    decreases transactions.len(),
{
    if transactions.len() == 0 {
        Seq::empty()
    } else {
        add_script(transactions.drop_last(), classes) + add_command(transactions.last(), classes)
            + seq!['\n']
    }
}

/// The entries of a command as words of the shell.
pub open spec fn entry_words(
    entries: Seq<EntryView>,
    classes: Map<Seq<char>, AccountClass>,
) -> Seq<Seq<char>>
    decreases entries.len(),
{
    if entries.len() == 0 {
        Seq::empty()
    } else {
        let e = entries.last();
        entry_words(entries.drop_last(), classes) + seq![
            "--entry"@,
            entry_word(e, classes[e.account]),
        ]
    }
}

/// The kind in a command as words of the shell.
pub open spec fn kind_words(kind: TransactionKind) -> Seq<Seq<char>> {
    if kind is Normal {
        Seq::empty()
    } else {
        seq!["--kind"@, kind.name()]
    }
}

/// The memo in a command as words of the shell.
pub open spec fn memo_words(memo: Seq<char>) -> Seq<Seq<char>> {
    if memo.len() == 0 {
        Seq::empty()
    } else {
        seq!["--memo"@, memo]
    }
}

/// The words that the shell hands on for the command that adds a
/// transaction.
pub open spec fn add_words(
    tx: TransactionView,
    classes: Map<Seq<char>, AccountClass>,
) -> Seq<Seq<char>> {
    seq!["ledger"@, "add"@, "--date"@, date_text(tx.posted_at)] + kind_words(tx.kind) + memo_words(
        tx.memo,
    ) + entry_words(tx.entries, classes)
}

/// The words of all commands.
pub open spec fn script_words(
    transactions: Seq<TransactionView>,
    classes: Map<Seq<char>, AccountClass>,
) -> Seq<Seq<Seq<char>>> {
    Seq::new(transactions.len(), |i: int| add_words(transactions[i], classes))
}

/// The account of the first entry of the transactions that has no class.
pub open spec fn first_unknown_of(
    transactions: Seq<TransactionView>,
    classes: Map<Seq<char>, AccountClass>,
) -> Option<Seq<char>>
    decreases transactions.len(),
{
    if transactions.len() == 0 {
        None
    } else {
        match first_unknown(transactions[0].entries, classes) {
            Some(a) => Some(a),
            None => first_unknown_of(transactions.drop_first(), classes),
        }
    }
}

/// Whether a shell takes the text for the word.
spec fn adds(text: Seq<char>, word: Seq<char>) -> bool {
    forall|st: ShellState| st.mode is Plain ==> #[trigger] st.read(text) == st.with(word)
}

/// Whether a shell takes the text for the words, the last of which can go on.
spec fn reads_as(text: Seq<char>, words: Seq<Seq<char>>) -> bool {
    forall|st: ShellState|
        st.mode is Plain && st.word is None ==> {
            let end = #[trigger] st.read(text);
            &&& end.mode is Plain
            &&& end.word is Some
            &&& end.commands == st.commands
            &&& end.end_word().words == st.words + words
        }
}

proof fn lemma_adds_literal(s: Seq<char>)
    requires
        all_literal(s),
        s.len() > 0,
    ensures
        adds(s, s),
{
    assert forall|st: ShellState| st.mode is Plain implies #[trigger] st.read(s) == st.with(s) by {
        lemma_read_literal(st, s);
    }
}

proof fn lemma_adds_quoted(s: Seq<char>)
    ensures
        adds(quoted(s), s),
{
    assert forall|st: ShellState| st.mode is Plain implies #[trigger] st.read(quoted(s)) == st.with(s) by {
        law_quoted_text_reads_back(st, s);
    }
}

proof fn lemma_adds_concat(a: Seq<char>, x: Seq<char>, b: Seq<char>, y: Seq<char>)
    requires
        adds(a, x),
        adds(b, y),
    ensures
        adds(a + b, x + y),
{
    assert forall|st: ShellState| st.mode is Plain implies #[trigger] st.read(a + b) == st.with(x + y) by {
        lemma_read_concat(st, a, b);
        assert(st.read(a) == st.with(x));
        assert(st.with(x).read(b) == st.with(x).with(y));
        assert(st.word_text() + x + y =~= st.word_text() + (x + y));
    }
}

proof fn lemma_reads_word(text: Seq<char>, word: Seq<char>)
    requires
        adds(text, word),
    ensures
        reads_as(text, seq![word]),
{
    assert forall|st: ShellState| st.mode is Plain && st.word is None implies {
        let end = #[trigger] st.read(text);
        &&& end.mode is Plain
        &&& end.word is Some
        &&& end.commands == st.commands
        &&& end.end_word().words == st.words + seq![word]
    } by {
        assert(st.read(text) == st.with(word));
        assert(Seq::<char>::empty() + word =~= word);
        assert(st.words.push(word) =~= st.words + seq![word]);
    }
}

/// A text behind a space.
proof fn lemma_reads_space(a: Seq<char>, v: Seq<Seq<char>>, b: Seq<char>, w: Seq<Seq<char>>)
    requires
        reads_as(a, v),
        reads_as(b, w),
    ensures
        reads_as(a + seq![' '] + b, v + w),
{
    assert forall|st: ShellState| st.mode is Plain && st.word is None implies {
        let end = #[trigger] st.read(a + seq![' '] + b);
        &&& end.mode is Plain
        &&& end.word is Some
        &&& end.commands == st.commands
        &&& end.end_word().words == st.words + (v + w)
    } by {
        lemma_read_concat(st, a + seq![' '], b);
        lemma_read_concat(st, a, seq![' ']);
        let one = st.read(a);
        lemma_read_char(one, ' ');
        let two = one.end_word();
        let end = two.read(b);
        assert(end.end_word().words == two.words + w);
        assert(st.words + v + w =~= st.words + (v + w));
    }
}

/// A text on a continued line.
proof fn lemma_reads_continued(a: Seq<char>, v: Seq<Seq<char>>, b: Seq<char>, w: Seq<Seq<char>>)
    requires
        reads_as(a, v),
        reads_as(b, w),
    ensures
        reads_as(a + continuation() + b, v + w),
{
    reveal_strlit(" \\\n  ");
    let c = continuation();
    let first = seq![' '];
    let second = seq!['\\'];
    let third = seq!['\n'];
    assert(c =~= first + second + third + first + first);
    assert forall|st: ShellState| st.mode is Plain && st.word is None implies {
        let end = #[trigger] st.read(a + c + b);
        &&& end.mode is Plain
        &&& end.word is Some
        &&& end.commands == st.commands
        &&& end.end_word().words == st.words + (v + w)
    } by {
        lemma_read_concat(st, a + c, b);
        lemma_read_concat(st, a, c);
        let one = st.read(a);
        lemma_read_concat(one, first + second + third + first, first);
        lemma_read_concat(one, first + second + third, first);
        lemma_read_concat(one, first + second, third);
        lemma_read_concat(one, first, second);
        let two = one.end_word();
        let three = two.step('\\');
        lemma_read_char(one, ' ');
        lemma_read_char(two, '\\');
        lemma_read_char(three, '\n');
        let four = three.step('\n');
        assert(four == two);
        lemma_read_char(two, ' ');
        assert(two.step(' ') == two);
        assert(one.read(c) == two);
        let end = two.read(b);
        assert(end.end_word().words == two.words + w);
        assert(st.words + v + w =~= st.words + (v + w));
    }
}

/// A digit of a numeral stands for itself.
proof fn lemma_numeral_literal(n: nat)
    ensures
        numeral(n).len() > 0,
        all_literal(numeral(n)),
    decreases n,
{
    if n >= 10 {
        lemma_numeral_literal(n / 10);
    }
    let s = numeral(n);
    assert forall|i: int| 0 <= i < s.len() implies is_literal(#[trigger] s[i]) by {
        if i < s.len() - 1 {
            assert(s[i] == numeral(n / 10)[i]);
        } else {
            assert(s[i] == digit_char((n % 10) as int));
        }
    }
}

proof fn lemma_digits_literal(n: nat, width: nat)
    ensures
        all_literal(digits(n, width)),
    decreases width,
{
    if width > 0 {
        lemma_digits_literal(n / 10, (width - 1) as nat);
        let s = digits(n, width);
        assert forall|i: int| 0 <= i < s.len() implies is_literal(#[trigger] s[i]) by {
            if i < s.len() - 1 {
                assert(s[i] == digits(n / 10, (width - 1) as nat)[i]);
            } else {
                assert(s[i] == digit_char((n % 10) as int));
            }
        }
    }
}

proof fn lemma_literal_concat(a: Seq<char>, b: Seq<char>)
    requires
        all_literal(a),
        all_literal(b),
    ensures
        all_literal(a + b),
{
    assert forall|i: int| 0 <= i < (a + b).len() implies is_literal(#[trigger] (a + b)[i]) by {
        if i < a.len() {
            assert((a + b)[i] == a[i]);
        } else {
            assert((a + b)[i] == b[i - a.len()]);
        }
    }
}

/// An amount needs no quotes.
proof fn lemma_amount_literal(d: Dec)
    ensures
        d.plain_text().len() > 0,
        all_literal(d.plain_text()),
{
    let unit = crate::decimal::pow10(d.scale);
    let whole = crate::decimal::magnitude(d.mantissa) / unit;
    let part = crate::decimal::magnitude(d.mantissa) % unit;
    let shown = part / crate::decimal::pow10(0);
    let sign = if d.mantissa < 0 {
        seq!['-']
    } else {
        Seq::empty()
    };
    let point = if d.scale == 0 {
        Seq::empty()
    } else {
        seq!['.'] + digits(shown, d.scale)
    };
    lemma_numeral_literal(whole);
    lemma_digits_literal(shown, d.scale);
    assert(all_literal(sign));
    assert(all_literal(seq!['.']));
    lemma_literal_concat(seq!['.'], digits(shown, d.scale));
    lemma_literal_concat(sign, numeral(whole));
    lemma_literal_concat(sign + numeral(whole), point);
    assert(d.plain_text() == sign + numeral(whole) + point);
}

proof fn lemma_class_literal(class: AccountClass)
    ensures
        class.name().len() > 0,
        all_literal(class.name()),
{
    reveal_strlit("asset");
    reveal_strlit("liability");
    reveal_strlit("equity");
    reveal_strlit("income");
    reveal_strlit("expense");
}

proof fn lemma_entry_reads(e: EntryView, class: AccountClass)
    ensures
        reads_as(entry_part(e, class), seq!["--entry"@, entry_word(e, class)]),
{
    reveal_strlit("--entry ");
    reveal_strlit("--entry");
    reveal_strlit(":");
    let amount = e.amount.plain_text();
    let tail = entry_tail(class, e.amount);
    lemma_class_literal(class);
    lemma_amount_literal(e.amount);
    lemma_literal_concat(":"@, class.name());
    lemma_literal_concat(":"@ + class.name(), ":"@);
    lemma_literal_concat(":"@ + class.name() + ":"@, amount);
    lemma_adds_quoted(e.account);
    lemma_adds_literal(tail);
    lemma_adds_concat(quoted(e.account), e.account, tail, tail);
    lemma_reads_word(quoted(e.account) + tail, entry_word(e, class));
    lemma_adds_literal("--entry"@);
    lemma_reads_word("--entry"@, "--entry"@);
    lemma_reads_space(
        "--entry"@,
        seq!["--entry"@],
        quoted(e.account) + tail,
        seq![entry_word(e, class)],
    );
    assert("--entry "@ =~= "--entry"@ + seq![' ']);
    assert(entry_part(e, class) =~= "--entry"@ + seq![' '] + (quoted(e.account) + tail));
    assert(seq!["--entry"@] + seq![entry_word(e, class)] =~= seq![
        "--entry"@,
        entry_word(e, class),
    ]);
}

proof fn lemma_kind_reads(kind: TransactionKind)
    requires
        !(kind is Normal),
    ensures
        reads_as("--kind "@ + kind.name(), kind_words(kind)),
{
    reveal_strlit("--kind ");
    reveal_strlit("--kind");
    reveal_strlit("close");
    reveal_strlit("open");
    lemma_adds_literal("--kind"@);
    lemma_adds_literal(kind.name());
    lemma_reads_word("--kind"@, "--kind"@);
    lemma_reads_word(kind.name(), kind.name());
    lemma_reads_space("--kind"@, seq!["--kind"@], kind.name(), seq![kind.name()]);
    assert("--kind "@ + kind.name() =~= "--kind"@ + seq![' '] + kind.name());
    assert(seq!["--kind"@] + seq![kind.name()] =~= kind_words(kind));
}

proof fn lemma_memo_reads(memo: Seq<char>)
    requires
        memo.len() > 0,
    ensures
        reads_as("--memo "@ + quoted(memo), memo_words(memo)),
{
    reveal_strlit("--memo ");
    reveal_strlit("--memo");
    lemma_adds_literal("--memo"@);
    lemma_adds_quoted(memo);
    lemma_reads_word("--memo"@, "--memo"@);
    lemma_reads_word(quoted(memo), memo);
    lemma_reads_space("--memo"@, seq!["--memo"@], quoted(memo), seq![memo]);
    assert("--memo "@ + quoted(memo) =~= "--memo"@ + seq![' '] + quoted(memo));
    assert(seq!["--memo"@] + seq![memo] =~= memo_words(memo));
}

proof fn lemma_head_reads(date: Seq<char>)
    requires
        date.len() > 0,
        forall|i: int| 0 <= i < date.len() ==> is_date_char(#[trigger] date[i]),
    ensures
        reads_as("ledger add --date "@ + date, seq!["ledger"@, "add"@, "--date"@, date]),
{
    reveal_strlit("ledger add --date ");
    reveal_strlit("ledger");
    reveal_strlit("add");
    reveal_strlit("--date");
    assert forall|i: int| 0 <= i < date.len() implies is_literal(#[trigger] date[i]) by {
        assert(is_date_char(date[i]));
    }
    lemma_adds_literal("ledger"@);
    lemma_adds_literal("add"@);
    lemma_adds_literal("--date"@);
    lemma_adds_literal(date);
    lemma_reads_word("ledger"@, "ledger"@);
    lemma_reads_word("add"@, "add"@);
    lemma_reads_word("--date"@, "--date"@);
    lemma_reads_word(date, date);
    lemma_reads_space("ledger"@, seq!["ledger"@], "add"@, seq!["add"@]);
    let two = "ledger"@ + seq![' '] + "add"@;
    lemma_reads_space(two, seq!["ledger"@] + seq!["add"@], "--date"@, seq!["--date"@]);
    let three = two + seq![' '] + "--date"@;
    lemma_reads_space(
        three,
        seq!["ledger"@] + seq!["add"@] + seq!["--date"@],
        date,
        seq![date],
    );
    assert("ledger add --date "@ + date =~= three + seq![' '] + date);
    assert(seq!["ledger"@] + seq!["add"@] + seq!["--date"@] + seq![date] =~= seq![
        "ledger"@,
        "add"@,
        "--date"@,
        date,
    ]);
}

proof fn lemma_continued_push(parts: Seq<Seq<char>>, part: Seq<char>)
    requires
        parts.len() > 0,
    ensures
        continued(parts.push(part)) == continued(parts) + continuation() + part,
{
    assert(parts.push(part).drop_last() =~= parts);
}

proof fn lemma_entries_read(
    front: Seq<Seq<char>>,
    words: Seq<Seq<char>>,
    entries: Seq<EntryView>,
    classes: Map<Seq<char>, AccountClass>,
)
    requires
        front.len() > 0,
        reads_as(continued(front), words),
    ensures
        reads_as(continued(front + entry_parts(entries, classes)), words + entry_words(entries, classes)),
    decreases entries.len(),
{
    let parts = entry_parts(entries, classes);
    if entries.len() == 0 {
        assert(front + parts =~= front);
        assert(words + entry_words(entries, classes) =~= words);
    } else {
        let t = entries.drop_last();
        let e = entries.last();
        lemma_entries_read(front, words, t, classes);
        let part = entry_part(e, classes[e.account]);
        assert(front + parts =~= (front + entry_parts(t, classes)).push(part));
        lemma_continued_push(front + entry_parts(t, classes), part);
        lemma_entry_reads(e, classes[e.account]);
        let pair = seq!["--entry"@, entry_word(e, classes[e.account])];
        lemma_reads_continued(
            continued(front + entry_parts(t, classes)),
            words + entry_words(t, classes),
            part,
            pair,
        );
        assert(words + entry_words(t, classes) + pair =~= words + entry_words(entries, classes));
    }
}

/// A shell at the beginning of a line takes the command for its words.
proof fn lemma_command_reads(
    st: ShellState,
    tx: TransactionView,
    classes: Map<Seq<char>, AccountClass>,
)
    requires
        st.mode is Plain,
        st.word is None,
        st.words.len() == 0,
        date_text(tx.posted_at).len() > 0,
        forall|i: int|
            0 <= i < date_text(tx.posted_at).len() ==> is_date_char(
                #[trigger] date_text(tx.posted_at)[i],
            ),
    ensures
        st.read(add_command(tx, classes)) == (ShellState {
            commands: st.commands.push(add_words(tx, classes)),
            ..st
        }),
{
    let date = date_text(tx.posted_at);
    let head = seq!["ledger add --date "@ + date];
    let w0 = seq!["ledger"@, "add"@, "--date"@, date];
    lemma_head_reads(date);
    assert(continued(head) == head[0]);
    let p1 = head + kind_parts(tx.kind);
    let w1 = w0 + kind_words(tx.kind);
    if tx.kind is Normal {
        assert(p1 =~= head);
        assert(w1 =~= w0);
    } else {
        lemma_kind_reads(tx.kind);
        assert(p1 =~= head.push(kind_parts(tx.kind)[0]));
        lemma_continued_push(head, kind_parts(tx.kind)[0]);
        lemma_reads_continued(continued(head), w0, kind_parts(tx.kind)[0], kind_words(tx.kind));
    }
    assert(reads_as(continued(p1), w1));
    let p2 = p1 + memo_parts(tx.memo);
    let w2 = w1 + memo_words(tx.memo);
    if tx.memo.len() == 0 {
        assert(p2 =~= p1);
        assert(w2 =~= w1);
    } else {
        lemma_memo_reads(tx.memo);
        assert(p2 =~= p1.push(memo_parts(tx.memo)[0]));
        lemma_continued_push(p1, memo_parts(tx.memo)[0]);
        lemma_reads_continued(continued(p1), w1, memo_parts(tx.memo)[0], memo_words(tx.memo));
    }
    assert(reads_as(continued(p2), w2));
    lemma_entries_read(p2, w2, tx.entries, classes);
    let text = continued(add_parts(tx, classes));
    assert(reads_as(text, add_words(tx, classes)));
    let end = st.read(text);
    assert(end.end_word().words == st.words + add_words(tx, classes));
    assert(st.words + add_words(tx, classes) =~= add_words(tx, classes));
    assert(add_command(tx, classes).drop_last() =~= text);
    assert(add_words(tx, classes).len() > 0);
    assert(st.words =~= Seq::empty());
}

/// Appends the parts of the entries, if all their accounts have classes.
fn push_entry_parts(
    parts: &mut Vec<String>,
    tx: &Transaction,
    classes: &AccountMap<AccountClass>,
) -> (done: Result<(), ReconstructError>)
    ensures
        match done {
            Ok(()) => {
                &&& first_unknown(tx@.entries, classes@) is None
                &&& string_views(final(parts)@) == string_views(old(parts)@) + entry_parts(
                    tx@.entries,
                    classes@,
                )
            },
            Err(e) => first_unknown(tx@.entries, classes@) == Some(e@),
        },
{
    let ghost all = tx@.entries;
    let ghost start = string_views(parts@);
    assert(all.skip(0) =~= all);
    assert(start =~= start + entry_parts(all.take(0), classes@));
    for i in 0..tx.entries.len()
        invariant
            all == entry_views(tx.entries@),
            first_unknown(all, classes@) == first_unknown(all.skip(i as int), classes@),
            string_views(parts@) == start + entry_parts(all.take(i as int), classes@),
    {
        let entry = &tx.entries[i];
        assert(all.skip(i as int)[0] == all[i as int]);
        assert(all.skip(i as int).drop_first() =~= all.skip(i + 1));
        match classes.get(&entry.account) {
            None => {
                return Err(ReconstructError::UnknownAccount(entry.account.clone()));
            },
            Some(class) => {
                let mut part = "--entry ".to_owned();
                part.append(shell_quote(entry.account.as_str()).as_str());
                part.append(":");
                part.append(class_to_str(class));
                part.append(":");
                part.append(entry.amount.to_text().as_str());
                let ghost was = parts@;
                assert(part@ == entry_part(all[i as int], class));
                parts.push(part);
                proof {
                    assert(string_views(parts@) =~= string_views(was).push(part@));
                    assert(entry_parts(all.take(i + 1), classes@) =~= entry_parts(
                        all.take(i as int),
                        classes@,
                    ).push(part@));
                    assert(string_views(parts@) =~= start + entry_parts(all.take(i + 1), classes@));
                }
            },
        }
    }
    assert(all.take(all.len() as int) =~= all);
    Ok(())
}

fn continue_lines(parts: &Vec<String>) -> (out: String)
    ensures
        out@ == continued(string_views(parts@)),
{
    let ghost all = string_views(parts@);
    let mut out = String::new();
    for i in 0..parts.len()
        invariant
            all == string_views(parts@),
            out@ == continued(all.take(i as int)),
    {
        assert(all.take(i + 1).drop_last() =~= all.take(i as int));
        if i > 0 {
            out.append(" \\\n  ");
        }
        out.append(parts[i].as_str());
        assert(out@ =~= continued(all.take(i + 1)));
    }
    assert(all.take(all.len() as int) =~= all);
    out
}

impl Transaction {
    /// Render this transaction as a `ledger add` command, multi-line with
    /// `\` continuations so the output can be pasted into a shell. Memo is
    /// omitted when empty. Account classes are looked up in `classes`;
    /// an entry whose account is missing from the map yields an
    /// `UnknownAccount` error.
    ///
    /// A shell takes the text for one command, whose words are the date, the
    /// kind, the memo and the entries as they are.
    pub fn render_add_command(&self, classes: &AccountMap<AccountClass>) -> (made: Result<
        String,
        ReconstructError,
    >)
        ensures
            match made {
                Ok(text) => {
                    &&& first_unknown(self@.entries, classes@) is None
                    &&& text@ == add_command(self@, classes@)
                    &&& shell_commands(text@) == Some(seq![add_words(self@, classes@)])
                    &&& forall|st: ShellState|
                        st.mode is Plain && st.word is None && st.words.len() == 0
                            ==> #[trigger] st.read(text@) == (ShellState {
                            commands: st.commands.push(add_words(self@, classes@)),
                            ..st
                        })
                },
                Err(e) => first_unknown(self@.entries, classes@) == Some(e@),
            },
    {
        let date: String = self.posted_at.date();
        let mut parts: Vec<String> = Vec::new();
        let mut head = "ledger add --date ".to_owned();
        head.append(date.as_str());
        parts.push(head);
        assert(string_views(parts@) =~= seq!["ledger add --date "@ + date@]);
        let ghost one = parts@;
        if self.kind != TransactionKind::Normal {
            let mut part = "--kind ".to_owned();
            part.append(self.kind.as_str());
            parts.push(part);
        }
        assert(string_views(parts@) =~= string_views(one) + kind_parts(self.kind));
        let ghost two = parts@;
        if self.memo.as_str().unicode_len() > 0 {
            let mut part = "--memo ".to_owned();
            part.append(shell_quote(self.memo.as_str()).as_str());
            parts.push(part);
        }
        assert(string_views(parts@) =~= string_views(two) + memo_parts(self.memo@));
        match push_entry_parts(&mut parts, self, classes) {
            Err(e) => Err(e),
            Ok(()) => {
                let mut out: String = continue_lines(&parts);
                out.push('\n');
                proof {
                    assert(string_views(parts@) =~= add_parts(self@, classes@));
                    assert forall|st: ShellState| st.mode is Plain && st.word is None && st.words.len()
                        == 0 implies #[trigger] st.read(out@) == (ShellState {
                        commands: st.commands.push(add_words(self@, classes@)),
                        ..st
                    }) by {
                        lemma_command_reads(st, self@, classes@);
                    }
                    let start = ShellState::start();
                    assert(start.read(out@).commands =~= seq![add_words(self@, classes@)]);
                }
                Ok(out)
            },
        }
    }
}

/// Render a sequence of transactions as a series of `ledger add` commands,
/// one per transaction, separated by blank lines. The input order is
/// preserved; the caller is responsible for sorting.
///
/// A shell takes the text for these commands, one after the other.
pub fn render_all_add_commands(
    transactions: &[Transaction],
    classes: &AccountMap<AccountClass>,
) -> (made: Result<String, ReconstructError>)
    ensures
        match made {
            Ok(text) => {
                &&& first_unknown_of(transaction_views(transactions@), classes@) is None
                &&& text@ == add_script(transaction_views(transactions@), classes@)
                &&& shell_commands(text@) == Some(
                    script_words(transaction_views(transactions@), classes@),
                )
            },
            Err(e) => first_unknown_of(transaction_views(transactions@), classes@) == Some(e@),
        },
{
    let ghost txs = transaction_views(transactions@);
    let mut out = String::new();
    assert(txs.skip(0) =~= txs);
    assert(script_words(txs.take(0), classes@) =~= Seq::empty());
    for i in 0..transactions.len()
        invariant
            txs == transaction_views(transactions@),
            first_unknown_of(txs, classes@) == first_unknown_of(txs.skip(i as int), classes@),
            out@ == add_script(txs.take(i as int), classes@),
            ShellState::start().read(out@) == (ShellState {
                commands: script_words(txs.take(i as int), classes@),
                ..ShellState::start()
            }),
    {
        let ghost was = out@;
        assert(txs.skip(i as int)[0] == txs[i as int]);
        assert(txs.skip(i as int).drop_first() =~= txs.skip(i + 1));
        assert(txs.take(i + 1).drop_last() =~= txs.take(i as int));
        match transactions[i].render_add_command(classes) {
            Err(e) => {
                return Err(e);
            },
            Ok(command) => {
                out.append(command.as_str());
                out.push('\n');
                proof {
                    let start = ShellState::start();
                    assert(out@ =~= was + command@ + seq!['\n']);
                    lemma_read_concat(start, was + command@, seq!['\n']);
                    lemma_read_concat(start, was, command@);
                    let mid = start.read(was).read(command@);
                    lemma_read_char(mid, '\n');
                    assert(script_words(txs.take(i + 1), classes@) =~= script_words(
                        txs.take(i as int),
                        classes@,
                    ).push(add_words(txs[i as int], classes@)));
                }
            },
        }
    }
    assert(txs.take(txs.len() as int) =~= txs);
    Ok(out)
}

} // verus!
