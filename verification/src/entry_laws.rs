//! What holds of account ids and of the texts of entries: which are read, and
//! as what.

use vstd::prelude::*;

use crate::account_id::{
    ends_in_word, first_refused, id_read, joined, lemma_joined_push, lemma_words, words_of,
    AccountIdError, MAX_ACCOUNT_ID_LEN,
};
use crate::chars::{is_control, is_space, lower, lowered, text_bytes};
use crate::cli::{entry_read, lemma_pieces_of, no_colon, pieces, CliErrorView, ParsedEntryView};
use crate::decimal::{amount_read, Dec};
use crate::model::{class_read, AccountClass};
use crate::text::trimmed;

verus! {

/// Whether an id cannot have a character: it is a control character, a
/// backslash, a point or a colon.
pub open spec fn is_reserved(c: char) -> bool {
    is_control(c) || c == '\\' || c == '.' || c == ':'
}

proof fn lemma_first_refused(s: Seq<char>)
    ensures
        first_refused(s) is None <==> forall|i: int| 0 <= i < s.len() ==> !is_reserved(#[trigger] s[i]),
        first_refused(s) matches Some(c) ==> exists|k: int|
            0 <= k < s.len() && #[trigger] s[k] == c && is_reserved(c) && forall|i: int|
                0 <= i < k ==> !is_reserved(#[trigger] s[i]),
    decreases s.len(),
{
    if s.len() > 0 {
        let t = s.drop_last();
        let n = s.len() - 1;
        lemma_first_refused(t);
        match first_refused(t) {
            Some(c) => {
                let k = choose|k: int|
                    0 <= k < t.len() && #[trigger] t[k] == c && is_reserved(c) && forall|i: int|
                        0 <= i < k ==> !is_reserved(#[trigger] t[i]);
                assert(s[k] == c);
                assert forall|i: int| 0 <= i < k implies !is_reserved(#[trigger] s[i]) by {
                    assert(t[i] == s[i]);
                }
            },
            None => {
                assert forall|i: int| 0 <= i < n implies !is_reserved(#[trigger] s[i]) by {
                    assert(t[i] == s[i]);
                }
                assert(s[n] == s.last());
            },
        }
    }
}

/// A text is refused as an id for the first character in it that an id cannot
/// have, where it has one between the white space around it, and else for
/// having nothing there.
pub proof fn law_ids_are_refused_for_a_reason(input: Seq<char>)
    ensures
        id_read(input) matches Err(AccountIdError::InvalidChar(c)) ==> exists|k: int|
            0 <= k < trimmed(input).len() && #[trigger] trimmed(input)[k] == c && is_reserved(c)
                && forall|i: int| 0 <= i < k ==> !is_reserved(#[trigger] trimmed(input)[i]),
        (exists|k: int| 0 <= k < trimmed(input).len() && is_reserved(#[trigger] trimmed(input)[k]))
            ==> (id_read(input) matches Err(e) && e is InvalidChar),
        id_read(input) == Err::<Seq<char>, AccountIdError>(AccountIdError::Empty) <==> trimmed(
            input,
        ).len() == 0,
        id_read(input) matches Err(AccountIdError::TooLong { max }) ==> max == MAX_ACCOUNT_ID_LEN,
{
    let text = trimmed(input);
    lemma_first_refused(text);
    crate::text_laws::law_trimming_takes_white_space_at_the_ends(input);
    if text.len() > 0 {
        lemma_words(text);
        assert(ends_in_word(text));
    }
}

/// Whether a text is tidy: it has something, nothing that an id cannot have,
/// and white space only as single spaces between words.
pub open spec fn is_tidy(s: Seq<char>) -> bool {
    &&& s.len() > 0
    &&& !is_space(s[0])
    &&& !is_space(s.last())
    &&& forall|i: int| 0 <= i < s.len() ==> !is_reserved(#[trigger] s[i])
    &&& forall|i: int| 0 <= i < s.len() && is_space(#[trigger] s[i]) ==> s[i] == ' '
    &&& forall|i: int, j: int|
        #![trigger s[i], s[j]]
        0 <= i < j < s.len() && j == i + 1 && is_space(s[j]) ==> !is_space(s[i])
}

proof fn lemma_lowered_concat(a: Seq<char>, c: char)
    ensures
        lowered(a.push(c)) == lowered(a) + lower(c),
{
    assert(a.push(c).drop_last() =~= a);
}

proof fn lemma_tidy(s: Seq<char>, n: int)
    requires
        is_tidy(s),
        0 <= n <= s.len(),
    ensures
        n > 0 ==> words_of(s.take(n)).len() > 0,
        n > 0 && ends_in_word(s.take(n)) ==> joined(words_of(s.take(n))) == lowered(s.take(n)),
        n > 0 && !ends_in_word(s.take(n)) ==> joined(words_of(s.take(n))).push(' ') == lowered(
            s.take(n),
        ),
    decreases n,
{
    if n > 0 {
        let t = s.take(n - 1);
        let c = s[n - 1];
        lemma_tidy(s, n - 1);
        assert(s.take(n) =~= t.push(c));
        assert(t.push(c).drop_last() =~= t);
        lemma_lowered_concat(t, c);
        if is_space(c) {
            assert(n > 1);
            assert(t.last() == s[n - 2]);
            assert(s[n - 1] == ' ');
            assert(lower(' ') =~= seq![' ']);
            assert(lowered(t) + seq![' '] =~= lowered(t).push(' '));
        } else {
            lemma_joined_push(t, c);
            if n == 1 {
                assert(t =~= Seq::empty());
                assert(joined(words_of(t)) =~= Seq::empty());
                assert(lowered(t) =~= Seq::empty());
            }
        }
    }
}

/// A tidy text is read as itself in lower case, as long as that is not too
/// long.
pub proof fn law_tidy_ids_are_put_in_lower_case(s: Seq<char>)
    requires
        is_tidy(s),
    ensures
        id_read(s) == (if text_bytes(lowered(s)) <= 100 {
            Ok::<Seq<char>, AccountIdError>(lowered(s))
        } else {
            Err::<Seq<char>, AccountIdError>(
                AccountIdError::TooLong { max: MAX_ACCOUNT_ID_LEN },
            )
        }),
{
    assert(trimmed(s) == s);
    lemma_first_refused(s);
    lemma_tidy(s, s.len() as int);
    assert(s.take(s.len() as int) =~= s);
}

/// The lower case of letters of seven bits is that letter in its small form,
/// and every other character of seven bits is its own.
pub proof fn law_small_letters(c: char)
    ensures
        'A' <= c <= 'Z' ==> lower(c) == seq![(c as u32 + 32) as char],
        (c as u32) < 0x80 && !('A' <= c <= 'Z') ==> lower(c) == seq![c],
{
}

/// White space around a text is nothing to its id.
pub proof fn law_ids_are_blind_to_white_space_around(
    before: Seq<char>,
    s: Seq<char>,
    behind: Seq<char>,
)
    requires
        crate::text_laws::all_space(before),
        crate::text_laws::all_space(behind),
    ensures
        id_read(before + s + behind) == id_read(s),
{
    crate::text_laws::law_trimming_is_blind_to_the_ends(before, s, behind);
}

proof fn lemma_words_spaces(a: Seq<char>, c: char, d: char, b: Seq<char>)
    requires
        is_space(c),
        is_space(d),
    ensures
        words_of(a.push(c).push(d) + b) == words_of(a.push(c) + b),
        b.len() > 0 ==> ends_in_word(a.push(c).push(d) + b) == ends_in_word(a.push(c) + b),
        b.len() == 0 ==> !ends_in_word(a.push(c).push(d) + b) && !ends_in_word(a.push(c) + b),
    decreases b.len(),
{
    let x = a.push(c).push(d) + b;
    let y = a.push(c) + b;
    if b.len() == 0 {
        assert(x =~= a.push(c).push(d));
        assert(y =~= a.push(c));
        assert(x.drop_last() =~= y);
    } else {
        let t = b.drop_last();
        lemma_words_spaces(a, c, d, t);
        assert(x.drop_last() =~= a.push(c).push(d) + t);
        assert(y.drop_last() =~= a.push(c) + t);
        assert(x.last() == b.last() && y.last() == b.last());
    }
}

/// More white space between words is as one space to an id.
pub proof fn law_ids_are_blind_to_more_white_space(a: Seq<char>, c: char, d: char, b: Seq<char>)
    requires
        a.len() > 0,
        !is_space(a[0]),
        b.len() > 0,
        !is_space(b.last()),
        is_space(c) && !is_reserved(c),
        is_space(d) && !is_reserved(d),
    ensures
        id_read(a.push(c).push(d) + b) == id_read(a.push(c) + b),
        id_read(a.push(c) + b) == id_read(a.push(' ') + b),
{
    let x = a.push(c).push(d) + b;
    let y = a.push(c) + b;
    let z = a.push(' ') + b;
    let w = a.push(c).push(' ') + b;
    lemma_words_spaces(a, c, d, b);
    lemma_words_kind(a, c, ' ', b);
    assert(x[0] == a[0] && y[0] == a[0] && z[0] == a[0]);
    assert(x.last() == b.last() && y.last() == b.last() && z.last() == b.last());
    assert(trimmed(x) == x && trimmed(y) == y && trimmed(z) == z);
    assert(x =~= a + seq![c, d] + b);
    assert(y =~= a + seq![c] + b);
    assert(z =~= a + seq![' '] + b);
    lemma_refused_parts(a, seq![c, d], b);
    lemma_refused_parts(a, seq![c], b);
    lemma_refused_parts(a, seq![' '], b);
}

proof fn lemma_words_kind(a: Seq<char>, c: char, d: char, b: Seq<char>)
    requires
        is_space(c),
        is_space(d),
    ensures
        words_of(a.push(c) + b) == words_of(a.push(d) + b),
        ends_in_word(a.push(c) + b) == ends_in_word(a.push(d) + b),
    decreases b.len(),
{
    let x = a.push(c) + b;
    let y = a.push(d) + b;
    if b.len() == 0 {
        assert(x =~= a.push(c));
        assert(y =~= a.push(d));
        assert(x.drop_last() =~= a);
        assert(y.drop_last() =~= a);
    } else {
        let t = b.drop_last();
        lemma_words_kind(a, c, d, t);
        assert(x.drop_last() =~= a.push(c) + t);
        assert(y.drop_last() =~= a.push(d) + t);
        assert(x.last() == b.last() && y.last() == b.last());
    }
}

proof fn lemma_refused_parts(a: Seq<char>, m: Seq<char>, b: Seq<char>)
    requires
        forall|i: int| 0 <= i < m.len() ==> !is_reserved(#[trigger] m[i]),
    ensures
        first_refused(a + m + b) == (match first_refused(a) {
            Some(c) => Some(c),
            None => first_refused(b),
        }),
    decreases m.len() + b.len(),
{
    let s = a + m + b;
    if b.len() > 0 {
        lemma_refused_parts(a, m, b.drop_last());
        assert(s.drop_last() =~= a + m + b.drop_last());
        assert(s.last() == b.last());
    } else if m.len() > 0 {
        let t = m.drop_last();
        assert forall|i: int| 0 <= i < t.len() implies !is_reserved(#[trigger] t[i]) by {
            assert(t[i] == m[i]);
        }
        lemma_refused_parts(a, t, b);
        assert(s.drop_last() =~= a + t + b);
        assert(s.last() == m[m.len() - 1]);
    } else {
        assert(s =~= a);
    }
}

proof fn lemma_plain_pieces(s: Seq<char>)
    requires
        no_colon(s),
    ensures
        pieces(s) == seq![s],
{
    let none = Seq::<char>::empty();
    lemma_pieces_of(none, s);
    assert(none + s =~= s);
    assert(pieces(none) =~= seq![none]);
    assert(seq![none].drop_last().push(none + s) =~= seq![s]);
}

proof fn lemma_colon_pieces(before: Seq<char>, s: Seq<char>)
    requires
        no_colon(s),
    ensures
        pieces(before.push(':') + s) == pieces(before).push(s),
{
    let first = before.push(':');
    assert(first.drop_last() =~= before);
    lemma_pieces_of(first, s);
    let p = pieces(before).push(Seq::empty());
    assert(p.drop_last() =~= pieces(before));
    assert(Seq::<char>::empty() + s =~= s);
}

/// An entry of two pieces gives its account and its amount, and no class. It
/// is read exactly if both can be.
pub proof fn law_an_entry_gives_account_and_amount(account: Seq<char>, amount: Seq<char>)
    requires
        no_colon(account),
        no_colon(amount),
    ensures
        ({
            let read = entry_read(account.push(':') + amount);
            &&& read is Ok <==> id_read(account) is Ok && amount_read(amount) is Ok
            &&& read matches Ok(p) ==> id_read(account) == Ok::<Seq<char>, AccountIdError>(p.id)
                && amount_read(amount) == Ok::<Dec, Seq<char>>(p.amount) && p.class is None
            &&& id_read(account) matches Err(e) ==> read == Err::<ParsedEntryView, CliErrorView>(
                CliErrorView::AccountId(e),
            )
        }),
{
    lemma_plain_pieces(account);
    lemma_colon_pieces(account, amount);
    assert(pieces(account.push(':') + amount) =~= seq![account, amount]);
}

/// An entry of three pieces gives its account, the class that it names and
/// its amount. It is read exactly if all three can be.
pub proof fn law_an_entry_gives_account_class_and_amount(
    account: Seq<char>,
    class: Seq<char>,
    amount: Seq<char>,
)
    requires
        no_colon(account),
        no_colon(class),
        no_colon(amount),
    ensures
        ({
            let read = entry_read(account.push(':') + class.push(':') + amount);
            &&& read is Ok <==> id_read(account) is Ok && class_read(class) is Some && amount_read(
                amount,
            ) is Ok
            &&& read matches Ok(p) ==> id_read(account) == Ok::<Seq<char>, AccountIdError>(p.id)
                && p.class == class_read(class) && amount_read(amount) == Ok::<Dec, Seq<char>>(
                p.amount,
            )
            &&& id_read(account) matches Err(e) ==> read == Err::<ParsedEntryView, CliErrorView>(
                CliErrorView::AccountId(e),
            )
        }),
{
    let front = account.push(':') + class;
    lemma_plain_pieces(account);
    lemma_colon_pieces(account, class);
    lemma_colon_pieces(front, amount);
    assert(account.push(':') + class.push(':') + amount =~= front.push(':') + amount);
    assert(pieces(account.push(':') + class.push(':') + amount) =~= seq![account, class, amount]);
}

/// The five names of classes, and no other text, name a class.
pub proof fn law_classes_have_five_names(s: Seq<char>)
    ensures
        class_read(s) == Some(AccountClass::Asset) <==> s == "asset"@,
        class_read(s) == Some(AccountClass::Liability) <==> s == "liability"@,
        class_read(s) == Some(AccountClass::Equity) <==> s == "equity"@,
        class_read(s) == Some(AccountClass::Income) <==> s == "income"@,
        class_read(s) == Some(AccountClass::Expense) <==> s == "expense"@,
{
    crate::model::law_class_names_read_back(AccountClass::Asset);
    crate::model::law_class_names_read_back(AccountClass::Liability);
    crate::model::law_class_names_read_back(AccountClass::Equity);
    crate::model::law_class_names_read_back(AccountClass::Income);
    crate::model::law_class_names_read_back(AccountClass::Expense);
}

} // verus!
