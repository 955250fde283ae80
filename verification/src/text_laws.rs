//! What holds of texts: their order, their lines and columns, and how money
//! is written.

use vstd::prelude::*;

use crate::chars::{is_ascii, is_control, is_space, text_bytes};
use crate::decimal::{magnitude, pow10, Dec};
use crate::money::{grouped, money_text, point_at, sign_len, signed_money_text, with_commas};
use crate::text::{
    cut, ended_lines, lines_of, numeral, padded_left, padded_right, precedes, repeated, trimmed,
    trimmed_left, trimmed_right, without_line_ends, without_return,
};

verus! {

/// Whether two texts agree in their first `k` characters, and the first then
/// ends, or goes on with a smaller character than the second.
pub open spec fn parts_at(a: Seq<char>, b: Seq<char>, k: int) -> bool {
    &&& 0 <= k <= a.len()
    &&& k < b.len()
    &&& forall|i: int| 0 <= i < k ==> #[trigger] a[i] == b[i]
    &&& k < a.len() ==> a[k] < b[k]
}

/// A text comes before another exactly if at the first place where they part
/// it ends, or has the smaller character.
pub proof fn law_texts_are_ordered_where_they_part(a: Seq<char>, b: Seq<char>)
    ensures
        precedes(a, b) <==> exists|k: int| #[trigger] parts_at(a, b, k),
    decreases a.len(),
{
    if a.len() > 0 && b.len() > 0 && a[0] == b[0] {
        let x = a.drop_first();
        let y = b.drop_first();
        law_texts_are_ordered_where_they_part(x, y);
        if precedes(a, b) {
            let k = choose|k: int| #[trigger] parts_at(x, y, k);
            assert forall|i: int| 0 <= i < k + 1 implies #[trigger] a[i] == b[i] by {
                if i > 0 {
                    assert(x[i - 1] == y[i - 1]);
                }
            }
            assert(parts_at(a, b, k + 1));
        }
        if exists|k: int| #[trigger] parts_at(a, b, k) {
            let k = choose|k: int| #[trigger] parts_at(a, b, k);
            assert(k > 0);
            assert forall|i: int| 0 <= i < k - 1 implies #[trigger] x[i] == y[i] by {
                assert(a[i + 1] == b[i + 1]);
            }
            assert(parts_at(x, y, k - 1));
        }
    } else {
        if precedes(a, b) {
            assert(parts_at(a, b, 0));
        }
        if exists|k: int| #[trigger] parts_at(a, b, k) {
            let k = choose|k: int| #[trigger] parts_at(a, b, k);
            if k > 0 {
                assert(a[0] == b[0]);
            }
        }
    }
}

/// Whether a text is white space alone.
pub open spec fn all_space(s: Seq<char>) -> bool {
    forall|i: int| 0 <= i < s.len() ==> is_space(#[trigger] s[i])
}

proof fn lemma_trimmed_left(s: Seq<char>) -> (before: Seq<char>)
    ensures
        s == before + trimmed_left(s),
        all_space(before),
        trimmed_left(s).len() > 0 ==> !is_space(trimmed_left(s)[0]),
    decreases s.len(),
{
    if s.len() > 0 && is_space(s[0]) {
        let rest = s.drop_first();
        let less = lemma_trimmed_left(rest);
        let before = seq![s[0]] + less;
        assert(s =~= before + trimmed_left(s)) by {
            assert(s =~= seq![s[0]] + rest);
        }
        assert forall|i: int| 0 <= i < before.len() implies is_space(#[trigger] before[i]) by {
            if i > 0 {
                assert(before[i] == less[i - 1]);
            }
        }
        before
    } else {
        assert(s =~= Seq::<char>::empty() + s);
        Seq::empty()
    }
}

proof fn lemma_trimmed_right(s: Seq<char>) -> (behind: Seq<char>)
    ensures
        s == trimmed_right(s) + behind,
        all_space(behind),
        trimmed_right(s).len() > 0 ==> !is_space(trimmed_right(s).last()),
    decreases s.len(),
{
    if s.len() > 0 && is_space(s.last()) {
        let rest = s.drop_last();
        let less = lemma_trimmed_right(rest);
        let behind = less.push(s.last());
        assert(s =~= trimmed_right(s) + behind) by {
            assert(s =~= rest.push(s.last()));
        }
        assert forall|i: int| 0 <= i < behind.len() implies is_space(#[trigger] behind[i]) by {
            if i < less.len() {
                assert(behind[i] == less[i]);
            }
        }
        behind
    } else {
        assert(s =~= s + Seq::<char>::empty());
        Seq::empty()
    }
}

/// Trimming takes white space away at both ends, all of it, and nothing
/// else: what is left neither begins nor ends with white space.
pub proof fn law_trimming_takes_white_space_at_the_ends(s: Seq<char>)
    ensures
        exists|before: Seq<char>, behind: Seq<char>|
            s == #[trigger] (before + trimmed(s) + behind) && all_space(before) && all_space(behind),
        trimmed(s).len() > 0 ==> !is_space(trimmed(s)[0]) && !is_space(trimmed(s).last()),
        all_space(s) <==> trimmed(s).len() == 0,
{
    let before = lemma_trimmed_left(s);
    let left = trimmed_left(s);
    let behind = lemma_trimmed_right(left);
    assert(s =~= before + trimmed(s) + behind);
    if trimmed(s).len() > 0 {
        assert(left[0] == trimmed(s)[0]);
        assert(s[before.len() as int] == trimmed(s)[0]);
    } else {
        assert forall|i: int| 0 <= i < s.len() implies is_space(#[trigger] s[i]) by {
            if i < before.len() {
                assert(s[i] == before[i]);
            } else {
                assert(s[i] == behind[i - before.len()]);
            }
        }
    }
}

/// White space that stands before a text or behind it is trimmed with the
/// rest.
pub proof fn law_trimming_is_blind_to_the_ends(before: Seq<char>, s: Seq<char>, behind: Seq<char>)
    requires
        all_space(before),
        all_space(behind),
    ensures
        trimmed(before + s + behind) == trimmed(s),
{
    let whole = before + s + behind;
    lemma_skip_left(before, s + behind);
    assert(whole =~= before + (s + behind));
    if all_space(s) {
        lemma_left_all(s, behind);
        law_trimming_takes_white_space_at_the_ends(s);
        law_trimming_takes_white_space_at_the_ends(s + behind);
        assert forall|i: int| 0 <= i < (s + behind).len() implies is_space(
            #[trigger] (s + behind)[i],
        ) by {
            if i < s.len() {
                assert((s + behind)[i] == s[i]);
            } else {
                assert((s + behind)[i] == behind[i - s.len()]);
            }
        }
        assert(trimmed(s + behind) =~= trimmed(s));
    } else {
        lemma_left_some(s, behind);
        lemma_skip_right(trimmed_left(s), behind);
    }
}

proof fn lemma_skip_left(before: Seq<char>, s: Seq<char>)
    requires
        all_space(before),
    ensures
        trimmed_left(before + s) == trimmed_left(s),
    decreases before.len(),
{
    if before.len() > 0 {
        let rest = before.drop_first();
        assert forall|i: int| 0 <= i < rest.len() implies is_space(#[trigger] rest[i]) by {
            assert(rest[i] == before[i + 1]);
        }
        assert(is_space(before[0]));
        lemma_skip_left(rest, s);
        assert((before + s).drop_first() =~= rest + s);
        assert((before + s)[0] == before[0]);
    } else {
        assert(before + s =~= s);
    }
}

proof fn lemma_skip_right(s: Seq<char>, behind: Seq<char>)
    requires
        all_space(behind),
    ensures
        trimmed_right(s + behind) == trimmed_right(s),
    decreases behind.len(),
{
    if behind.len() > 0 {
        let rest = behind.drop_last();
        assert forall|i: int| 0 <= i < rest.len() implies is_space(#[trigger] rest[i]) by {
            assert(rest[i] == behind[i]);
        }
        assert(is_space(behind[behind.len() - 1]));
        lemma_skip_right(s, rest);
        assert((s + behind).drop_last() =~= s + rest);
        assert((s + behind).last() == behind.last());
    } else {
        assert(s + behind =~= s);
    }
}

proof fn lemma_left_all(s: Seq<char>, behind: Seq<char>)
    requires
        all_space(s),
    ensures
        trimmed_left(s).len() == 0,
    decreases s.len(),
{
    if s.len() > 0 {
        let rest = s.drop_first();
        assert(is_space(s[0]));
        assert forall|i: int| 0 <= i < rest.len() implies is_space(#[trigger] rest[i]) by {
            assert(rest[i] == s[i + 1]);
        }
        lemma_left_all(rest, behind);
    }
}

proof fn lemma_left_some(s: Seq<char>, behind: Seq<char>)
    requires
        !all_space(s),
    ensures
        trimmed_left(s + behind) == trimmed_left(s) + behind,
    decreases s.len(),
{
    if is_space(s[0]) {
        let rest = s.drop_first();
        if all_space(rest) {
            assert forall|i: int| 0 <= i < s.len() implies is_space(#[trigger] s[i]) by {
                if i > 0 {
                    assert(s[i] == rest[i - 1]);
                }
            }
        }
        lemma_left_some(rest, behind);
        assert((s + behind).drop_first() =~= rest + behind);
        assert((s + behind)[0] == s[0]);
    } else {
        assert((s + behind)[0] == s[0]);
    }
}

/// Taking line ends away takes those at the end of a text, all of them, and
/// nothing else.
pub proof fn law_line_ends_are_taken_at_the_end(s: Seq<char>)
    ensures
        exists|n: int| 0 <= n && s == without_line_ends(s) + #[trigger] repeated('\n', n),
        without_line_ends(s).len() > 0 ==> without_line_ends(s).last() != '\n',
    decreases s.len(),
{
    if s.len() > 0 && s.last() == '\n' {
        law_line_ends_are_taken_at_the_end(s.drop_last());
        let n = choose|n: int|
            0 <= n && s.drop_last() == without_line_ends(s.drop_last()) + #[trigger] repeated(
                '\n',
                n,
            );
        let short = without_line_ends(s);
        assert(repeated('\n', n + 1) =~= repeated('\n', n).push('\n'));
        assert(s =~= s.drop_last().push('\n'));
        assert((short + repeated('\n', n)).push('\n') =~= short + repeated('\n', n + 1));
    } else {
        assert(s =~= without_line_ends(s) + repeated('\n', 0));
    }
}

/// Whether a text has no line end.
pub open spec fn is_one_line(s: Seq<char>) -> bool {
    forall|i: int| 0 <= i < s.len() ==> #[trigger] s[i] != '\n'
}

proof fn lemma_one_line(s: Seq<char>)
    requires
        is_one_line(s),
    ensures
        ended_lines(s) == (Seq::<Seq<char>>::empty(), s),
    decreases s.len(),
{
    if s.len() > 0 {
        let t = s.drop_last();
        assert forall|i: int| 0 <= i < t.len() implies #[trigger] t[i] != '\n' by {
            assert(t[i] == s[i]);
        }
        lemma_one_line(t);
        assert(s[s.len() - 1] != '\n');
        assert(t.push(s.last()) =~= s);
    } else {
        assert(s =~= Seq::empty());
    }
}

proof fn lemma_ended_concat(a: Seq<char>, b: Seq<char>)
    requires
        ended_lines(a).1.len() == 0,
    ensures
        ended_lines(a + b) == (ended_lines(a).0 + ended_lines(b).0, ended_lines(b).1),
    decreases b.len(),
{
    if b.len() == 0 {
        assert(a + b =~= a);
        assert(ended_lines(a).0 + ended_lines(b).0 =~= ended_lines(a).0);
        assert(ended_lines(a).1 =~= ended_lines(b).1);
    } else {
        lemma_ended_concat(a, b.drop_last());
        assert((a + b).drop_last() =~= a + b.drop_last());
        assert((a + b).last() == b.last());
        let (lines, rest) = ended_lines(b.drop_last());
        assert((ended_lines(a).0 + lines).push(without_return(rest)) =~= ended_lines(a).0
            + lines.push(without_return(rest)));
    }
}

/// The lines of a text are what stands between its line ends: the first,
/// without the carriage return that may belong to its end, and then those of
/// what stands behind. What stands behind the last line end is a line where
/// it is not empty.
pub proof fn law_lines_stand_between_line_ends(line: Seq<char>, rest: Seq<char>)
    requires
        is_one_line(line),
    ensures
        lines_of(line.push('\n') + rest) == seq![
            if line.len() > 0 && line.last() == '\r' {
                line.drop_last()
            } else {
                line
            },
        ] + lines_of(rest),
        line.len() > 0 ==> lines_of(line) == seq![line],
        lines_of(Seq::empty()).len() == 0,
{
    lemma_one_line(line);
    let first = line.push('\n');
    assert(first.drop_last() =~= line);
    assert(ended_lines(first).0 =~= seq![without_return(line)]);
    lemma_ended_concat(first, rest);
    assert(lines_of(first + rest) =~= seq![without_return(line)] + lines_of(rest));
    if line.len() > 0 {
        assert(lines_of(line) =~= seq![line]);
    }
}

/// A column holds its text, and spaces up to its width.
pub proof fn law_columns_hold_their_text(s: Seq<char>, width: int)
    requires
        width >= 0,
    ensures
        s.len() <= width ==> padded_right(s, width).len() == width && padded_left(s, width).len()
            == width,
        s.len() > width ==> padded_right(s, width) == s && padded_left(s, width) == s,
        padded_right(s, width).take(s.len() as int) == s,
        forall|i: int|
            s.len() <= i < padded_right(s, width).len() ==> #[trigger] padded_right(s, width)[i]
                == ' ',
        padded_left(s, width).skip(padded_left(s, width).len() - s.len()) == s,
        forall|i: int|
            0 <= i < padded_left(s, width).len() - s.len() ==> #[trigger] padded_left(s, width)[i]
                == ' ',
{
    assert(padded_right(s, width).take(s.len() as int) =~= s);
    assert(padded_left(s, width).skip(padded_left(s, width).len() - s.len()) =~= s);
    if s.len() > width {
        assert(padded_right(s, width) =~= s);
        assert(padded_left(s, width) =~= s);
    }
}

/// A text that is cut is its beginning, and one that is short enough stays
/// whole.
pub proof fn law_a_cut_text_is_a_beginning(s: Seq<char>, n: int)
    requires
        n >= 0,
    ensures
        cut(s, n).len() <= n,
        s.len() <= n ==> cut(s, n) == s,
        s.len() > n ==> cut(s, n).len() == n,
        cut(s, n) == s.take(cut(s, n).len() as int),
{
    assert(s.take(s.len() as int) =~= s);
}

/// The number that digits write.
pub open spec fn written_number(s: Seq<char>) -> int
    decreases s.len(),
{
    if s.len() == 0 {
        0
    } else {
        10 * written_number(s.drop_last()) + (s.last() as int - '0' as int)
    }
}

/// A numeral writes its number, in digits alone and without a zero at its
/// beginning that it does not need.
pub proof fn law_a_numeral_writes_its_number(n: nat)
    ensures
        written_number(numeral(n)) == n,
        numeral(n).len() > 0,
        n > 0 ==> numeral(n)[0] != '0',
        forall|i: int| 0 <= i < numeral(n).len() ==> '0' <= #[trigger] numeral(n)[i] <= '9',
    decreases n,
{
    if n >= 10 {
        law_a_numeral_writes_its_number(n / 10);
        let less = numeral(n / 10);
        let s = numeral(n);
        assert(s.drop_last() =~= less);
        assert forall|i: int| 0 <= i < s.len() implies '0' <= #[trigger] s[i] <= '9' by {
            if i < less.len() {
                assert(s[i] == less[i]);
            }
        }
        assert(s[0] == less[0]);
    } else {
        let s = numeral(n);
        assert(s.drop_last() =~= Seq::empty());
        assert(written_number(Seq::empty()) == 0);
    }
}

proof fn lemma_ascii_bytes(s: Seq<char>)
    requires
        forall|i: int| 0 <= i < s.len() ==> is_ascii(#[trigger] s[i]),
    ensures
        text_bytes(s) == s.len(),
    decreases s.len(),
{
    if s.len() > 0 {
        let t = s.drop_last();
        assert forall|i: int| 0 <= i < t.len() implies is_ascii(#[trigger] t[i]) by {
            assert(t[i] == s[i]);
        }
        lemma_ascii_bytes(t);
        assert(is_ascii(s[s.len() - 1]));
    }
}

/// The character at a place counted from the end of a whole number that is
/// written with commas: every fourth is one, and between them stand the
/// digits in their order.
pub open spec fn grouped_char(digits: Seq<char>, k: int) -> char {
    if k % 4 == 3 {
        ','
    } else {
        digits[digits.len() - 1 - (k - k / 4)]
    }
}

proof fn lemma_grouped(digits: Seq<char>, m: int)
    requires
        0 <= m <= digits.len(),
    ensures
        ({
            let n = digits.len() as int;
            let out = grouped(digits.take(m), n);
            let all = n + (n - 1) / 3;
            &&& m > 0 ==> out.len() == all - ((n - m) + (n - m) / 3)
            &&& m == 0 ==> out.len() == 0
            &&& forall|j: int|
                0 <= j < out.len() ==> #[trigger] out[j] == grouped_char(digits, all - 1 - j)
        }),
    decreases m,
{
    let n = digits.len() as int;
    let all = n + (n - 1) / 3;
    let out = grouped(digits.take(m), n);
    if m > 0 {
        let i = m - 1;
        let part = digits.take(m);
        lemma_grouped(digits, i);
        let before = grouped(digits.take(i), n);
        assert(part.drop_last() =~= digits.take(i));
        assert(part.last() == digits[i]);
        let d = n - m;
        let k = d + d / 3;
        assert(k / 4 == d / 3 && k - k / 4 == d && k % 4 != 3) by {
            assert(d >= 0);
        }
        if i > 0 && (n - i) % 3 == 0 {
            assert(out == before.push(',').push(digits[i]));
            assert(before.len() == all - ((d + 1) + (d + 1) / 3));
            assert((d + 1) / 3 == d / 3 + 1);
            assert((k + 1) % 4 == 3);
        } else {
            assert(out == before.push(digits[i]));
            if i > 0 {
                assert((d + 1) / 3 == d / 3);
            } else {
                assert(d == n - 1);
            }
        }
        assert forall|j: int| 0 <= j < out.len() implies #[trigger] out[j] == grouped_char(
            digits,
            all - 1 - j,
        ) by {
            if j < before.len() {
                assert(out[j] == before[j]);
            } else if j == out.len() - 1 {
                assert(all - 1 - j == k);
            } else {
                assert(all - 1 - j == k + 1);
            }
        }
    } else {
        assert(digits.take(0) =~= Seq::empty());
    }
}

/// Money is written with a comma before every third digit of its whole part
/// from the end, but for the first digit; its sign and what follows the point
/// stay as they are.
pub proof fn law_commas_stand_before_every_third_digit(
    sign: Seq<char>,
    digits: Seq<char>,
    rest: Seq<char>,
)
    requires
        sign.len() == 0 || sign == seq!['-'] || sign == seq!['+'],
        forall|i: int| 0 <= i < digits.len() ==> '0' <= #[trigger] digits[i] <= '9',
        digits.len() > 0,
        rest.len() > 0 ==> rest[0] == '.',
    ensures
        ({
            let n = digits.len() as int;
            let out = with_commas(sign + digits + rest);
            let all = n + (n - 1) / 3;
            &&& out.len() == sign.len() + all + rest.len()
            &&& out.take(sign.len() as int) == sign
            &&& out.skip(sign.len() + all) == rest
            &&& forall|k: int|
                0 <= k < all ==> out[sign.len() + all - 1 - k] == #[trigger] grouped_char(digits, k)
        }),
{
    let n = digits.len() as int;
    let s = sign + digits + rest;
    let all = n + (n - 1) / 3;
    let whole = sign + digits;
    assert(point_at(s) == whole.len()) by {
        assert(s =~= whole + rest);
        assert forall|i: int| 0 <= i < whole.len() implies #[trigger] whole[i] != '.' by {
            if i >= sign.len() {
                assert(whole[i] == digits[i - sign.len()]);
            }
        }
        lemma_point_at(whole, rest);
    }
    assert(s.take(point_at(s)) =~= whole);
    assert(s.skip(point_at(s)) =~= rest);
    if sign.len() == 0 {
        assert(whole[0] == digits[0]);
    } else {
        assert(whole[0] == sign[0]);
    }
    assert(sign_len(whole) == sign.len());
    assert(whole.take(sign_len(whole)) =~= sign);
    assert(whole.skip(sign_len(whole)) =~= digits);
    assert forall|i: int| 0 <= i < digits.len() implies is_ascii(#[trigger] digits[i]) by {
        assert('0' <= digits[i] <= '9');
    }
    lemma_ascii_bytes(digits);
    lemma_grouped(digits, n);
    assert(digits.take(n) =~= digits);
    let g = grouped(digits, n);
    let out = with_commas(s);
    assert(out == sign + g + rest);
    assert(out.take(sign.len() as int) =~= sign);
    assert(out.skip(sign.len() + all) =~= rest);
    assert forall|k: int| 0 <= k < all implies out[sign.len() + all - 1 - k]
        == #[trigger] grouped_char(digits, k) by {
        assert(g[all - 1 - k] == grouped_char(digits, all - 1 - (all - 1 - k)));
    }
}

proof fn lemma_point_at(whole: Seq<char>, rest: Seq<char>)
    requires
        forall|i: int| 0 <= i < whole.len() ==> #[trigger] whole[i] != '.',
        rest.len() > 0 ==> rest[0] == '.',
    ensures
        point_at(whole + rest) == whole.len(),
    decreases whole.len(),
{
    if whole.len() > 0 {
        let t = whole.drop_first();
        assert forall|i: int| 0 <= i < t.len() implies #[trigger] t[i] != '.' by {
            assert(t[i] == whole[i + 1]);
        }
        lemma_point_at(t, rest);
        assert((whole + rest).drop_first() =~= t + rest);
        assert((whole + rest)[0] == whole[0]);
    } else {
        assert(whole + rest =~= rest);
    }
}

/// The code points of white space.
pub open spec fn space_codes() -> Seq<u32> {
    seq![
        9u32, 10, 11, 12, 13, 32, 133, 160, 5760, 8192, 8193, 8194, 8195, 8196, 8197, 8198, 8199,
        8200, 8201, 8202, 8232, 8233, 8239, 8287, 12288,
    ]
}

/// White space is the twenty-five characters that Unicode counts as such.
pub proof fn law_white_space_is_that_of_unicode(c: char)
    ensures
        is_space(c) <==> space_codes().contains(c as u32),
{
    let s = space_codes();
    let n = c as u32;
    assert(s.len() == 25);
    assert(s[0] == 9 && s[1] == 10 && s[2] == 11 && s[3] == 12 && s[4] == 13 && s[5] == 32 && s[6]
        == 133 && s[7] == 160 && s[8] == 5760 && s[9] == 8192 && s[10] == 8193 && s[11] == 8194
        && s[12] == 8195 && s[13] == 8196 && s[14] == 8197 && s[15] == 8198 && s[16] == 8199
        && s[17] == 8200 && s[18] == 8201 && s[19] == 8202 && s[20] == 8232 && s[21] == 8233
        && s[22] == 8239 && s[23] == 8287 && s[24] == 12288);
    if s.contains(n) {
        let i = s.index_of(n);
        assert(0 <= i < 25);
        assert(s[i] == n);
    }
}

/// Control characters are those below the space, and those from delete to
/// the end of the second block of them.
pub proof fn law_control_characters_are_two_blocks(c: char)
    ensures
        is_control(c) <==> c < ' ' || ('\u{7f}' <= c && c <= '\u{9f}'),
{
}

/// The bytes of two texts together are the bytes of both, and a character
/// takes one byte up to seven bits, two up to eleven, three up to sixteen,
/// and four beyond.
pub proof fn law_bytes_are_those_of_every_character(a: Seq<char>, b: Seq<char>, c: char)
    ensures
        text_bytes(a + b) == text_bytes(a) + text_bytes(b),
        text_bytes(seq![c]) == (if c <= '\u{7f}' {
            1nat
        } else if c <= '\u{7ff}' {
            2
        } else if c <= '\u{ffff}' {
            3
        } else {
            4
        }),
    decreases b.len(),
{
    if b.len() == 0 {
        assert(a + b =~= a);
    } else {
        law_bytes_are_those_of_every_character(a, b.drop_last(), c);
        assert((a + b).drop_last() =~= a + b.drop_last());
        assert((a + b).last() == b.last());
    }
    let one = seq![c];
    assert(one.drop_last() =~= Seq::empty());
    assert(text_bytes(one.drop_last()) == 0);
}

proof fn lemma_numeral_start(n: nat)
    ensures
        numeral(n).len() > 0,
        numeral(n)[0] != '-' && numeral(n)[0] != '+' && numeral(n)[0] != '.',
{
    law_a_numeral_writes_its_number(n);
    assert('0' <= numeral(n)[0] <= '9');
}

/// An amount with its sign is the amount without it behind a plus, and the
/// same where it is negative.
pub proof fn law_a_sign_is_a_plus_or_a_minus(d: Dec)
    ensures
        d.mantissa >= 0 ==> signed_money_text(d) == seq!['+'] + money_text(d),
        d.mantissa < 0 ==> signed_money_text(d) == money_text(d),
{
    if d.mantissa >= 0 {
        let t = d.text(2);
        let whole = magnitude(d.mantissa) / pow10(d.scale);
        lemma_numeral_start(whole);
        assert(t[0] == numeral(whole)[0]);
        let s = seq!['+'] + t;
        assert(s.drop_first() =~= t);
        assert(s[0] == '+');
        assert(point_at(s) == 1 + point_at(t));
        lemma_point_in(t);
        let p = point_at(t);
        assert(s.take(p + 1) =~= seq!['+'] + t.take(p));
        assert(s.skip(p + 1) =~= t.skip(p));
        lemma_point_in(t.drop_first());
        assert(p == 1 + point_at(t.drop_first()));
        assert(t.take(p)[0] == t[0]);
        assert(sign_len(t.take(p)) == 0);
        assert(sign_len(s.take(p + 1)) == 1);
        assert(s.take(p + 1).skip(1) =~= t.take(p));
        assert(t.take(p).skip(0) =~= t.take(p));
        assert(s.take(p + 1).take(1) =~= seq!['+']);
        assert(t.take(p).take(0) =~= Seq::<char>::empty());
        let g = grouped(t.take(p), text_bytes(t.take(p)) as int);
        assert(with_commas(s) == seq!['+'] + g + t.skip(p));
        assert(with_commas(t) == Seq::<char>::empty() + g + t.skip(p));
        assert(seq!['+'] + g + t.skip(p) =~= seq!['+'] + (Seq::<char>::empty() + g + t.skip(p)));
    }
}

proof fn lemma_point_in(s: Seq<char>)
    ensures
        0 <= point_at(s) <= s.len(),
    decreases s.len(),
{
    if s.len() > 0 && s[0] != '.' {
        lemma_point_in(s.drop_first());
    }
}

} // verus!
