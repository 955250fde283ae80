//! Text as sequences of characters: numerals, padding, search and order.

use vstd::prelude::*;
use vstd::string::*;

use crate::chars::{is_space, space};

verus! {

/// `String::push` puts the character at the end and changes nothing else.
pub assume_specification[ String::push ](s: &mut String, c: char)
    ensures
        final(s)@ == old(s)@.push(c),
;

/// `String::pop` takes off the last character and hands it out, or does
/// nothing to an empty string.
pub assume_specification[ String::pop ](s: &mut String) -> (last: Option<char>)
    ensures
        old(s)@.len() == 0 ==> last is None && final(s)@ == old(s)@,
        old(s)@.len() > 0 ==> last == Some(old(s)@.last()) && final(s)@ == old(s)@.drop_last(),
;

/// The characters of `s`.
pub fn chars_of(s: &str) -> (chars: Vec<char>)
    ensures
        chars@ == s@,
{
    let mut chars: Vec<char> = Vec::new();
    for c in it: s.chars()
        invariant
            chars@ == it.seq().take(it.index()),
            it.seq() == s@,
    {
        chars.push(c);
        assert(it.seq().take(it.index() + 1) == it.seq().take(it.index()).push(c));
    }
    assert(s@.take(s@.len() as int) == s@);
    chars
}

/// The string made of `chars`.
pub fn string_of(chars: &Vec<char>) -> (s: String)
    ensures
        s@ == chars@,
{
    let mut s = String::new();
    for i in 0..chars.len()
        invariant
            s@ == chars@.take(i as int),
    {
        s.push(chars[i]);
        assert(chars@.take(i + 1) == chars@.take(i as int).push(chars[i as int]));
    }
    assert(chars@.take(chars@.len() as int) == chars@);
    s
}

/// One text behind the other.
pub fn glued(a: &str, b: &str) -> (s: String)
    ensures
        s@ == a@ + b@,
{
    let mut s = a.to_owned();
    s.append(b);
    s
}

/// Whether two strings hold the same characters.
pub fn same_text(a: &str, b: &str) -> (same: bool)
    ensures
        same == (a@ == b@),
{
    let x: Vec<char> = chars_of(a);
    let y: Vec<char> = chars_of(b);
    if x.len() != y.len() {
        return false;
    }
    for i in 0..x.len()
        invariant
            x@ == a@,
            y@ == b@,
            x.len() == y.len(),
            forall|j: int| 0 <= j < i ==> x@[j] == y@[j],
    {
        if x[i] != y[i] {
            return false;
        }
    }
    assert(a@ =~= b@);
    true
}

/// The character of a decimal digit.
pub open spec fn digit_char(d: int) -> char {
    (48 + d) as char
}

/// The decimal numeral of `n`, without leading zeros.
pub open spec fn numeral(n: nat) -> Seq<char>
    decreases n,
{
    if n < 10 {
        seq![digit_char(n as int)]
    } else {
        numeral(n / 10).push(digit_char((n % 10) as int))
    }
}

/// The last `width` decimal digits of `n`, with leading zeros.
pub open spec fn digits(n: nat, width: nat) -> Seq<char>
    decreases width,
{
    if width == 0 {
        Seq::empty()
    } else {
        digits(n / 10, (width - 1) as nat).push(digit_char((n % 10) as int))
    }
}

/// The decimal numeral of `n`.
pub fn numeral_of(n: usize) -> (s: String)
    ensures
        s@ == numeral(n as nat),
    decreases n,
{
    let d: char = ((n % 10) as u8 + 48) as char;
    let mut s = if n < 10 {
        String::new()
    } else {
        numeral_of(n / 10)
    };
    s.push(d);
    assert(s@ =~= numeral(n as nat));
    s
}

/// `n` times the same character.
pub open spec fn repeated(c: char, n: int) -> Seq<char> {
    Seq::new(if n > 0 { n as nat } else { 0 }, |i: int| c)
}

/// `n` times the same character.
pub fn repeat_char(c: char, n: usize) -> (s: String)
    ensures
        s@ == repeated(c, n as int),
{
    let mut s = String::new();
    for i in 0..n
        invariant
            s@ == repeated(c, i as int),
    {
        s.push(c);
        assert(repeated(c, i + 1) =~= repeated(c, i as int).push(c));
    }
    s
}

/// `s` followed by as many spaces as bring it to `width` characters.
pub open spec fn padded_right(s: Seq<char>, width: int) -> Seq<char> {
    s + repeated(' ', width - s.len())
}

/// `s` behind as many spaces as bring it to `width` characters.
pub open spec fn padded_left(s: Seq<char>, width: int) -> Seq<char> {
    repeated(' ', width - s.len()) + s
}

/// Left-aligns `s` in a column of `width` characters.
pub fn pad_right(s: &str, width: usize) -> (out: String)
    ensures
        out@ == padded_right(s@, width as int),
{
    let len: usize = s.unicode_len();
    let mut out: String = s.to_owned();
    if len < width {
        let pad: String = repeat_char(' ', width - len);
        out.append(pad.as_str());
    }
    assert(out@ =~= padded_right(s@, width as int));
    out
}

/// Right-aligns `s` in a column of `width` characters.
pub fn pad_left(s: &str, width: usize) -> (out: String)
    ensures
        out@ == padded_left(s@, width as int),
{
    let len: usize = s.unicode_len();
    let mut out: String = if len < width {
        repeat_char(' ', width - len)
    } else {
        String::new()
    };
    out.append(s);
    assert(out@ =~= padded_left(s@, width as int));
    out
}

/// Whether `needle` stands somewhere in `text`.
pub open spec fn occurs(needle: Seq<char>, text: Seq<char>) -> bool {
    exists|i: int| #[trigger] occurs_at(needle, text, i)
}

/// Whether `needle` stands in `text` from position `i` on.
pub open spec fn occurs_at(needle: Seq<char>, text: Seq<char>, i: int) -> bool {
    0 <= i <= text.len() - needle.len() && text.subrange(i, i + needle.len()) == needle
}

fn starts_at(needle: &Vec<char>, text: &Vec<char>, at: usize) -> (found: bool)
    requires
        at + needle.len() <= text.len(),
    ensures
        found == occurs_at(needle@, text@, at as int),
{
    for j in 0..needle.len()
        invariant
            at + needle.len() <= text.len(),
            forall|k: int| 0 <= k < j ==> text@[at + k] == needle@[k],
    {
        if text[at + j] != needle[j] {
            assert(text@.subrange(at as int, at + needle@.len())[j as int] != needle@[j as int]);
            return false;
        }
    }
    assert(text@.subrange(at as int, at + needle@.len()) =~= needle@);
    true
}

/// Whether `needle` stands somewhere in `text`.
pub fn contains_text(text: &str, needle: &str) -> (found: bool)
    ensures
        found == occurs(needle@, text@),
{
    let t: Vec<char> = chars_of(text);
    let n: Vec<char> = chars_of(needle);
    if n.len() > t.len() {
        return false;
    }
    let last: usize = t.len() - n.len();
    let mut i: usize = 0;
    while i <= last
        invariant
            t@ == text@,
            n@ == needle@,
            n.len() <= t.len(),
            last == t.len() - n.len(),
            i <= last + 1,
            forall|j: int| 0 <= j < i ==> !occurs_at(needle@, text@, j),
        decreases last + 1 - i,
    {
        if starts_at(&n, &t, i) {
            return true;
        }
        if i == last {
            return false;
        }
        i = i + 1;
    }
    false
}

/// The order of strings: character by character, a shorter one before those
/// that it begins.
pub open spec fn precedes(a: Seq<char>, b: Seq<char>) -> bool
    decreases a.len(),
{
    if b.len() == 0 {
        false
    } else if a.len() == 0 {
        true
    } else if a[0] != b[0] {
        a[0] < b[0]
    } else {
        precedes(a.drop_first(), b.drop_first())
    }
}

/// No string comes before itself.
pub proof fn lemma_precedes_irreflexive(a: Seq<char>)
    ensures
        !precedes(a, a),
    decreases a.len(),
{
    if a.len() > 0 {
        lemma_precedes_irreflexive(a.drop_first());
    }
}

/// The order of strings is transitive.
pub proof fn lemma_precedes_transitive(a: Seq<char>, b: Seq<char>, c: Seq<char>)
    requires
        precedes(a, b),
        precedes(b, c),
    ensures
        precedes(a, c),
    decreases a.len(),
{
    if a.len() > 0 && a[0] == b[0] && b[0] == c[0] {
        lemma_precedes_transitive(a.drop_first(), b.drop_first(), c.drop_first());
    }
}

/// Of two different strings one comes before the other.
pub proof fn lemma_precedes_total(a: Seq<char>, b: Seq<char>)
    ensures
        a == b || precedes(a, b) || precedes(b, a),
    decreases a.len(),
{
    if a.len() == 0 || b.len() == 0 {
        if a.len() == 0 && b.len() == 0 {
            assert(a =~= b);
        }
    } else if a[0] == b[0] {
        lemma_precedes_total(a.drop_first(), b.drop_first());
        if a.drop_first() == b.drop_first() {
            assert(a =~= seq![a[0]] + a.drop_first());
            assert(b =~= seq![b[0]] + b.drop_first());
        }
    }
}

/// Whether `a` comes before `b` in the order of strings.
pub fn text_precedes(a: &str, b: &str) -> (before: bool)
    ensures
        before == precedes(a@, b@),
{
    let x: Vec<char> = chars_of(a);
    let y: Vec<char> = chars_of(b);
    let mut i: usize = 0;
    assert(x@.skip(0) =~= x@);
    assert(y@.skip(0) =~= y@);
    while i < x.len() && i < y.len() && x[i] == y[i]
        invariant
            i <= x.len(),
            i <= y.len(),
            precedes(x@, y@) == precedes(x@.skip(i as int), y@.skip(i as int)),
        decreases x.len() - i,
    {
        assert(x@.skip(i as int).drop_first() =~= x@.skip(i + 1));
        assert(y@.skip(i as int).drop_first() =~= y@.skip(i + 1));
        i = i + 1;
    }
    if i >= y.len() {
        false
    } else if i >= x.len() {
        true
    } else {
        x[i] < y[i]
    }
}

/// The text without white space at its beginning.
pub open spec fn trimmed_left(s: Seq<char>) -> Seq<char>
    decreases s.len(),
{
    if s.len() > 0 && is_space(s[0]) {
        trimmed_left(s.drop_first())
    } else {
        s
    }
}

/// The text without white space at its end.
pub open spec fn trimmed_right(s: Seq<char>) -> Seq<char>
    decreases s.len(),
{
    if s.len() > 0 && is_space(s.last()) {
        trimmed_right(s.drop_last())
    } else {
        s
    }
}

/// The text without white space around it.
pub open spec fn trimmed(s: Seq<char>) -> Seq<char> {
    trimmed_right(trimmed_left(s))
}

/// Trimming adds no character.
pub proof fn lemma_trimmed_part(s: Seq<char>)
    ensures
        forall|i: int| 0 <= i < trimmed(s).len() ==> s.contains(#[trigger] trimmed(s)[i]),
{
    lemma_trimmed_left_part(s);
    lemma_trimmed_right_part(trimmed_left(s));
    let left = trimmed_left(s);
    assert forall|i: int| 0 <= i < trimmed(s).len() implies s.contains(#[trigger] trimmed(s)[i]) by {
        let k = left.index_of(trimmed(s)[i]);
        assert(left.contains(trimmed(s)[i]));
        assert(s.contains(left[k]));
    }
}

proof fn lemma_trimmed_left_part(s: Seq<char>)
    ensures
        forall|i: int| 0 <= i < trimmed_left(s).len() ==> s.contains(#[trigger] trimmed_left(s)[i]),
    decreases s.len(),
{
    if s.len() > 0 && is_space(s[0]) {
        let rest = s.drop_first();
        lemma_trimmed_left_part(rest);
        assert forall|i: int| 0 <= i < trimmed_left(s).len() implies s.contains(
            #[trigger] trimmed_left(s)[i],
        ) by {
            assert(rest.contains(trimmed_left(rest)[i]));
            let k = rest.index_of(trimmed_left(rest)[i]);
            assert(s[k + 1] == rest[k]);
        }
    }
}

proof fn lemma_trimmed_right_part(s: Seq<char>)
    ensures
        forall|i: int| 0 <= i < trimmed_right(s).len() ==> s.contains(#[trigger] trimmed_right(s)[i]),
    decreases s.len(),
{
    if s.len() > 0 && is_space(s.last()) {
        let rest = s.drop_last();
        lemma_trimmed_right_part(rest);
        assert forall|i: int| 0 <= i < trimmed_right(s).len() implies s.contains(
            #[trigger] trimmed_right(s)[i],
        ) by {
            assert(rest.contains(trimmed_right(rest)[i]));
            let k = rest.index_of(trimmed_right(rest)[i]);
            assert(s[k] == rest[k]);
        }
    }
}

/// The text without white space around it.
pub fn trim(s: &str) -> (out: String)
    ensures
        out@ == trimmed(s@),
{
    let chars: Vec<char> = chars_of(s);
    let mut start: usize = 0;
    assert(chars@.skip(0) =~= chars@);
    while start < chars.len() && space(chars[start])
        invariant
            start <= chars.len(),
            trimmed_left(chars@) == trimmed_left(chars@.skip(start as int)),
        decreases chars.len() - start,
    {
        assert(chars@.skip(start as int).drop_first() =~= chars@.skip(start + 1));
        start = start + 1;
    }
    let ghost left = chars@.skip(start as int);
    let mut out = String::new();
    for i in start..chars.len()
        invariant
            start <= chars.len(),
            left == chars@.skip(start as int),
            out@ == left.take(i - start),
    {
        out.push(chars[i]);
        assert(left.take(i + 1 - start) =~= left.take(i - start).push(chars@[i as int]));
    }
    assert(left.take(left.len() as int) =~= left);
    let mut end: usize = chars.len();
    while end > start && space(chars[end - 1])
        invariant
            start <= end <= chars.len(),
            left == chars@.skip(start as int),
            out@ == left.take(end - start),
            trimmed_right(left) == trimmed_right(out@),
        decreases end,
    {
        let ghost before = out@;
        assert(before.last() == chars@[end - 1]);
        let dropped = out.pop();
        assert(before.drop_last() =~= left.take(end - 1 - start));
        end = end - 1;
    }
    assert(out@.len() > 0 ==> out@.last() == chars@[end - 1]);
    out
}

/// The text without line ends at its end.
pub open spec fn without_line_ends(s: Seq<char>) -> Seq<char>
    decreases s.len(),
{
    if s.len() > 0 && s.last() == '\n' {
        without_line_ends(s.drop_last())
    } else {
        s
    }
}

/// The text without line ends at its end.
pub fn trim_line_ends(s: &str) -> (out: String)
    ensures
        out@ == without_line_ends(s@),
{
    let chars: Vec<char> = chars_of(s);
    let mut out: String = s.to_owned();
    let mut end: usize = chars.len();
    assert(chars@.take(end as int) =~= chars@);
    while end > 0 && chars[end - 1] == '\n'
        invariant
            end <= chars.len(),
            out@ == chars@.take(end as int),
            without_line_ends(chars@) == without_line_ends(out@),
        decreases end,
    {
        let ghost before = out@;
        let dropped = out.pop();
        assert(before.drop_last() =~= chars@.take(end - 1));
        end = end - 1;
    }
    out
}

/// A line without the carriage return that belongs to its end.
pub open spec fn without_return(s: Seq<char>) -> Seq<char> {
    if s.len() > 0 && s.last() == '\r' {
        s.drop_last()
    } else {
        s
    }
}

/// The lines that end in a text, and what stands behind the last line end.
pub open spec fn ended_lines(s: Seq<char>) -> (Seq<Seq<char>>, Seq<char>)
    decreases s.len(),
{
    if s.len() == 0 {
        (Seq::empty(), Seq::empty())
    } else {
        let (lines, rest) = ended_lines(s.drop_last());
        if s.last() == '\n' {
            (lines.push(without_return(rest)), Seq::empty())
        } else {
            (lines, rest.push(s.last()))
        }
    }
}

/// The lines of a text.
pub open spec fn lines_of(s: Seq<char>) -> Seq<Seq<char>> {
    let (lines, rest) = ended_lines(s);
    if rest.len() == 0 {
        lines
    } else {
        lines.push(rest)
    }
}

/// Strings, as text.
pub open spec fn string_views(strings: Seq<String>) -> Seq<Seq<char>> {
    Seq::new(strings.len(), |i: int| strings[i]@)
}

/// The lines of a text.
pub fn split_lines(s: &str) -> (lines: Vec<String>)
    ensures
        string_views(lines@) == lines_of(s@),
{
    let chars: Vec<char> = chars_of(s);
    let mut lines: Vec<String> = Vec::new();
    let mut rest = String::new();
    assert(string_views(lines@) =~= Seq::empty());
    for i in 0..chars.len()
        invariant
            (string_views(lines@), rest@) == ended_lines(chars@.take(i as int)),
    {
        let c: char = chars[i];
        assert(chars@.take(i + 1).drop_last() =~= chars@.take(i as int));
        if c == '\n' {
            let ghost was = string_views(lines@);
            let n: usize = rest.as_str().unicode_len();
            if n > 0 && rest.as_str().get_char(n - 1) == '\r' {
                let dropped = rest.pop();
            }
            lines.push(rest);
            assert(string_views(lines@) =~= was.push(rest@));
            rest = String::new();
            assert(rest@ =~= Seq::empty());
        } else {
            rest.push(c);
        }
    }
    assert(chars@.take(chars@.len() as int) =~= chars@);
    if rest.as_str().unicode_len() > 0 {
        let ghost was = string_views(lines@);
        lines.push(rest);
        assert(string_views(lines@) =~= was.push(rest@));
    }
    lines
}

/// A text in lower case.
pub uninterp spec fn lowercase_text(s: Seq<char>) -> Seq<char>;

/// `str::to_lowercase`: the text depends on the string alone.
#[verifier::external_body]
pub(crate) fn std_lowercase_text(s: &str) -> (out: String)
    ensures
        out@ == lowercase_text(s@),
{
    s.to_lowercase()
}

/// The first `n` characters of a text, or all of a shorter one.
pub open spec fn cut(s: Seq<char>, n: int) -> Seq<char> {
    if s.len() <= n {
        s
    } else {
        s.take(n)
    }
}

/// The first `n` characters of a text, or all of a shorter one.
pub fn cut_text(s: &str, n: usize) -> (out: String)
    ensures
        out@ == cut(s@, n as int),
{
    let chars: Vec<char> = chars_of(s);
    let end: usize = if chars.len() <= n {
        chars.len()
    } else {
        n
    };
    let mut out = String::new();
    for i in 0..end
        invariant
            end <= chars.len(),
            out@ == chars@.take(i as int),
    {
        out.push(chars[i]);
        assert(chars@.take(i + 1) =~= chars@.take(i as int).push(chars@[i as int]));
    }
    assert(end == chars.len() ==> chars@.take(end as int) =~= chars@);
    out
}

} // verus!
