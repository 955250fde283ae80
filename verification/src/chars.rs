//! Classes of characters, lower case and the length of text in bytes.

use vstd::prelude::*;

verus! {

/// The characters with the property `White_Space`.
pub open spec fn is_space(c: char) -> bool {
    let n = c as u32;
    ||| 0x9 <= n <= 0xd
    ||| n == 0x20
    ||| n == 0x85
    ||| n == 0xa0
    ||| n == 0x1680
    ||| 0x2000 <= n <= 0x200a
    ||| n == 0x2028
    ||| n == 0x2029
    ||| n == 0x202f
    ||| n == 0x205f
    ||| n == 0x3000
}

/// The control characters.
pub open spec fn is_control(c: char) -> bool {
    let n = c as u32;
    n <= 0x1f || 0x7f <= n <= 0x9f
}

/// The characters of seven bits.
pub open spec fn is_ascii(c: char) -> bool {
    (c as u32) < 0x80
}

/// Letters and digits of seven bits.
pub open spec fn is_alphanumeric(c: char) -> bool {
    '0' <= c <= '9' || 'A' <= c <= 'Z' || 'a' <= c <= 'z'
}

/// Whether `c` is white space.
pub fn space(c: char) -> (yes: bool)
    ensures
        yes == is_space(c),
{
    let n: u32 = c as u32;
    (0x9 <= n && n <= 0xd) || n == 0x20 || n == 0x85 || n == 0xa0 || n == 0x1680 || (0x2000 <= n
        && n <= 0x200a) || n == 0x2028 || n == 0x2029 || n == 0x202f || n == 0x205f || n == 0x3000
}

/// Whether `c` is a control character.
pub fn control(c: char) -> (yes: bool)
    ensures
        yes == is_control(c),
{
    let n: u32 = c as u32;
    n <= 0x1f || (0x7f <= n && n <= 0x9f)
}

/// Whether `c` is a letter or digit of seven bits.
pub fn alphanumeric(c: char) -> (yes: bool)
    ensures
        yes == is_alphanumeric(c),
{
    ('0' <= c && c <= '9') || ('A' <= c && c <= 'Z') || ('a' <= c && c <= 'z')
}

/// The lower case of a character of more than seven bits.
pub uninterp spec fn wide_lower(c: char) -> Seq<char>;

/// `char::to_lowercase`: the lower case of a character depends on it alone
/// and has one or more characters.
#[verifier::external_body]
fn std_to_lowercase(c: char) -> (lower: Vec<char>)
    ensures
        lower@ == wide_lower(c),
        lower@.len() > 0,
{
    c.to_lowercase().collect()
}

/// The lower case of a character.
pub open spec fn lower(c: char) -> Seq<char> {
    if !is_ascii(c) {
        wide_lower(c)
    } else if 'A' <= c <= 'Z' {
        seq![(c as u32 + 32) as char]
    } else {
        seq![c]
    }
}

/// The lower case of every character, one after the other.
pub open spec fn lowered(s: Seq<char>) -> Seq<char>
    decreases s.len(),
{
    if s.len() == 0 {
        Seq::empty()
    } else {
        lowered(s.drop_last()) + lower(s.last())
    }
}

/// Appends the lower case of `c`.
pub fn push_lower(out: &mut Vec<char>, c: char)
    ensures
        final(out)@ == old(out)@ + lower(c),
        lower(c).len() > 0,
{
    if (c as u32) < 0x80 {
        let low: char = if 'A' <= c && c <= 'Z' {
            (c as u8 + 32) as char
        } else {
            c
        };
        out.push(low);
        assert(out@ =~= old(out)@ + lower(c));
    } else {
        let mut low: Vec<char> = std_to_lowercase(c);
        out.append(&mut low);
    }
}

/// The bytes that a character takes in UTF-8.
pub open spec fn char_bytes(c: char) -> nat {
    let n = c as u32;
    if n < 0x80 {
        1
    } else if n < 0x800 {
        2
    } else if n < 0x10000 {
        3
    } else {
        4
    }
}

/// The bytes that a text takes in UTF-8.
pub open spec fn text_bytes(s: Seq<char>) -> nat
    decreases s.len(),
{
    if s.len() == 0 {
        0
    } else {
        text_bytes(s.drop_last()) + char_bytes(s.last())
    }
}

/// The bytes that a text takes in UTF-8.
pub fn bytes_of(chars: &Vec<char>) -> (n: u128)
    ensures
        n == text_bytes(chars@),
{
    let mut n: u128 = 0;
    for i in 0..chars.len()
        invariant
            n == text_bytes(chars@.take(i as int)),
            n <= 4 * i,
    {
        let code: u32 = chars[i] as u32;
        assert(chars@.take(i + 1).drop_last() =~= chars@.take(i as int));
        n = n + (if code < 0x80 {
            1
        } else if code < 0x800 {
            2
        } else if code < 0x10000 {
            3
        } else {
            4
        });
    }
    assert(chars@.take(chars@.len() as int) =~= chars@);
    n
}

} // verus!
