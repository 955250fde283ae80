//! Transaction ids: 128 bits, written as 26 digits to the base of 32.

use ulid::Ulid;
use vstd::prelude::*;

verus! {

/// The number of ids.
pub open spec fn id_count() -> int {
    u128::MAX + 1
}

/// The characters of an id.
pub const ID_LEN: usize = 26;

/// The character of a digit: `0` to `9`, then the capital letters without
/// `I`, `L`, `O` and `U`.
pub open spec fn base32_char(d: int) -> char {
    if d < 10 {
        (48 + d) as char
    } else if d < 18 {
        (65 + d - 10) as char
    } else if d < 20 {
        (74 + d - 18) as char
    } else if d < 22 {
        (77 + d - 20) as char
    } else if d < 27 {
        (80 + d - 22) as char
    } else {
        (86 + d - 27) as char
    }
}

/// The value of a digit, in capital or small letters.
pub open spec fn base32_value(c: char) -> Option<int> {
    let n = c as int;
    let u = if 97 <= n <= 122 {
        n - 32
    } else {
        n
    };
    if 48 <= u <= 57 {
        Some(u - 48)
    } else if 65 <= u <= 72 {
        Some(u - 65 + 10)
    } else if 74 <= u <= 75 {
        Some(u - 74 + 18)
    } else if 77 <= u <= 78 {
        Some(u - 77 + 20)
    } else if 80 <= u <= 84 {
        Some(u - 80 + 22)
    } else if 86 <= u <= 90 {
        Some(u - 86 + 27)
    } else {
        None
    }
}

/// The last `n` digits of `v`.
pub open spec fn base32_text(v: int, n: nat) -> Seq<char>
    decreases n,
{
    if n == 0 {
        Seq::empty()
    } else {
        base32_text(v / 32, (n - 1) as nat).push(base32_char(v % 32))
    }
}

/// The number that the digits give, of which the lowest 128 bits count.
pub open spec fn base32_number(s: Seq<char>) -> Option<int>
    decreases s.len(),
{
    if s.len() == 0 {
        Some(0)
    } else {
        match (base32_number(s.drop_last()), base32_value(s.last())) {
            (Some(high), Some(low)) => Some((high * 32) % id_count() + low),
            _ => None,
        }
    }
}

/// An id as text.
pub open spec fn id_text(v: int) -> Seq<char> {
    base32_text(v, ID_LEN as nat)
}

/// The id that a text gives, if it gives one.
pub open spec fn id_number(s: Seq<char>) -> Option<int> {
    if s.len() == ID_LEN {
        base32_number(s)
    } else {
        None
    }
}

/// The number of an id that was read.
pub open spec fn number_of(read: Option<u128>) -> Option<int> {
    match read {
        Some(v) => Some(v as int),
        None => None,
    }
}

/// `Ulid::generate`: an id from the clock and from chance. Nothing is said of
/// it: every number can come.
#[verifier::external_body]
fn ulid_generate() -> (v: u128)
{
    Ulid::generate().0
}

/// `Ulid::to_string`: the 26 digits of the number to the base of 32.
#[verifier::external_body]
fn ulid_to_string(v: u128) -> (s: String)
    ensures
        s@ == id_text(v as int),
{
    Ulid(v).to_string()
}

/// `Ulid::from_string`: the number that 26 digits give, in capital or small
/// letters; nothing for another length or another character.
#[verifier::external_body]
fn ulid_from_string(s: &str) -> (read: Option<u128>)
    ensures
        number_of(read) == id_number(s@),
{
    Ulid::from_string(s).ok().map(|id| id.0)
}

/// The id of a transaction.
#[derive(Debug, Clone, Copy, PartialEq, Eq, Hash, Structural)]
pub struct TransactionId(pub u128);

impl TransactionId {
    /// A new id, from the clock and from chance.
    pub fn new() -> TransactionId {
        TransactionId(ulid_generate())
    }

    /// The id as text.
    pub fn to_text(&self) -> (s: String)
        ensures
            s@ == id_text(self.0 as int),
    {
        ulid_to_string(self.0)
    }

    /// Reads an id, if the text is one.
    pub fn parse(s: &str) -> (read: Option<TransactionId>)
        ensures
            match read {
                Some(id) => id_number(s@) == Some(id.0 as int),
                None => id_number(s@) is None,
            },
    {
        match ulid_from_string(s) {
            Some(v) => Some(TransactionId(v)),
            None => None,
        }
    }
}

impl Default for TransactionId {
    fn default() -> TransactionId {
        TransactionId::new()
    }
}

/// The powers of 32.
spec fn pow32(n: nat) -> int
    decreases n,
{
    if n == 0 {
        1
    } else {
        32 * pow32((n - 1) as nat)
    }
}

proof fn lemma_base32(v: int, n: nat)
    requires
        0 <= v < id_count(),
        v < pow32(n),
    ensures
        base32_text(v, n).len() == n,
        base32_number(base32_text(v, n)) == Some(v),
    decreases n,
{
    if n > 0 {
        lemma_base32(v / 32, (n - 1) as nat);
        assert(base32_text(v, n).drop_last() =~= base32_text(v / 32, (n - 1) as nat));
        assert(base32_value(base32_char(v % 32)) == Some(v % 32));
    }
}

/// An id is read back from its text.
pub proof fn law_ids_read_back(v: int)
    requires
        0 <= v < id_count(),
    ensures
        id_text(v).len() == ID_LEN,
        id_number(id_text(v)) == Some(v),
{
    assert(pow32(26) >= id_count()) by {
        reveal_with_fuel(pow32, 27);
    }
    lemma_base32(v, 26);
}

} // verus!
