//! Account ids: lower case, single spaces, no reserved characters.

use vstd::prelude::*;
use vstd::string::*;

use crate::chars::{
    bytes_of, char_bytes, control, is_ascii, is_control, is_space, lower, lowered, push_lower, space,
    text_bytes,
};
use crate::text::{
    chars_of, lemma_trimmed_part, numeral, numeral_of, same_text, string_of, trim, trimmed,
};

verus! {

/// The most bytes that an account id takes.
pub const MAX_ACCOUNT_ID_LEN: usize = 100;

/// Why a text is no account id.
#[derive(Debug, Clone, Copy, PartialEq, Eq)]
pub enum AccountIdError {
    Empty,
    TooLong { max: usize },
    InvalidChar(char),
}

/// A character as it is written in program text, in single quotes.
pub uninterp spec fn debug_char(c: char) -> Seq<char>;

/// `char`'s `Debug` formatting: the text depends on the character alone.
#[verifier::external_body]
fn std_debug_char(c: char) -> (s: String)
    ensures
        s@ == debug_char(c),
{
    format!("{:?}", c)
}

impl AccountIdError {
    /// The error in words.
    pub open spec fn words(self) -> Seq<char> {
        match self {
            AccountIdError::Empty => "account id is empty"@,
            AccountIdError::TooLong { max } => "account id exceeds "@ + numeral(max as nat)
                + " characters"@,
            AccountIdError::InvalidChar(c) => "account id contains invalid character: "@
                + debug_char(c),
        }
    }

    /// The error in words.
    pub fn message(&self) -> (s: String)
        ensures
            s@ == self.words(),
    {
        match self {
            AccountIdError::Empty => "account id is empty".to_owned(),
            AccountIdError::TooLong { max } => {
                let mut s = "account id exceeds ".to_owned();
                s.append(numeral_of(*max).as_str());
                s.append(" characters");
                s
            },
            AccountIdError::InvalidChar(c) => {
                let mut s = "account id contains invalid character: ".to_owned();
                s.append(std_debug_char(*c).as_str());
                s
            },
        }
    }
}

/// The characters that an account id cannot have: control characters and the
/// reserved separators.
pub open spec fn is_refused(c: char) -> bool {
    is_control(c) || c == '\\' || c == '.' || c == ':'
}

/// The first refused character.
pub open spec fn first_refused(s: Seq<char>) -> Option<char>
    decreases s.len(),
{
    if s.len() == 0 {
        None
    } else {
        match first_refused(s.drop_last()) {
            Some(c) => Some(c),
            None => if is_refused(s.last()) {
                Some(s.last())
            } else {
                None
            },
        }
    }
}

/// Whether `s` ends inside a word.
pub open spec fn ends_in_word(s: Seq<char>) -> bool {
    s.len() > 0 && !is_space(s.last())
}

/// The words of a text: what stands between white space.
pub open spec fn words_of(s: Seq<char>) -> Seq<Seq<char>>
    decreases s.len(),
{
    if s.len() == 0 {
        Seq::empty()
    } else {
        let before = words_of(s.drop_last());
        let c = s.last();
        if is_space(c) {
            before
        } else if ends_in_word(s.drop_last()) {
            before.drop_last().push(before.last().push(c))
        } else {
            before.push(seq![c])
        }
    }
}

/// The words in lower case with one space between them.
pub open spec fn joined(words: Seq<Seq<char>>) -> Seq<char>
    decreases words.len(),
{
    if words.len() == 0 {
        Seq::empty()
    } else if words.len() == 1 {
        lowered(words[0])
    } else {
        joined(words.drop_last()).push(' ') + lowered(words.last())
    }
}

/// The id that a text gives, or why it gives none: the first refused
/// character that is no white space around it, no words, or too many bytes.
pub open spec fn id_read(input: Seq<char>) -> Result<Seq<char>, AccountIdError> {
    let text = trimmed(input);
    let id = joined(words_of(text));
    match first_refused(text) {
        Some(c) => Err(AccountIdError::InvalidChar(c)),
        None => if words_of(text).len() == 0 {
            Err(AccountIdError::Empty)
        } else if text_bytes(id) > MAX_ACCOUNT_ID_LEN {
            Err(AccountIdError::TooLong { max: MAX_ACCOUNT_ID_LEN })
        } else {
            Ok(id)
        },
    }
}

/// A text that ends inside a word has words, and no word is empty.
pub proof fn lemma_words(s: Seq<char>)
    ensures
        ends_in_word(s) ==> words_of(s).len() > 0,
        forall|i: int| 0 <= i < words_of(s).len() ==> (#[trigger] words_of(s)[i]).len() > 0,
    decreases s.len(),
{
    if s.len() > 0 {
        lemma_words(s.drop_last());
    }
}

proof fn lemma_lowered_push(s: Seq<char>, c: char)
    ensures
        lowered(s.push(c)) == lowered(s) + lower(c),
{
    assert(s.push(c).drop_last() =~= s);
}

/// The id of a text with one character more.
pub proof fn lemma_joined_push(s: Seq<char>, c: char)
    requires
        !is_space(c),
    ensures
        joined(words_of(s.push(c))) == (if ends_in_word(s) || words_of(s).len() == 0 {
            joined(words_of(s)) + lower(c)
        } else {
            joined(words_of(s)).push(' ') + lower(c)
        }),
        words_of(s.push(c)).len() > 0,
{
    lemma_words(s);
    let w = words_of(s);
    let t = s.push(c);
    assert(t.drop_last() =~= s);
    let v = words_of(t);
    if ends_in_word(s) {
        assert(v == w.drop_last().push(w.last().push(c)));
        lemma_lowered_push(w.last(), c);
        assert(v.drop_last() =~= w.drop_last());
        if w.len() == 1 {
            assert(joined(v) =~= joined(w) + lower(c));
        } else {
            assert(joined(v) =~= joined(w) + lower(c));
        }
    } else {
        lemma_lowered_push(Seq::empty(), c);
        assert(Seq::<char>::empty().push(c) =~= seq![c]);
        assert(lowered(seq![c]) =~= lower(c));
        assert(v.drop_last() =~= w);
        assert(joined(Seq::<Seq<char>>::empty()) + lower(c) =~= lower(c));
        if w.len() == 0 {
            assert(w =~= Seq::empty());
        }
    }
}

proof fn lemma_first_refused_prefix(s: Seq<char>, n: int)
    requires
        0 <= n <= s.len(),
        first_refused(s.take(n)) is Some,
    ensures
        first_refused(s) == first_refused(s.take(n)),
    decreases s.len(),
{
    if n == s.len() {
        assert(s.take(n) =~= s);
    } else {
        assert(s.drop_last().take(n) =~= s.take(n));
        lemma_first_refused_prefix(s.drop_last(), n);
    }
}

/// Reads an account id: lower case, without white space around it, and with
/// every run of white space between its words made one space.
fn normalize_account_id(input: &str) -> (read: Result<String, AccountIdError>)
    ensures
        match read {
            Ok(id) => id_read(input@) == Ok::<Seq<char>, AccountIdError>(id@),
            Err(e) => id_read(input@) == Err::<Seq<char>, AccountIdError>(e),
        },
{
    let text: String = trim(input);
    let chars: Vec<char> = chars_of(text.as_str());
    let mut out: Vec<char> = Vec::new();
    let mut content_started = false;
    let mut in_word = false;
    for i in 0..chars.len()
        invariant
            chars@ == text@,
            text@ == trimmed(input@),
            first_refused(text@.take(i as int)) is None,
            out@ == joined(words_of(text@.take(i as int))),
            content_started == (words_of(text@.take(i as int)).len() > 0),
            in_word == ends_in_word(text@.take(i as int)),
    {
        let c: char = chars[i];
        let ghost before = text@.take(i as int);
        proof {
            assert(text@.take(i + 1) =~= before.push(c));
            assert(before.push(c).drop_last() =~= before);
        }
        if control(c) || c == '\\' || c == '.' || c == ':' {
            proof {
                lemma_first_refused_prefix(text@, i + 1);
            }
            return Err(AccountIdError::InvalidChar(c));
        } else if space(c) {
            in_word = false;
        } else {
            proof {
                lemma_joined_push(before, c);
            }
            if content_started && !in_word {
                out.push(' ');
            }
            push_lower(&mut out, c);
            content_started = true;
            in_word = true;
        }
    }
    assert(text@.take(text@.len() as int) =~= text@);
    if !content_started {
        return Err(AccountIdError::Empty);
    }
    if bytes_of(&out) > MAX_ACCOUNT_ID_LEN as u128 {
        return Err(AccountIdError::TooLong { max: MAX_ACCOUNT_ID_LEN });
    }
    Ok(string_of(&out))
}

/// Whether a text is an account id: some text gives it.
pub open spec fn is_id(id: Seq<char>) -> bool {
    exists|input: Seq<char>| #[trigger] id_read(input) == Ok::<Seq<char>, AccountIdError>(id)
}

/// The id of an account.
#[derive(Debug, PartialEq, Eq, Hash)]
pub struct AccountId {
    id: String,
}

impl View for AccountId {
    type V = Seq<char>;

    closed spec fn view(&self) -> Seq<char> {
        self.id@
    }
}

impl Clone for AccountId {
    fn clone(&self) -> (copy: AccountId)
        ensures
            copy@ == self@,
    {
        proof {
            use_type_invariant(self);
        }
        AccountId { id: self.id.clone() }
    }
}

impl AccountId {
    #[verifier::type_invariant]
    spec fn normalized(self) -> bool {
        is_id(self.id@)
    }

    /// Reads an account id from a text.
    pub fn parse(input: &str) -> (read: Result<AccountId, AccountIdError>)
        ensures
            match read {
                Ok(id) => id_read(input@) == Ok::<Seq<char>, AccountIdError>(id@),
                Err(e) => id_read(input@) == Err::<Seq<char>, AccountIdError>(e),
            },
    {
        match normalize_account_id(input) {
            Ok(id) => Ok(AccountId { id }),
            Err(e) => Err(e),
        }
    }

    /// The id as text.
    pub fn as_str(&self) -> (s: &str)
        ensures
            s@ == self@,
            is_id(self@),
    {
        proof {
            use_type_invariant(self);
        }
        self.id.as_str()
    }

    /// Whether two ids are the same.
    pub fn same(&self, other: &AccountId) -> (yes: bool)
        ensures
            yes == (self@ == other@),
    {
        same_text(self.id.as_str(), other.id.as_str())
    }
}

/// An account id takes no more bytes than it may, and so has no more
/// characters.
pub proof fn law_ids_are_bounded(id: Seq<char>)
    requires
        is_id(id),
    ensures
        text_bytes(id) <= MAX_ACCOUNT_ID_LEN,
        id.len() <= MAX_ACCOUNT_ID_LEN,
{
    lemma_bytes_bound_len(id);
}

proof fn lemma_bytes_bound_len(s: Seq<char>)
    ensures
        s.len() <= text_bytes(s),
    decreases s.len(),
{
    if s.len() > 0 {
        lemma_bytes_bound_len(s.drop_last());
        assert(char_bytes(s.last()) >= 1);
    }
}

/// Whether a text already has the form of an account id: every character
/// is its own lower case, none is refused, and white space is single spaces
/// between words.
#[verifier::opaque]
pub open spec fn is_plain_id(s: Seq<char>) -> bool {
    &&& s.len() > 0
    &&& text_bytes(s) <= MAX_ACCOUNT_ID_LEN
    &&& ends_in_word(s)
    &&& forall|i: int|
        0 <= i < s.len() ==> {
            &&& #[trigger] lower(s[i]) == seq![s[i]]
            &&& !is_refused(s[i])
        }
    &&& !is_space(s[0])
    &&& forall|i: int| 0 <= i < s.len() && is_space(#[trigger] s[i]) ==> s[i] == ' '
    &&& forall|i: int, j: int|
        #![trigger s[i], s[j]]
        0 <= i < j < s.len() && j == i + 1 && is_space(s[j]) ==> !is_space(s[i])
}

proof fn lemma_plain_reads(s: Seq<char>, n: int)
    requires
        is_plain_id(s),
        0 <= n <= s.len(),
    ensures
        first_refused(s.take(n)) is None,
        words_of(s.take(n)).len() == 0 ==> n == 0,
        n > 0 ==> words_of(s.take(n)).len() > 0,
        ends_in_word(s.take(n)) ==> joined(words_of(s.take(n))) == s.take(n),
        n > 0 && !ends_in_word(s.take(n)) ==> joined(words_of(s.take(n))).push(' ') == s.take(n),
    decreases n,
{
    reveal(is_plain_id);
    if n > 0 {
        let t = s.take(n - 1);
        let c = s[n - 1];
        lemma_plain_reads(s, n - 1);
        assert(s.take(n) =~= t.push(c));
        assert(t.push(c).drop_last() =~= t);
        assert(lower(s[n - 1]) == seq![s[n - 1]]);
        if is_space(c) {
            assert(n > 1);
            assert(t.last() == s[n - 2]);
        } else {
            lemma_joined_push(t, c);
            if n == 1 {
                assert(t =~= Seq::empty());
                assert(joined(words_of(t)) =~= Seq::empty());
            }
            assert(t + seq![c] =~= t.push(c));
        }
    } else {
        assert(s.take(0) =~= Seq::empty());
    }
}

/// What already has the form of an account id is read as itself.
pub proof fn law_plain_ids_read_back(s: Seq<char>)
    requires
        is_plain_id(s),
    ensures
        id_read(s) == Ok::<Seq<char>, AccountIdError>(s),
{
    reveal(is_plain_id);
    lemma_plain_reads(s, s.len() as int);
    assert(s.take(s.len() as int) =~= s);
    assert(trimmed(s) == s);
}

/// Whether all characters of a text have seven bits.
pub open spec fn all_ascii(s: Seq<char>) -> bool {
    forall|i: int| 0 <= i < s.len() ==> is_ascii(#[trigger] s[i])
}

/// A part of an account id: what `is_plain_id` asks of its characters.
spec fn plain_part(s: Seq<char>) -> bool {
    &&& forall|i: int|
        0 <= i < s.len() ==> {
            &&& #[trigger] lower(s[i]) == seq![s[i]]
            &&& !is_refused(s[i])
        }
    &&& s.len() > 0 ==> !is_space(s[0])
    &&& forall|i: int| 0 <= i < s.len() && is_space(#[trigger] s[i]) ==> s[i] == ' '
    &&& forall|i: int, j: int|
        #![trigger s[i], s[j]]
        0 <= i < j < s.len() && j == i + 1 && is_space(s[j]) ==> !is_space(s[i])
}

/// Whether lower case is for good: every character in the lower case of `c`
/// is its own lower case, no white space and not refused. White space and
/// refused characters do not come into an id.
pub open spec fn settles(c: char) -> bool {
    ||| is_space(c)
    ||| is_refused(c)
    ||| {
        &&& lower(c).len() > 0
        &&& forall|k: int|
            0 <= k < lower(c).len() ==> {
                &&& lower(#[trigger] lower(c)[k]) == seq![lower(c)[k]]
                &&& !is_space(lower(c)[k])
                &&& !is_refused(lower(c)[k])
            }
    }
}

/// Whether lower case is for good in all of a text.
pub open spec fn all_settle(s: Seq<char>) -> bool {
    forall|i: int| 0 <= i < s.len() ==> settles(#[trigger] s[i])
}

proof fn lemma_settled_plain(s: Seq<char>)
    requires
        all_settle(s),
        first_refused(s) is None,
    ensures
        plain_part(joined(words_of(s))),
        words_of(s).len() > 0 ==> ends_in_word(joined(words_of(s))),
    decreases s.len(),
{
    if s.len() > 0 {
        let t = s.drop_last();
        let c = s.last();
        assert forall|i: int| 0 <= i < t.len() implies settles(#[trigger] t[i]) by {
            assert(t[i] == s[i]);
        }
        lemma_settled_plain(t);
        assert(s =~= t.push(c));
        assert(settles(s[s.len() - 1]));
        if !is_space(c) {
            lemma_joined_push(t, c);
            lemma_words(t);
            let j = joined(words_of(t));
            let low = lower(c);
            let r = joined(words_of(s));
            let front = if ends_in_word(t) || words_of(t).len() == 0 {
                j
            } else {
                j.push(' ')
            };
            assert(r =~= front + low);
            if front.len() > j.len() {
                assert(!is_space(j.last()));
                assert(lower(' ') == seq![' ']);
            }
            assert forall|i: int| 0 <= i < r.len() implies {
                &&& #[trigger] lower(r[i]) == seq![r[i]]
                &&& !is_refused(r[i])
            } by {
                if i < j.len() {
                    assert(r[i] == j[i]);
                    assert(lower(j[i]) == seq![j[i]]);
                } else if i >= front.len() {
                    assert(r[i] == low[i - front.len()]);
                }
            }
            assert forall|i: int| 0 <= i < r.len() && is_space(#[trigger] r[i]) implies r[i] == ' ' by {
                if i < j.len() {
                    assert(r[i] == j[i]);
                } else if i >= front.len() {
                    assert(r[i] == low[i - front.len()]);
                }
            }
            assert forall|i: int, k: int|
                #![trigger r[i], r[k]]
                0 <= i < k < r.len() && k == i + 1 && is_space(r[k]) implies !is_space(r[i]) by {
                if k < j.len() {
                    assert(r[i] == j[i]);
                    assert(r[k] == j[k]);
                } else if k >= front.len() {
                    assert(r[k] == low[k - front.len()]);
                } else {
                    assert(r[i] == j[i]);
                }
            }
            if j.len() > 0 {
                assert(r[0] == j[0]);
            } else {
                assert(front.len() == 0);
                assert(r[0] == low[0]);
            }
            assert(r.last() == low[low.len() - 1]);
        }
    }
}

/// An id is read as itself from then on, where lower case is for good in the
/// text that it comes from.
pub proof fn law_ids_read_back(input: Seq<char>, id: Seq<char>)
    requires
        all_settle(input),
        id_read(input) == Ok::<Seq<char>, AccountIdError>(id),
    ensures
        is_plain_id(id),
        id_read(id) == Ok::<Seq<char>, AccountIdError>(id),
{
    lemma_trimmed_part(input);
    let text = trimmed(input);
    assert forall|i: int| 0 <= i < text.len() implies settles(#[trigger] text[i]) by {
        assert(input.contains(text[i]));
        let k = input.index_of(text[i]);
        assert(settles(input[k]));
    }
    lemma_settled_plain(text);
    reveal(is_plain_id);
    law_plain_ids_read_back(id);
}

/// An id that comes from a text of seven-bit characters is read as itself
/// from then on.
pub proof fn law_ascii_ids_read_back(input: Seq<char>, id: Seq<char>)
    requires
        all_ascii(input),
        id_read(input) == Ok::<Seq<char>, AccountIdError>(id),
    ensures
        is_plain_id(id),
        id_read(id) == Ok::<Seq<char>, AccountIdError>(id),
{
    assert forall|i: int| 0 <= i < input.len() implies settles(#[trigger] input[i]) by {
        assert(is_ascii(input[i]));
    }
    law_ids_read_back(input, id);
}

} // verus!
