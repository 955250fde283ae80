//! Quoting for a shell, and how a shell takes a quoted text apart again.

use vstd::prelude::*;
use vstd::string::*;

use crate::chars::{alphanumeric, is_alphanumeric};
use crate::text::{chars_of, string_of};

verus! {

/// The characters that need no quotes.
pub open spec fn is_safe(c: char) -> bool {
    is_alphanumeric(c) || c == '/' || c == '-' || c == '_' || c == '.'
}

/// Whether no character needs quotes.
pub open spec fn all_safe(s: Seq<char>) -> bool {
    forall|i: int| 0 <= i < s.len() ==> is_safe(#[trigger] s[i])
}

/// The text inside single quotes: every quote in it is taken out of them.
pub open spec fn escaped(s: Seq<char>) -> Seq<char>
    decreases s.len(),
{
    if s.len() == 0 {
        Seq::empty()
    } else if s.last() == '\'' {
        escaped(s.drop_last()) + seq!['\'', '\\', '\'', '\'']
    } else {
        escaped(s.drop_last()).push(s.last())
    }
}

/// The text as one word of a shell command.
pub open spec fn quoted(s: Seq<char>) -> Seq<char> {
    if s.len() == 0 {
        seq!['\'', '\'']
    } else if all_safe(s) {
        s
    } else {
        seq!['\''] + escaped(s) + seq!['\'']
    }
}

/// Writes a text as one word of a shell command.
pub fn shell_quote(s: &str) -> (out: String)
    ensures
        out@ == quoted(s@),
{
    let chars: Vec<char> = chars_of(s);
    let mut out: Vec<char> = Vec::new();
    if chars.len() == 0 {
        out.push('\'');
        out.push('\'');
        assert(out@ =~= quoted(s@));
        return string_of(&out);
    }
    let mut safe = true;
    for i in 0..chars.len()
        invariant
            safe == all_safe(chars@.take(i as int)),
    {
        let c: char = chars[i];
        let ghost before = chars@.take(i as int);
        let ok = alphanumeric(c) || c == '/' || c == '-' || c == '_' || c == '.';
        proof {
            assert(chars@.take(i + 1) =~= before.push(c));
            if safe && ok {
                assert forall|j: int| 0 <= j < before.push(c).len() implies is_safe(
                    #[trigger] before.push(c)[j],
                ) by {
                    if j < before.len() {
                        assert(is_safe(before[j]));
                    }
                }
            } else if !safe {
                let j = choose|j: int| 0 <= j < before.len() && !is_safe(before[j]);
                assert(before.push(c)[j] == before[j]);
            } else {
                assert(before.push(c)[i as int] == c);
            }
        }
        safe = safe && ok;
    }
    assert(chars@.take(chars@.len() as int) =~= chars@);
    if safe {
        return string_of(&chars);
    }
    out.push('\'');
    for i in 0..chars.len()
        invariant
            out@ == seq!['\''] + escaped(chars@.take(i as int)),
    {
        let c: char = chars[i];
        assert(chars@.take(i + 1).drop_last() =~= chars@.take(i as int));
        out.push(c);
        if c == '\'' {
            out.push('\\');
            out.push('\'');
            out.push('\'');
        }
        assert(out@ =~= seq!['\''] + escaped(chars@.take(i + 1)));
    }
    out.push('\'');
    assert(out@ =~= quoted(s@));
    string_of(&out)
}

/// How a shell takes the next character.
pub enum ShellMode {
    /// Outside quotes.
    Plain,
    /// Inside single quotes.
    Quoted,
    /// Behind a backslash outside quotes.
    Escaped,
    /// Behind a character that has a meaning of its own.
    Lost,
}

/// What a shell has read: whole commands, the words of the one that has
/// begun, and the word that has begun.
#[verifier::ext_equal]
pub struct ShellState {
    pub commands: Seq<Seq<Seq<char>>>,
    pub words: Seq<Seq<char>>,
    pub word: Option<Seq<char>>,
    pub mode: ShellMode,
}

/// The characters that stand for themselves outside quotes.
pub open spec fn is_literal(c: char) -> bool {
    is_safe(c) || c == ':'
}

/// Whether every character stands for itself outside quotes.
pub open spec fn all_literal(s: Seq<char>) -> bool {
    forall|i: int| 0 <= i < s.len() ==> is_literal(#[trigger] s[i])
}

impl ShellState {
    /// Before the first character.
    pub open spec fn start() -> ShellState {
        ShellState {
            commands: Seq::empty(),
            words: Seq::empty(),
            word: None,
            mode: ShellMode::Plain,
        }
    }

    /// What the word that has begun holds so far.
    pub open spec fn word_text(self) -> Seq<char> {
        match self.word {
            Some(w) => w,
            None => Seq::empty(),
        }
    }

    /// With `s` at the end of the word that has begun.
    pub open spec fn with(self, s: Seq<char>) -> ShellState {
        ShellState { word: Some(self.word_text() + s), ..self }
    }

    /// At the end of a word.
    pub open spec fn end_word(self) -> ShellState {
        match self.word {
            Some(w) => ShellState { words: self.words.push(w), word: None, ..self },
            None => self,
        }
    }

    /// At the end of a line.
    pub open spec fn end_line(self) -> ShellState {
        let ended = self.end_word();
        if ended.words.len() == 0 {
            ended
        } else {
            ShellState {
                commands: ended.commands.push(ended.words),
                words: Seq::empty(),
                ..ended
            }
        }
    }

    /// Behind one more character.
    pub open spec fn step(self, c: char) -> ShellState {
        match self.mode {
            ShellMode::Plain => if c == '\'' {
                ShellState { mode: ShellMode::Quoted, ..self.with(Seq::empty()) }
            } else if c == '\\' {
                ShellState { mode: ShellMode::Escaped, ..self }
            } else if c == ' ' {
                self.end_word()
            } else if c == '\n' {
                self.end_line()
            } else if is_literal(c) {
                self.with(seq![c])
            } else {
                ShellState { mode: ShellMode::Lost, ..self }
            },
            ShellMode::Quoted => if c == '\'' {
                ShellState { mode: ShellMode::Plain, ..self }
            } else {
                self.with(seq![c])
            },
            ShellMode::Escaped => if c == '\n' {
                ShellState { mode: ShellMode::Plain, ..self }
            } else {
                ShellState { mode: ShellMode::Plain, ..self.with(seq![c]) }
            },
            ShellMode::Lost => self,
        }
    }

    /// Behind a text.
    pub open spec fn read(self, text: Seq<char>) -> ShellState
        decreases text.len(),
    {
        if text.len() == 0 {
            self
        } else {
            self.read(text.drop_last()).step(text.last())
        }
    }
}

/// The commands of a script, each as its words, if the script is made of
/// whole lines in which no character but quote, backslash, space and line
/// end has a meaning of its own.
pub open spec fn shell_commands(text: Seq<char>) -> Option<Seq<Seq<Seq<char>>>> {
    let end = ShellState::start().read(text);
    if end.mode is Plain && end.word is None && end.words.len() == 0 {
        Some(end.commands)
    } else {
        None
    }
}

/// A shell that has read `a` goes on with `b`.
pub proof fn lemma_read_concat(st: ShellState, a: Seq<char>, b: Seq<char>)
    ensures
        st.read(a + b) == st.read(a).read(b),
    decreases b.len(),
{
    if b.len() == 0 {
        assert(a + b =~= a);
    } else {
        lemma_read_concat(st, a, b.drop_last());
        assert((a + b).drop_last() =~= a + b.drop_last());
    }
}

/// A shell that reads one character takes one step.
pub proof fn lemma_read_char(st: ShellState, c: char)
    ensures
        st.read(seq![c]) == st.step(c),
{
    assert(seq![c].drop_last() =~= Seq::empty());
    assert(st.read(Seq::empty()) == st);
}

/// Characters that stand for themselves go into the word.
pub proof fn lemma_read_literal(st: ShellState, s: Seq<char>)
    requires
        st.mode is Plain,
        all_literal(s),
        s.len() > 0,
    ensures
        st.read(s) == st.with(s),
    decreases s.len(),
{
    let t = s.drop_last();
    assert(is_literal(s[s.len() - 1]));
    if t.len() == 0 {
        assert(t =~= Seq::empty());
        assert(s =~= seq![s.last()]);
        lemma_read_char(st, s.last());
    } else {
        assert forall|i: int| 0 <= i < t.len() implies is_literal(#[trigger] t[i]) by {
            assert(t[i] == s[i]);
        }
        lemma_read_literal(st, t);
        assert(st.word_text() + t + seq![s.last()] =~= st.word_text() + s);
    }
}

proof fn lemma_read_escaped(st: ShellState, s: Seq<char>)
    requires
        st.mode is Quoted,
    ensures
        s.len() > 0 ==> st.read(escaped(s)) == st.with(s),
        s.len() == 0 ==> st.read(escaped(s)) == st,
    decreases s.len(),
{
    if s.len() > 0 {
        let t = s.drop_last();
        let c = s.last();
        lemma_read_escaped(st, t);
        let mid = st.read(escaped(t));
        assert(t =~= Seq::empty() || t.len() > 0);
        if c == '\'' {
            let four = seq!['\'', '\\', '\'', '\''];
            lemma_read_concat(st, escaped(t), four);
            let one = mid.step('\'');
            let two = one.step('\\');
            let three = two.step('\'');
            let end = three.step('\'');
            assert(four =~= seq!['\''] + seq!['\\'] + seq!['\''] + seq!['\'']);
            lemma_read_concat(mid, seq!['\''] + seq!['\\'] + seq!['\''], seq!['\'']);
            lemma_read_concat(mid, seq!['\''] + seq!['\\'], seq!['\'']);
            lemma_read_concat(mid, seq!['\''], seq!['\\']);
            lemma_read_char(mid, '\'');
            lemma_read_char(one, '\\');
            lemma_read_char(two, '\'');
            lemma_read_char(three, '\'');
            assert(mid.read(four) == end);
        } else {
            assert(escaped(s).drop_last() =~= escaped(t));
        }
        assert(st.read(escaped(s)).word_text() =~= st.word_text() + s);
        assert(st.read(escaped(s)) =~= st.with(s));
    }
}

/// A quoted text goes into the word as it was before it was quoted.
pub proof fn law_quoted_text_reads_back(st: ShellState, s: Seq<char>)
    requires
        st.mode is Plain,
    ensures
        st.read(quoted(s)) == st.with(s),
{
    let q = seq!['\''];
    if s.len() == 0 {
        assert(seq!['\'', '\''] =~= q + q);
        lemma_read_concat(st, q, q);
        lemma_read_char(st, '\'');
        lemma_read_char(st.step('\''), '\'');
        assert(st.word_text() + s =~= st.word_text());
        assert(st.word_text() + Seq::<char>::empty() =~= st.word_text());
    } else if all_safe(s) {
        assert forall|i: int| 0 <= i < s.len() implies is_literal(#[trigger] s[i]) by {
            assert(is_safe(s[i]));
        }
        lemma_read_literal(st, s);
    } else {
        lemma_read_concat(st, q + escaped(s), q);
        lemma_read_concat(st, q, escaped(s));
        lemma_read_char(st, '\'');
        let open = st.step('\'');
        lemma_read_escaped(open, s);
        lemma_read_char(open.with(s), '\'');
        assert(open.word_text() + s =~= st.word_text() + s);
    }
}

} // verus!
