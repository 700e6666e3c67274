//! The character stream under the lexer: a cursor over the source text that
//! keeps track of line and column.

use vstd::prelude::*;
use vstd::string::*;
use crate::error::{Error, ErrorView, Exception, ExceptionView};
use crate::position::{lemma_advance_from_origin, lemma_advance_push, Position};
use crate::text::{
    alphanumeric, chars_of, is_alphanumeric, is_digit, is_digit_char, push_char, text_contains,
    text_ends_with,
};

verus! {

/// Where a run that starts with the first `n` characters of `s` ends: the
/// run goes on while `p` admits the next character after those before it.
pub open spec fn run_end(p: spec_fn(char, Seq<char>) -> bool, s: Seq<char>, n: nat) -> nat
    decreases s.len() - n,
{
    if n < s.len() && p(s[n as int], s.take(n as int)) {
        run_end(p, s, n + 1)
    } else {
        n
    }
}

/// The longest prefix of `s` in which `p` admits every character after
/// those before it.
pub open spec fn run(p: spec_fn(char, Seq<char>) -> bool, s: Seq<char>) -> Seq<char> {
    s.take(run_end(p, s, 0) as int)
}

/// Whether `c` may stand in an identifier, given whether it is
/// alphanumeric: an alphanumeric character, a hyphen or an underscore.
pub open spec fn continues_word(c: char, alnum: bool) -> bool {
    alnum || c == '-' || c == '_'
}

/// A character of an identifier.
pub open spec fn word_char(c: char) -> bool {
    continues_word(c, alphanumeric(c))
}

/// Decides `continues_word`.
pub fn is_word_char(c: char, alnum: bool) -> (r: bool)
    ensures
        r == continues_word(c, alnum),
{
    alnum || c == '-' || c == '_'
}

/// The rule for identifiers.
pub open spec fn word_rule() -> spec_fn(char, Seq<char>) -> bool {
    |c: char, acc: Seq<char>| word_char(c)
}

/// Whether `c` may follow `acc` in a number: digits always; a point once;
/// an `e` once; a sign at the very start or directly after an `e`.
pub open spec fn number_admits(c: char, acc: Seq<char>) -> bool {
    if c == '.' {
        !acc.contains('.')
    } else if c == 'e' {
        !acc.contains('e')
    } else if c == '+' || c == '-' {
        acc.len() == 0 || acc.last() == 'e'
    } else {
        is_digit_char(c)
    }
}

/// The rule for numbers.
pub open spec fn number_rule() -> spec_fn(char, Seq<char>) -> bool {
    |c: char, acc: Seq<char>| number_admits(c, acc)
}

/// Whether `acc` ends with a backslash that escapes what comes next: a
/// backslash that is not itself escaped.
pub open spec fn pending_escape(acc: Seq<char>) -> bool
    decreases acc.len(),
{
    acc.len() > 0 && acc.last() == '\\' && !pending_escape(acc.drop_last())
}

/// The rule `p` with escapes: a backslash is admitted and admits the
/// character after it, whatever `p` says of the two.
pub open spec fn escaped_rule(p: spec_fn(char, Seq<char>) -> bool) -> spec_fn(
    char,
    Seq<char>,
) -> bool {
    |c: char, acc: Seq<char>| pending_escape(acc) || c == '\\' || p(c, acc)
}

/// `f` may answer `b` when asked whether `c` may follow the text `acc`.
pub open spec fn answers<F: Fn(char, &str) -> bool>(f: F, c: char, acc: Seq<char>, b: bool) -> bool {
    exists|s: &str| s@ == acc && call_ensures(f, (c, s), b)
}

proof fn lemma_run_end(p: spec_fn(char, Seq<char>) -> bool, s: Seq<char>, k: nat, n: nat)
    requires
        k <= n <= s.len(),
        forall|i: int| k <= i < n ==> p(#[trigger] s[i], s.take(i)),
        n < s.len() ==> !p(s[n as int], s.take(n as int)),
    ensures
        run_end(p, s, k) == n,
    decreases n - k,
{
    if k < n {
        assert(p(s[k as int], s.take(k as int)));
        lemma_run_end(p, s, k + 1, n);
    }
}

/// A prefix is the run of `p` where `p` admits each of its characters and
/// not the one after it.
pub proof fn lemma_run_unique(p: spec_fn(char, Seq<char>) -> bool, s: Seq<char>, n: nat)
    requires
        n <= s.len(),
        forall|i: int| 0 <= i < n ==> p(#[trigger] s[i], s.take(i)),
        n < s.len() ==> !p(s[n as int], s.take(n as int)),
    ensures
        run_end(p, s, 0) == n,
        run(p, s) == s.take(n as int),
{
    lemma_run_end(p, s, 0, n);
}

/// A run ends inside the text, and not before a character that `p` admits.
pub proof fn lemma_run_bounds(p: spec_fn(char, Seq<char>) -> bool, s: Seq<char>, n: nat)
    requires
        n <= s.len(),
    ensures
        n <= run_end(p, s, n) <= s.len(),
        n < s.len() && p(s[n as int], s.take(n as int)) ==> n < run_end(p, s, n),
    decreases s.len() - n,
{
    if n < s.len() && p(s[n as int], s.take(n as int)) {
        lemma_run_bounds(p, s, n + 1);
    }
}

/// A cursor over the characters of a text. It knows the line and column
/// that it has reached.
#[derive(Debug)]
pub struct InputStream {
    buffer: Vec<char>,
    position: Position,
}

/// A stream at the start of `buffer`.
impl From<String> for InputStream {
    fn from(buffer: String) -> (s: Self)
        ensures
            s.text() == buffer@,
            s.pos() == Position::origin(),
            s.wf(),
    {
        let chars = chars_of(buffer.as_str());
        let position = Position::start();
        proof {
            assert(chars@.take(0) =~= Seq::<char>::empty());
            assert(Position::origin().advance(chars@.take(0)) == Position::origin());
            assert(chars@.len() == chars.len());
        }
        InputStream { buffer: chars, position }
    }
}

impl vstd::std_specs::convert::FromSpecImpl<String> for InputStream {
    open spec fn obeys_from_spec() -> bool {
        false
    }

    open spec fn from_spec(buffer: String) -> Self {
        arbitrary()
    }
}

impl InputStream {
    /// The text that the stream reads.
    pub closed spec fn text(&self) -> Seq<char> {
        self.buffer@
    }

    /// The position that the stream has reached.
    pub closed spec fn pos(&self) -> Position {
        self.position
    }

    /// The cursor stands inside the text or at its end, and the position is
    /// the one that the characters before the cursor lead to.
    pub open spec fn wf(&self) -> bool {
        &&& self.pos().cursor <= self.text().len() <= usize::MAX
        &&& self.pos() == Position::origin().advance(self.text().take(self.pos().cursor as int))
    }

    #[verifier::type_invariant]
    spec fn inv(self) -> bool {
        self.wf()
    }

    /// The characters from the cursor on.
    pub open spec fn rest(&self) -> Seq<char> {
        self.text().skip(self.pos().cursor as int)
    }

    /// The character at `idx` places from the cursor, where there is one.
    pub open spec fn char_at(&self, idx: int) -> Option<char> {
        let i = self.pos().cursor + idx;
        if 0 <= i < self.text().len() {
            Some(self.text()[i])
        } else {
            None
        }
    }

    /// The position that the stream has reached.
    pub fn position(&self) -> (p: Position)
        ensures
            p == self.pos(),
            self.wf(),
    {
        proof {
            use_type_invariant(self);
        }
        self.position
    }

    /// Whether no character stands at `idx` places from the cursor.
    pub fn eof(&self, idx: isize) -> (r: bool)
        ensures
            r == self.char_at(idx as int) is None,
            self.wf(),
    {
        self.peek(idx).is_none()
    }

    /// The character at `idx` places from the cursor, before it where `idx`
    /// is negative; `None` outside the text.
    pub fn peek(&self, idx: isize) -> (r: Option<char>)
        ensures
            r == self.char_at(idx as int),
            self.wf(),
    {
        proof {
            use_type_invariant(self);
        }
        let cursor = self.position.cursor;
        if idx >= 0 {
            let ahead: usize = idx as usize;
            if ahead < self.buffer.len() - cursor {
                Some(self.buffer[cursor + ahead])
            } else {
                None
            }
        } else {
            let back: usize = (-(idx + 1)) as usize;
            if back < cursor {
                Some(self.buffer[cursor - back - 1])
            } else {
                None
            }
        }
    }

    /// Consumes one character and moves the position past it. At the end of
    /// the text nothing moves and the call fails.
    pub fn next(&mut self) -> (r: Result<char, Exception>)
        ensures
            final(self).text() == old(self).text(),
            final(self).wf(),
            match r {
                Ok(c) => {
                    &&& old(self).char_at(0) == Some(c)
                    &&& final(self).pos() == old(self).pos().step(c)
                    &&& final(self).pos().cursor == old(self).pos().cursor + 1
                },
                Err(e) => {
                    &&& old(self).char_at(0) is None
                    &&& final(self).pos() == old(self).pos()
                    &&& e@ == ExceptionView::create(
                        ErrorView::UnexpectedEOF(old(self).pos()),
                        "InputStream::next"@,
                    )
                },
            },
    {
        proof {
            use_type_invariant(&*self);
        }
        match self.peek(0) {
            None => Err(Exception::create(Error::UnexpectedEOF(self.position), "InputStream::next")),
            Some(c) => {
                proof {
                    let before = self.buffer@.take(self.position.cursor as int);
                    lemma_advance_from_origin(before);
                    lemma_advance_push(Position::origin(), before, c);
                    assert(self.buffer@.take(self.position.cursor + 1) =~= before.push(c));
                }
                self.position = self.position.next(c);
                Ok(c)
            },
        }
    }

    /// Consumes the longest run of characters that `predicate` admits, each
    /// asked about together with the characters consumed before it, and
    /// returns the run. An empty run is no failure.
    pub fn read_while<F>(&mut self, predicate: F) -> (r: Result<String, Exception>) where
        F: Fn(char, &str) -> bool,

        requires
            forall|c: char, s: &str| call_requires(predicate, (c, s)),
        ensures
            final(self).text() == old(self).text(),
            final(self).wf(),
            r matches Ok(out) && {
                &&& out@.len() <= old(self).rest().len()
                &&& out@ == old(self).rest().take(out@.len() as int)
                &&& final(self).pos() == old(self).pos().advance(out@)
                &&& final(self).pos().cursor == old(self).pos().cursor + out@.len()
                &&& forall|i: int|
                    0 <= i < out@.len() ==> answers(predicate, #[trigger] out@[i], out@.take(i), true)
                &&& out@.len() < old(self).rest().len() ==> answers(
                    predicate,
                    old(self).rest()[out@.len() as int],
                    out@,
                    false,
                )
            },
    {
        proof {
            use_type_invariant(&*self);
        }
        let ghost start = self.pos();
        let ghost text = self.text();
        let ghost rest = self.rest();
        let mut acc = String::new();
        let mut open = true;
        assert(rest.take(0) =~= acc@);
        while open && !self.eof(0)
            invariant
                forall|c: char, s: &str| call_requires(predicate, (c, s)),
                self.text() == text,
                self.wf(),
                start.cursor <= text.len(),
                rest == text.skip(start.cursor as int),
                acc@.len() <= rest.len(),
                acc@ == rest.take(acc@.len() as int),
                self.pos() == start.advance(acc@),
                self.pos().cursor == start.cursor + acc@.len(),
                forall|i: int|
                    0 <= i < acc@.len() ==> answers(predicate, #[trigger] acc@[i], acc@.take(i), true),
                !open ==> acc@.len() < rest.len() && answers(
                    predicate,
                    rest[acc@.len() as int],
                    acc@,
                    false,
                ),
            decreases text.len() - self.pos().cursor + (if open { 1nat } else { 0nat }),
        {
            let c = self.peek(0).unwrap();
            assert(c == rest[acc@.len() as int]);
            let so_far = acc.as_str();
            if predicate(c, so_far) {
                assert(answers(predicate, c, acc@, true));
                match self.next() {
                    Err(error) => {
                        return Err(Exception::relay(error, "InputStream::read_while"));
                    },
                    Ok(taken) => {
                        let ghost before = acc@;
                        push_char(&mut acc, taken);
                        proof {
                            lemma_advance_push(start, before, taken);
                            assert(acc@ =~= rest.take(acc@.len() as int));
                            assert forall|i: int| 0 <= i < acc@.len() implies answers(
                                predicate,
                                #[trigger] acc@[i],
                                acc@.take(i),
                                true,
                            ) by {
                                if i < before.len() {
                                    assert(acc@.take(i) =~= before.take(i));
                                    assert(acc@[i] == before[i]);
                                } else {
                                    assert(acc@.take(i) =~= before);
                                }
                            }
                        }
                    },
                }
            } else {
                assert(answers(predicate, c, acc@, false));
                open = false;
            }
        }
        Ok(acc)
    }

    /// As `read_while`, with escapes: a backslash is consumed whatever
    /// `predicate` would say of it, and so is the character after it.
    pub fn read_escaped<F>(&mut self, predicate: F) -> (r: Result<String, Exception>) where
        F: Fn(char, &str) -> bool,

        requires
            forall|c: char, s: &str| call_requires(predicate, (c, s)),
        ensures
            final(self).text() == old(self).text(),
            final(self).wf(),
            r matches Ok(out) && {
                &&& out@.len() <= old(self).rest().len()
                &&& out@ == old(self).rest().take(out@.len() as int)
                &&& final(self).pos() == old(self).pos().advance(out@)
                &&& final(self).pos().cursor == old(self).pos().cursor + out@.len()
                &&& forall|i: int|
                    0 <= i < out@.len() ==> pending_escape(out@.take(i)) || #[trigger] out@[i]
                        == '\\' || answers(predicate, out@[i], out@.take(i), true)
                &&& out@.len() < old(self).rest().len() ==> {
                    &&& !pending_escape(out@)
                    &&& old(self).rest()[out@.len() as int] != '\\'
                    &&& answers(predicate, old(self).rest()[out@.len() as int], out@, false)
                }
            },
    {
        proof {
            use_type_invariant(&*self);
        }
        let ghost start = self.pos();
        let ghost text = self.text();
        let ghost rest = self.rest();
        let mut acc = String::new();
        let mut escaped = false;
        let mut open = true;
        assert(rest.take(0) =~= acc@);
        while open && !self.eof(0)
            invariant
                forall|c: char, s: &str| call_requires(predicate, (c, s)),
                self.text() == text,
                self.wf(),
                start.cursor <= text.len(),
                rest == text.skip(start.cursor as int),
                acc@.len() <= rest.len(),
                acc@ == rest.take(acc@.len() as int),
                self.pos() == start.advance(acc@),
                self.pos().cursor == start.cursor + acc@.len(),
                escaped == pending_escape(acc@),
                forall|i: int|
                    0 <= i < acc@.len() ==> pending_escape(acc@.take(i)) || #[trigger] acc@[i]
                        == '\\' || answers(predicate, acc@[i], acc@.take(i), true),
                !open ==> {
                    &&& acc@.len() < rest.len()
                    &&& !pending_escape(acc@)
                    &&& rest[acc@.len() as int] != '\\'
                    &&& answers(predicate, rest[acc@.len() as int], acc@, false)
                },
            decreases text.len() - self.pos().cursor + (if open { 1nat } else { 0nat }),
        {
            let c = self.peek(0).unwrap();
            assert(c == rest[acc@.len() as int]);
            let admitted = if escaped || c == '\\' {
                true
            } else {
                let so_far = acc.as_str();
                let answer = predicate(c, so_far);
                assert(answers(predicate, c, acc@, answer));
                answer
            };
            if admitted {
                match self.next() {
                    Err(error) => {
                        return Err(Exception::relay(error, "InputStream::read_escaped"));
                    },
                    Ok(taken) => {
                        let ghost before = acc@;
                        push_char(&mut acc, taken);
                        proof {
                            lemma_advance_push(start, before, taken);
                            assert(acc@ =~= rest.take(acc@.len() as int));
                            assert(acc@.drop_last() =~= before);
                            assert forall|i: int| 0 <= i < acc@.len() implies pending_escape(
                                acc@.take(i),
                            ) || #[trigger] acc@[i] == '\\' || answers(
                                predicate,
                                acc@[i],
                                acc@.take(i),
                                true,
                            ) by {
                                if i < before.len() {
                                    assert(acc@.take(i) =~= before.take(i));
                                    assert(acc@[i] == before[i]);
                                } else {
                                    assert(acc@.take(i) =~= before);
                                }
                            }
                        }
                        escaped = !escaped && taken == '\\';
                    },
                }
            } else {
                open = false;
            }
        }
        Ok(acc)
    }

    /// Consumes an identifier: the longest run of alphanumeric characters,
    /// hyphens and underscores, with escapes where `with_escaped` is set.
    pub fn read_identifier(&mut self, with_escaped: bool) -> (r: Result<String, Exception>)
        ensures
            final(self).text() == old(self).text(),
            final(self).wf(),
            r matches Ok(out) && {
                &&& out@ == run(
                    if with_escaped {
                        escaped_rule(word_rule())
                    } else {
                        word_rule()
                    },
                    old(self).rest(),
                )
                &&& final(self).pos() == old(self).pos().advance(out@)
                &&& final(self).pos().cursor == old(self).pos().cursor + out@.len()
            },
    {
        let ghost rest = self.rest();
        let predicate = |c: char, s: &str| -> (b: bool)
            ensures
                b == word_char(c),
            { is_word_char(c, is_alphanumeric(c)) };
        if !with_escaped {
            let r = self.read_while(predicate);
            proof {
                let out = r->Ok_0@;
                assert forall|i: int| 0 <= i < out.len() implies word_rule()(
                    #[trigger] rest[i],
                    rest.take(i),
                ) by {
                    assert(answers(predicate, out[i], out.take(i), true));
                }
                lemma_run_unique(word_rule(), rest, out.len());
            }
            r
        } else {
            let r = self.read_escaped(predicate);
            proof {
                let out = r->Ok_0@;
                assert forall|i: int| 0 <= i < out.len() implies escaped_rule(word_rule())(
                    #[trigger] rest[i],
                    rest.take(i),
                ) by {
                    assert(out.take(i) =~= rest.take(i));
                    assert(out[i] == rest[i]);
                }
                lemma_run_unique(escaped_rule(word_rule()), rest, out.len());
            }
            r
        }
    }

    /// Consumes a number: the longest run of digits, with at most one point,
    /// at most one `e`, and a sign only at the start or directly after an `e`.
    pub fn read_number(&mut self) -> (r: Result<String, Exception>)
        ensures
            final(self).text() == old(self).text(),
            final(self).wf(),
            r matches Ok(out) && {
                &&& out@ == run(number_rule(), old(self).rest())
                &&& final(self).pos() == old(self).pos().advance(out@)
                &&& final(self).pos().cursor == old(self).pos().cursor + out@.len()
            },
    {
        let ghost rest = self.rest();
        let predicate = |c: char, s: &str| -> (b: bool)
            ensures
                b == number_admits(c, s@),
            {
                if c == '.' {
                    !text_contains(s, '.')
                } else if c == 'e' {
                    !text_contains(s, 'e')
                } else if c == '+' || c == '-' {
                    s.is_empty() || text_ends_with(s, 'e')
                } else {
                    is_digit(c)
                }
            };
        let r = self.read_while(predicate);
        proof {
            let out = r->Ok_0@;
            assert forall|i: int| 0 <= i < out.len() implies number_rule()(
                #[trigger] rest[i],
                rest.take(i),
            ) by {
                assert(answers(predicate, out[i], out.take(i), true));
                assert(out.take(i) =~= rest.take(i));
            }
            lemma_run_unique(number_rule(), rest, out.len());
        }
        r
    }
}

} // verus!
