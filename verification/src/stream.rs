//! The token stream under the parser: a cursor over a finished sequence of
//! tokens, with lookahead that consumes nothing.

use vstd::prelude::*;
use vstd::string::*;
use crate::ast::token_views;
use crate::error::{Error, ErrorView, Exception, ExceptionView};
use crate::lexer::{lex, Lexer};
use crate::position::Position;
use crate::text::chars_of;
use crate::token::{among_marks, text_of, Token, TokenKind, TokenView};

verus! {

/// A cursor over a sequence of tokens.
#[derive(Debug)]
pub struct LexerStream {
    buffer: Vec<Token>,
    cursor: usize,
}

/// A stream at the start of `buffer`.
impl From<Vec<Token>> for LexerStream {
    fn from(buffer: Vec<Token>) -> (s: Self)
        ensures
            s.items() == buffer@,
            s.index() == 0,
            s.wf(),
    {
        LexerStream { buffer, cursor: 0 }
    }
}

impl vstd::std_specs::convert::FromSpecImpl<Vec<Token>> for LexerStream {
    open spec fn obeys_from_spec() -> bool {
        false
    }

    open spec fn from_spec(buffer: Vec<Token>) -> Self {
        arbitrary()
    }
}

/// A stream over the tokens of `content`, where it can be lexed.
impl TryFrom<String> for LexerStream {
    type Error = Exception;

    fn try_from(content: String) -> (r: Result<Self, Exception>)
        ensures
            match r {
                Ok(s) => lex(content@, Position::origin()) == Ok::<_, ExceptionView>(s.tokens())
                    && s.index() == 0,
                Err(e) => lex(content@, Position::origin()) matches Err(cause) && e@ == cause.relay(
                    "LexerStream::from"@,
                ),
            },
    {
        let mut lexer = Lexer::from(content);
        assert(lexer.rest() =~= content@);
        match lexer.read() {
            Err(error) => Err(Exception::relay(error, "LexerStream::from")),
            Ok(tokens) => Ok(LexerStream::from(tokens)),
        }
    }
}

impl vstd::std_specs::convert::TryFromSpecImpl<String> for LexerStream {
    open spec fn obeys_try_from_spec() -> bool {
        false
    }

    open spec fn try_from_spec(content: String) -> Result<Self, Exception> {
        arbitrary()
    }
}

impl LexerStream {
    /// The tokens of the stream, consumed or not.
    pub closed spec fn items(&self) -> Seq<Token> {
        self.buffer@
    }

    /// The number of tokens consumed.
    pub closed spec fn index(&self) -> nat {
        self.cursor as nat
    }

    /// What the tokens of the stream say.
    pub open spec fn tokens(&self) -> Seq<TokenView> {
        token_views(self.items())
    }

    /// The cursor stands inside the sequence or at its end.
    pub open spec fn wf(&self) -> bool {
        self.index() <= self.items().len()
    }

    #[verifier::type_invariant]
    spec fn inv(self) -> bool {
        self.wf()
    }

    /// The token at `idx` places from the cursor, where there is one.
    pub open spec fn item_at(&self, idx: int) -> Option<Token> {
        let i = self.index() + idx;
        if 0 <= i < self.items().len() {
            Some(self.items()[i])
        } else {
            None
        }
    }

    /// Whether every token is consumed.
    pub fn eof(&self) -> (r: bool)
        ensures
            r == (self.index() == self.items().len()),
            self.wf(),
    {
        proof {
            use_type_invariant(self);
        }
        self.cursor == self.buffer.len()
    }

    fn ahead(&self, offset: usize) -> (r: Option<Token>)
        ensures
            r == self.item_at(offset as int),
            self.wf(),
    {
        proof {
            use_type_invariant(self);
        }
        if offset < self.buffer.len() - self.cursor {
            Some(self.buffer[self.cursor + offset].clone())
        } else {
            None
        }
    }

    /// A copy of the token at `idx` places from the cursor, before it where
    /// `idx` is negative; `None` outside the sequence.
    pub fn peek(&self, idx: isize) -> (r: Option<Token>)
        ensures
            r == self.item_at(idx as int),
            self.wf(),
    {
        proof {
            use_type_invariant(self);
        }
        if idx >= 0 {
            self.ahead(idx as usize)
        } else {
            let back: usize = (-(idx + 1)) as usize;
            if back < self.cursor {
                Some(self.buffer[self.cursor - back - 1].clone())
            } else {
                None
            }
        }
    }

    /// Whether a token stands at the cursor and `predicate` accepts it.
    pub fn is<F>(&self, predicate: F) -> (r: bool) where F: Fn(Token) -> bool
        requires
            forall|t: Token| call_requires(predicate, (t,)),
        ensures
            match self.item_at(0) {
                None => !r,
                Some(t) => call_ensures(predicate, (t,), r),
            },
    {
        match self.peek(0) {
            None => false,
            Some(token) => predicate(token),
        }
    }

    /// Whether the tokens from the cursor on match `value` character by
    /// character: for each character a token stands at its place, and
    /// `callback` accepts the two together. The first place that fails
    /// ends the comparison.
    pub fn is_equal<F>(&self, value: &str, callback: F) -> (r: bool) where
        F: Fn(Token, char) -> bool,

        requires
            forall|t: Token, c: char| call_requires(callback, (t, c)),
        ensures
            r ==> forall|i: int|
                0 <= i < value@.len() ==> ((#[trigger] self.item_at(i)) matches Some(t)
                    && call_ensures(callback, (t, value@[i]), true)),
            !r ==> exists|i: int|
                0 <= i < value@.len() && ((#[trigger] self.item_at(i)) matches Some(t)
                    ==> call_ensures(callback, (t, value@[i]), false)),
    {
        let chars = chars_of(value);
        let mut idx: usize = 0;
        while idx < chars.len()
            invariant
                idx <= chars.len(),
                chars@ == value@,
                forall|t: Token, c: char| call_requires(callback, (t, c)),
                forall|i: int|
                    0 <= i < idx ==> ((#[trigger] self.item_at(i)) matches Some(t) && call_ensures(
                        callback,
                        (t, value@[i]),
                        true,
                    )),
            decreases chars.len() - idx,
        {
            let matched = match self.ahead(idx) {
                None => false,
                Some(token) => callback(token, chars[idx]),
            };
            if !matched {
                assert(self.item_at(idx as int) matches Some(t) ==> call_ensures(
                    callback,
                    (t, value@[idx as int]),
                    false,
                ));
                return false;
            }
            idx += 1;
        }
        true
    }

    /// With a `value`, `is_equal` on it, `callback` being handed each
    /// character; without one, `is`, `callback` being handed no character.
    pub fn is_type_or_equal<F>(&self, value: Option<&str>, callback: F) -> (r: bool) where
        F: Fn(Token, Option<char>) -> bool,

        requires
            forall|t: Token, c: Option<char>| call_requires(callback, (t, c)),
        ensures
            match value {
                Some(s) => {
                    &&& r ==> forall|i: int|
                        0 <= i < s@.len() ==> ((#[trigger] self.item_at(i)) matches Some(t)
                            && call_ensures(callback, (t, Some(s@[i])), true))
                    &&& !r ==> exists|i: int|
                        0 <= i < s@.len() && ((#[trigger] self.item_at(i)) matches Some(t)
                            ==> call_ensures(callback, (t, Some(s@[i])), false))
                },
                None => match self.item_at(0) {
                    None => !r,
                    Some(t) => call_ensures(callback, (t, None), r),
                },
            },
    {
        if let Some(s) = value {
            let chars = chars_of(s);
            let mut idx: usize = 0;
            while idx < chars.len()
                invariant
                    idx <= chars.len(),
                    chars@ == s@,
                    value == Some(s),
                    forall|t: Token, c: Option<char>| call_requires(callback, (t, c)),
                    forall|i: int|
                        0 <= i < idx ==> ((#[trigger] self.item_at(i)) matches Some(t)
                            && call_ensures(callback, (t, Some(s@[i])), true)),
                decreases chars.len() - idx,
            {
                let matched = match self.ahead(idx) {
                    None => false,
                    Some(token) => callback(token, Some(chars[idx])),
                };
                if !matched {
                    assert(self.item_at(idx as int) matches Some(t) ==> call_ensures(
                        callback,
                        (t, Some(s@[idx as int])),
                        false,
                    ));
                    return false;
                }
                idx += 1;
            }
            true
        } else {
            match self.peek(0) {
                None => false,
                Some(token) => callback(token, None),
            }
        }
    }

    /// Whether an identifier stands at the cursor, with the text `value`
    /// where one is given.
    pub fn is_identifier(&self, value: Option<&str>) -> (r: bool)
        ensures
            r == (self.item_at(0) matches Some(t) && t@.is_a(
                TokenKind::Identifier,
                text_of(value),
            )),
    {
        let wanted = |token: Token| -> (b: bool)
            ensures
                b == token@.is_a(TokenKind::Identifier, text_of(value)),
            { token.is_identifier(value) };
        self.is(wanted)
    }

    /// Whether a token that the parser passes over stands at the cursor:
    /// white space.
    pub fn is_muted(&self) -> (r: bool)
        ensures
            r == (self.item_at(0) matches Some(t) && t@.kind == TokenKind::Whitespace),
    {
        let wanted = |token: Token| -> (b: bool)
            ensures
                b == (token@.kind == TokenKind::Whitespace),
            { token.is_whitespace(None) };
        self.is(wanted)
    }

    /// Whether an operator stands at the cursor, the operator `value`
    /// where one is given.
    pub fn is_operator(&self, value: Option<&str>) -> (r: bool)
        ensures
            r == (self.item_at(0) matches Some(t) && t@.is_a(TokenKind::Operator, text_of(value))),
    {
        let wanted = |token: Token, c: Option<char>| -> (b: bool)
            ensures
                b == token@.is_a(TokenKind::Operator, text_of(value)),
            { token.is_operator(value) };
        self.is_type_or_equal(None, wanted)
    }

    /// Whether one of the punctuation marks in `value` stands at the cursor.
    pub fn is_one_of_punctuation(&self, value: Vec<char>) -> (r: bool)
        ensures
            r == (self.item_at(0) matches Some(t) && t@.kind == TokenKind::Punctuation
                && among_marks(t@.text, value@)),
    {
        match self.peek(0) {
            None => false,
            Some(token) => token.is_one_of_punctuation(value),
        }
    }

    /// Without a `value`: whether a punctuation mark stands at the cursor.
    /// With one: whether the tokens from the cursor on are the punctuation
    /// marks that `value` spells, one token for each character.
    pub fn is_punctuation(&self, value: Option<&str>) -> (r: bool)
        ensures
            r == match value {
                Some(s) => forall|i: int|
                    0 <= i < s@.len() ==> ((#[trigger] self.item_at(i)) matches Some(t)
                        && t@.is_mark(s@[i])),
                None => self.item_at(0) matches Some(t) && t@.kind == TokenKind::Punctuation,
            },
    {
        let wanted = |token: Token, c: Option<char>| -> (b: bool)
            ensures
                b == (token@.kind == TokenKind::Punctuation && (c matches Some(m)
                    ==> token@.text == seq![m])),
            { token.is_punctuation(c) };
        self.is_type_or_equal(value, wanted)
    }

    /// Consumes one token and returns it. At the end of the sequence
    /// nothing moves and the call fails.
    pub fn next(&mut self) -> (r: Result<Token, Exception>)
        ensures
            final(self).items() == old(self).items(),
            final(self).wf(),
            match r {
                Ok(token) => {
                    &&& old(self).item_at(0) == Some(token)
                    &&& final(self).index() == old(self).index() + 1
                },
                Err(e) => {
                    &&& old(self).item_at(0) is None
                    &&& final(self).index() == old(self).index()
                    &&& e@ == ExceptionView::create(ErrorView::EOF, "LexerStream::next"@)
                },
            },
    {
        proof {
            use_type_invariant(&*self);
        }
        match self.peek(0) {
            None => Err(Exception::create(Error::EOF, "LexerStream::next")),
            Some(token) => {
                assert(self.cursor < self.buffer.len());
                self.cursor += 1;
                Ok(token)
            },
        }
    }

    /// Consumes the token at the cursor if `callback` accepts it, and
    /// returns it. Otherwise nothing moves and the call fails: with the
    /// token that was refused, or with the end of the sequence.
    pub fn read<F>(&mut self, callback: F) -> (r: Result<Token, Exception>) where
        F: Fn(Token) -> bool,

        requires
            forall|t: Token| call_requires(callback, (t,)),
        ensures
            final(self).items() == old(self).items(),
            final(self).wf(),
            match r {
                Ok(token) => {
                    &&& old(self).item_at(0) == Some(token)
                    &&& call_ensures(callback, (token,), true)
                    &&& final(self).index() == old(self).index() + 1
                },
                Err(e) => {
                    &&& final(self).index() == old(self).index()
                    &&& match old(self).item_at(0) {
                        Some(token) => {
                            &&& call_ensures(callback, (token,), false)
                            &&& e@ == ExceptionView::create(
                                ErrorView::UnexpectedToken(token@),
                                "LexerStream::read"@,
                            )
                        },
                        None => e@ == ExceptionView::create(ErrorView::EOF, "LexerStream::read"@),
                    }
                },
            },
    {
        proof {
            use_type_invariant(&*self);
        }
        if let Some(token) = self.peek(0) {
            if !callback(token.clone()) {
                Err(Exception::create(Error::UnexpectedToken(token), "LexerStream::read"))
            } else {
                assert(self.cursor < self.buffer.len());
                self.cursor += 1;
                Ok(token)
            }
        } else {
            Err(Exception::create(Error::EOF, "LexerStream::read"))
        }
    }

    /// Consumes one token if `is_punctuation(value)` holds, and returns it.
    /// Otherwise nothing moves and the call fails: with the token at the
    /// cursor, or with the end of the sequence.
    pub fn read_punctuation(&mut self, value: Option<&str>) -> (r: Result<Token, Exception>)
        ensures
            final(self).items() == old(self).items(),
            final(self).wf(),
            match r {
                Ok(token) => {
                    &&& old(self).item_at(0) == Some(token)
                    &&& old(self).spells(value)
                    &&& final(self).index() == old(self).index() + 1
                },
                Err(e) => {
                    &&& final(self).index() == old(self).index()
                    &&& e@ == match old(self).item_at(0) {
                        Some(token) => ExceptionView::create(
                            ErrorView::UnexpectedToken(token@),
                            "LexerStream::read_punctuation"@,
                        ),
                        None => ExceptionView::create(
                            ErrorView::EOF,
                            if old(self).spells(value) {
                                "LexerStream::read"@
                            } else {
                                "LexerStream::read_punctuation"@
                            },
                        ),
                    }
                    &&& old(self).item_at(0) is Some ==> !old(self).spells(value)
                },
            },
    {
        if self.is_punctuation(value) {
            let any = |token: Token| -> (b: bool)
                ensures
                    b,
                { true };
            self.read(any)
        } else {
            if let Some(token) = self.peek(0) {
                Err(
                    Exception::create(
                        Error::UnexpectedToken(token),
                        "LexerStream::read_punctuation",
                    ),
                )
            } else {
                Err(Exception::create(Error::EOF, "LexerStream::read_punctuation"))
            }
        }
    }

    /// What `is_punctuation(value)` decides.
    pub open spec fn spells(&self, value: Option<&str>) -> bool {
        match value {
            Some(s) => forall|i: int|
                0 <= i < s@.len() ==> ((#[trigger] self.item_at(i)) matches Some(t) && t@.is_mark(
                    s@[i],
                )),
            None => self.item_at(0) matches Some(t) && t@.kind == TokenKind::Punctuation,
        }
    }

    /// Consumes the longest run of tokens that `predicate` accepts and
    /// returns them in order. An empty run is no failure.
    pub fn read_while<F>(&mut self, predicate: F) -> (r: Vec<Token>) where F: Fn(Token) -> bool
        requires
            forall|t: Token| call_requires(predicate, (t,)),
        ensures
            final(self).items() == old(self).items(),
            final(self).wf(),
            final(self).index() == old(self).index() + r@.len(),
            r@ == old(self).items().subrange(
                old(self).index() as int,
                (old(self).index() + r@.len()) as int,
            ),
            forall|i: int| 0 <= i < r@.len() ==> call_ensures(predicate, (#[trigger] r@[i],), true),
            final(self).item_at(0) matches Some(t) ==> call_ensures(predicate, (t,), false),
    {
        proof {
            use_type_invariant(&*self);
        }
        let ghost start = self.index();
        let ghost items = self.items();
        let mut values: Vec<Token> = Vec::new();
        let mut open = true;
        assert(values@ =~= items.subrange(start as int, start as int));
        while open && !self.eof()
            invariant
                forall|t: Token| call_requires(predicate, (t,)),
                self.items() == items,
                self.wf(),
                self.index() == start + values@.len(),
                values@ == items.subrange(start as int, (start + values@.len()) as int),
                forall|i: int|
                    0 <= i < values@.len() ==> call_ensures(
                        predicate,
                        (#[trigger] values@[i],),
                        true,
                    ),
                !open ==> (self.item_at(0) matches Some(t) && call_ensures(predicate, (t,), false)),
            decreases items.len() - self.index() + (if open { 1nat } else { 0nat }),
        {
            let token = self.peek(0).unwrap();
            if predicate(token.clone()) {
                let ghost before = values@;
                assert(self.cursor < self.buffer.len());
                self.cursor += 1;
                values.push(token);
                assert(values@ =~= items.subrange(start as int, (start + values@.len()) as int));
                assert forall|i: int| 0 <= i < values@.len() implies call_ensures(
                    predicate,
                    (#[trigger] values@[i],),
                    true,
                ) by {
                    if i < before.len() {
                        assert(values@[i] == before[i]);
                    }
                }
            } else {
                open = false;
            }
        }
        values
    }
}

} // verus!
