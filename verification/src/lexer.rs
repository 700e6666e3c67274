//! The lexer: from characters to tokens.

use vstd::prelude::*;
use vstd::string::*;
use crate::ast::token_views;
use crate::error::{Error, ErrorView, Exception, ExceptionView};
use crate::input::{
    answers, escaped_rule, lemma_run_bounds, lemma_run_unique, number_rule, run, word_rule,
    InputStream,
};
use crate::position::{lemma_advance_push, Position};
use crate::text::{alphanumeric, char_string, is_alphanumeric, is_digit, is_digit_char, push_char};
use crate::token::{Token, TokenKind, TokenView};

verus! {

/// White space: tab, carriage return, line feed, space.
pub open spec fn is_blank(c: char) -> bool {
    c == '\t' || c == '\r' || c == '\n' || c == ' '
}

/// A punctuation mark: one of `, ; ( ) { } [ ] : . #`.
pub open spec fn is_mark(c: char) -> bool {
    c == ',' || c == ';' || c == '(' || c == ')' || c == '{' || c == '}' || c == '[' || c == ']'
        || c == ':' || c == '.' || c == '#'
}

/// An operator character: one of `+ - * / % = & | ! > < ^ ~`.
pub open spec fn is_sign(c: char) -> bool {
    c == '+' || c == '-' || c == '*' || c == '/' || c == '%' || c == '=' || c == '&' || c == '|'
        || c == '!' || c == '>' || c == '<' || c == '^' || c == '~'
}

/// An operator character that forms one operator with its own repetition:
/// `&&`, `||`, `==`.
pub open spec fn doubles(c: char) -> bool {
    c == '&' || c == '|' || c == '='
}

/// Whether an identifier may start with `c`, given whether `c` is
/// alphanumeric: with an alphanumeric character or an underscore.
pub open spec fn word_start(c: char, alnum: bool) -> bool {
    alnum || c == '_'
}

/// The kind of the token that starts with `c`, given whether a number
/// starts there and whether `c` is alphanumeric; `None` where no rule
/// accepts `c`. The rules are asked in this order: white space, number,
/// punctuation, identifier, operator.
pub open spec fn class_of(c: char, number_start: bool, alnum: bool) -> Option<TokenKind> {
    if is_blank(c) {
        Some(TokenKind::Whitespace)
    } else if number_start {
        Some(TokenKind::Number)
    } else if is_mark(c) {
        Some(TokenKind::Punctuation)
    } else if word_start(c, alnum) {
        Some(TokenKind::Identifier)
    } else if is_sign(c) {
        Some(TokenKind::Operator)
    } else {
        None
    }
}

/// Decides `word_start`.
pub fn is_ident_start(c: char, alnum: bool) -> (r: bool)
    ensures
        r == word_start(c, alnum),
{
    alnum || c == '_'
}

/// Decides `class_of`.
pub fn token_class(c: char, number_start: bool, alnum: bool) -> (k: Option<TokenKind>)
    ensures
        k == class_of(c, number_start, alnum),
{
    if Lexer::is_whitespace(c) {
        Some(TokenKind::Whitespace)
    } else if number_start {
        Some(TokenKind::Number)
    } else if Lexer::is_punctuation(c) {
        Some(TokenKind::Punctuation)
    } else if is_ident_start(c, alnum) {
        Some(TokenKind::Identifier)
    } else if Lexer::is_operator(c) {
        Some(TokenKind::Operator)
    } else {
        None
    }
}

/// Whether a number starts at the head of `s`: a digit; a point and a
/// digit; a sign and a digit; or a sign, a point and a digit.
pub open spec fn starts_number(s: Seq<char>) -> bool {
    s.len() > 0 && (is_digit_char(s[0]) || (s.len() > 1 && ((s[0] == '.' && is_digit_char(s[1]))
        || ((s[0] == '+' || s[0] == '-') && (is_digit_char(s[1]) || (s.len() > 2 && s[1] == '.'
        && is_digit_char(s[2])))))))
}

/// The rule for white space.
pub open spec fn blank_rule() -> spec_fn(char, Seq<char>) -> bool {
    |c: char, acc: Seq<char>| is_blank(c)
}

/// The token of kind `kind` that covers `text` from `start` on.
pub open spec fn lexeme(kind: TokenKind, text: Seq<char>, start: Position) -> TokenView {
    TokenView { kind, text, start, next: start.advance(text) }
}

/// The text of the operator at the head of `s`.
pub open spec fn operator_text(s: Seq<char>) -> Seq<char> {
    if doubles(s[0]) && s.len() > 1 && s[1] == s[0] {
        seq![s[0], s[0]]
    } else {
        seq![s[0]]
    }
}

/// The text of the token of kind `kind` at the head of `s`.
pub open spec fn lexeme_text(kind: TokenKind, s: Seq<char>) -> Seq<char> {
    match kind {
        TokenKind::Whitespace => run(blank_rule(), s),
        TokenKind::Number => run(number_rule(), s),
        TokenKind::Punctuation => seq![s[0]],
        TokenKind::Identifier => run(escaped_rule(word_rule()), s),
        TokenKind::Operator => operator_text(s),
    }
}

/// The token at the head of the non-empty text `s`, which starts at
/// `start`; `None` where no rule accepts the first character.
pub open spec fn first_token(s: Seq<char>, start: Position) -> Option<TokenView> {
    match class_of(s[0], starts_number(s), alphanumeric(s[0])) {
        Some(kind) => Some(lexeme(kind, lexeme_text(kind, s), start)),
        None => None,
    }
}

/// What asking for one token gives on the text `s`, which starts at `start`.
pub open spec fn next_token(s: Seq<char>, start: Position) -> Result<TokenView, ExceptionView> {
    if s.len() == 0 {
        Err(ExceptionView::create(ErrorView::UnexpectedEOF(start), "Lexer::next"@))
    } else {
        match first_token(s, start) {
            Some(t) => Ok(t),
            None => Err(
                ExceptionView::create(
                    ErrorView::UnprocessableCharacter(s[0], start),
                    "Lexer::next"@,
                ),
            ),
        }
    }
}

/// The tokens of the text `s`, which starts at `start`: all of them, or
/// the failure at the first character that no rule accepts.
pub open spec fn lex(s: Seq<char>, start: Position) -> Result<Seq<TokenView>, ExceptionView>
    decreases s.len(),
    via lex_decreases
{
    if s.len() == 0 {
        Ok(Seq::empty())
    } else {
        match next_token(s, start) {
            Err(e) => Err(e.relay("Lexer::read"@)),
            Ok(t) => match lex(s.skip(t.text.len() as int), t.next) {
                Err(e) => Err(e),
                Ok(ts) => Ok(seq![t] + ts),
            },
        }
    }
}

#[via_fn]
proof fn lex_decreases(s: Seq<char>, start: Position) {
    if s.len() > 0 {
        lemma_first_token(s, start);
    }
}

/// The first token covers a prefix of the text, and at least one character.
pub proof fn lemma_first_token(s: Seq<char>, start: Position)
    requires
        s.len() > 0,
    ensures
        first_token(s, start) matches Some(t) ==> {
            &&& 0 < t.text.len() <= s.len()
            &&& t.text == s.take(t.text.len() as int)
            &&& t.start == start
            &&& t.next == start.advance(t.text)
        },
{
    let c = s[0];
    let none = s.take(0);
    assert(none.len() == 0);
    match class_of(c, starts_number(s), alphanumeric(c)) {
        Some(TokenKind::Whitespace) => {
            lemma_run_bounds(blank_rule(), s, 0);
        },
        Some(TokenKind::Number) => {
            assert(number_rule()(c, none));
            lemma_run_bounds(number_rule(), s, 0);
        },
        Some(TokenKind::Punctuation) => {
            assert(s.take(1) =~= seq![c]);
        },
        Some(TokenKind::Identifier) => {
            assert(escaped_rule(word_rule())(c, none));
            lemma_run_bounds(escaped_rule(word_rule()), s, 0);
        },
        Some(TokenKind::Operator) => {
            if doubles(c) && s.len() > 1 && s[1] == c {
                assert(s.take(2) =~= seq![c, c]);
            } else {
                assert(s.take(1) =~= seq![c]);
            }
        },
        None => {},
    }
}

spec fn prepend(head: Seq<TokenView>, tail: Result<Seq<TokenView>, ExceptionView>) -> Result<
    Seq<TokenView>,
    ExceptionView,
> {
    match tail {
        Ok(ts) => Ok(head + ts),
        Err(e) => Err(e),
    }
}

/// The lexer: it turns the characters of a text into tokens, one at a time
/// or all at once.
#[derive(Debug)]
pub struct Lexer {
    input: InputStream,
}

/// A lexer at the start of `content`. White space stays in the text: it
/// is lexed like everything else.
impl From<String> for Lexer {
    fn from(content: String) -> (lexer: Self)
        ensures
            lexer.text() == content@,
            lexer.pos() == Position::origin(),
            lexer.wf(),
    {
        Lexer { input: InputStream::from(content) }
    }
}

impl vstd::std_specs::convert::FromSpecImpl<String> for Lexer {
    open spec fn obeys_from_spec() -> bool {
        false
    }

    open spec fn from_spec(content: String) -> Self {
        arbitrary()
    }
}

impl Lexer {
    /// The text that the lexer reads.
    pub closed spec fn text(&self) -> Seq<char> {
        self.input.text()
    }

    /// The position that the lexer has reached.
    pub closed spec fn pos(&self) -> Position {
        self.input.pos()
    }

    /// The cursor stands inside the text or at its end, and the position is
    /// the one that the characters before the cursor lead to.
    pub open spec fn wf(&self) -> bool {
        &&& self.pos().cursor <= self.text().len() <= usize::MAX
        &&& self.pos() == Position::origin().advance(self.text().take(self.pos().cursor as int))
    }

    /// The characters that are still to be read.
    pub open spec fn rest(&self) -> Seq<char> {
        self.text().skip(self.pos().cursor as int)
    }

    /// Decides `is_sign`.
    pub fn is_operator(c: char) -> (r: bool)
        ensures
            r == is_sign(c),
    {
        c == '+' || c == '-' || c == '*' || c == '/' || c == '%' || c == '=' || c == '&' || c == '|'
            || c == '!' || c == '>' || c == '<' || c == '^' || c == '~'
    }

    /// Decides `is_mark`.
    pub fn is_punctuation(c: char) -> (r: bool)
        ensures
            r == is_mark(c),
    {
        c == ',' || c == ';' || c == '(' || c == ')' || c == '{' || c == '}' || c == '[' || c == ']'
            || c == ':' || c == '.' || c == '#'
    }

    /// Decides `is_blank`.
    pub fn is_whitespace(c: char) -> (r: bool)
        ensures
            r == is_blank(c),
    {
        c == '\t' || c == '\r' || c == '\n' || c == ' '
    }

    /// Whether the text is read to its end.
    pub fn eof(&self) -> (r: bool)
        ensures
            r == (self.rest().len() == 0),
            self.wf(),
    {
        self.input.eof(0)
    }

    /// The position that the lexer has reached.
    pub fn position(&self) -> (p: Position)
        ensures
            p == self.pos(),
            self.wf(),
    {
        self.input.position()
    }

    /// Reads the text to its end and returns its tokens in order. The first
    /// character that no rule accepts fails the whole call.
    pub fn read(&mut self) -> (r: Result<Vec<Token>, Exception>)
        ensures
            final(self).text() == old(self).text(),
            final(self).wf(),
            match r {
                Ok(tokens) => {
                    &&& lex(old(self).rest(), old(self).pos()) == Ok::<_, ExceptionView>(
                        token_views(tokens@),
                    )
                    &&& final(self).rest().len() == 0
                },
                Err(e) => {
                    &&& lex(old(self).rest(), old(self).pos()) == Err::<Seq<TokenView>, _>(e@)
                    &&& final(self).rest().len() > 0
                    &&& e@.error == ErrorView::UnprocessableCharacter(
                        final(self).rest()[0],
                        final(self).pos(),
                    )
                },
            },
    {
        let ghost whole = lex(self.rest(), self.pos());
        let mut buffer: Vec<Token> = Vec::new();
        assert(token_views(buffer@) =~= Seq::empty());
        proof {
            let tail = lex(self.rest(), self.pos());
            assert(prepend(Seq::empty(), tail) == tail) by {
                if let Ok(ts) = tail {
                    assert(Seq::<TokenView>::empty() + ts =~= ts);
                }
            }
        }
        while !self.eof()
            invariant
                self.text() == old(self).text(),
                whole == lex(old(self).rest(), old(self).pos()),
                whole == prepend(token_views(buffer@), lex(self.rest(), self.pos())),
            decreases self.rest().len(),
        {
            let ghost rest = self.rest();
            let ghost start = self.pos();
            let ghost head = token_views(buffer@);
            proof {
                lemma_first_token(rest, start);
            }
            match self.next() {
                Err(error) => {
                    assert(lex(rest, start) == Err::<Seq<TokenView>, _>(
                        error@.relay("Lexer::read"@),
                    ));
                    return Err(Exception::relay(error, "Lexer::read"));
                },
                Ok(token) => {
                    buffer.push(token);
                    proof {
                        let t = token@;
                        assert(token_views(buffer@) =~= head.push(t));
                        assert(self.rest() =~= rest.skip(t.text.len() as int));
                        let tail = lex(self.rest(), self.pos());
                        match tail {
                            Ok(ts) => {
                                assert(head + (seq![t] + ts) =~= head.push(t) + ts);
                            },
                            Err(_) => {},
                        }
                    }
                },
            }
        }
        proof {
            assert(token_views(buffer@) + Seq::<TokenView>::empty() =~= token_views(buffer@));
        }
        Ok(buffer)
    }

    /// Reads one token. At the end of the text, and at a character that no
    /// rule accepts, nothing is consumed and the call fails.
    pub fn next(&mut self) -> (r: Result<Token, Exception>)
        ensures
            final(self).text() == old(self).text(),
            final(self).wf(),
            match r {
                Ok(token) => {
                    &&& next_token(old(self).rest(), old(self).pos()) == Ok::<_, ExceptionView>(
                        token@,
                    )
                    &&& final(self).pos() == token@.next
                    &&& final(self).pos().cursor == old(self).pos().cursor + token@.text.len()
                },
                Err(e) => {
                    &&& next_token(old(self).rest(), old(self).pos()) == Err::<TokenView, _>(e@)
                    &&& final(self).pos() == old(self).pos()
                },
            },
    {
        if self.input.eof(0) {
            return Err(
                Exception::create(Error::UnexpectedEOF(self.input.position()), "Lexer::next"),
            );
        }
        let c = self.input.peek(0).unwrap();
        assert(c == self.rest()[0]);
        match token_class(c, self.is_number_start(), is_alphanumeric(c)) {
            Some(TokenKind::Whitespace) => self.read_whitespace(),
            Some(TokenKind::Number) => self.read_number(),
            Some(TokenKind::Punctuation) => self.read_punctuation(),
            Some(TokenKind::Identifier) => self.read_identifier(),
            Some(TokenKind::Operator) => self.read_operator(),
            None => Err(
                Exception::create(
                    Error::UnprocessableCharacter(c, self.input.position()),
                    "Lexer::next",
                ),
            ),
        }
    }

    fn is_number_start(&self) -> (r: bool)
        ensures
            r == starts_number(self.rest()),
    {
        if self.input.eof(0) {
            return false;
        }
        let current = self.input.peek(0).unwrap();
        assert(current == self.rest()[0]);
        if is_digit(current) {
            return true;
        }
        if self.input.eof(1) {
            return false;
        }
        let next = self.input.peek(1).unwrap();
        assert(next == self.rest()[1]);
        if current == '.' && is_digit(next) {
            return true;
        }
        if '+' != current && '-' != current {
            return false;
        }
        if is_digit(next) {
            return true;
        }
        if self.input.eof(2) {
            return false;
        }
        let third = self.input.peek(2).unwrap();
        assert(third == self.rest()[2]);
        next == '.' && is_digit(third)
    }

    fn read_identifier(&mut self) -> (r: Result<Token, Exception>)
        ensures
            final(self).text() == old(self).text(),
            final(self).wf(),
            r matches Ok(token) && {
                &&& token@ == lexeme(
                    TokenKind::Identifier,
                    run(escaped_rule(word_rule()), old(self).rest()),
                    old(self).pos(),
                )
                &&& final(self).pos() == token@.next
                &&& final(self).pos().cursor == old(self).pos().cursor + token@.text.len()
            },
    {
        let start = self.input.position();
        match self.input.read_identifier(true) {
            Err(error) => Err(Exception::relay(error, "Lexer::read_identifier")),
            Ok(value) => Ok(Token::Identifier(value, start, self.input.position())),
        }
    }

    fn read_number(&mut self) -> (r: Result<Token, Exception>)
        ensures
            final(self).text() == old(self).text(),
            final(self).wf(),
            r matches Ok(token) && {
                &&& token@ == lexeme(
                    TokenKind::Number,
                    run(number_rule(), old(self).rest()),
                    old(self).pos(),
                )
                &&& final(self).pos() == token@.next
                &&& final(self).pos().cursor == old(self).pos().cursor + token@.text.len()
            },
    {
        let start = self.input.position();
        match self.input.read_number() {
            Err(error) => Err(Exception::relay(error, "Lexer::read_number")),
            Ok(value) => Ok(Token::Number(value, start, self.input.position())),
        }
    }

    fn read_operator(&mut self) -> (r: Result<Token, Exception>)
        requires
            old(self).rest().len() > 0,
        ensures
            final(self).text() == old(self).text(),
            final(self).wf(),
            r matches Ok(token) && {
                &&& token@ == lexeme(
                    TokenKind::Operator,
                    operator_text(old(self).rest()),
                    old(self).pos(),
                )
                &&& final(self).pos() == token@.next
                &&& final(self).pos().cursor == old(self).pos().cursor + token@.text.len()
            },
    {
        let start = self.input.position();
        let ghost rest = self.rest();
        match self.input.next() {
            Err(error) => Err(Exception::relay(error, "Lexer::read_operator")),
            Ok(value) => {
                proof {
                    lemma_advance_push(start, Seq::empty(), value);
                    assert(Seq::<char>::empty().push(value) =~= seq![value]);
                }
                if value == '&' || value == '|' || value == '=' {
                    if let Some(next) = self.input.peek(0) {
                        assert(next == rest[1]);
                        if next == value {
                            match self.input.next() {
                                Err(error) => {
                                    return Err(Exception::relay(error, "Lexer::read_operator"));
                                },
                                Ok(second) => {
                                    let mut text = char_string(value);
                                    push_char(&mut text, second);
                                    proof {
                                        lemma_advance_push(start, seq![value], second);
                                        assert(seq![value].push(second) =~= seq![value, value]);
                                    }
                                    return Ok(
                                        Token::Operator(text, start, self.input.position()),
                                    );
                                },
                            }
                        }
                    }
                }
                Ok(Token::Operator(char_string(value), start, self.input.position()))
            },
        }
    }

    fn read_punctuation(&mut self) -> (r: Result<Token, Exception>)
        requires
            old(self).rest().len() > 0,
        ensures
            final(self).text() == old(self).text(),
            final(self).wf(),
            r matches Ok(token) && {
                &&& token@ == lexeme(
                    TokenKind::Punctuation,
                    seq![old(self).rest()[0]],
                    old(self).pos(),
                )
                &&& final(self).pos() == token@.next
                &&& final(self).pos().cursor == old(self).pos().cursor + token@.text.len()
            },
    {
        let start = self.input.position();
        match self.input.next() {
            Err(error) => Err(Exception::relay(error, "Lexer::read_punctuation")),
            Ok(value) => {
                proof {
                    lemma_advance_push(start, Seq::empty(), value);
                    assert(Seq::<char>::empty().push(value) =~= seq![value]);
                }
                Ok(Token::Punctuation(value, start, self.input.position()))
            },
        }
    }

    fn read_whitespace(&mut self) -> (r: Result<Token, Exception>)
        ensures
            final(self).text() == old(self).text(),
            final(self).wf(),
            r matches Ok(token) && {
                &&& token@ == lexeme(
                    TokenKind::Whitespace,
                    run(blank_rule(), old(self).rest()),
                    old(self).pos(),
                )
                &&& final(self).pos() == token@.next
                &&& final(self).pos().cursor == old(self).pos().cursor + token@.text.len()
            },
    {
        let start = self.input.position();
        let ghost rest = self.rest();
        let predicate = |c: char, s: &str| -> (b: bool)
            ensures
                b == is_blank(c),
            { Lexer::is_whitespace(c) };
        match self.input.read_while(predicate) {
            Err(error) => Err(Exception::relay(error, "Lexer::read_whitespace")),
            Ok(value) => {
                proof {
                    let out = value@;
                    assert forall|i: int| 0 <= i < out.len() implies blank_rule()(
                        #[trigger] rest[i],
                        rest.take(i),
                    ) by {
                        assert(answers(predicate, out[i], out.take(i), true));
                    }
                    lemma_run_unique(blank_rule(), rest, out.len());
                }
                Ok(Token::Whitespace(value, start, self.input.position()))
            },
        }
    }
}

} // verus!
