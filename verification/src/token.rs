//! Lexical tokens: the leaves of the syntax tree.

use vstd::prelude::*;
use vstd::string::*;
use crate::ast::{token_views, AST};
use crate::position::Position;
use crate::text::{char_string, escaped, push_escaped, same_text};

verus! {

/// The five kinds of token.
#[derive(Debug, Copy, Clone, PartialEq, Eq, Structural)]
pub enum TokenKind {
    Identifier,
    Number,
    Operator,
    Punctuation,
    Whitespace,
}

impl TokenKind {
    /// The kind's name, as it appears in output.
    pub open spec fn name(self) -> Seq<char> {
        match self {
            TokenKind::Identifier => "Identifier"@,
            TokenKind::Number => "Number"@,
            TokenKind::Operator => "Operator"@,
            TokenKind::Punctuation => "Punctuation"@,
            TokenKind::Whitespace => "Whitespace"@,
        }
    }

    /// The kind's name.
    pub fn label(self) -> (r: &'static str)
        ensures
            r@ == self.name(),
    {
        match self {
            TokenKind::Identifier => "Identifier",
            TokenKind::Number => "Number",
            TokenKind::Operator => "Operator",
            TokenKind::Punctuation => "Punctuation",
            TokenKind::Whitespace => "Whitespace",
        }
    }
}

/// What a token says: its kind, the text it matched, and the span
/// `[start, next)` of that text in the source.
pub struct TokenView {
    pub kind: TokenKind,
    pub text: Seq<char>,
    pub start: Position,
    pub next: Position,
}

impl TokenView {
    /// The token is of kind `kind` and, where a text is asked for, holds
    /// exactly that text.
    pub open spec fn is_a(self, kind: TokenKind, text: Option<Seq<char>>) -> bool {
        self.kind == kind && (text matches Some(t) ==> self.text == t)
    }

    /// The token is the operator written `text`.
    pub open spec fn is_op(self, text: Seq<char>) -> bool {
        self.kind == TokenKind::Operator && self.text == text
    }

    /// The token is the punctuation mark `c`.
    pub open spec fn is_mark(self, c: char) -> bool {
        self.kind == TokenKind::Punctuation && self.text == seq![c]
    }

    /// The token as `Kind(text)`.
    pub open spec fn label(self) -> Seq<char> {
        self.kind.name() + "("@ + self.text + ")"@
    }

    /// The object `{"type":..,"value":..}`, with `start` and `next` where
    /// spans are asked for.
    pub open spec fn json(self, with_position: bool) -> Seq<char> {
        let head = "{\"type\":\""@ + self.kind.name() + "\",\"value\":\""@ + escaped(self.text)
            + "\""@;
        if with_position {
            head + ",\"start\":"@ + self.start.json() + ",\"next\":"@ + self.next.json() + "}"@
        } else {
            head + "}"@
        }
    }
}

/// The views of two optional texts: of a `&str` that may be absent.
pub open spec fn text_of(value: Option<&str>) -> Option<Seq<char>> {
    match value {
        Some(s) => Some(s@),
        None => None,
    }
}

/// A token: its text and the span `[start, next)` that the text covers.
#[derive(Debug, PartialEq)]
pub enum Token {
    Identifier(String, Position, Position),
    Number(String, Position, Position),
    Operator(String, Position, Position),
    Punctuation(char, Position, Position),
    Whitespace(String, Position, Position),
}

impl View for Token {
    type V = TokenView;

    open spec fn view(&self) -> TokenView {
        match *self {
            Token::Identifier(value, start, next) => TokenView {
                kind: TokenKind::Identifier,
                text: value@,
                start,
                next,
            },
            Token::Number(value, start, next) => TokenView {
                kind: TokenKind::Number,
                text: value@,
                start,
                next,
            },
            Token::Operator(value, start, next) => TokenView {
                kind: TokenKind::Operator,
                text: value@,
                start,
                next,
            },
            Token::Punctuation(value, start, next) => TokenView {
                kind: TokenKind::Punctuation,
                text: seq![value],
                start,
                next,
            },
            Token::Whitespace(value, start, next) => TokenView {
                kind: TokenKind::Whitespace,
                text: value@,
                start,
                next,
            },
        }
    }
}

impl Clone for Token {
    fn clone(&self) -> (r: Self)
        ensures
            r == *self,
    {
        match self {
            Token::Identifier(value, start, next) => Token::Identifier(value.clone(), *start, *next),
            Token::Number(value, start, next) => Token::Number(value.clone(), *start, *next),
            Token::Operator(value, start, next) => Token::Operator(value.clone(), *start, *next),
            Token::Punctuation(value, start, next) => Token::Punctuation(*value, *start, *next),
            Token::Whitespace(value, start, next) => Token::Whitespace(value.clone(), *start, *next),
        }
    }
}

/// Whether the token's text is the given one. A character is asked for
/// before a string; with neither, every token passes.
pub fn is_equal_value(token: &Token, chr: Option<char>, str: Option<&str>) -> (r: bool)
    ensures
        r == match chr {
            Some(c) => token@.text == seq![c],
            None => match str {
                Some(s) => token@.text == s@,
                None => true,
            },
        },
{
    if let Some(c) = chr {
        char_string(c) == token.get_value()
    } else if let Some(s) = str {
        same_text(s, token.get_value().as_str())
    } else {
        true
    }
}

/// The text is a single character, and that character stands in `marks`.
pub open spec fn among_marks(text: Seq<char>, marks: Seq<char>) -> bool {
    exists|i: int| 0 <= i < marks.len() && text == seq![#[trigger] marks[i]]
}

/// The text is one of `texts`.
pub open spec fn among_texts(text: Seq<char>, texts: Seq<&str>) -> bool {
    exists|i: int| 0 <= i < texts.len() && text == (#[trigger] texts[i])@
}

/// Whether the token's text is one of the given ones. Characters are asked
/// for before strings; with neither list, every token passes.
pub fn is_one_of(token: &Token, chr: Option<Vec<char>>, str: Option<Vec<&str>>) -> (r: bool)
    ensures
        r == match chr {
            Some(cs) => among_marks(token@.text, cs@),
            None => match str {
                Some(ss) => among_texts(token@.text, ss@),
                None => true,
            },
        },
{
    if let Some(cs) = chr {
        let mut i: usize = 0;
        while i < cs.len()
            invariant
                i <= cs.len(),
                chr == Some(cs),
                forall|j: int| 0 <= j < i ==> token@.text != seq![cs@[j]],
            decreases cs.len() - i,
        {
            if is_equal_value(token, Some(cs[i]), None) {
                assert(token@.text == seq![cs@[i as int]]);
                return true;
            }
            i += 1;
        }
        false
    } else if let Some(ss) = str {
        let mut i: usize = 0;
        while i < ss.len()
            invariant
                i <= ss.len(),
                chr is None,
                str == Some(ss),
                forall|j: int| 0 <= j < i ==> token@.text != ss@[j]@,
            decreases ss.len() - i,
        {
            if is_equal_value(token, None, Some(ss[i])) {
                assert(token@.text == ss@[i as int]@);
                return true;
            }
            i += 1;
        }
        false
    } else {
        true
    }
}

impl Token {
    /// The token's kind.
    pub fn kind(&self) -> (r: TokenKind)
        ensures
            r == self@.kind,
    {
        match self {
            Token::Identifier(_, _, _) => TokenKind::Identifier,
            Token::Number(_, _, _) => TokenKind::Number,
            Token::Operator(_, _, _) => TokenKind::Operator,
            Token::Punctuation(_, _, _) => TokenKind::Punctuation,
            Token::Whitespace(_, _, _) => TokenKind::Whitespace,
        }
    }

    /// The text that the token matched.
    pub fn get_value(&self) -> (r: String)
        ensures
            r@ == self@.text,
    {
        match self {
            Token::Identifier(value, _, _) => value.clone(),
            Token::Number(value, _, _) => value.clone(),
            Token::Operator(value, _, _) => value.clone(),
            Token::Punctuation(value, _, _) => char_string(*value),
            Token::Whitespace(value, _, _) => value.clone(),
        }
    }

    /// An identifier, with the text `value` where one is given.
    pub fn is_identifier(&self, value: Option<&str>) -> (r: bool)
        ensures
            r == self@.is_a(TokenKind::Identifier, text_of(value)),
    {
        match self {
            Token::Identifier(_, _, _) => is_equal_value(self, None, value),
            _ => false,
        }
    }

    /// A number, with the text `value` where one is given.
    pub fn is_number(&self, value: Option<&str>) -> (r: bool)
        ensures
            r == self@.is_a(TokenKind::Number, text_of(value)),
    {
        match self {
            Token::Number(_, _, _) => is_equal_value(self, None, value),
            _ => false,
        }
    }

    /// An operator, with the text `value` where one is given.
    pub fn is_operator(&self, value: Option<&str>) -> (r: bool)
        ensures
            r == self@.is_a(TokenKind::Operator, text_of(value)),
    {
        match self {
            Token::Operator(_, _, _) => is_equal_value(self, None, value),
            _ => false,
        }
    }

    /// A punctuation mark, the mark `value` where one is given.
    pub fn is_punctuation(&self, value: Option<char>) -> (r: bool)
        ensures
            r == (self@.kind == TokenKind::Punctuation && (value matches Some(c) ==> self@.text
                == seq![c])),
    {
        match self {
            Token::Punctuation(_, _, _) => is_equal_value(self, value, None),
            _ => false,
        }
    }

    /// A punctuation mark that is one of the marks in `value`.
    pub fn is_one_of_punctuation(&self, value: Vec<char>) -> (r: bool)
        ensures
            r == (self@.kind == TokenKind::Punctuation && among_marks(self@.text, value@)),
    {
        match self {
            Token::Punctuation(_, _, _) => is_one_of(self, Some(value), None),
            _ => false,
        }
    }

    /// White space, with the text `value` where one is given.
    pub fn is_whitespace(&self, value: Option<&str>) -> (r: bool)
        ensures
            r == self@.is_a(TokenKind::Whitespace, text_of(value)),
    {
        match self {
            Token::Whitespace(_, _, _) => is_equal_value(self, None, value),
            _ => false,
        }
    }

    /// Appends the token's JSON object to `out`.
    pub fn push_json(&self, out: &mut String, with_position: bool)
        ensures
            final(out)@ == old(out)@ + self@.json(with_position),
    {
        out.append("{\"type\":\"");
        out.append(self.kind().label());
        out.append("\",\"value\":\"");
        push_escaped(out, self.get_value().as_str());
        out.append("\"");
        if with_position {
            out.append(",\"start\":");
            self.get_start().push_json(out);
            out.append(",\"next\":");
            self.get_next().push_json(out);
        }
        out.append("}");
        assert(out@ =~= old(out)@ + self@.json(with_position));
    }

    /// The token as `Kind(text)`.
    pub fn describe(&self) -> (r: String)
        ensures
            r@ == self@.label(),
    {
        let mut r = self.get_type();
        r.append("(");
        r.append(self.get_value().as_str());
        r.append(")");
        r
    }
}

impl AST for Token {
    open spec fn kind_name(&self) -> Seq<char> {
        self@.kind.name()
    }

    open spec fn spanned(&self) -> bool {
        true
    }

    open spec fn start(&self) -> Position {
        self@.start
    }

    open spec fn next(&self) -> Position {
        self@.next
    }

    open spec fn leaves(&self) -> Seq<TokenView> {
        seq![self@]
    }

    open spec fn populated(&self) -> bool {
        true
    }

    open spec fn json(&self, with_position: bool) -> Seq<char> {
        self@.json(with_position)
    }

    open spec fn answers(&self, label: Seq<char>) -> bool {
        self@.kind.name() == label
    }

    fn get_type(&self) -> (r: String) {
        self.kind().label().to_owned()
    }

    fn get_start(&self) -> (r: Position) {
        match self {
            Token::Identifier(_, start, _) => *start,
            Token::Number(_, start, _) => *start,
            Token::Operator(_, start, _) => *start,
            Token::Punctuation(_, start, _) => *start,
            Token::Whitespace(_, start, _) => *start,
        }
    }

    fn get_next(&self) -> (r: Position) {
        match self {
            Token::Identifier(_, _, next) => *next,
            Token::Number(_, _, next) => *next,
            Token::Operator(_, _, next) => *next,
            Token::Punctuation(_, _, next) => *next,
            Token::Whitespace(_, _, next) => *next,
        }
    }

    fn get_tokens(&self) -> (r: Vec<Token>) {
        let mut r: Vec<Token> = Vec::new();
        r.push(self.clone());
        assert(token_views(r@) =~= seq![self@]);
        r
    }

    fn get_json(&self, with_position: bool) -> (r: String) {
        let mut r = String::new();
        self.push_json(&mut r, with_position);
        assert(r@ =~= self@.json(with_position));
        r
    }

    fn is(&self, value: &str) -> (r: bool) {
        same_text(self.kind().label(), value)
    }
}

} // verus!
