//! Failures: what went wrong, and the calls that the failure passed through.

use vstd::prelude::*;
use vstd::string::*;
use either::Either;
use crate::ast::AST;
use crate::node::{copy_item, item_view, ItemView, NodeItem};
use crate::position::Position;
use crate::text::push_char;
use crate::token::{Token, TokenView};

verus! {

/// What an error says.
pub enum ErrorView {
    EOF,
    NoBlockEnd(char, Position),
    UnexpectedCharacter(char, char, Position),
    UnexpectedEOF(Position),
    UnexpectedItem(ItemView),
    UnexpectedToken(TokenView),
    UnprocessableCharacter(char, Position),
}

impl ErrorView {
    /// The error can be put into words: an unexpected node must have a span
    /// to be reported at.
    pub open spec fn describable(self) -> bool {
        self matches ErrorView::UnexpectedItem(item) ==> item.spanned()
    }

    /// The sentence that reports an unexpected token.
    pub open spec fn unexpected_token(t: TokenView) -> Seq<char> {
        "Unexpected token "@ + t.label() + " in "@ + t.start.label() + "."@
    }

    /// The error in words.
    pub open spec fn message(self) -> Seq<char> {
        match self {
            ErrorView::EOF => "End of file"@,
            ErrorView::NoBlockEnd(c, pos) => "Block '"@ + seq![c] + "' is not ended in "@
                + pos.label(),
            ErrorView::UnexpectedCharacter(expected, value, pos) => "Expected token '"@
                + seq![expected] + "' got '"@ + seq![value] + "' in "@ + pos.label() + "."@,
            ErrorView::UnexpectedEOF(pos) => "Unexpected end of file in "@ + pos.label() + "."@,
            ErrorView::UnexpectedItem(item) => match item {
                ItemView::Token(t) => ErrorView::unexpected_token(t),
                ItemView::Node(n) => "Unexpected node "@ + n.label() + " in "@
                    + n.start().label() + "."@,
            },
            ErrorView::UnexpectedToken(t) => ErrorView::unexpected_token(t),
            ErrorView::UnprocessableCharacter(c, pos) => "Can't handle character "@ + seq![c]
                + " in "@ + pos.label() + "."@,
        }
    }
}

/// The kinds of failure, each with what is needed to report it.
#[derive(Debug)]
pub enum Error {
    /// The token stream ended where a token was needed.
    EOF,
    /// A bracketed construct opened by the character was not closed.
    NoBlockEnd(char, Position),
    /// One character was expected and another was found.
    UnexpectedCharacter(char, char, Position),
    /// The text ended where a character was needed.
    UnexpectedEOF(Position),
    /// An item that the grammar does not allow here.
    UnexpectedItem(NodeItem),
    /// A token that the grammar does not allow here.
    UnexpectedToken(Token),
    /// A character that no lexical rule accepts.
    UnprocessableCharacter(char, Position),
}

impl View for Error {
    type V = ErrorView;

    open spec fn view(&self) -> ErrorView {
        match *self {
            Error::EOF => ErrorView::EOF,
            Error::NoBlockEnd(c, pos) => ErrorView::NoBlockEnd(c, pos),
            Error::UnexpectedCharacter(expected, value, pos) => ErrorView::UnexpectedCharacter(
                expected,
                value,
                pos,
            ),
            Error::UnexpectedEOF(pos) => ErrorView::UnexpectedEOF(pos),
            Error::UnexpectedItem(item) => ErrorView::UnexpectedItem(item_view(item)),
            Error::UnexpectedToken(token) => ErrorView::UnexpectedToken(token@),
            Error::UnprocessableCharacter(c, pos) => ErrorView::UnprocessableCharacter(c, pos),
        }
    }
}

impl Clone for Error {
    fn clone(&self) -> (r: Self)
        ensures
            r@ == self@,
    {
        match self {
            Error::EOF => Error::EOF,
            Error::NoBlockEnd(c, pos) => Error::NoBlockEnd(*c, *pos),
            Error::UnexpectedCharacter(expected, value, pos) => Error::UnexpectedCharacter(
                *expected,
                *value,
                *pos,
            ),
            Error::UnexpectedEOF(pos) => Error::UnexpectedEOF(*pos),
            Error::UnexpectedItem(item) => Error::UnexpectedItem(copy_item(item)),
            Error::UnexpectedToken(token) => Error::UnexpectedToken(token.clone()),
            Error::UnprocessableCharacter(c, pos) => Error::UnprocessableCharacter(*c, *pos),
        }
    }
}

fn push_unexpected_token(out: &mut String, token: &Token)
    ensures
        final(out)@ == old(out)@ + ErrorView::unexpected_token(token@),
{
    out.append("Unexpected token ");
    out.append(token.describe().as_str());
    out.append(" in ");
    token.get_start().push_label(out);
    out.append(".");
    assert(out@ =~= old(out)@ + ErrorView::unexpected_token(token@));
}

impl Error {
    /// Appends the error, in words, to `out`.
    pub fn push_message(&self, out: &mut String)
        requires
            self@.describable(),
        ensures
            final(out)@ == old(out)@ + self@.message(),
    {
        match self {
            Error::EOF => {
                out.append("End of file");
            },
            Error::NoBlockEnd(c, pos) => {
                out.append("Block '");
                push_char(out, *c);
                out.append("' is not ended in ");
                pos.push_label(out);
            },
            Error::UnexpectedCharacter(expected, value, pos) => {
                out.append("Expected token '");
                push_char(out, *expected);
                out.append("' got '");
                push_char(out, *value);
                out.append("' in ");
                pos.push_label(out);
                out.append(".");
            },
            Error::UnexpectedEOF(pos) => {
                out.append("Unexpected end of file in ");
                pos.push_label(out);
                out.append(".");
            },
            Error::UnexpectedItem(item) => match item {
                Either::Left(token) => {
                    push_unexpected_token(out, token);
                },
                Either::Right(node) => {
                    out.append("Unexpected node ");
                    out.append(node.describe().as_str());
                    out.append(" in ");
                    node.get_start().push_label(out);
                    out.append(".");
                },
            },
            Error::UnexpectedToken(token) => {
                push_unexpected_token(out, token);
            },
            Error::UnprocessableCharacter(c, pos) => {
                out.append("Can't handle character ");
                push_char(out, *c);
                out.append(" in ");
                pos.push_label(out);
                out.append(".");
            },
        }
        assert(out@ =~= old(out)@ + self@.message());
    }

    /// The error in words.
    pub fn describe(&self) -> (r: String)
        requires
            self@.describable(),
        ensures
            r@ == self@.message(),
    {
        let mut r = String::new();
        self.push_message(&mut r);
        assert(r@ =~= self@.message());
        r
    }
}

/// The frames of a trace, each on a line of its own and each after a line
/// break.
pub open spec fn trace_lines(trace: Seq<Seq<char>>) -> Seq<char>
    decreases trace.len(),
{
    if trace.len() == 0 {
        Seq::empty()
    } else {
        trace_lines(trace.drop_last()) + "\n"@ + trace.last()
    }
}

/// What an exception says: the error, and the frames it passed through,
/// the origin first.
pub struct ExceptionView {
    pub error: ErrorView,
    pub trace: Seq<Seq<char>>,
}

impl ExceptionView {
    /// An exception that starts at the frame `method`.
    pub open spec fn create(error: ErrorView, method: Seq<char>) -> ExceptionView {
        ExceptionView { error, trace: seq![method] }
    }

    /// The same error, one frame further out.
    pub open spec fn relay(self, method: Seq<char>) -> ExceptionView {
        ExceptionView { error: self.error, trace: self.trace.push(method) }
    }

    /// The error in words, an empty line, and the frames of the trace.
    pub open spec fn report(self) -> Seq<char> {
        self.error.message() + "\n"@ + trace_lines(self.trace)
    }
}

/// An error on its way out, with the trace of the calls that passed it on.
#[derive(Debug)]
pub struct Exception {
    pub error: Error,
    trace: Vec<String>,
}

/// The texts of `frames`, in the same order.
pub open spec fn frame_views(frames: Seq<String>) -> Seq<Seq<char>> {
    frames.map_values(|f: String| f@)
}

impl Exception {
    spec fn frames(&self) -> Seq<Seq<char>> {
        frame_views(self.trace@)
    }
}

impl View for Exception {
    type V = ExceptionView;

    closed spec fn view(&self) -> ExceptionView {
        ExceptionView { error: self.error@, trace: self.frames() }
    }
}

impl Clone for Exception {
    fn clone(&self) -> (r: Self)
        ensures
            r@ == self@,
    {
        let r = Exception { error: self.error.clone(), trace: self.get_trace() };
        r
    }
}

impl Exception {
    /// A failure that starts in `method`.
    pub fn create(error: Error, method: &str) -> (r: Self)
        ensures
            r@ == ExceptionView::create(error@, method@),
    {
        let mut trace: Vec<String> = Vec::new();
        trace.push(method.to_owned());
        let r = Self { error, trace };
        assert(r.frames() =~= seq![method@]);
        r
    }

    /// The failure as `method` passes it on: the error stays as it is and
    /// the trace grows by one frame at its end.
    pub fn relay(exception: Self, method: &str) -> (r: Self)
        ensures
            r@ == exception@.relay(method@),
    {
        let mut trace = exception.trace;
        let ghost before = trace@;
        trace.push(method.to_owned());
        let r = Self { error: exception.error, trace };
        assert(r.frames() =~= frame_views(before).push(method@));
        r
    }

    /// The error that the exception carries.
    pub fn get_error(&self) -> (r: &Error)
        ensures
            r@ == self@.error,
    {
        &self.error
    }

    /// A copy of the trace, the origin first.
    pub fn get_trace(&self) -> (r: Vec<String>)
        ensures
            frame_views(r@) == self@.trace,
    {
        let mut r: Vec<String> = Vec::new();
        let mut i: usize = 0;
        while i < self.trace.len()
            invariant
                i <= self.trace.len(),
                r@.len() == i,
                forall|j: int| 0 <= j < i ==> r@[j]@ == self.trace@[j]@,
            decreases self.trace.len() - i,
        {
            r.push(self.trace[i].clone());
            i += 1;
        }
        assert(frame_views(r@) =~= frame_views(self.trace@));
        r
    }

    /// The error in words, then the trace, a frame to a line.
    pub fn describe(&self) -> (r: String)
        requires
            self@.error.describable(),
        ensures
            r@ == self@.report(),
    {
        let mut r = self.error.describe();
        r.append("\n");
        let ghost head = r@;
        let mut i: usize = 0;
        assert(self.frames().take(0) =~= Seq::empty());
        while i < self.trace.len()
            invariant
                i <= self.trace.len(),
                self.frames().len() == self.trace@.len(),
                r@ == head + trace_lines(self.frames().take(i as int)),
            decreases self.trace.len() - i,
        {
            let ghost frames = self.frames();
            assert(frames.take(i + 1).drop_last() =~= frames.take(i as int));
            assert(frames.take(i + 1).last() == self.trace@[i as int]@);
            r.append("\n");
            r.append(self.trace[i].as_str());
            assert(r@ =~= head + trace_lines(frames.take(i + 1)));
            i += 1;
        }
        assert(self.frames().take(i as int) =~= self.frames());
        r
    }
}

} // verus!
