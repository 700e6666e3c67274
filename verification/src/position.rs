//! Source positions: a cursor with the line and column it has reached.

use vstd::prelude::*;
use vstd::string::*;
use crate::text::{decimal, push_decimal};

verus! {

/// A place in the source text: the number of characters before it, and the
/// line and column that those characters lead to. All three count from zero.
#[derive(Debug, Copy, Clone, PartialEq, Eq, Structural)]
pub struct Position {
    pub cursor: usize,
    pub line: usize,
    pub column: usize,
}

impl Position {
    /// The position before the first character.
    pub open spec fn origin() -> Position {
        Position { cursor: 0, line: 0, column: 0 }
    }

    /// The position after one more character: a line feed opens a new line
    /// at column zero, any other character moves one column to the right.
    pub open spec fn step(self, c: char) -> Position {
        if c == '\n' {
            Position {
                cursor: (self.cursor + 1) as usize,
                line: (self.line + 1) as usize,
                column: 0,
            }
        } else {
            Position {
                cursor: (self.cursor + 1) as usize,
                line: self.line,
                column: (self.column + 1) as usize,
            }
        }
    }

    /// The position after the characters of `s`, read from left to right.
    pub open spec fn advance(self, s: Seq<char>) -> Position
        decreases s.len(),
    {
        if s.len() == 0 {
            self
        } else {
            self.advance(s.drop_last()).step(s.last())
        }
    }

    /// No counter runs ahead of the cursor.
    pub open spec fn consistent(self) -> bool {
        self.line <= self.cursor && self.column <= self.cursor
    }

    /// The object `{"cursor":..,"line":..,"column":..}`.
    pub open spec fn json(self) -> Seq<char> {
        "{\"cursor\":"@ + decimal(self.cursor as nat) + ",\"line\":"@ + decimal(self.line as nat)
            + ",\"column\":"@ + decimal(self.column as nat) + "}"@
    }

    /// Line and column, with a colon between them.
    pub open spec fn label(self) -> Seq<char> {
        decimal(self.line as nat) + ":"@ + decimal(self.column as nat)
    }

    /// The position before the first character.
    pub fn start() -> (p: Position)
        ensures
            p == Position::origin(),
    {
        Position { cursor: 0, line: 0, column: 0 }
    }

    /// The position after the character `c`.
    pub fn next(&self, c: char) -> (p: Position)
        requires
            self.cursor < usize::MAX,
            self.line < usize::MAX,
            self.column < usize::MAX,
        ensures
            p == self.step(c),
    {
        if c == '\n' {
            Position { cursor: self.cursor + 1, line: self.line + 1, column: 0 }
        } else {
            Position { cursor: self.cursor + 1, line: self.line, column: self.column + 1 }
        }
    }

    /// Appends `self.json()` to `out`.
    pub fn push_json(&self, out: &mut String)
        ensures
            final(out)@ == old(out)@ + self.json(),
    {
        out.append("{\"cursor\":");
        push_decimal(out, self.cursor);
        out.append(",\"line\":");
        push_decimal(out, self.line);
        out.append(",\"column\":");
        push_decimal(out, self.column);
        out.append("}");
        assert(out@ =~= old(out)@ + self.json());
    }

    /// The position as a JSON object.
    pub fn get_json(&self) -> (r: String)
        ensures
            r@ == self.json(),
    {
        let mut r = String::new();
        self.push_json(&mut r);
        assert(r@ =~= self.json());
        r
    }

    /// Appends `self.label()` to `out`.
    pub fn push_label(&self, out: &mut String)
        ensures
            final(out)@ == old(out)@ + self.label(),
    {
        push_decimal(out, self.line);
        out.append(":");
        push_decimal(out, self.column);
        assert(out@ =~= old(out)@ + self.label());
    }

    /// The position as `line:column`.
    pub fn describe(&self) -> (r: String)
        ensures
            r@ == self.label(),
    {
        let mut r = String::new();
        self.push_label(&mut r);
        assert(r@ =~= self.label());
        r
    }
}

/// A step moves forward: the cursor grows by one, the line never goes
/// back, and the column grows by one or falls to zero with a new line.
pub proof fn law_step_moves_forward(p: Position, c: char)
    requires
        p.cursor < usize::MAX,
        p.consistent(),
    ensures
        p.step(c).cursor == p.cursor + 1,
        p.step(c).line >= p.line,
        p.step(c).line == p.line ==> p.step(c).column == p.column + 1,
        p.step(c).line != p.line ==> p.step(c).line == p.line + 1 && p.step(c).column == 0,
        p.step(c).consistent(),
{
}

/// Reading `s` and then `c` is one step beyond reading `s`.
pub proof fn lemma_advance_push(p: Position, s: Seq<char>, c: char)
    ensures
        p.advance(s.push(c)) == p.advance(s).step(c),
{
    assert(s.push(c).drop_last() =~= s);
}

/// Reading `a` and then `b` is reading `a + b`.
pub proof fn lemma_advance_concat(p: Position, a: Seq<char>, b: Seq<char>)
    ensures
        p.advance(a + b) == p.advance(a).advance(b),
    decreases b.len(),
{
    if b.len() == 0 {
        assert(a + b =~= a);
    } else {
        lemma_advance_concat(p, a, b.drop_last());
        assert((a + b).drop_last() =~= a + b.drop_last());
    }
}

/// From the origin the cursor counts the characters read, and line and
/// column never exceed it.
pub proof fn lemma_advance_from_origin(s: Seq<char>)
    requires
        s.len() <= usize::MAX,
    ensures
        Position::origin().advance(s).cursor == s.len(),
        Position::origin().advance(s).consistent(),
    decreases s.len(),
{
    if s.len() > 0 {
        lemma_advance_from_origin(s.drop_last());
    }
}

/// On the first line the column is the cursor: where `s` holds no line
/// feed, both count the characters of `s`.
pub proof fn lemma_first_line(s: Seq<char>)
    requires
        s.len() <= usize::MAX,
        forall|i: int| 0 <= i < s.len() ==> s[i] != '\n',
    ensures
        Position::origin().advance(s) == (Position {
            cursor: s.len() as usize,
            line: 0,
            column: s.len() as usize,
        }),
    decreases s.len(),
{
    if s.len() > 0 {
        lemma_first_line(s.drop_last());
    }
}

} // verus!
