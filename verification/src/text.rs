//! Character classes and the string building blocks that the lexer and the
//! renderers share.

use vstd::prelude::*;
use vstd::string::*;

verus! {

/// Whether `c` is alphabetic or numeric in the sense of Unicode.
pub uninterp spec fn alphanumeric(c: char) -> bool;

/// `char::is_alphanumeric`: the answer depends on the character alone, and
/// is the one that `alphanumeric` names.
#[verifier::external_body]
pub(crate) fn is_alphanumeric(c: char) -> (r: bool)
    ensures
        r == alphanumeric(c),
{
    c.is_alphanumeric()
}

/// `String::push`: appends one character at the end of the string and
/// leaves the characters before it as they were.
#[verifier::external_body]
pub(crate) fn push_char(s: &mut String, c: char)
    ensures
        final(s)@ == old(s)@.push(c),
{
    s.push(c);
}

/// An ASCII decimal digit.
pub open spec fn is_digit_char(c: char) -> bool {
    '0' <= c && c <= '9'
}

/// Decides `is_digit_char`.
pub fn is_digit(c: char) -> (r: bool)
    ensures
        r == is_digit_char(c),
{
    c >= '0' && c <= '9'
}

/// The character that writes the digit `d`, for `d` below ten.
pub open spec fn digit_char(d: nat) -> char {
    if d == 0 {
        '0'
    } else if d == 1 {
        '1'
    } else if d == 2 {
        '2'
    } else if d == 3 {
        '3'
    } else if d == 4 {
        '4'
    } else if d == 5 {
        '5'
    } else if d == 6 {
        '6'
    } else if d == 7 {
        '7'
    } else if d == 8 {
        '8'
    } else {
        '9'
    }
}

/// The decimal notation of `n`, without sign or leading zeros.
pub open spec fn decimal(n: nat) -> Seq<char>
    decreases n,
{
    if n < 10 {
        seq![digit_char(n)]
    } else {
        decimal(n / 10).push(digit_char(n % 10))
    }
}

fn digit(d: usize) -> (c: char)
    requires
        d < 10,
    ensures
        c == digit_char(d as nat),
{
    if d == 0 {
        '0'
    } else if d == 1 {
        '1'
    } else if d == 2 {
        '2'
    } else if d == 3 {
        '3'
    } else if d == 4 {
        '4'
    } else if d == 5 {
        '5'
    } else if d == 6 {
        '6'
    } else if d == 7 {
        '7'
    } else if d == 8 {
        '8'
    } else {
        '9'
    }
}

/// Appends the decimal notation of `n` to `out`.
pub fn push_decimal(out: &mut String, n: usize)
    ensures
        final(out)@ == old(out)@ + decimal(n as nat),
    decreases n,
{
    if n >= 10 {
        push_decimal(out, n / 10);
    }
    push_char(out, digit(n % 10));
}

/// What one character becomes inside a quoted value: line breaks become
/// the two characters `\n`, a tab becomes `\t`, and a double quote gets a
/// backslash in front; every other character stands for itself.
pub open spec fn escaped_char(c: char) -> Seq<char> {
    if c == '\n' || c == '\r' {
        seq!['\\', 'n']
    } else if c == '\t' {
        seq!['\\', 't']
    } else if c == '"' {
        seq!['\\', '"']
    } else {
        seq![c]
    }
}

/// The text `s` as it is written inside a quoted value. A carriage return
/// directly followed by a line feed counts as one line break.
pub open spec fn escaped(s: Seq<char>) -> Seq<char>
    decreases s.len(),
{
    if s.len() == 0 {
        Seq::empty()
    } else if s[0] == '\r' && s.len() > 1 && s[1] == '\n' {
        seq!['\\', 'n'] + escaped(s.skip(2))
    } else {
        escaped_char(s[0]) + escaped(s.skip(1))
    }
}

/// The characters of `s`, one by one.
pub fn chars_of(s: &str) -> (v: Vec<char>)
    ensures
        v@ == s@,
{
    let mut v: Vec<char> = Vec::new();
    for c in it: s.chars()
        invariant
            v@ == it.seq().take(it.index() as int),
            it.seq() == s@,
    {
        v.push(c);
    }
    v
}

/// Whether `c` occurs in `s`.
pub fn text_contains(s: &str, c: char) -> (r: bool)
    ensures
        r == s@.contains(c),
{
    for x in it: s.chars()
        invariant
            it.seq() == s@,
            forall|j: int| 0 <= j < it.index() ==> s@[j] != c,
    {
        if x == c {
            assert(s@[it.index() as int] == c);
            return true;
        }
    }
    false
}

/// Whether `s` ends with `c`.
pub fn text_ends_with(s: &str, c: char) -> (r: bool)
    ensures
        r == (s@.len() > 0 && s@.last() == c),
{
    let mut last: Option<char> = None;
    for x in it: s.chars()
        invariant
            it.seq() == s@,
            last == if it.index() == 0 {
                None
            } else {
                Some(s@[it.index() - 1])
            },
    {
        last = Some(x);
    }
    match last {
        Some(x) => x == c,
        None => false,
    }
}

/// A string of the single character `c`.
pub fn char_string(c: char) -> (r: String)
    ensures
        r@ == seq![c],
{
    let mut r = String::new();
    push_char(&mut r, c);
    r
}

/// Whether two texts hold the same characters.
pub fn same_text(a: &str, b: &str) -> (r: bool)
    ensures
        r == (a@ == b@),
{
    a.to_owned() == b.to_owned()
}

/// Appends `s`, written as inside a quoted value, to `out`.
pub fn push_escaped(out: &mut String, s: &str)
    ensures
        final(out)@ == old(out)@ + escaped(s@),
{
    let chars = chars_of(s);
    let mut i: usize = 0;
    assert(s@.skip(0) == s@);
    while i < chars.len()
        invariant
            i <= chars.len(),
            chars@ == s@,
            out@ + escaped(s@.skip(i as int)) == old(out)@ + escaped(s@),
        decreases chars.len() - i,
    {
        let c = chars[i];
        let ghost rest = s@.skip(i as int);
        assert(rest.len() > 0 && rest[0] == c);
        if c == '\r' && i + 1 < chars.len() && chars[i + 1] == '\n' {
            assert(rest[1] == '\n');
            assert(rest.skip(2) == s@.skip(i + 2));
            assert(out@.push('\\').push('n') + escaped(rest.skip(2)) == out@ + escaped(rest));
            push_char(out, '\\');
            push_char(out, 'n');
            i += 2;
        } else {
            assert(rest.skip(1) == s@.skip(i + 1));
            assert(i + 1 < chars.len() ==> rest[1] == chars[i + 1]);
            if c == '\n' || c == '\r' {
                assert(out@.push('\\').push('n') + escaped(rest.skip(1)) == out@ + escaped(rest));
                push_char(out, '\\');
                push_char(out, 'n');
            } else if c == '\t' {
                assert(out@.push('\\').push('t') + escaped(rest.skip(1)) == out@ + escaped(rest));
                push_char(out, '\\');
                push_char(out, 't');
            } else if c == '"' {
                assert(out@.push('\\').push('"') + escaped(rest.skip(1)) == out@ + escaped(rest));
                push_char(out, '\\');
                push_char(out, '"');
            } else {
                assert(out@.push(c) + escaped(rest.skip(1)) == out@ + escaped(rest));
                push_char(out, c);
            }
            i += 1;
        }
    }
    assert(s@.skip(i as int).len() == 0);
}

} // verus!
