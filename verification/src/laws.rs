//! What holds of every text and of every sequence of tokens.

use vstd::prelude::*;
use crate::error::{ErrorView, ExceptionView};
use crate::input::{lemma_run_unique, number_rule, run};
use crate::lexer::{first_token, lemma_first_token, lex, lexeme, next_token, starts_number};
use crate::node::{joined_text, leaves_of, ItemView};
use crate::parser::{
    additive, additive_rest, ahead, binary, calcul, group, multiplicative, multiplicative_rest,
    muted, primary, Parsed,
};
use crate::position::{lemma_advance_concat, lemma_first_line, Position};
use crate::text::is_digit_char;
use crate::token::{TokenKind, TokenView};

verus! {

/// The text of a token and then of further tokens is the text of all of
/// them.
pub proof fn lemma_joined_text_front(t: TokenView, ts: Seq<TokenView>)
    ensures
        joined_text(seq![t] + ts) == t.text + joined_text(ts),
    decreases ts.len(),
{
    if ts.len() == 0 {
        assert(seq![t] + ts =~= seq![t]);
        assert(seq![t].drop_last() =~= Seq::<TokenView>::empty());
        assert(joined_text(Seq::<TokenView>::empty()) =~= Seq::<char>::empty());
        assert(joined_text(seq![t]) =~= t.text);
        assert(t.text + joined_text(ts) =~= t.text);
    } else {
        lemma_joined_text_front(t, ts.drop_last());
        assert((seq![t] + ts).drop_last() =~= seq![t] + ts.drop_last());
        assert((seq![t] + ts).last() == ts.last());
        assert(joined_text(seq![t] + ts) =~= t.text + joined_text(ts));
    }
}

/// The tokens of a text spell it out: their texts, one after the other,
/// are the text, and no token is empty.
pub proof fn law_tokens_spell_source(s: Seq<char>, start: Position)
    ensures
        lex(s, start) matches Ok(ts) ==> {
            &&& joined_text(ts) == s
            &&& forall|k: int| 0 <= k < ts.len() ==> (#[trigger] ts[k]).text.len() > 0
        },
    decreases s.len(),
{
    if s.len() > 0 {
        lemma_first_token(s, start);
        if let Ok(t) = next_token(s, start) {
            let rest = s.skip(t.text.len() as int);
            law_tokens_spell_source(rest, t.next);
            if let Ok(ts) = lex(rest, t.next) {
                lemma_joined_text_front(t, ts);
                assert(t.text + rest =~= s);
            }
        }
    }
}

/// The spans of `ts` follow one another without gap from `start` on: each
/// token starts where the one before it ends, the first at `start`, and
/// ends where its own text leads to.
pub open spec fn contiguous(ts: Seq<TokenView>, start: Position) -> bool
    decreases ts.len(),
{
    ts.len() == 0 || {
        &&& ts[0].start == start
        &&& ts[0].next == start.advance(ts[0].text)
        &&& contiguous(ts.drop_first(), ts[0].next)
    }
}

/// The spans of the tokens of a text follow one another without gap, from
/// the start of the text on.
pub proof fn law_spans_are_contiguous(s: Seq<char>, start: Position)
    ensures
        lex(s, start) matches Ok(ts) ==> contiguous(ts, start),
    decreases s.len(),
{
    if s.len() > 0 {
        lemma_first_token(s, start);
        if let Ok(t) = next_token(s, start) {
            let rest = s.skip(t.text.len() as int);
            law_spans_are_contiguous(rest, t.next);
            if let Ok(tail) = lex(rest, t.next) {
                assert((seq![t] + tail).drop_first() =~= tail);
            }
        }
    }
}

/// Lexing fails only at a character that no rule accepts: the error names
/// a character of the text and the position that the text before it
/// leads to.
pub proof fn law_failure_names_the_character(s: Seq<char>, start: Position)
    ensures
        lex(s, start) matches Err(e) ==> {
            &&& e.trace == seq!["Lexer::next"@, "Lexer::read"@]
            &&& exists|n: int|
                0 <= n < s.len() && e.error == ErrorView::UnprocessableCharacter(
                    #[trigger] s[n],
                    start.advance(s.take(n)),
                ) && first_token(s.skip(n), start.advance(s.take(n))) is None
        },
    decreases s.len(),
{
    if s.len() > 0 {
        lemma_first_token(s, start);
        match next_token(s, start) {
            Err(e) => {
                assert(e.relay("Lexer::read"@).trace =~= seq!["Lexer::next"@, "Lexer::read"@]);
                assert(s.take(0) =~= Seq::<char>::empty());
                assert(s.skip(0) =~= s);
                assert(e.error == ErrorView::UnprocessableCharacter(s[0], start.advance(s.take(0))));
            },
            Ok(t) => {
                let m = t.text.len() as int;
                let rest = s.skip(m);
                law_failure_names_the_character(rest, t.next);
                if let Err(e) = lex(rest, t.next) {
                    let n = choose|n: int|
                        0 <= n < rest.len() && e.error == ErrorView::UnprocessableCharacter(
                            #[trigger] rest[n],
                            t.next.advance(rest.take(n)),
                        ) && first_token(rest.skip(n), t.next.advance(rest.take(n))) is None;
                    lemma_advance_concat(start, t.text, rest.take(n));
                    assert(t.text + rest.take(n) =~= s.take(m + n));
                    assert(rest.skip(n) =~= s.skip(m + n));
                    assert(rest[n] == s[m + n]);
                }
            },
        }
    }
}

/// A text of digits and nothing else is one number: a single token, whose
/// span covers the whole text.
pub proof fn law_digits_are_one_number(s: Seq<char>)
    requires
        0 < s.len() <= usize::MAX,
        forall|i: int| 0 <= i < s.len() ==> is_digit_char(#[trigger] s[i]),
    ensures
        lex(s, Position::origin()) == Ok::<_, ExceptionView>(
            seq![
                TokenView {
                    kind: TokenKind::Number,
                    text: s,
                    start: Position::origin(),
                    next: Position { cursor: s.len() as usize, line: 0, column: s.len() as usize },
                },
            ],
        ),
{
    let start = Position::origin();
    assert(is_digit_char(s[0]));
    assert(starts_number(s));
    assert forall|i: int| 0 <= i < s.len() implies number_rule()(#[trigger] s[i], s.take(i)) by {
        assert(is_digit_char(s[i]));
    }
    lemma_run_unique(number_rule(), s, s.len());
    assert(s.take(s.len() as int) =~= s);
    assert(run(number_rule(), s) == s);
    assert forall|i: int| 0 <= i < s.len() implies s[i] != '\n' by {
        assert(is_digit_char(s[i]));
    }
    lemma_first_line(s);
    let t = lexeme(TokenKind::Number, s, start);
    assert(first_token(s, start) == Some(t));
    assert(s.skip(s.len() as int) =~= Seq::<char>::empty());
    assert(lex(s.skip(s.len() as int), t.next) == Ok::<_, ExceptionView>(Seq::<TokenView>::empty()));
    assert(seq![t] + Seq::<TokenView>::empty() =~= seq![t]);
}

/// The tokens of `ts` that a parse keeps, in order: all but white space.
pub open spec fn visible(ts: Seq<TokenView>) -> Seq<TokenView>
    decreases ts.len(),
{
    if ts.len() == 0 {
        Seq::empty()
    } else if ts.last().kind != TokenKind::Whitespace {
        visible(ts.drop_last()).push(ts.last())
    } else {
        visible(ts.drop_last())
    }
}

/// The visible tokens of two sequences in a row are those of the first
/// and then those of the second.
pub proof fn lemma_visible_concat(a: Seq<TokenView>, b: Seq<TokenView>)
    ensures
        visible(a + b) == visible(a) + visible(b),
    decreases b.len(),
{
    if b.len() == 0 {
        assert(a + b =~= a);
        assert(visible(a) + visible(b) =~= visible(a));
    } else {
        lemma_visible_concat(a, b.drop_last());
        assert((a + b).drop_last() =~= a + b.drop_last());
        assert((a + b).last() == b.last());
        assert(visible(a + b) =~= visible(a) + visible(b));
    }
}

/// Where no token is white space, every token is visible.
pub proof fn lemma_visible_all(ts: Seq<TokenView>)
    requires
        forall|k: int| 0 <= k < ts.len() ==> (#[trigger] ts[k]).kind != TokenKind::Whitespace,
    ensures
        visible(ts) == ts,
    decreases ts.len(),
{
    if ts.len() > 0 {
        lemma_visible_all(ts.drop_last());
        assert(ts.drop_last().push(ts.last()) =~= ts);
    }
}

proof fn lemma_visible_split(ts: Seq<TokenView>, a: int, b: int, c: int)
    requires
        0 <= a <= b <= c <= ts.len(),
    ensures
        visible(ts.subrange(a, c)) == visible(ts.subrange(a, b)) + visible(ts.subrange(b, c)),
{
    lemma_visible_concat(ts.subrange(a, b), ts.subrange(b, c));
    assert(ts.subrange(a, b) + ts.subrange(b, c) =~= ts.subrange(a, c));
}

proof fn lemma_visible_one(ts: Seq<TokenView>, k: int)
    requires
        0 <= k < ts.len(),
    ensures
        visible(ts.subrange(k, k + 1)) == if ts[k].kind != TokenKind::Whitespace {
            seq![ts[k]]
        } else {
            Seq::empty()
        },
{
    let one = ts.subrange(k, k + 1);
    assert(one.last() == ts[k]);
    assert(one.drop_last() =~= Seq::<TokenView>::empty());
    assert(visible(Seq::<TokenView>::empty()) =~= Seq::<TokenView>::empty());
    assert(Seq::<TokenView>::empty().push(ts[k]) =~= seq![ts[k]]);
}

proof fn lemma_muted_run(ts: Seq<TokenView>, i: nat)
    requires
        i <= ts.len(),
    ensures
        i + muted(ts, i) <= ts.len(),
        visible(ts.subrange(i as int, (i + muted(ts, i)) as int)) == Seq::<TokenView>::empty(),
        i + muted(ts, i) < ts.len() ==> ts[(i + muted(ts, i)) as int].kind
            != TokenKind::Whitespace,
    decreases ahead(ts, i),
{
    if i < ts.len() && ts[i as int].kind == TokenKind::Whitespace {
        lemma_muted_run(ts, i + 1);
        lemma_visible_one(ts, i as int);
        lemma_visible_split(ts, i as int, (i + 1) as int, (i + muted(ts, i)) as int);
    } else {
        assert(ts.subrange(i as int, i as int) =~= Seq::<TokenView>::empty());
    }
}

proof fn lemma_binary(kind: Seq<char>, left: ItemView, op: TokenView, right: ItemView)
    ensures
        binary(kind, left, op, right).leaves() == left.leaves() + seq![op] + right.leaves(),
        binary(kind, left, op, right).populated() == (left.populated() && right.populated()),
{
    let items = seq![left, ItemView::Token(op), right];
    reveal_with_fuel(leaves_of, 4);
    assert(leaves_of(items, 3) =~= left.leaves() + seq![op] + right.leaves());
    if left.populated() && right.populated() {
        assert forall|i: int| 0 <= i < items.len() implies (#[trigger] items[i]).populated() by {}
    }
    if binary(kind, left, op, right).populated() {
        assert(items[0].populated());
        assert(items[2].populated());
    }
}

proof fn lemma_group(open: TokenView, inner: ItemView, close: TokenView)
    ensures
        group(open, inner, close).leaves() == seq![open] + inner.leaves() + seq![close],
        group(open, inner, close).populated() == inner.populated(),
{
    let items = seq![ItemView::Token(open), inner, ItemView::Token(close)];
    reveal_with_fuel(leaves_of, 4);
    assert(leaves_of(items, 3) =~= seq![open] + inner.leaves() + seq![close]);
    if inner.populated() {
        assert forall|i: int| 0 <= i < items.len() implies (#[trigger] items[i]).populated() by {}
    }
    if group(open, inner, close).populated() {
        assert(items[1].populated());
    }
}

/// What holds of the outcome `r` of a production that started at the
/// place `i` with the tokens `before` already under its left operand:
/// a failure is the end of the tokens or an unexpected token; a success
/// stays inside the tokens, and the tokens under its item are `before`
/// and then the visible tokens among those it consumed, in order.
pub open spec fn faithful(
    ts: Seq<TokenView>,
    i: nat,
    before: Seq<TokenView>,
    r: Result<Parsed, ExceptionView>,
) -> bool {
    match r {
        Err(e) => e.error is EOF || e.error is UnexpectedToken,
        Ok(p) => {
            &&& i + p.used <= ts.len()
            &&& p.item.leaves() == before + visible(ts.subrange(i as int, (i + p.used) as int))
        },
    }
}

/// The item of a success has no empty node.
pub open spec fn solid(r: Result<Parsed, ExceptionView>) -> bool {
    r matches Ok(p) ==> p.item.populated()
}

/// `Primary` is faithful, builds no empty node, and consumes a token.
pub proof fn lemma_primary(ts: Seq<TokenView>, i: nat)
    requires
        i <= ts.len(),
    ensures
        faithful(ts, i, Seq::empty(), primary(ts, i)),
        solid(primary(ts, i)),
        primary(ts, i) matches Ok(p) ==> p.used > 0,
    decreases ahead(ts, i), 0nat,
{
    lemma_muted_run(ts, i);
    let j = i + muted(ts, i);
    let none = Seq::<TokenView>::empty();
    if j < ts.len() {
        lemma_visible_one(ts, j as int);
        lemma_visible_split(ts, i as int, j as int, (j + 1) as int);
        if ts[j as int].kind == TokenKind::Number {
            assert(none + (none + seq![ts[j as int]]) =~= seq![ts[j as int]]);
        } else if ts[j as int].is_mark('(') {
            lemma_additive(ts, j + 1);
            if let Ok(p) = additive(ts, j + 1) {
                let k = j + 1 + p.used;
                if k < ts.len() && ts[k as int].is_mark(')') {
                    lemma_group(ts[j as int], p.item, ts[k as int]);
                    lemma_visible_one(ts, k as int);
                    lemma_visible_split(ts, i as int, (j + 1) as int, (k + 1) as int);
                    lemma_visible_split(ts, (j + 1) as int, k as int, (k + 1) as int);
                    let inner = visible(ts.subrange((j + 1) as int, k as int));
                    assert(none + ((none + seq![ts[j as int]]) + (inner + seq![ts[k as int]]))
                        =~= seq![ts[j as int]] + (none + inner) + seq![ts[k as int]]);
                }
            }
        }
    }
}

/// What follows a `Multiplicative` operand is faithful, and builds no
/// empty node where the operand has none.
pub proof fn lemma_multiplicative_rest(ts: Seq<TokenView>, i: nat, left: ItemView)
    requires
        i <= ts.len(),
    ensures
        faithful(ts, i, left.leaves(), multiplicative_rest(ts, i, left)),
        left.populated() ==> solid(multiplicative_rest(ts, i, left)),
    decreases ahead(ts, i), 1nat,
{
    lemma_muted_run(ts, i);
    let j = i + muted(ts, i);
    let none = Seq::<TokenView>::empty();
    if j < ts.len() && (ts[j as int].is_op("*"@) || ts[j as int].is_op("/"@)) {
        lemma_primary(ts, j + 1);
        if let Ok(p) = primary(ts, j + 1) {
            let kind = if ts[j as int].is_op("*"@) {
                "Multiply"@
            } else {
                "Divide"@
            };
            let op = ts[j as int];
            let m = j + 1 + p.used;
            let joint = binary(kind, left, op, p.item);
            lemma_binary(kind, left, op, p.item);
            lemma_multiplicative_rest(ts, m, joint);
            if let Ok(q) = multiplicative_rest(ts, m, joint) {
                let end = m + q.used;
                lemma_visible_one(ts, j as int);
                lemma_visible_split(ts, i as int, j as int, end as int);
                lemma_visible_split(ts, j as int, (j + 1) as int, end as int);
                lemma_visible_split(ts, (j + 1) as int, m as int, end as int);
                let first = visible(ts.subrange((j + 1) as int, m as int));
                let second = visible(ts.subrange(m as int, end as int));
                assert((left.leaves() + seq![op] + (none + first)) + second =~= left.leaves() + (
                none + (seq![op] + (first + second))));
            }
        }
    } else {
        assert(left.leaves() + none =~= left.leaves());
    }
}

/// `Multiplicative` is faithful, builds no empty node, and consumes a
/// token.
pub proof fn lemma_multiplicative(ts: Seq<TokenView>, i: nat)
    requires
        i <= ts.len(),
    ensures
        faithful(ts, i, Seq::empty(), multiplicative(ts, i)),
        solid(multiplicative(ts, i)),
        multiplicative(ts, i) matches Ok(p) ==> p.used > 0,
    decreases ahead(ts, i), 2nat,
{
    lemma_primary(ts, i);
    let none = Seq::<TokenView>::empty();
    if let Ok(p) = primary(ts, i) {
        let m = i + p.used;
        lemma_multiplicative_rest(ts, m, p.item);
        if let Ok(q) = multiplicative_rest(ts, m, p.item) {
            lemma_visible_split(ts, i as int, m as int, (m + q.used) as int);
            let first = visible(ts.subrange(i as int, m as int));
            let second = visible(ts.subrange(m as int, (m + q.used) as int));
            assert((none + first) + second =~= none + (first + second));
        }
    }
}

/// What follows an `Additive` operand is faithful, and builds no empty
/// node where the operand has none.
pub proof fn lemma_additive_rest(ts: Seq<TokenView>, i: nat, left: ItemView)
    requires
        i <= ts.len(),
    ensures
        faithful(ts, i, left.leaves(), additive_rest(ts, i, left)),
        left.populated() ==> solid(additive_rest(ts, i, left)),
    decreases ahead(ts, i), 3nat,
{
    lemma_muted_run(ts, i);
    let j = i + muted(ts, i);
    let none = Seq::<TokenView>::empty();
    if j < ts.len() && (ts[j as int].is_op("+"@) || ts[j as int].is_op("-"@)) {
        lemma_multiplicative(ts, j + 1);
        if let Ok(p) = multiplicative(ts, j + 1) {
            let kind = if ts[j as int].is_op("+"@) {
                "Add"@
            } else {
                "Subtract"@
            };
            let op = ts[j as int];
            let m = j + 1 + p.used;
            let joint = binary(kind, left, op, p.item);
            lemma_binary(kind, left, op, p.item);
            lemma_additive_rest(ts, m, joint);
            if let Ok(q) = additive_rest(ts, m, joint) {
                let end = m + q.used;
                lemma_visible_one(ts, j as int);
                lemma_visible_split(ts, i as int, j as int, end as int);
                lemma_visible_split(ts, j as int, (j + 1) as int, end as int);
                lemma_visible_split(ts, (j + 1) as int, m as int, end as int);
                let first = visible(ts.subrange((j + 1) as int, m as int));
                let second = visible(ts.subrange(m as int, end as int));
                assert((left.leaves() + seq![op] + (none + first)) + second =~= left.leaves() + (
                none + (seq![op] + (first + second))));
            }
        }
    } else {
        assert(left.leaves() + none =~= left.leaves());
    }
}

/// `Additive` is faithful, builds no empty node, and consumes a token.
pub proof fn lemma_additive(ts: Seq<TokenView>, i: nat)
    requires
        i <= ts.len(),
    ensures
        faithful(ts, i, Seq::empty(), additive(ts, i)),
        solid(additive(ts, i)),
        additive(ts, i) matches Ok(p) ==> p.used > 0,
    decreases ahead(ts, i), 4nat,
{
    lemma_multiplicative(ts, i);
    let none = Seq::<TokenView>::empty();
    if let Ok(p) = multiplicative(ts, i) {
        let m = i + p.used;
        lemma_additive_rest(ts, m, p.item);
        if let Ok(q) = additive_rest(ts, m, p.item) {
            lemma_visible_split(ts, i as int, m as int, (m + q.used) as int);
            let first = visible(ts.subrange(i as int, m as int));
            let second = visible(ts.subrange(m as int, (m + q.used) as int));
            assert((none + first) + second =~= none + (first + second));
        }
    }
}

/// A tree keeps every token that its parse consumed, in order, but for
/// white space: numbers, operators and parentheses all stand in it. A
/// parse consumes at least one token, stays inside the tokens, and builds
/// no empty node.
pub proof fn law_tree_keeps_every_token(ts: Seq<TokenView>, i: nat)
    requires
        i <= ts.len(),
    ensures
        calcul(ts, i) matches Ok(t) ==> {
            &&& 0 < t.used
            &&& i + t.used <= ts.len()
            &&& t.root.leaves() == visible(ts.subrange(i as int, (i + t.used) as int))
            &&& t.root.populated()
        },
{
    lemma_additive(ts, i);
    if let Ok(p) = additive(ts, i) {
        let items = seq![p.item];
        reveal_with_fuel(leaves_of, 2);
        assert(leaves_of(items, 1) =~= p.item.leaves());
        assert(Seq::<TokenView>::empty() + visible(ts.subrange(i as int, (i + p.used) as int))
            =~= visible(ts.subrange(i as int, (i + p.used) as int)));
        assert forall|k: int| 0 <= k < items.len() implies (#[trigger] items[k]).populated() by {}
    }
}

/// A parse fails in one of two ways: the tokens end where one is needed,
/// or a token stands where the grammar has no place for it.
pub proof fn law_parse_failures(ts: Seq<TokenView>, i: nat)
    requires
        i <= ts.len(),
    ensures
        calcul(ts, i) matches Err(e) ==> e.error is EOF || e.error is UnexpectedToken,
{
    lemma_additive(ts, i);
}

/// The text of a tree is the source it was parsed from, where the source
/// holds no white space and the parse consumed every token.
pub proof fn law_text_round_trip(source: Seq<char>, ts: Seq<TokenView>)
    requires
        lex(source, Position::origin()) == Ok::<_, ExceptionView>(ts),
        forall|k: int| 0 <= k < ts.len() ==> (#[trigger] ts[k]).kind != TokenKind::Whitespace,
        calcul(ts, 0) matches Ok(t) && t.used == ts.len(),
    ensures
        calcul(ts, 0) matches Ok(t) && t.root.text() == source,
{
    law_tree_keeps_every_token(ts, 0);
    law_tokens_spell_source(source, Position::origin());
    lemma_visible_all(ts);
    assert(ts.subrange(0, ts.len() as int) =~= ts);
}

} // verus!
