//! The parser: from tokens to a syntax tree, by recursive descent.
//!
//! ```text
//! Additive       := Multiplicative (('+' | '-') Multiplicative)*
//! Multiplicative := Primary (('*' | '/') Primary)*
//! Primary        := Number | '(' Additive ')'
//! ```
//!
//! White space between the tokens of an expression is passed over. Every
//! other token that a production consumes is kept in the tree: a binary
//! node holds its operator between its operands, and a group is a node of
//! kind `Parenthesis` that holds its two marks.

use vstd::prelude::*;
use vstd::string::*;
use either::Either;
use crate::ast::token_views;
use crate::error::{Error, ErrorView, Exception, ExceptionView};
use crate::lexer::lex;
use crate::node::{item_view, item_views, ItemView, Node, NodeItem, NodeValue, NodeView};
use crate::position::Position;
use crate::stream::LexerStream;
use crate::token::{Token, TokenKind, TokenView};

verus! {

/// What a production yields: the item it built, and the number of tokens
/// it consumed.
pub struct Parsed {
    pub item: ItemView,
    pub used: nat,
}

/// What `parse` yields: the root of the tree, and the number of tokens
/// consumed.
pub struct Tree {
    pub root: NodeView,
    pub used: nat,
}

/// The number of tokens of `ts` from the place `i` on.
pub open spec fn ahead(ts: Seq<TokenView>, i: nat) -> nat {
    if i <= ts.len() {
        (ts.len() - i) as nat
    } else {
        0
    }
}

/// The number of white space tokens that stand in a row at the place `i`.
pub open spec fn muted(ts: Seq<TokenView>, i: nat) -> nat
    decreases ahead(ts, i),
{
    if i < ts.len() && ts[i as int].kind == TokenKind::Whitespace {
        1 + muted(ts, i + 1)
    } else {
        0
    }
}

/// The node of kind `kind` over a left operand, the operator and a right
/// operand.
pub open spec fn binary(kind: Seq<char>, left: ItemView, op: TokenView, right: ItemView) -> ItemView {
    ItemView::Node(NodeView { kind, items: seq![left, ItemView::Token(op), right] })
}

/// The node of kind `Parenthesis` over an opening mark, what stands
/// between the marks, and the closing mark.
pub open spec fn group(open: TokenView, inner: ItemView, close: TokenView) -> ItemView {
    ItemView::Node(
        NodeView {
            kind: "Parenthesis"@,
            items: seq![ItemView::Token(open), inner, ItemView::Token(close)],
        },
    )
}

/// The same outcome, counted from `by` tokens further to the left.
pub open spec fn lift(r: Result<Parsed, ExceptionView>, by: nat) -> Result<Parsed, ExceptionView> {
    match r {
        Ok(p) => Ok(Parsed { item: p.item, used: p.used + by }),
        Err(e) => Err(e),
    }
}

/// `Primary` at the place `i`: a number, or an `Additive` in parentheses,
/// after any white space.
pub open spec fn primary(ts: Seq<TokenView>, i: nat) -> Result<Parsed, ExceptionView>
    decreases ahead(ts, i), 0nat,
{
    let j = i + muted(ts, i);
    if j >= ts.len() {
        Err(
            ExceptionView::create(ErrorView::EOF, "LexerStream::next"@).relay(
                "Parser::parse_primary"@,
            ),
        )
    } else if ts[j as int].kind == TokenKind::Number {
        Ok(Parsed { item: ItemView::Token(ts[j as int]), used: (j + 1 - i) as nat })
    } else if ts[j as int].is_mark('(') {
        match additive(ts, j + 1) {
            Err(e) => Err(e.relay("Parser::parse_primary"@)),
            Ok(p) => {
                let k = j + 1 + p.used;
                if k < ts.len() && ts[k as int].is_mark(')') {
                    Ok(
                        Parsed {
                            item: group(ts[j as int], p.item, ts[k as int]),
                            used: (k + 1 - i) as nat,
                        },
                    )
                } else if k < ts.len() {
                    Err(
                        ExceptionView::create(
                            ErrorView::UnexpectedToken(ts[k as int]),
                            "LexerStream::read_punctuation"@,
                        ).relay("Parser::parse_primary"@),
                    )
                } else {
                    Err(
                        ExceptionView::create(
                            ErrorView::EOF,
                            "LexerStream::read_punctuation"@,
                        ).relay("Parser::parse_primary"@),
                    )
                }
            },
        }
    } else {
        Err(
            ExceptionView::create(
                ErrorView::UnexpectedToken(ts[j as int]),
                "Parser::parse_primary"@,
            ),
        )
    }
}

/// What follows the operand `left` of a `Multiplicative`, from the place
/// `i` on: after any white space, as long as a `*` or a `/` stands there,
/// one more `Primary`, which joins what stands to its left.
pub open spec fn multiplicative_rest(ts: Seq<TokenView>, i: nat, left: ItemView) -> Result<
    Parsed,
    ExceptionView,
>
    decreases ahead(ts, i), 1nat,
{
    let j = i + muted(ts, i);
    if j < ts.len() && (ts[j as int].is_op("*"@) || ts[j as int].is_op("/"@)) {
        match primary(ts, j + 1) {
            Err(e) => Err(e.relay("Parser::parse_multiplicative"@)),
            Ok(p) => {
                let kind = if ts[j as int].is_op("*"@) {
                    "Multiply"@
                } else {
                    "Divide"@
                };
                lift(
                    multiplicative_rest(
                        ts,
                        j + 1 + p.used,
                        binary(kind, left, ts[j as int], p.item),
                    ),
                    (j + 1 + p.used - i) as nat,
                )
            },
        }
    } else {
        Ok(Parsed { item: left, used: (j - i) as nat })
    }
}

/// `Multiplicative` at the place `i`.
pub open spec fn multiplicative(ts: Seq<TokenView>, i: nat) -> Result<Parsed, ExceptionView>
    decreases ahead(ts, i), 2nat,
{
    match primary(ts, i) {
        Err(e) => Err(e.relay("Parser::parse_multiplicative"@)),
        Ok(p) => lift(multiplicative_rest(ts, i + p.used, p.item), p.used),
    }
}

/// What follows the operand `left` of an `Additive`, from the place `i`
/// on: after any white space, as long as a `+` or a `-` stands there, one
/// more `Multiplicative`, which joins what stands to its left.
pub open spec fn additive_rest(ts: Seq<TokenView>, i: nat, left: ItemView) -> Result<
    Parsed,
    ExceptionView,
>
    decreases ahead(ts, i), 3nat,
{
    let j = i + muted(ts, i);
    if j < ts.len() && (ts[j as int].is_op("+"@) || ts[j as int].is_op("-"@)) {
        match multiplicative(ts, j + 1) {
            Err(e) => Err(e.relay("Parser::parse_additive"@)),
            Ok(p) => {
                let kind = if ts[j as int].is_op("+"@) {
                    "Add"@
                } else {
                    "Subtract"@
                };
                lift(
                    additive_rest(ts, j + 1 + p.used, binary(kind, left, ts[j as int], p.item)),
                    (j + 1 + p.used - i) as nat,
                )
            },
        }
    } else {
        Ok(Parsed { item: left, used: (j - i) as nat })
    }
}

/// `Additive` at the place `i`.
pub open spec fn additive(ts: Seq<TokenView>, i: nat) -> Result<Parsed, ExceptionView>
    decreases ahead(ts, i), 4nat,
{
    match multiplicative(ts, i) {
        Err(e) => Err(e.relay("Parser::parse_additive"@)),
        Ok(p) => lift(additive_rest(ts, i + p.used, p.item), p.used),
    }
}

/// The tree of the expression at the place `i`: one `Additive` under a
/// root of kind `Calcul`. Tokens after the expression are left where they
/// are.
pub open spec fn calcul(ts: Seq<TokenView>, i: nat) -> Result<Tree, ExceptionView> {
    match additive(ts, i) {
        Err(e) => Err(e.relay("Parser::parse"@)),
        Ok(p) => Ok(Tree { root: NodeView { kind: "Calcul"@, items: seq![p.item] }, used: p.used }),
    }
}

/// The call moved the cursor from `before` to `after`, and what it
/// returned is what `expected` says.
pub open spec fn agrees(
    before: nat,
    after: nat,
    r: Result<NodeItem, Exception>,
    expected: Result<Parsed, ExceptionView>,
) -> bool {
    match r {
        Ok(item) => expected matches Ok(p) && p.item == item_view(item) && after == before + p.used,
        Err(e) => expected == Err::<Parsed, _>(e@) && before <= after,
    }
}

proof fn lemma_muted(ts: Seq<TokenView>, i: nat, n: nat)
    requires
        i + n <= ts.len(),
        forall|k: int| i <= k < i + n ==> (#[trigger] ts[k]).kind == TokenKind::Whitespace,
        i + n < ts.len() ==> ts[(i + n) as int].kind != TokenKind::Whitespace,
    ensures
        muted(ts, i) == n,
    decreases n,
{
    if n > 0 {
        lemma_muted(ts, i + 1, (n - 1) as nat);
    }
}

proof fn lemma_lift_twice(r: Result<Parsed, ExceptionView>, a: nat, b: nat)
    ensures
        lift(lift(r, a), b) == lift(r, a + b),
{
}

proof fn lemma_kinds()
    ensures
        "Add"@ != "atom"@,
        "Subtract"@ != "atom"@,
        "Multiply"@ != "atom"@,
        "Divide"@ != "atom"@,
        "Calcul"@ != "atom"@,
        "Parenthesis"@ != "atom"@,
        ")"@ == seq![')'],
{
    reveal_strlit("Add");
    reveal_strlit("Subtract");
    reveal_strlit("Multiply");
    reveal_strlit("Divide");
    reveal_strlit("Calcul");
    reveal_strlit("Parenthesis");
    reveal_strlit("atom");
    reveal_strlit(")");
    assert("Add"@.len() == 3);
    assert("Subtract"@.len() == 8);
    assert("Multiply"@.len() == 8);
    assert("Divide"@.len() == 6);
    assert("Calcul"@.len() == 6);
    assert("Parenthesis"@.len() == 11);
    assert("atom"@.len() == 4);
    assert(")"@ =~= seq![')']);
}

/// The node of kind `kind` over `left`, the operator `op` and `right`.
fn join(kind: &str, left: NodeItem, op: Token, right: NodeItem) -> (r: NodeItem)
    requires
        kind@ == "Add"@ || kind@ == "Subtract"@ || kind@ == "Multiply"@ || kind@ == "Divide"@,
    ensures
        item_view(r) == binary(kind@, item_view(left), op@, item_view(right)),
{
    let ghost first = item_view(left);
    let ghost second = item_view(right);
    let mut items: NodeValue = Vec::new();
    items.push(left);
    items.push(Either::Left(op));
    items.push(right);
    proof {
        lemma_kinds();
        assert(item_views(items@) =~= seq![first, ItemView::Token(op@), second]);
    }
    Either::Right(Node::create(kind, items))
}

/// The node of kind `Parenthesis` over `open`, `inner` and `close`.
fn enclose(open: Token, inner: NodeItem, close: Token) -> (r: NodeItem)
    ensures
        item_view(r) == group(open@, item_view(inner), close@),
{
    let ghost middle = item_view(inner);
    let mut items: NodeValue = Vec::new();
    items.push(Either::Left(open));
    items.push(inner);
    items.push(Either::Left(close));
    proof {
        lemma_kinds();
        assert(item_views(items@) =~= seq![
            ItemView::Token(open@),
            middle,
            ItemView::Token(close@),
        ]);
    }
    Either::Right(Node::create("Parenthesis", items))
}

/// The parser: a cursor over tokens, from which it builds a tree.
#[derive(Debug)]
pub struct Parser {
    stream: LexerStream,
}

/// A parser at the start of `buffer`.
impl From<Vec<Token>> for Parser {
    fn from(buffer: Vec<Token>) -> (p: Self)
        ensures
            p.tokens() == token_views(buffer@),
            p.index() == 0,
    {
        Parser { stream: LexerStream::from(buffer) }
    }
}

impl vstd::std_specs::convert::FromSpecImpl<Vec<Token>> for Parser {
    open spec fn obeys_from_spec() -> bool {
        false
    }

    open spec fn from_spec(buffer: Vec<Token>) -> Self {
        arbitrary()
    }
}

/// A parser over the tokens of `content`, where it can be lexed.
impl TryFrom<String> for Parser {
    type Error = Exception;

    fn try_from(content: String) -> (r: Result<Self, Exception>)
        ensures
            match r {
                Ok(p) => lex(content@, Position::origin()) == Ok::<_, ExceptionView>(p.tokens())
                    && p.index() == 0,
                Err(e) => lex(content@, Position::origin()) matches Err(cause) && e@
                    == cause.relay("LexerStream::from"@).relay("Parser::from"@),
            },
    {
        match LexerStream::try_from(content) {
            Err(error) => Err(Exception::relay(error, "Parser::from")),
            Ok(stream) => Ok(Parser { stream }),
        }
    }
}

impl vstd::std_specs::convert::TryFromSpecImpl<String> for Parser {
    open spec fn obeys_try_from_spec() -> bool {
        false
    }

    open spec fn try_from_spec(content: String) -> Result<Self, Exception> {
        arbitrary()
    }
}

impl Parser {
    /// What the tokens under the parser say, consumed or not.
    pub closed spec fn tokens(&self) -> Seq<TokenView> {
        self.stream.tokens()
    }

    /// The number of tokens consumed.
    pub closed spec fn index(&self) -> nat {
        self.stream.index()
    }

    /// The cursor stands inside the tokens or at their end.
    pub open spec fn wf(&self) -> bool {
        self.index() <= self.tokens().len()
    }

    /// Whether every token is consumed.
    pub fn eof(&self) -> (r: bool)
        ensures
            r == (self.index() == self.tokens().len()),
            self.wf(),
    {
        self.stream.eof()
    }

    /// A copy of the token at the cursor, where there is one.
    pub fn peek(&self) -> (r: Option<Token>)
        ensures
            self.wf(),
            match r {
                Some(token) => self.index() < self.tokens().len() && token@
                    == self.tokens()[self.index() as int],
                None => self.index() == self.tokens().len(),
            },
    {
        self.stream.peek(0)
    }

    /// Parses one expression and wraps it in a root of kind `Calcul`.
    /// Tokens after the expression are not consumed.
    pub fn parse(&mut self) -> (r: Result<Node, Exception>)
        ensures
            final(self).tokens() == old(self).tokens(),
            match r {
                Ok(node) => {
                    &&& calcul(old(self).tokens(), old(self).index()) matches Ok(t)
                    &&& t.root == node@
                    &&& final(self).index() == old(self).index() + t.used
                },
                Err(e) => {
                    &&& calcul(old(self).tokens(), old(self).index()) == Err::<Tree, _>(e@)
                    &&& old(self).index() <= final(self).index()
                },
            },
    {
        match self.parse_additive() {
            Err(error) => Err(Exception::relay(error, "Parser::parse")),
            Ok(value) => {
                proof {
                    lemma_kinds();
                }
                let ghost inner = item_view(value);
                let mut items: NodeValue = Vec::new();
                items.push(value);
                let node = Node::create("Calcul", items);
                assert(node@.items =~= seq![inner]);
                Ok(node)
            },
        }
    }

    fn skip_muted(&mut self)
        ensures
            final(self).tokens() == old(self).tokens(),
            final(self).index() == old(self).index() + muted(old(self).tokens(), old(self).index()),
            final(self).wf(),
    {
        let ghost ts = self.tokens();
        let ghost i = self.index();
        let wanted = |t: Token| -> (b: bool)
            ensures
                b == (t@.kind == TokenKind::Whitespace),
            { t.is_whitespace(None) };
        let skipped = self.stream.read_while(wanted);
        proof {
            let n = skipped@.len();
            assert forall|k: int| i <= k < i + n implies (#[trigger] ts[k]).kind
                == TokenKind::Whitespace by {
                assert(skipped@[k - i] == self.stream.items()[k]);
                assert(call_ensures(wanted, (skipped@[k - i],), true));
            }
            lemma_muted(ts, i, n);
        }
    }

    fn parse_additive(&mut self) -> (r: Result<NodeItem, Exception>)
        ensures
            final(self).tokens() == old(self).tokens(),
            agrees(
                old(self).index(),
                final(self).index(),
                r,
                additive(old(self).tokens(), old(self).index()),
            ),
        decreases ahead(old(self).tokens(), old(self).index()), 4nat,
    {
        let ghost ts = self.tokens();
        let ghost start = self.index();
        let ghost whole = additive(ts, start);
        match self.parse_multiplicative() {
            Err(error) => Err(Exception::relay(error, "Parser::parse_additive")),
            Ok(first) => {
                let mut left = first;
                let mut open = true;
                while open
                    invariant
                        self.tokens() == ts,
                        ts == old(self).tokens(),
                        start == old(self).index(),
                        whole == additive(ts, start),
                        start <= self.index(),
                        open ==> whole == lift(
                            additive_rest(ts, self.index(), item_view(left)),
                            (self.index() - start) as nat,
                        ),
                        !open ==> whole == Ok::<_, ExceptionView>(
                            Parsed { item: item_view(left), used: (self.index() - start) as nat },
                        ),
                    decreases ahead(ts, self.index()) + (if open { 1nat } else { 0nat }),
                {
                    let ghost at = self.index();
                    self.skip_muted();
                    let plus = self.stream.is_operator(Some("+"));
                    let minus = self.stream.is_operator(Some("-"));
                    if plus || minus {
                        match self.stream.next() {
                            Err(error) => {
                                return Err(Exception::relay(error, "Parser::parse_additive"));
                            },
                            Ok(op) => match self.parse_multiplicative() {
                                Err(error) => {
                                    return Err(Exception::relay(error, "Parser::parse_additive"));
                                },
                                Ok(right) => {
                                    left = if plus {
                                        join("Add", left, op, right)
                                    } else {
                                        join("Subtract", left, op, right)
                                    };
                                    proof {
                                        lemma_lift_twice(
                                            additive_rest(ts, self.index(), item_view(left)),
                                            (self.index() - at) as nat,
                                            (at - start) as nat,
                                        );
                                    }
                                },
                            },
                        }
                    } else {
                        open = false;
                    }
                }
                Ok(left)
            },
        }
    }

    fn parse_multiplicative(&mut self) -> (r: Result<NodeItem, Exception>)
        ensures
            final(self).tokens() == old(self).tokens(),
            agrees(
                old(self).index(),
                final(self).index(),
                r,
                multiplicative(old(self).tokens(), old(self).index()),
            ),
        decreases ahead(old(self).tokens(), old(self).index()), 2nat,
    {
        let ghost ts = self.tokens();
        let ghost start = self.index();
        let ghost whole = multiplicative(ts, start);
        match self.parse_primary() {
            Err(error) => Err(Exception::relay(error, "Parser::parse_multiplicative")),
            Ok(first) => {
                let mut left = first;
                let mut open = true;
                while open
                    invariant
                        self.tokens() == ts,
                        ts == old(self).tokens(),
                        start == old(self).index(),
                        whole == multiplicative(ts, start),
                        start <= self.index(),
                        open ==> whole == lift(
                            multiplicative_rest(ts, self.index(), item_view(left)),
                            (self.index() - start) as nat,
                        ),
                        !open ==> whole == Ok::<_, ExceptionView>(
                            Parsed { item: item_view(left), used: (self.index() - start) as nat },
                        ),
                    decreases ahead(ts, self.index()) + (if open { 1nat } else { 0nat }),
                {
                    let ghost at = self.index();
                    self.skip_muted();
                    let times = self.stream.is_operator(Some("*"));
                    let over = self.stream.is_operator(Some("/"));
                    if times || over {
                        match self.stream.next() {
                            Err(error) => {
                                return Err(
                                    Exception::relay(error, "Parser::parse_multiplicative"),
                                );
                            },
                            Ok(op) => match self.parse_primary() {
                                Err(error) => {
                                    return Err(
                                        Exception::relay(error, "Parser::parse_multiplicative"),
                                    );
                                },
                                Ok(right) => {
                                    left = if times {
                                        join("Multiply", left, op, right)
                                    } else {
                                        join("Divide", left, op, right)
                                    };
                                    proof {
                                        lemma_lift_twice(
                                            multiplicative_rest(ts, self.index(), item_view(left)),
                                            (self.index() - at) as nat,
                                            (at - start) as nat,
                                        );
                                    }
                                },
                            },
                        }
                    } else {
                        open = false;
                    }
                }
                Ok(left)
            },
        }
    }

    fn parse_primary(&mut self) -> (r: Result<NodeItem, Exception>)
        ensures
            final(self).tokens() == old(self).tokens(),
            agrees(
                old(self).index(),
                final(self).index(),
                r,
                primary(old(self).tokens(), old(self).index()),
            ),
        decreases ahead(old(self).tokens(), old(self).index()), 0nat,
    {
        self.skip_muted();
        match self.stream.next() {
            Err(error) => Err(Exception::relay(error, "Parser::parse_primary")),
            Ok(token) => {
                if token.is_number(None) {
                    Ok(Either::Left(token))
                } else if token.is_punctuation(Some('(')) {
                    match self.parse_additive() {
                        Err(error) => Err(Exception::relay(error, "Parser::parse_primary")),
                        Ok(node) => {
                            proof {
                                lemma_kinds();
                            }
                            match self.stream.read_punctuation(Some(")")) {
                                Err(error) => Err(
                                    Exception::relay(error, "Parser::parse_primary"),
                                ),
                                Ok(close) => Ok(enclose(token, node, close)),
                            }
                        },
                    }
                } else {
                    Err(Exception::create(Error::UnexpectedToken(token), "Parser::parse_primary"))
                }
            },
        }
    }
}

} // verus!
