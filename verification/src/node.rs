//! Nodes: the inner items of the syntax tree.

use vstd::prelude::*;
use vstd::string::*;
use either::Either;
use crate::ast::{token_views, AST};
use crate::position::Position;
use crate::text::same_text;
use crate::token::{Token, TokenView};

verus! {

/// `either::Either`, the sum of two types, with its variants `Left` and
/// `Right` as the crate defines them.
#[verifier::external_type_specification]
pub struct ExEither<L, R>(Either<L, R>);

/// An item of a node: a token on the left, a nested node on the right.
pub type NodeItem = Either<Token, Node>;

/// The items of a node, in source order.
pub type NodeValue = Vec<NodeItem>;

/// What an item says: a token's view, or a nested node's.
pub enum ItemView {
    Token(TokenView),
    Node(NodeView),
}

/// What a node says: the production it stands for, and its items in order.
pub struct NodeView {
    pub kind: Seq<char>,
    pub items: Seq<ItemView>,
}

/// The texts of `tokens`, one after the other.
pub open spec fn joined_text(tokens: Seq<TokenView>) -> Seq<char>
    decreases tokens.len(),
{
    if tokens.len() == 0 {
        Seq::empty()
    } else {
        joined_text(tokens.drop_last()) + tokens.last().text
    }
}

/// The tokens below the first `n` of `items`, from left to right.
pub open spec fn leaves_of(items: Seq<ItemView>, n: nat) -> Seq<TokenView>
    decreases items, n,
{
    if n == 0 || n > items.len() {
        Seq::empty()
    } else {
        leaves_of(items, (n - 1) as nat) + items[n - 1].leaves()
    }
}

/// The JSON of the first `n` of `items`, with commas between them.
pub open spec fn joined_json(items: Seq<ItemView>, n: nat, with_position: bool) -> Seq<char>
    decreases items, n,
{
    if n == 0 || n > items.len() {
        Seq::empty()
    } else if n == 1 {
        items[0].json(with_position)
    } else {
        joined_json(items, (n - 1) as nat, with_position) + ","@ + items[n - 1].json(
            with_position,
        )
    }
}

impl ItemView {
    /// The tokens at or below the item, from left to right.
    pub open spec fn leaves(self) -> Seq<TokenView>
        decreases self, 0nat,
    {
        match self {
            ItemView::Token(t) => seq![t],
            ItemView::Node(n) => leaves_of(n.items, n.items.len()),
        }
    }

    /// The item has a span: it is a token, or a node whose first item has one.
    pub open spec fn spanned(self) -> bool
        decreases self,
    {
        match self {
            ItemView::Token(_) => true,
            ItemView::Node(n) => n.items.len() > 0 && n.items[0].spanned(),
        }
    }

    /// Where the item starts: where its first token starts.
    pub open spec fn start(self) -> Position
        decreases self,
    {
        match self {
            ItemView::Token(t) => t.start,
            ItemView::Node(n) => if n.items.len() > 0 {
                n.items[0].start()
            } else {
                Position::origin()
            },
        }
    }

    /// Where the item's first token ends.
    pub open spec fn next(self) -> Position
        decreases self,
    {
        match self {
            ItemView::Token(t) => t.next,
            ItemView::Node(n) => if n.items.len() > 0 {
                n.items[0].next()
            } else {
                Position::origin()
            },
        }
    }

    /// No node at or below the item is empty.
    pub open spec fn populated(self) -> bool
        decreases self,
    {
        match self {
            ItemView::Token(_) => true,
            ItemView::Node(n) => n.items.len() > 0 && forall|i: int|
                0 <= i < n.items.len() ==> (#[trigger] n.items[i]).populated(),
        }
    }

    /// The item as JSON: a token's object, or a node's with its items
    /// inline in `value`.
    pub open spec fn json(self, with_position: bool) -> Seq<char>
        decreases self, 0nat,
    {
        match self {
            ItemView::Token(t) => t.json(with_position),
            ItemView::Node(n) => {
                let head = "{\"type\":\""@ + n.kind + "\",\"value\":["@ + joined_json(
                    n.items,
                    n.items.len(),
                    with_position,
                ) + "]"@;
                if with_position {
                    head + ",\"start\":"@ + self.start().json() + ",\"next\":"@
                        + self.next().json() + "}"@
                } else {
                    head + "}"@
                }
            },
        }
    }
}

impl NodeView {
    /// The tokens below the node, from left to right.
    pub open spec fn leaves(self) -> Seq<TokenView> {
        ItemView::Node(self).leaves()
    }

    /// The source text that the node's tokens matched.
    pub open spec fn text(self) -> Seq<char> {
        joined_text(self.leaves())
    }

    /// The node has a span.
    pub open spec fn spanned(self) -> bool {
        ItemView::Node(self).spanned()
    }

    /// Where the node starts.
    pub open spec fn start(self) -> Position {
        ItemView::Node(self).start()
    }

    /// Where the node's first token ends.
    pub open spec fn next(self) -> Position {
        ItemView::Node(self).next()
    }

    /// No node at or below this one is empty.
    pub open spec fn populated(self) -> bool {
        ItemView::Node(self).populated()
    }

    /// The node as JSON.
    pub open spec fn json(self, with_position: bool) -> Seq<char> {
        ItemView::Node(self).json(with_position)
    }

    /// A node of kind `atom` holds one token and nothing else.
    pub open spec fn well_formed(self) -> bool {
        self.kind == "atom"@ ==> self.items.len() == 1 && self.items[0] is Token
    }

    /// The token that an atom wraps.
    pub open spec fn token(self) -> Option<TokenView> {
        if self.kind == "atom"@ && self.items.len() > 0 && self.items[0] is Token {
            Some(self.items[0]->Token_0)
        } else {
            None
        }
    }

    /// The node as `kind(text)`.
    pub open spec fn label(self) -> Seq<char> {
        self.kind + "("@ + self.text() + ")"@
    }

    /// Whether the node answers to `label`: an atom by its token's kind,
    /// any other node by its own.
    pub open spec fn answers(self, label: Seq<char>) -> bool {
        match self.token() {
            Some(t) => t.kind.name() == label,
            None => self.kind == label,
        }
    }
}

/// A node of the syntax tree. It owns its items.
#[derive(Debug)]
pub struct Node {
    kind: String,
    value: NodeValue,
}

/// What `item` says.
pub open spec fn item_view(item: NodeItem) -> ItemView
    decreases item, 0nat,
{
    match item {
        Either::Left(t) => ItemView::Token(t@),
        Either::Right(n) => ItemView::Node(node_view(n)),
    }
}

/// What `items` say, item by item.
pub open spec fn item_views(items: Seq<NodeItem>) -> Seq<ItemView> {
    items.map_values(|i: NodeItem| item_view(i))
}

spec fn prefix_views(v: NodeValue, n: nat) -> Seq<ItemView>
    decreases v, n,
{
    if n == 0 || n > v.len() {
        Seq::empty()
    } else {
        prefix_views(v, (n - 1) as nat).push(item_view(v[n - 1]))
    }
}

/// What `node` says.
pub closed spec fn node_view(node: Node) -> NodeView
    decreases node, 0nat,
{
    NodeView { kind: node.kind@, items: prefix_views(node.value, node.value.len() as nat) }
}

proof fn lemma_prefix_views(v: NodeValue, n: nat)
    requires
        n <= v.len(),
    ensures
        prefix_views(v, n) == item_views(v@.take(n as int)),
    decreases n,
{
    if n > 0 {
        lemma_prefix_views(v, (n - 1) as nat);
        assert(v@.take(n as int).drop_last() == v@.take(n - 1));
    }
    assert(prefix_views(v, n) =~= item_views(v@.take(n as int)));
}

impl View for Node {
    type V = NodeView;

    open spec fn view(&self) -> NodeView {
        node_view(*self)
    }
}

proof fn lemma_node_view(node: Node)
    ensures
        node@.kind == node.kind@,
        node@.items == item_views(node.value@),
        node@.items.len() == node.value@.len(),
        forall|i: int| 0 <= i < node.value@.len() ==> node@.items[i] == item_view(node.value@[i]),
{
    lemma_prefix_views(node.value, node.value.len() as nat);
    assert(node.value@.take(node.value.len() as int) == node.value@);
}

/// The first `n + 1` items yield the leaves of the first `n` and then
/// those of the next one.
proof fn lemma_leaves_step(items: Seq<ItemView>, n: nat)
    requires
        n < items.len(),
    ensures
        leaves_of(items, n + 1) == leaves_of(items, n) + items[n as int].leaves(),
{
}

/// A tree without empty nodes has a span.
pub proof fn lemma_populated_spanned(item: ItemView)
    requires
        item.populated(),
    ensures
        item.spanned(),
    decreases item,
{
    match item {
        ItemView::Token(_) => {},
        ItemView::Node(n) => {
            lemma_populated_spanned(n.items[0]);
        },
    }
}

fn copy_items(items: &NodeValue) -> (r: NodeValue)
    ensures
        item_views(r@) == item_views(items@),
        r@.len() == items@.len(),
        forall|i: int| 0 <= i < r@.len() ==> (r@[i] is Left <==> items@[i] is Left),
    decreases items, 1nat,
{
    let mut r: NodeValue = Vec::new();
    let mut i: usize = 0;
    while i < items.len()
        invariant
            i <= items.len(),
            r@.len() == i,
            forall|j: int| 0 <= j < i ==> item_view(r@[j]) == item_view(items@[j]),
            forall|j: int| 0 <= j < i ==> (r@[j] is Left <==> items@[j] is Left),
        decreases items.len() - i,
    {
        match &items[i] {
            Either::Left(token) => {
                r.push(Either::Left(token.clone()));
            },
            Either::Right(node) => {
                r.push(Either::Right(copy_node(node)));
            },
        }
        i += 1;
    }
    assert(item_views(r@) =~= item_views(items@));
    r
}

fn copy_node(node: &Node) -> (r: Node)
    ensures
        r@ == node@,
    decreases node, 0nat,
{
    proof {
        use_type_invariant(node);
    }
    let r = Node { kind: node.kind.clone(), value: copy_items(&node.value) };
    proof {
        lemma_node_view(r);
        lemma_node_view(*node);
    }
    r
}

fn first_start(node: &Node) -> (r: Position)
    requires
        node@.spanned(),
    ensures
        r == node@.start(),
    decreases node,
{
    proof {
        lemma_node_view(*node);
    }
    match &node.value[0] {
        Either::Left(token) => {
            assert(node@.items[0].start() == token@.start);
            token.get_start()
        },
        Either::Right(child) => first_start(child),
    }
}

fn first_next(node: &Node) -> (r: Position)
    requires
        node@.spanned(),
    ensures
        r == node@.next(),
    decreases node,
{
    proof {
        lemma_node_view(*node);
    }
    match &node.value[0] {
        Either::Left(token) => {
            assert(node@.items[0].next() == token@.next);
            token.get_next()
        },
        Either::Right(child) => first_next(child),
    }
}

fn collect_tokens(node: &Node, out: &mut Vec<Token>)
    ensures
        token_views(final(out)@) == token_views(old(out)@) + node@.leaves(),
    decreases node,
{
    proof {
        lemma_node_view(*node);
    }
    let mut i: usize = 0;
    assert(token_views(out@) =~= token_views(old(out)@) + leaves_of(node@.items, 0));
    while i < node.value.len()
        invariant
            i <= node.value.len(),
            node@.items.len() == node.value@.len(),
            forall|j: int|
                0 <= j < node.value@.len() ==> node@.items[j] == item_view(node.value@[j]),
            token_views(out@) == token_views(old(out)@) + leaves_of(node@.items, i as nat),
        decreases node.value.len() - i,
    {
        let ghost before = out@;
        proof {
            lemma_leaves_step(node@.items, i as nat);
        }
        match &node.value[i] {
            Either::Left(token) => {
                out.push(token.clone());
                assert(token_views(out@) =~= token_views(before) + seq![token@]);
            },
            Either::Right(child) => {
                collect_tokens(child, out);
            },
        }
        assert(token_views(out@) =~= token_views(old(out)@) + leaves_of(
            node@.items,
            (i + 1) as nat,
        ));
        i += 1;
    }
}

fn push_node_json(node: &Node, out: &mut String, with_position: bool)
    requires
        with_position ==> node@.populated(),
    ensures
        final(out)@ == old(out)@ + node@.json(with_position),
    decreases node,
{
    proof {
        lemma_node_view(*node);
    }
    out.append("{\"type\":\"");
    out.append(node.kind.as_str());
    out.append("\",\"value\":[");
    let ghost opened = out@;
    let mut i: usize = 0;
    assert(out@ =~= opened + joined_json(node@.items, 0, with_position));
    while i < node.value.len()
        invariant
            i <= node.value.len(),
            with_position ==> node@.populated(),
            node@.items.len() == node.value@.len(),
            forall|j: int|
                0 <= j < node.value@.len() ==> node@.items[j] == item_view(node.value@[j]),
            out@ == opened + joined_json(node@.items, i as nat, with_position),
        decreases node.value.len() - i,
    {
        if i > 0 {
            out.append(",");
        }
        let ghost item = node@.items[i as int];
        let ghost before = out@;
        assert(with_position ==> item.populated());
        match &node.value[i] {
            Either::Left(token) => {
                token.push_json(out, with_position);
                assert(item.json(with_position) == token@.json(with_position));
            },
            Either::Right(child) => {
                push_node_json(child, out, with_position);
                assert(item.json(with_position) == child@.json(with_position));
            },
        }
        assert(out@ == before + item.json(with_position));
        assert(joined_json(node@.items, (i + 1) as nat, with_position) == if i == 0 {
            item.json(with_position)
        } else {
            joined_json(node@.items, i as nat, with_position) + ","@ + item.json(with_position)
        });
        assert(out@ =~= opened + joined_json(node@.items, (i + 1) as nat, with_position));
        i += 1;
    }
    out.append("]");
    if with_position {
        proof {
            lemma_populated_spanned(ItemView::Node(node@));
        }
        out.append(",\"start\":");
        first_start(node).push_json(out);
        out.append(",\"next\":");
        first_next(node).push_json(out);
    }
    out.append("}");
    assert(out@ =~= old(out)@ + node@.json(with_position));
}

/// A copy of `item`.
pub fn copy_item(item: &NodeItem) -> (r: NodeItem)
    ensures
        item_view(r) == item_view(*item),
{
    match item {
        Either::Left(token) => Either::Left(token.clone()),
        Either::Right(node) => Either::Right(copy_node(node)),
    }
}

impl Clone for Node {
    fn clone(&self) -> (r: Self)
        ensures
            r@ == self@,
    {
        copy_node(self)
    }
}

impl Node {
    #[verifier::type_invariant]
    spec fn atom_holds_one_token(self) -> bool {
        self.kind@ == "atom"@ ==> self.value@.len() == 1 && self.value@[0] is Left
    }

    /// A node of the production `kind` over `value`.
    pub fn create(kind: &str, value: NodeValue) -> (n: Node)
        requires
            kind@ == "atom"@ ==> value@.len() == 1 && value@[0] is Left,
        ensures
            n@ == (NodeView { kind: kind@, items: item_views(value@) }),
            n@.well_formed(),
    {
        let n = Node { kind: kind.to_owned(), value };
        proof {
            lemma_node_view(n);
        }
        n
    }

    /// The atom that wraps `token`.
    pub fn create_atom(token: Token) -> (n: Node)
        ensures
            n@ == (NodeView { kind: "atom"@, items: seq![ItemView::Token(token@)] }),
            n@.well_formed(),
    {
        let mut value: NodeValue = Vec::new();
        value.push(Either::Left(token));
        let n = Node::create("atom", value);
        assert(n@.items =~= seq![ItemView::Token(token@)]);
        n
    }

    /// The source text that the node's tokens matched.
    pub fn get_text(&self) -> (r: String)
        ensures
            r@ == self@.text(),
    {
        let tokens = self.get_tokens();
        let mut r = String::new();
        let mut i: usize = 0;
        assert(token_views(tokens@).take(0) =~= Seq::empty());
        while i < tokens.len()
            invariant
                i <= tokens.len(),
                r@ == joined_text(token_views(tokens@).take(i as int)),
            decreases tokens.len() - i,
        {
            let ghost views = token_views(tokens@);
            assert(views.take(i + 1).drop_last() =~= views.take(i as int));
            r.append(tokens[i].get_value().as_str());
            i += 1;
        }
        assert(token_views(tokens@).take(i as int) =~= token_views(tokens@));
        r
    }

    /// The token that the node wraps, where it is an atom.
    pub fn get_token(&self) -> (r: Option<Token>)
        ensures
            self@.well_formed(),
            match r {
                Some(t) => self@.token() == Some(t@),
                None => self@.token() is None,
            },
    {
        proof {
            use_type_invariant(self);
            lemma_node_view(*self);
        }
        if same_text(self.kind.as_str(), "atom") {
            match &self.value[0] {
                Either::Left(token) => Some(token.clone()),
                Either::Right(_) => None,
            }
        } else {
            None
        }
    }

    /// A copy of the node's items.
    pub fn get_value(&self) -> (r: NodeValue)
        ensures
            item_views(r@) == self@.items,
    {
        proof {
            lemma_node_view(*self);
        }
        copy_items(&self.value)
    }

    /// The node as `kind(text)`.
    pub fn describe(&self) -> (r: String)
        ensures
            r@ == self@.label(),
    {
        let mut r = self.get_type();
        r.append("(");
        r.append(self.get_text().as_str());
        r.append(")");
        r
    }
}

impl AST for Node {
    open spec fn kind_name(&self) -> Seq<char> {
        self@.kind
    }

    open spec fn spanned(&self) -> bool {
        self@.spanned()
    }

    open spec fn start(&self) -> Position {
        self@.start()
    }

    open spec fn next(&self) -> Position {
        self@.next()
    }

    open spec fn leaves(&self) -> Seq<TokenView> {
        self@.leaves()
    }

    open spec fn populated(&self) -> bool {
        self@.populated()
    }

    open spec fn json(&self, with_position: bool) -> Seq<char> {
        self@.json(with_position)
    }

    open spec fn answers(&self, label: Seq<char>) -> bool {
        self@.answers(label)
    }

    fn get_type(&self) -> (r: String) {
        proof {
            lemma_node_view(*self);
        }
        self.kind.clone()
    }

    fn get_start(&self) -> (r: Position) {
        first_start(self)
    }

    fn get_next(&self) -> (r: Position) {
        first_next(self)
    }

    fn get_tokens(&self) -> (r: Vec<Token>) {
        let mut r: Vec<Token> = Vec::new();
        collect_tokens(self, &mut r);
        assert(token_views(r@) =~= self@.leaves());
        r
    }

    fn get_json(&self, with_position: bool) -> (r: String) {
        let mut r = String::new();
        push_node_json(self, &mut r, with_position);
        assert(r@ =~= self@.json(with_position));
        r
    }

    fn is(&self, value: &str) -> (r: bool) {
        proof {
            lemma_node_view(*self);
        }
        match self.get_token() {
            Some(token) => token.is(value),
            None => same_text(self.kind.as_str(), value),
        }
    }
}

} // verus!
