//! What tokens and nodes have in common as items of a syntax tree.

use vstd::prelude::*;
use crate::position::Position;
use crate::token::{Token, TokenView};

verus! {

/// The views of a sequence of tokens, in the same order.
pub open spec fn token_views(tokens: Seq<Token>) -> Seq<TokenView> {
    tokens.map_values(|t: Token| t@)
}

/// An item of a syntax tree: a token, or a node that holds further items.
pub trait AST {
    /// The label of the item: a token's kind, a node's production.
    spec fn kind_name(&self) -> Seq<char>;

    /// Whether the item covers a piece of the source, so that it has a span.
    spec fn spanned(&self) -> bool;

    /// Where the item starts.
    spec fn start(&self) -> Position;

    /// Where the item's first token ends.
    spec fn next(&self) -> Position;

    /// The tokens below the item, from left to right.
    spec fn leaves(&self) -> Seq<TokenView>;

    /// Whether every node at or below the item has a span.
    spec fn populated(&self) -> bool;

    /// The item as JSON, with or without spans.
    spec fn json(&self, with_position: bool) -> Seq<char>;

    /// Whether the item answers to `label`.
    spec fn answers(&self, label: Seq<char>) -> bool;

    /// The label of the item.
    fn get_type(&self) -> (r: String)
        ensures
            r@ == self.kind_name(),
    ;

    /// Where the item starts.
    fn get_start(&self) -> (r: Position)
        requires
            self.spanned(),
        ensures
            r == self.start(),
    ;

    /// Where the item's first token ends.
    fn get_next(&self) -> (r: Position)
        requires
            self.spanned(),
        ensures
            r == self.next(),
    ;

    /// Copies of the tokens below the item, from left to right.
    fn get_tokens(&self) -> (r: Vec<Token>)
        ensures
            token_views(r@) == self.leaves(),
            r@.len() == self.leaves().len(),
    ;

    /// The item as JSON, with spans where `with_position` is set.
    fn get_json(&self, with_position: bool) -> (r: String)
        requires
            with_position ==> self.populated(),
        ensures
            r@ == self.json(with_position),
    ;

    /// Whether the item answers to the label `value`.
    fn is(&self, value: &str) -> (r: bool)
        ensures
            r == self.answers(value@),
    ;
}

} // verus!
