//! Tokenizer and recursive-descent parser for a small arithmetic language.
//!
//! A text is lexed into tokens, white space included, and the tokens are
//! parsed into a tree. `lex` and `parse` take a text and give the result as
//! JSON, or the failure in words.

use vstd::prelude::*;
use vstd::string::*;

pub mod ast;
pub mod error;
pub mod input;
pub mod laws;
pub mod lexer;
pub mod node;
pub mod parser;
pub mod position;
pub mod stream;
pub mod text;
pub mod token;

use crate::ast::{token_views, AST};
use crate::error::{Error, ErrorView, Exception, ExceptionView};
use crate::laws::{law_failure_names_the_character, law_parse_failures, law_tree_keeps_every_token};
use crate::lexer::Lexer;
use crate::parser::{calcul, Parser};
use crate::position::Position;
use crate::token::TokenView;

verus! {

/// The JSON objects of the first `n` of `ts`, with commas between them.
pub open spec fn tokens_json(ts: Seq<TokenView>, n: nat, with_position: bool) -> Seq<char>
    decreases n,
{
    if n == 0 || n > ts.len() {
        Seq::empty()
    } else if n == 1 {
        ts[0].json(with_position)
    } else {
        tokens_json(ts, (n - 1) as nat, with_position) + ","@ + ts[n - 1].json(with_position)
    }
}

/// What `lex` gives for `source`: the JSON array of its tokens, or the
/// report of the failure.
pub open spec fn lex_output(source: Seq<char>, with_position: bool) -> Result<
    Seq<char>,
    Seq<char>,
> {
    match crate::lexer::lex(source, Position::origin()) {
        Ok(ts) => Ok("["@ + tokens_json(ts, ts.len(), with_position) + "]"@),
        Err(e) => Err(e.report()),
    }
}

/// What `parse` gives for `source`: the JSON of the tree of the one
/// expression that the source holds, or the report of the failure. Tokens
/// left over after the expression are a failure.
pub open spec fn parse_output(source: Seq<char>, with_position: bool) -> Result<
    Seq<char>,
    Seq<char>,
> {
    match crate::lexer::lex(source, Position::origin()) {
        Err(e) => Err(e.relay("LexerStream::from"@).relay("Parser::from"@).report()),
        Ok(ts) => match calcul(ts, 0) {
            Err(e) => Err(e.report()),
            Ok(t) => if t.used < ts.len() {
                Err(
                    ExceptionView::create(
                        ErrorView::UnexpectedToken(ts[t.used as int]),
                        "parse"@,
                    ).report(),
                )
            } else {
                Ok(t.root.json(with_position))
            },
        },
    }
}

/// Lexes `text` and renders its tokens as a JSON array, with the span of
/// each token where `with_position` is set. A failure comes back in words,
/// with its trace.
pub fn lex(text: &str, with_position: bool) -> (r: Result<String, String>)
    ensures
        match r {
            Ok(json) => lex_output(text@, with_position) == Ok::<_, Seq<char>>(json@),
            Err(report) => lex_output(text@, with_position) == Err::<Seq<char>, _>(report@),
        },
{
    let mut lexer = Lexer::from(text.to_owned());
    assert(lexer.rest() =~= text@);
    match lexer.read() {
        Err(error) => Err(error.describe()),
        Ok(tokens) => {
            let mut out = String::new();
            out.append("[");
            let ghost views = token_views(tokens@);
            let mut i: usize = 0;
            assert(out@ =~= "["@ + tokens_json(views, 0, with_position));
            while i < tokens.len()
                invariant
                    i <= tokens.len(),
                    views == token_views(tokens@),
                    out@ == "["@ + tokens_json(views, i as nat, with_position),
                decreases tokens.len() - i,
            {
                if i > 0 {
                    out.append(",");
                }
                tokens[i].push_json(&mut out, with_position);
                assert(views[i as int] == tokens@[i as int]@);
                assert(out@ =~= "["@ + tokens_json(views, (i + 1) as nat, with_position));
                i += 1;
            }
            out.append("]");
            Ok(out)
        },
    }
}

/// Lexes and parses `text` and renders the tree as JSON, with the span of
/// each item where `with_position` is set. The text must hold one
/// expression and nothing after it. A failure comes back in words, with
/// its trace.
pub fn parse(text: &str, with_position: bool) -> (r: Result<String, String>)
    ensures
        match r {
            Ok(json) => parse_output(text@, with_position) == Ok::<_, Seq<char>>(json@),
            Err(report) => parse_output(text@, with_position) == Err::<Seq<char>, _>(report@),
        },
{
    match Parser::try_from(text.to_owned()) {
        Err(error) => {
            proof {
                law_failure_names_the_character(text@, Position::origin());
            }
            Err(error.describe())
        },
        Ok(mut parser) => {
            let ghost ts = parser.tokens();
            proof {
                law_parse_failures(ts, 0);
                law_tree_keeps_every_token(ts, 0);
            }
            match parser.parse() {
                Err(error) => Err(error.describe()),
                Ok(node) => match parser.peek() {
                    Some(token) => Err(
                        Exception::create(Error::UnexpectedToken(token), "parse").describe(),
                    ),
                    None => Ok(node.get_json(with_position)),
                },
            }
        },
    }
}

} // verus!
