use calcul::ast::AST;
use calcul::error::{Error, Exception};
use calcul::lexer::Lexer;
use calcul::node::{Node, NodeItem};
use calcul::parser::Parser;
use calcul::position::Position;
use calcul::stream::LexerStream;
use calcul::token::Token;
use either::Either;

fn on_line(cursor: usize) -> Position {
    Position { cursor, line: 0, column: cursor }
}

fn num(text: &str, from: usize) -> Token {
    Token::Number(String::from(text), on_line(from), on_line(from + text.len()))
}

fn op(text: &str, from: usize) -> Token {
    Token::Operator(String::from(text), on_line(from), on_line(from + text.len()))
}

fn mark(c: char, from: usize) -> Token {
    Token::Punctuation(c, on_line(from), on_line(from + 1))
}

fn blank(from: usize) -> Token {
    Token::Whitespace(String::from(" "), on_line(from), on_line(from + 1))
}

fn word(text: &str, from: usize) -> Token {
    Token::Identifier(String::from(text), on_line(from), on_line(from + text.len()))
}

fn spell(tokens: &[&str]) -> Vec<Token> {
    let mut out = Vec::new();
    let mut from = 0;
    for t in tokens {
        let c = t.chars().next().unwrap_or(' ');
        let token = if c.is_ascii_digit() {
            num(t, from)
        } else if c == ' ' {
            blank(from)
        } else if c == '(' || c == ')' || c == ',' {
            mark(c, from)
        } else if c.is_alphabetic() {
            word(t, from)
        } else {
            op(t, from)
        };
        from += t.len();
        out.push(token);
    }
    out
}

fn full_item(item: &NodeItem) -> String {
    match item {
        Either::Left(token) => token.get_value(),
        Either::Right(node) => full(node),
    }
}

fn full(node: &Node) -> String {
    let inner: Vec<String> = node.get_value().iter().map(full_item).collect();
    format!("{}[{}]", node.get_type(), inner.join(" "))
}

fn operands_of(node: &Node) -> Vec<String> {
    let mut out = Vec::new();
    for item in node.get_value().iter() {
        match item {
            Either::Left(token) => {
                if token.is_number(None) {
                    out.push(token.get_value());
                }
            }
            Either::Right(inner) => out.push(shape(inner)),
        }
    }
    out
}

fn shape(node: &Node) -> String {
    let operands = operands_of(node);
    if node.is("Parenthesis") {
        operands.join(",")
    } else {
        format!("{}({})", node.get_type(), operands.join(","))
    }
}

fn parsed(tokens: Vec<Token>) -> Result<String, Exception> {
    Parser::from(tokens).parse().map(|node| shape(&node))
}

fn parsed_text(text: &str) -> Result<String, Exception> {
    match Parser::try_from(String::from(text)) {
        Ok(mut parser) => parser.parse().map(|node| shape(&node)),
        Err(e) => Err(e),
    }
}

fn parsed_full(text: &str) -> Option<String> {
    match Parser::try_from(String::from(text)) {
        Ok(mut parser) => parser.parse().ok().map(|node| full(&node)),
        Err(_) => None,
    }
}

fn trace_of(e: &Exception) -> Vec<String> {
    e.get_trace()
}

fn frames(names: &[&str]) -> Vec<String> {
    names.iter().map(|n| String::from(*n)).collect()
}

#[test]
fn stream_peek_and_eof() {
    let mut s = LexerStream::from(spell(&["1", "+", "2"]));
    assert!(!s.eof());
    assert_eq!(s.peek(0), Some(num("1", 0)));
    assert_eq!(s.peek(2), Some(num("2", 2)));
    assert_eq!(s.peek(3), None);
    assert_eq!(s.peek(-1), None);
    assert_eq!(s.next().ok(), Some(num("1", 0)));
    assert_eq!(s.peek(-1), Some(num("1", 0)));
    assert_eq!(s.peek(0), Some(op("+", 1)));
    assert_eq!(s.peek(isize::MAX), None);
    assert_eq!(s.peek(isize::MIN), None);
    assert!(s.next().is_ok());
    assert!(s.next().is_ok());
    assert!(s.eof());
    assert!(LexerStream::from(Vec::new()).eof());
}

#[test]
fn stream_next_fails_at_the_end() {
    let mut s = LexerStream::from(Vec::new());
    match s.next() {
        Ok(_) => panic!("nothing was there"),
        Err(e) => {
            assert!(matches!(e.error, Error::EOF));
            assert_eq!(trace_of(&e), frames(&["LexerStream::next"]));
        }
    }
}

#[test]
fn stream_is_asks_the_predicate_about_the_next_token() {
    let s = LexerStream::from(spell(&["1", "+"]));
    assert!(s.is(|t| t.is_number(None)));
    assert!(!s.is(|t| t.is_operator(None)));
    assert!(!LexerStream::from(Vec::new()).is(|_| true));
}

#[test]
fn stream_is_equal_matches_token_by_token() {
    let s = LexerStream::from(spell(&["(", ")", "1"]));
    assert!(s.is_equal("()", |t, c| t.is_punctuation(Some(c))));
    assert!(s.is_equal("(", |t, c| t.is_punctuation(Some(c))));
    assert!(s.is_equal("", |_, _| false));
    assert!(!s.is_equal("((", |t, c| t.is_punctuation(Some(c))));
    assert!(!s.is_equal("()1", |t, c| t.is_punctuation(Some(c))));
    assert!(!s.is_equal("()1)", |_, _| true));
    assert!(s.is_equal("()1", |_, _| true));
}

#[test]
fn stream_is_type_or_equal_takes_either_route() {
    let s = LexerStream::from(spell(&["(", ")", "1"]));
    assert!(s.is_type_or_equal(None, |t, c| c.is_none() && t.is_punctuation(None)));
    assert!(!s.is_type_or_equal(None, |t, _| t.is_number(None)));
    assert!(s.is_type_or_equal(Some("()"), |t, c| c.is_some() && t.is_punctuation(c)));
    assert!(!s.is_type_or_equal(Some(")"), |t, c| t.is_punctuation(c)));
    assert!(!LexerStream::from(Vec::new()).is_type_or_equal(None, |_, _| true));
    assert!(LexerStream::from(Vec::new()).is_type_or_equal(Some(""), |_, _| false));
}

#[test]
fn stream_kind_tests() {
    let id = LexerStream::from(spell(&["abc"]));
    assert!(id.is_identifier(None));
    assert!(id.is_identifier(Some("abc")));
    assert!(!id.is_identifier(Some("ab")));
    assert!(!id.is_muted());
    assert!(!id.is_operator(None));
    assert!(!id.is_punctuation(None));

    let ws = LexerStream::from(spell(&[" ", "1"]));
    assert!(ws.is_muted());
    assert!(!ws.is_identifier(None));

    let plus = LexerStream::from(spell(&["+", "1"]));
    assert!(plus.is_operator(None));
    assert!(plus.is_operator(Some("+")));
    assert!(!plus.is_operator(Some("-")));

    let open = LexerStream::from(spell(&["(", ")"]));
    assert!(open.is_punctuation(None));
    assert!(open.is_punctuation(Some("(")));
    assert!(open.is_punctuation(Some("()")));
    assert!(!open.is_punctuation(Some(")")));
    assert!(!open.is_punctuation(Some("())")));
    assert!(open.is_one_of_punctuation(vec![',', '(']));
    assert!(!open.is_one_of_punctuation(vec![',', ')']));
    assert!(!open.is_one_of_punctuation(vec![]));

    let none = LexerStream::from(Vec::new());
    assert!(!none.is_identifier(None));
    assert!(!none.is_muted());
    assert!(!none.is_operator(None));
    assert!(!none.is_punctuation(None));
    assert!(!none.is_one_of_punctuation(vec!['(']));
}

#[test]
fn stream_read_consumes_only_what_is_accepted() {
    let mut s = LexerStream::from(spell(&["1", "+"]));
    match s.read(|t| t.is_operator(None)) {
        Ok(_) => panic!("a number is no operator"),
        Err(e) => {
            assert!(matches!(&e.error, Error::UnexpectedToken(t) if *t == num("1", 0)));
            assert_eq!(trace_of(&e), frames(&["LexerStream::read"]));
        }
    }
    assert_eq!(s.peek(0), Some(num("1", 0)));
    assert_eq!(s.read(|t| t.is_number(None)).ok(), Some(num("1", 0)));
    assert_eq!(s.read(|_| true).ok(), Some(op("+", 1)));
    match s.read(|_| true) {
        Ok(_) => panic!("nothing was left"),
        Err(e) => {
            assert!(matches!(e.error, Error::EOF));
            assert_eq!(trace_of(&e), frames(&["LexerStream::read"]));
        }
    }
}

#[test]
fn stream_read_punctuation() {
    let mut s = LexerStream::from(spell(&["(", ")", "1"]));
    assert_eq!(s.read_punctuation(Some("(")).ok(), Some(mark('(', 0)));
    match s.read_punctuation(Some("(")) {
        Ok(_) => panic!("')' is not '('"),
        Err(e) => {
            assert!(matches!(&e.error, Error::UnexpectedToken(t) if *t == mark(')', 1)));
            assert_eq!(trace_of(&e), frames(&["LexerStream::read_punctuation"]));
        }
    }
    assert_eq!(s.read_punctuation(None).ok(), Some(mark(')', 1)));
    assert!(s.read_punctuation(None).is_err());
    assert_eq!(s.peek(0), Some(num("1", 2)));
    assert!(s.next().is_ok());
    match s.read_punctuation(Some(")")) {
        Ok(_) => panic!("nothing was left"),
        Err(e) => {
            assert!(matches!(e.error, Error::EOF));
            assert_eq!(trace_of(&e), frames(&["LexerStream::read_punctuation"]));
        }
    }
}

#[test]
fn stream_read_while_takes_the_longest_run() {
    let mut s = LexerStream::from(spell(&[" ", " ", "1", " "]));
    assert_eq!(s.read_while(|t| t.is_whitespace(None)), vec![blank(0), blank(1)]);
    assert_eq!(s.read_while(|t| t.is_whitespace(None)), vec![]);
    assert_eq!(s.peek(0), Some(num("1", 2)));
    assert_eq!(s.read_while(|_| true), vec![num("1", 2), blank(3)]);
    assert!(s.eof());
    assert_eq!(s.read_while(|_| true), vec![]);
}

#[test]
fn stream_from_text_lexes_it() {
    match LexerStream::try_from(String::from("1 2")) {
        Ok(s) => assert_eq!(s.peek(2), Some(num("2", 2))),
        Err(_) => panic!("the text is fine"),
    }
    match LexerStream::try_from(String::from("1 ? 2")) {
        Ok(_) => panic!("'?' is no token"),
        Err(e) => {
            assert!(matches!(e.error, Error::UnprocessableCharacter('?', p) if p == on_line(2)));
            assert_eq!(trace_of(&e), frames(&["Lexer::next", "Lexer::read", "LexerStream::from"]));
        }
    }
}

#[test]
fn multiplication_binds_tighter_than_addition() {
    assert_eq!(
        parsed(spell(&["1", "+", "2", "*", "3"])).ok(),
        Some(String::from("Calcul(Add(1,Multiply(2,3)))"))
    );
    assert_eq!(
        parsed(spell(&["1", "*", "2", "+", "3"])).ok(),
        Some(String::from("Calcul(Add(Multiply(1,2),3))"))
    );
    assert_eq!(
        parsed_text("1 + 2 * 3").ok(),
        Some(String::from("Calcul(Add(1,Multiply(2,3)))"))
    );
    assert_eq!(
        parsed_text("1 - 6 / 3").ok(),
        Some(String::from("Calcul(Subtract(1,Divide(6,3)))"))
    );
}

#[test]
fn parentheses_group() {
    assert_eq!(
        parsed(spell(&["(", "1", "+", "2", ")", "*", "3"])).ok(),
        Some(String::from("Calcul(Multiply(Add(1,2),3))"))
    );
    assert_eq!(
        parsed_text("(1 + 2)*3").ok(),
        Some(String::from("Calcul(Multiply(Add(1,2),3))"))
    );
    assert_eq!(parsed_text("((7))").ok(), Some(String::from("Calcul(7)")));
    assert_eq!(
        parsed_text("2*(3*(4 - 1))").ok(),
        Some(String::from("Calcul(Multiply(2,Multiply(3,Subtract(4,1))))"))
    );
}

#[test]
fn operators_associate_to_the_left() {
    assert_eq!(
        parsed(spell(&["1", "-", "2", "-", "3"])).ok(),
        Some(String::from("Calcul(Subtract(Subtract(1,2),3))"))
    );
    assert_eq!(
        parsed_text("1 - 2 - 3").ok(),
        Some(String::from("Calcul(Subtract(Subtract(1,2),3))"))
    );
    assert_eq!(
        parsed_text("8 / 4 / 2 * 5").ok(),
        Some(String::from("Calcul(Multiply(Divide(Divide(8,4),2),5))"))
    );
    assert_eq!(
        parsed_text("1 + 2 - 3 + 4").ok(),
        Some(String::from("Calcul(Add(Subtract(Add(1,2),3),4))"))
    );
}

#[test]
fn a_number_alone_is_an_expression() {
    assert_eq!(parsed_text("42").ok(), Some(String::from("Calcul(42)")));
    assert_eq!(parsed_text("-4.5e3").ok(), Some(String::from("Calcul(-4.5e3)")));
    assert_eq!(parsed(vec![num("7", 0)]).ok(), Some(String::from("Calcul(7)")));
}

#[test]
fn signed_numbers_are_operands() {
    let mut parser = match Parser::try_from(String::from("1+2*3")) {
        Ok(p) => p,
        Err(_) => panic!("the text is fine"),
    };
    assert_eq!(parser.parse().ok().map(|n| shape(&n)), Some(String::from("Calcul(1)")));
    assert!(!parser.eof());
    assert_eq!(parser.peek(), Some(num("+2", 1)));
    assert_eq!(
        parsed_text("1 * -2").ok(),
        Some(String::from("Calcul(Multiply(1,-2))"))
    );
}

#[test]
fn whitespace_is_passed_over() {
    assert_eq!(
        parsed_text("  ( 1\t+\n2 )  *  3  ").ok(),
        Some(String::from("Calcul(Multiply(Add(1,2),3))"))
    );
    let mut parser = Parser::from(spell(&[" ", "1", " ", " "]));
    assert!(parser.parse().is_ok());
    assert!(parser.eof());
}

#[test]
fn trailing_tokens_stay_in_the_stream() {
    let mut parser = Parser::from(spell(&["1", "+", "2", ")", "3"]));
    assert_eq!(parser.parse().ok().map(|n| shape(&n)), Some(String::from("Calcul(Add(1,2))")));
    assert!(!parser.eof());
    assert_eq!(parser.peek(), Some(mark(')', 3)));

    let mut whole = Parser::from(spell(&["1", "+", "2"]));
    assert!(whole.parse().is_ok());
    assert!(whole.eof());
    assert_eq!(whole.peek(), None);
}

#[test]
fn parse_goes_on_from_the_cursor() {
    let mut parser = Parser::from(spell(&["1", "2", "*", "3"]));
    assert_eq!(parser.parse().ok().map(|n| shape(&n)), Some(String::from("Calcul(1)")));
    assert_eq!(parser.parse().ok().map(|n| shape(&n)), Some(String::from("Calcul(Multiply(2,3))")));
    assert!(parser.eof());
}

#[test]
fn unclosed_parenthesis_fails_after_it() {
    match parsed_text("(1+2") {
        Ok(_) => panic!("the parenthesis is open"),
        Err(e) => {
            match &e.error {
                Error::UnexpectedToken(t) => {
                    assert_eq!(*t, num("+2", 2));
                    assert!(t.get_start().cursor >= 0);
                    assert!(t.get_start().column >= 1);
                }
                _ => panic!("another error"),
            }
            assert_eq!(
                trace_of(&e),
                frames(&[
                    "LexerStream::read_punctuation",
                    "Parser::parse_primary",
                    "Parser::parse_multiplicative",
                    "Parser::parse_additive",
                    "Parser::parse",
                ])
            );
        }
    }
    match parsed_text("(1 + 2") {
        Ok(_) => panic!("the parenthesis is open"),
        Err(e) => {
            assert!(matches!(e.error, Error::EOF));
            assert_eq!(
                trace_of(&e),
                frames(&[
                    "LexerStream::read_punctuation",
                    "Parser::parse_primary",
                    "Parser::parse_multiplicative",
                    "Parser::parse_additive",
                    "Parser::parse",
                ])
            );
        }
    }
}

#[test]
fn primary_rejects_what_is_no_number_and_no_parenthesis() {
    for tokens in [spell(&["abc"]), spell(&[")"]), spell(&["*", "1"]), spell(&[",", "1"])] {
        let first = tokens[0].clone();
        match parsed(tokens) {
            Ok(_) => panic!("no primary starts like this"),
            Err(e) => {
                assert!(matches!(&e.error, Error::UnexpectedToken(t) if *t == first));
                assert_eq!(
                    trace_of(&e),
                    frames(&[
                        "Parser::parse_primary",
                        "Parser::parse_multiplicative",
                        "Parser::parse_additive",
                        "Parser::parse",
                    ])
                );
            }
        }
    }
}

#[test]
fn missing_operand_fails_with_the_end_of_the_tokens() {
    for tokens in [Vec::new(), spell(&[" "]), spell(&["1", "+"]), spell(&["("]), spell(&["1", "*", " "])] {
        match parsed(tokens) {
            Ok(_) => panic!("an operand is missing"),
            Err(e) => {
                assert!(matches!(e.error, Error::EOF));
                assert_eq!(trace_of(&e)[0], "LexerStream::next");
                assert_eq!(trace_of(&e)[1], "Parser::parse_primary");
                assert_eq!(trace_of(&e).last().map(|s| s.as_str()), Some("Parser::parse"));
            }
        }
    }
}

#[test]
fn failure_deep_in_the_expression_is_relayed_by_every_call() {
    match parsed(spell(&["1", "+", "2", "*", "x"])) {
        Ok(_) => panic!("an identifier is no operand"),
        Err(e) => {
            assert!(matches!(&e.error, Error::UnexpectedToken(t) if *t == word("x", 4)));
            assert_eq!(
                trace_of(&e),
                frames(&[
                    "Parser::parse_primary",
                    "Parser::parse_multiplicative",
                    "Parser::parse_additive",
                    "Parser::parse",
                ])
            );
        }
    }
    match parsed(spell(&["(", "x", ")"])) {
        Ok(_) => panic!("an identifier is no operand"),
        Err(e) => assert_eq!(
            trace_of(&e),
            frames(&[
                "Parser::parse_primary",
                "Parser::parse_multiplicative",
                "Parser::parse_additive",
                "Parser::parse_primary",
                "Parser::parse_multiplicative",
                "Parser::parse_additive",
                "Parser::parse",
            ])
        ),
    }
}

#[test]
fn parser_from_text_relays_a_lexing_failure() {
    match Parser::try_from(String::from("1 $")) {
        Ok(_) => panic!("'$' is no token"),
        Err(e) => {
            assert!(matches!(e.error, Error::UnprocessableCharacter('$', p) if p == on_line(2)));
            assert_eq!(
                trace_of(&e),
                frames(&["Lexer::next", "Lexer::read", "LexerStream::from", "Parser::from"])
            );
        }
    }
}

#[test]
fn binary_node_keeps_its_operator() {
    assert_eq!(parsed_full("1*2"), Some(String::from("Calcul[Multiply[1 * 2]]")));
    assert_eq!(
        parsed_full("1 + 2 * 3"),
        Some(String::from("Calcul[Add[1 + Multiply[2 * 3]]]"))
    );
    assert_eq!(
        parsed_full("1 - 2 - 3"),
        Some(String::from("Calcul[Subtract[Subtract[1 - 2] - 3]]"))
    );
    assert_eq!(parsed_full("8 / 4"), Some(String::from("Calcul[Divide[8 / 4]]")));
}

#[test]
fn group_keeps_its_marks() {
    assert_eq!(parsed_full("(1)"), Some(String::from("Calcul[Parenthesis[( 1 )]]")));
    assert_eq!(
        parsed_full("(1 + 2)*3"),
        Some(String::from("Calcul[Multiply[Parenthesis[( Add[1 + 2] )] * 3]]"))
    );
    assert_eq!(
        parsed_full("((7))"),
        Some(String::from("Calcul[Parenthesis[( Parenthesis[( 7 )] )]]"))
    );
}

#[test]
fn tree_keeps_every_token_but_white_space() {
    for text in ["(1 + 2) * 3", "1 - 2 - 3", "((4))", "10 / (2 + 3) * 7", "1*2"] {
        let tokens = match Lexer::from(String::from(text)).read() {
            Ok(tokens) => tokens,
            Err(_) => panic!("the text is fine"),
        };
        let kept: Vec<Token> = tokens.iter().filter(|t| !t.is_whitespace(None)).cloned().collect();
        let mut parser = Parser::from(tokens);
        match parser.parse() {
            Ok(tree) => {
                assert_eq!(tree.get_tokens(), kept);
                assert!(parser.eof());
            }
            Err(_) => panic!("the text is fine"),
        }
    }
}

#[test]
fn text_of_a_tree_is_the_source() {
    for text in ["42", "-1.5e+3", "1*2", "(1)", "(1)*(2)", "1*(2-(3))/4", "((7))+(-8)", "2*-3"] {
        let mut parser = match Parser::try_from(String::from(text)) {
            Ok(p) => p,
            Err(_) => panic!("the text is fine"),
        };
        match parser.parse() {
            Ok(tree) => {
                assert!(parser.eof());
                assert_eq!(tree.get_text(), text);
            }
            Err(_) => panic!("the text is fine"),
        }
    }
}

#[test]
fn text_of_a_tree_leaves_white_space_out() {
    let mut spaced = match Parser::try_from(String::from(" ( 1 +\n2 ) * 3 ")) {
        Ok(p) => p,
        Err(_) => panic!("the text is fine"),
    };
    assert_eq!(spaced.parse().ok().map(|t| t.get_text()), Some(String::from("(1+2)*3")));
}

#[test]
fn tree_spans_come_from_the_first_token() {
    let mut parser = match Parser::try_from(String::from("  (12 + 3) * 4")) {
        Ok(p) => p,
        Err(_) => panic!("the text is fine"),
    };
    match parser.parse() {
        Ok(tree) => {
            assert_eq!(tree.get_start(), on_line(2));
            assert_eq!(tree.get_next(), on_line(3));
        }
        Err(_) => panic!("the text is fine"),
    }
    let mut plain = Parser::from(spell(&["12", "*", "4"]));
    match plain.parse() {
        Ok(tree) => {
            assert_eq!(tree.get_start(), on_line(0));
            assert_eq!(tree.get_next(), on_line(2));
        }
        Err(_) => panic!("the tokens are fine"),
    }
}

#[test]
fn parsing_twice_gives_the_same_tree() {
    for text in ["(1 + 2) * 3", "1 - 2 - 3", "(1"] {
        let first = parsed_text(text);
        let second = parsed_text(text);
        match (first, second) {
            (Ok(a), Ok(b)) => assert_eq!(a, b),
            (Err(a), Err(b)) => assert_eq!(a.describe(), b.describe()),
            _ => panic!("two runs differ"),
        }
    }
}
