use calcul::ast::AST;
use calcul::error::{Error, Exception};
use calcul::node::{copy_item, Node, NodeItem};
use calcul::position::Position;
use calcul::token::{is_equal_value, is_one_of, Token, TokenKind};
use either::Either;

fn at(cursor: usize, line: usize, column: usize) -> Position {
    Position { cursor, line, column }
}

fn number(text: &str, from: usize) -> Token {
    Token::Number(String::from(text), at(from, 0, from), at(from + text.len(), 0, from + text.len()))
}

#[test]
fn position_json_lists_cursor_line_column() {
    assert_eq!(at(0, 0, 0).get_json(), r#"{"cursor":0,"line":0,"column":0}"#);
    assert_eq!(at(120, 7, 19).get_json(), r#"{"cursor":120,"line":7,"column":19}"#);
    assert_eq!(at(1005, 10, 9).get_json(), r#"{"cursor":1005,"line":10,"column":9}"#);
}

#[test]
fn position_describes_line_and_column() {
    assert_eq!(at(12, 3, 4).describe(), "3:4");
    assert_eq!(at(0, 0, 0).describe(), "0:0");
}

#[test]
fn position_start_is_origin() {
    assert_eq!(Position::start(), at(0, 0, 0));
}

#[test]
fn position_next_follows_the_newline_rule() {
    let p = at(4, 1, 2);
    assert_eq!(p.next('x'), at(5, 1, 3));
    assert_eq!(p.next('\n'), at(5, 2, 0));
    assert_eq!(p.next('\r'), at(5, 1, 3));
}

#[test]
fn token_kind_labels() {
    assert_eq!(TokenKind::Identifier.label(), "Identifier");
    assert_eq!(TokenKind::Number.label(), "Number");
    assert_eq!(TokenKind::Operator.label(), "Operator");
    assert_eq!(TokenKind::Punctuation.label(), "Punctuation");
    assert_eq!(TokenKind::Whitespace.label(), "Whitespace");
}

#[test]
fn token_value_and_kind() {
    let t = Token::Identifier(String::from("abc"), at(0, 0, 0), at(3, 0, 3));
    assert_eq!(t.get_value(), "abc");
    assert_eq!(t.kind(), TokenKind::Identifier);
    let p = Token::Punctuation('(', at(0, 0, 0), at(1, 0, 1));
    assert_eq!(p.get_value(), "(");
    assert_eq!(p.kind(), TokenKind::Punctuation);
}

#[test]
fn token_predicates_test_kind_and_value() {
    let id = Token::Identifier(String::from("abc"), at(0, 0, 0), at(3, 0, 3));
    assert!(id.is_identifier(None));
    assert!(id.is_identifier(Some("abc")));
    assert!(!id.is_identifier(Some("abd")));
    assert!(!id.is_number(None));
    assert!(!id.is_operator(None));
    assert!(!id.is_punctuation(None));
    assert!(!id.is_whitespace(None));

    let n = number("42", 0);
    assert!(n.is_number(None));
    assert!(n.is_number(Some("42")));
    assert!(!n.is_number(Some("4")));
    assert!(!n.is_identifier(Some("42")));

    let op = Token::Operator(String::from("=="), at(0, 0, 0), at(2, 0, 2));
    assert!(op.is_operator(None));
    assert!(op.is_operator(Some("==")));
    assert!(!op.is_operator(Some("=")));

    let ws = Token::Whitespace(String::from(" \t"), at(0, 0, 0), at(2, 0, 2));
    assert!(ws.is_whitespace(None));
    assert!(ws.is_whitespace(Some(" \t")));
    assert!(!ws.is_whitespace(Some(" ")));

    let p = Token::Punctuation(';', at(0, 0, 0), at(1, 0, 1));
    assert!(p.is_punctuation(None));
    assert!(p.is_punctuation(Some(';')));
    assert!(!p.is_punctuation(Some(',')));
}

#[test]
fn token_one_of_punctuation_is_membership() {
    let p = Token::Punctuation(')', at(0, 0, 0), at(1, 0, 1));
    assert!(p.is_one_of_punctuation(vec!['(', ')']));
    assert!(p.is_one_of_punctuation(vec![')']));
    assert!(!p.is_one_of_punctuation(vec!['(', ',']));
    assert!(!p.is_one_of_punctuation(vec![]));
    let op = Token::Operator(String::from(")"), at(0, 0, 0), at(1, 0, 1));
    assert!(!op.is_one_of_punctuation(vec![')']));
}

#[test]
fn equal_value_asks_for_character_before_string() {
    let t = Token::Operator(String::from("+"), at(0, 0, 0), at(1, 0, 1));
    assert!(is_equal_value(&t, Some('+'), None));
    assert!(!is_equal_value(&t, Some('-'), None));
    assert!(is_equal_value(&t, None, Some("+")));
    assert!(!is_equal_value(&t, None, Some("++")));
    assert!(is_equal_value(&t, None, None));
    assert!(!is_equal_value(&t, Some('-'), Some("+")));
}

#[test]
fn one_of_asks_for_characters_before_strings() {
    let t = Token::Operator(String::from("&&"), at(0, 0, 0), at(2, 0, 2));
    assert!(is_one_of(&t, None, Some(vec!["||", "&&"])));
    assert!(!is_one_of(&t, None, Some(vec!["||", "=="])));
    assert!(!is_one_of(&t, None, Some(vec![])));
    assert!(!is_one_of(&t, Some(vec!['&']), Some(vec!["&&"])));
    assert!(is_one_of(&t, None, None));
    let single = Token::Operator(String::from("&"), at(0, 0, 0), at(1, 0, 1));
    assert!(is_one_of(&single, Some(vec!['|', '&']), None));
}

#[test]
fn token_as_tree_item() {
    let t = number("7", 3);
    assert_eq!(t.get_type(), "Number");
    assert_eq!(t.get_start(), at(3, 0, 3));
    assert_eq!(t.get_next(), at(4, 0, 4));
    assert_eq!(t.get_tokens(), vec![number("7", 3)]);
    assert!(t.is("Number"));
    assert!(!t.is("Identifier"));
    assert!(!t.is("7"));
}

#[test]
fn token_clone_is_equal() {
    let t = Token::Whitespace(String::from("\n"), at(1, 0, 1), at(2, 1, 0));
    assert_eq!(t.clone(), t);
}

#[test]
fn token_json_without_and_with_spans() {
    let t = number("12", 4);
    assert_eq!(t.get_json(false), r#"{"type":"Number","value":"12"}"#);
    assert_eq!(
        t.get_json(true),
        r#"{"type":"Number","value":"12","start":{"cursor":4,"line":0,"column":4},"next":{"cursor":6,"line":0,"column":6}}"#
    );
}

#[test]
fn token_json_escapes_line_breaks_tabs_and_quotes() {
    let ws = Token::Whitespace(String::from("\r\n\n\r\t "), at(0, 0, 0), at(6, 2, 3));
    assert_eq!(ws.get_json(false), r#"{"type":"Whitespace","value":"\n\n\n\t "}"#);
    let id = Token::Identifier(String::from("a\\\"b"), at(0, 0, 0), at(4, 0, 4));
    assert_eq!(id.get_json(false), "{\"type\":\"Identifier\",\"value\":\"a\\\\\"b\"}");
    let cr = Token::Whitespace(String::from("\r\r\n"), at(0, 0, 0), at(3, 1, 0));
    assert_eq!(cr.get_json(false), r#"{"type":"Whitespace","value":"\n\n"}"#);
}

#[test]
fn token_describes_kind_and_value() {
    assert_eq!(number("12", 0).describe(), "Number(12)");
    let p = Token::Punctuation('(', at(0, 0, 0), at(1, 0, 1));
    assert_eq!(p.describe(), "Punctuation(()");
}

fn sum() -> Node {
    let plus = Node::create(
        "Add",
        vec![Either::Left(number("1", 0)), Either::Left(number("2", 2))],
    );
    Node::create("Multiply", vec![Either::Right(plus), Either::Left(number("3", 5))])
}

#[test]
fn node_create_keeps_kind_and_items() {
    let n = sum();
    assert_eq!(n.get_type(), "Multiply");
    let items = n.get_value();
    assert_eq!(items.len(), 2);
    match &items[0] {
        Either::Right(inner) => assert_eq!(inner.get_type(), "Add"),
        Either::Left(_) => panic!("a node was expected"),
    }
    match &items[1] {
        Either::Left(t) => assert_eq!(*t, number("3", 5)),
        Either::Right(_) => panic!("a token was expected"),
    }
}

#[test]
fn node_flattens_to_tokens_in_order() {
    assert_eq!(sum().get_tokens(), vec![number("1", 0), number("2", 2), number("3", 5)]);
    assert_eq!(Node::create("Empty", vec![]).get_tokens(), vec![]);
}

#[test]
fn node_text_joins_token_texts() {
    assert_eq!(sum().get_text(), "123");
    assert_eq!(Node::create("Empty", vec![]).get_text(), "");
}

#[test]
fn node_span_comes_from_first_item() {
    let n = sum();
    assert_eq!(n.get_start(), at(0, 0, 0));
    assert_eq!(n.get_next(), at(1, 0, 1));
    let shifted = Node::create("Group", vec![Either::Left(number("30", 8))]);
    assert_eq!(shifted.get_start(), at(8, 0, 8));
    assert_eq!(shifted.get_next(), at(10, 0, 10));
}

#[test]
fn atom_wraps_one_token() {
    let a = Node::create_atom(number("5", 0));
    assert_eq!(a.get_type(), "atom");
    assert_eq!(a.get_token(), Some(number("5", 0)));
    assert_eq!(a.get_tokens(), vec![number("5", 0)]);
    assert_eq!(a.get_value().len(), 1);
    assert_eq!(a.get_text(), "5");
}

#[test]
fn only_atoms_have_a_token() {
    assert_eq!(sum().get_token(), None);
    let single = Node::create("Group", vec![Either::Left(number("5", 0))]);
    assert_eq!(single.get_token(), None);
}

#[test]
fn node_answers_by_kind_and_atom_by_token() {
    let n = sum();
    assert!(n.is("Multiply"));
    assert!(!n.is("Add"));
    let a = Node::create_atom(number("5", 0));
    assert!(a.is("Number"));
    assert!(!a.is("atom"));
    assert!(!a.is("Identifier"));
}

#[test]
fn node_json_nests_items_inline() {
    let n = sum();
    assert_eq!(
        n.get_json(false),
        r#"{"type":"Multiply","value":[{"type":"Add","value":[{"type":"Number","value":"1"},{"type":"Number","value":"2"}]},{"type":"Number","value":"3"}]}"#
    );
    assert_eq!(Node::create("Empty", vec![]).get_json(false), r#"{"type":"Empty","value":[]}"#);
}

#[test]
fn node_json_with_spans() {
    let n = Node::create("Group", vec![Either::Left(number("7", 2))]);
    assert_eq!(
        n.get_json(true),
        r#"{"type":"Group","value":[{"type":"Number","value":"7","start":{"cursor":2,"line":0,"column":2},"next":{"cursor":3,"line":0,"column":3}}],"start":{"cursor":2,"line":0,"column":2},"next":{"cursor":3,"line":0,"column":3}}"#
    );
}

#[test]
fn node_describes_kind_and_text() {
    assert_eq!(sum().describe(), "Multiply(123)");
}

#[test]
fn node_clone_keeps_the_tree() {
    let n = sum();
    let c = n.clone();
    assert_eq!(c.get_json(true), n.get_json(true));
    assert_eq!(c.get_tokens(), n.get_tokens());
}

#[test]
fn item_copy_keeps_the_item() {
    let item: NodeItem = Either::Right(sum());
    match copy_item(&item) {
        Either::Right(n) => assert_eq!(n.get_text(), "123"),
        Either::Left(_) => panic!("a node was expected"),
    }
    let leaf: NodeItem = Either::Left(number("9", 0));
    match copy_item(&leaf) {
        Either::Left(t) => assert_eq!(t, number("9", 0)),
        Either::Right(_) => panic!("a token was expected"),
    }
}

#[test]
fn error_messages() {
    assert_eq!(Error::EOF.describe(), "End of file");
    assert_eq!(Error::NoBlockEnd('{', at(3, 1, 2)).describe(), "Block '{' is not ended in 1:2");
    assert_eq!(
        Error::UnexpectedCharacter(')', ']', at(9, 0, 9)).describe(),
        "Expected token ')' got ']' in 0:9."
    );
    assert_eq!(Error::UnexpectedEOF(at(4, 2, 0)).describe(), "Unexpected end of file in 2:0.");
    assert_eq!(
        Error::UnexpectedToken(number("12", 4)).describe(),
        "Unexpected token Number(12) in 0:4."
    );
    assert_eq!(
        Error::UnexpectedItem(Either::Left(number("12", 4))).describe(),
        "Unexpected token Number(12) in 0:4."
    );
    assert_eq!(
        Error::UnexpectedItem(Either::Right(sum())).describe(),
        "Unexpected node Multiply(123) in 0:0."
    );
    assert_eq!(
        Error::UnprocessableCharacter('@', at(1, 0, 1)).describe(),
        "Can't handle character @ in 0:1."
    );
}

#[test]
fn error_clone_keeps_the_message() {
    let e = Error::UnexpectedItem(Either::Right(sum()));
    assert_eq!(e.clone().describe(), e.describe());
    let t = Error::UnexpectedToken(number("1", 0));
    assert_eq!(t.clone().describe(), t.describe());
}

#[test]
fn exception_starts_with_one_frame() {
    let e = Exception::create(Error::EOF, "origin");
    assert_eq!(e.get_trace(), vec![String::from("origin")]);
    assert!(matches!(e.error, Error::EOF));
    assert!(matches!(e.get_error(), Error::EOF));
}

#[test]
fn relay_appends_a_frame_and_keeps_the_error() {
    let e = Exception::create(Error::UnexpectedEOF(at(2, 0, 2)), "inner");
    let e = Exception::relay(e, "middle");
    let e = Exception::relay(e, "outer");
    assert_eq!(
        e.get_trace(),
        vec![String::from("inner"), String::from("middle"), String::from("outer")]
    );
    match e.error {
        Error::UnexpectedEOF(p) => assert_eq!(p, at(2, 0, 2)),
        _ => panic!("the error changed"),
    }
}

#[test]
fn exception_report_lists_frames_origin_first() {
    let e = Exception::create(Error::EOF, "inner");
    assert_eq!(e.describe(), "End of file\n\ninner");
    let e = Exception::relay(e, "outer");
    assert_eq!(e.describe(), "End of file\n\ninner\nouter");
}

#[test]
fn exception_clone_keeps_error_and_trace() {
    let e = Exception::relay(Exception::create(Error::NoBlockEnd('(', at(0, 0, 0)), "a"), "b");
    let c = e.clone();
    assert_eq!(c.describe(), e.describe());
    assert_eq!(c.get_trace(), e.get_trace());
}
