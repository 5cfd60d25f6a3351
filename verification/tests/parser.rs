use lust::nodes::{Keyword, Number, Symbol};
use lust::parser::ParserError;
use lust::{Node, Parser};

fn num(negative: bool, m: u64, scale: usize) -> Node {
    Node::Number(Number::from_parts(negative, m, scale))
}

fn sym(name: &str) -> Node {
    Node::Symbol(Symbol::new(None, name.to_string()))
}

fn kw(ns: Option<&str>, name: &str) -> Node {
    Node::Keyword(Keyword::new(ns.map(|s| s.to_string()), name.to_string()))
}

fn parse_one(src: &str) -> Node {
    let mut parser = Parser::new(src);
    parser.next().unwrap().ok().unwrap()
}

#[test]
fn test_parse_number() {
    let mut parser = Parser::new("1");
    assert_eq!(num(false, 1, 0), parser.next().unwrap().ok().unwrap())
}

#[test]
fn test_parse_string() {
    let s = "rust we're looking forward on beta";
    let input = format!(r#""{}""#, s);
    let mut parser = Parser::new(&input);
    assert_eq!(Node::String(lust::nodes::String::new(s.to_string())), parser.next().unwrap().ok().unwrap())
}

#[test]
fn test_parse_symbol() {
    let s = "symbol";
    let mut parser = Parser::new(s);
    assert_eq!(sym(s), parser.next().unwrap().ok().unwrap())
}

#[test]
fn test_parse_ns_qualified_symbol() {
    let ns = "my-ns";
    let s = "symbol";
    let ns_qualified_symbol = format!("{}/{}", ns, s);
    let mut parser = Parser::new(&ns_qualified_symbol);
    assert_eq!(
        Node::Symbol(Symbol::new(Some(ns.to_string()), s.to_string())),
        parser.next().unwrap().ok().unwrap()
    )
}

#[test]
fn test_parse_keyword() {
    let mut parser = Parser::new(":keyword");
    assert_eq!(kw(None, "keyword"), parser.next().unwrap().ok().unwrap())
}

#[test]
fn test_parse_ns_qualified_keyword() {
    let mut parser = Parser::new(":my-ns/keyword");
    assert_eq!(kw(Some("my-ns"), "keyword"), parser.next().unwrap().ok().unwrap())
}

#[test]
fn tests_test_parse_list_expression() {
    let expected_result = Node::List(vec![sym("def"), sym("a"), num(false, 1, 0)]);
    assert_eq!(expected_result, parse_one("(def a 1)"));
}

#[test]
fn parser_test_parse_list_expression() {
    let expected_result = Node::List(vec![sym("def"), sym("a"), num(false, 1, 0)]);
    let mut parser = Parser::new("(def a 1)");
    let actual_result = parser.next().unwrap().ok().unwrap();
    assert_eq!(expected_result, actual_result);
}

#[test]
fn test_parse_vec_expression() {
    let expected_result = Node::Vec(vec![kw(None, "1"), kw(None, "2"), kw(None, "3")]);
    assert_eq!(expected_result, parse_one("[:1 :2 :3]"));
}

#[test]
fn tests_test_parse_nested_list_expressions() {
    let expected_result = Node::List(vec![
        sym("def"),
        sym("a"),
        Node::List(vec![sym("+"), num(false, 1, 0), num(false, 2, 0)]),
    ]);
    assert_eq!(expected_result, parse_one("(def a (+ 1 2))"));
}

#[test]
fn parser_test_parse_nested_list_expressions() {
    let expected_result = Node::List(vec![
        sym("def"),
        sym("a"),
        Node::List(vec![sym("+"), num(false, 1, 0), num(false, 2, 0)]),
    ]);
    let mut parser = Parser::new("(def a (+ 1 2))");
    let actual_result = parser.next().unwrap().ok().unwrap();
    assert_eq!(expected_result, actual_result);
}

#[test]
fn test_parse_nested_vec_expressions() {
    let expected_result = Node::Vec(vec![
        num(false, 1, 0),
        num(false, 2, 0),
        Node::List(vec![sym("+"), num(false, 1, 0), num(false, 2, 0)]),
        kw(None, "k"),
    ]);
    assert_eq!(expected_result, parse_one("[1 2 (+ 1 2) :k]"));
}

#[test]
fn test_parse_quoted_list() {
    let expected_result = Node::List(vec![
        sym("quote"),
        Node::List(vec![sym("+"), num(false, 1, 0), num(false, 2, 0)]),
    ]);
    assert_eq!(expected_result, parse_one("'(+ 1 2)"));
}

#[test]
fn test_parse_unquoted_symbol() {
    let expected_result = Node::List(vec![sym("unquote"), sym("symbol")]);
    assert_eq!(expected_result, parse_one("~symbol"));
}

#[test]
fn test_parse_unquoted_splicing_list() {
    let expected_result = Node::List(vec![
        sym("unquote-splicing"),
        Node::List(vec![num(false, 1, 0), num(false, 2, 0), num(false, 3, 0)]),
    ]);
    assert_eq!(expected_result, parse_one("~@(1 2 3)"));
}

#[test]
fn test_parse_syntax_quoted_list() {
    let expected_result = Node::List(vec![
        sym("syntax-quote"),
        Node::List(vec![sym("+"), num(false, 1, 0), num(false, 2, 0)]),
    ]);
    let mut parser = Parser::new("`(+ 1 2)");
    assert_eq!(expected_result, parser.next().unwrap().ok().unwrap());
}

#[test]
fn parses_forms_in_sequence() {
    let mut parser = Parser::new("1 (a) :k");
    assert_eq!(parser.next().unwrap().ok().unwrap(), num(false, 1, 0));
    assert_eq!(parser.next().unwrap().ok().unwrap(), Node::List(vec![sym("a")]));
    assert_eq!(parser.next().unwrap().ok().unwrap(), kw(None, "k"));
    assert!(parser.next().is_none());
}

#[test]
fn parser_errors() {
    assert!(matches!(Parser::new(")").next(), Some(Err(ParserError::UnexpectedToken(_)))));
    assert!(matches!(Parser::new("(a b").next(), Some(Err(ParserError::UnexpectedEndOfInput))));
    assert!(matches!(Parser::new("'").next(), Some(Err(ParserError::UnexpectedEndOfInput))));
    assert!(matches!(Parser::new("(a ]").next(), Some(Err(ParserError::UnexpectedToken(_)))));
    assert!(matches!(Parser::new("[a )").next(), Some(Err(ParserError::UnexpectedToken(_)))));
    let e = Parser::new("(a ?)").next().unwrap().err().unwrap();
    assert_eq!(e.to_string(), "Invalid syntax at 1:4 detected");
    assert_eq!(ParserError::UnexpectedEndOfInput.to_string(), "Unexpected end of file detected");
}
