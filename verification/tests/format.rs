use lust::nodes::{Bool, Call, Def, Fn, Keyword, Let, Macro, Number, Symbol};
use lust::Node;

fn num(m: u64) -> Node {
    Node::Number(Number::from_parts(false, m, 0))
}

fn sym(name: &str) -> Node {
    Node::Symbol(Symbol::new(None, name.to_string()))
}

fn call(name: &str, args: Vec<Node>) -> Node {
    Node::Call(Call::new(Symbol::new(None, name.to_string()), args))
}

fn def(name: &str, e: Node) -> Node {
    Node::Def(Def::new(Symbol::new(None, name.to_string()), e))
}

#[test]
fn tests_test_format_list_with_nested_list_and_atoms() {
    let actual_input = def("a", call("+", vec![num(1), num(2)]));
    let actual_result = actual_input.to_string();
    let expected_result = "(def a (+ 1 2))";
    assert_eq!(expected_result, actual_result);
}

#[test]
fn tests_test_format_call_expr_without_args() {
    assert_eq!(call("+", vec![]).to_string(), "(+)");
}

#[test]
fn mod_test_format_list_with_nested_list_and_atoms() {
    let actual_input = def("a", call("+", vec![num(1), num(2)]));
    let actual_result = actual_input.to_string();
    let expected_result = "(def a (+ 1 2))";
    assert_eq!(expected_result, actual_result);
}

#[test]
fn mod_test_format_call_expr_without_args() {
    assert_eq!(call("+", vec![]).to_string(), "(+)");
}

#[test]
fn val_test_format_list_with_nested_list_and_atoms() {
    let actual_input = Node::List(vec![sym("def"), sym("a"), Node::List(vec![sym("+"), num(1), num(2)])]);
    let actual_result = actual_input.to_string();
    let expected_result = "(def a (+ 1 2))";
    assert_eq!(expected_result, actual_result);
}

#[test]
fn format_numbers() {
    assert_eq!(Number::from_parts(false, 645, 1).to_string(), "64.5");
    assert_eq!(Number::from_parts(true, 1, 0).to_string(), "-1");
    assert_eq!(Number::from_parts(false, 6400, 2).to_string(), "64");
    assert_eq!(Number::from_parts(false, 5, 3).to_string(), "0.005");
    assert_eq!(Number::from_parts(true, 0, 3).to_string(), "0");
    assert_eq!(Number::from_parts(false, 120, 0).to_string(), "120");
}

#[test]
fn format_all_node_kinds() {
    assert_eq!(Node::Bool(Bool::new(true)).to_string(), "true");
    assert_eq!(Node::Bool(Bool::new(false)).to_string(), "false");
    assert_eq!(Node::String(lust::nodes::String::new("hi".to_string())).to_string(), "\"hi\"");
    assert_eq!(Node::Symbol(Symbol::new(Some("ns".to_string()), "x".to_string())).to_string(), "ns/x");
    assert_eq!(Node::Keyword(Keyword::new(None, "k".to_string())).to_string(), ":k");
    assert_eq!(Node::Keyword(Keyword::new(Some("ns".to_string()), "k".to_string())).to_string(), ":ns/k");
    assert_eq!(Node::Vec(vec![num(1), sym("a")]).to_string(), "[1 a]");
    assert_eq!(Node::List(vec![]).to_string(), "()");
    assert_eq!(Node::Fn(Fn::new(vec![sym("a")], vec![call("+", vec![sym("a"), num(1)])])).to_string(), "(fn (fn [a] (+ a 1)))");
    assert_eq!(Node::Macro(Macro::new(vec![sym("a")], vec![sym("a")])).to_string(), "(macro (macro [a] a))");
    assert_eq!(Node::Let(Let::new(vec![sym("a"), num(1)], vec![sym("a")])).to_string(), "(let [a 1] a)");
    assert_eq!(lust::ast::format_vec(&[num(1), num(2), num(3)]), "1 2 3");
}

#[test]
fn node_predicates() {
    assert!(Node::Bool(Bool::new(true)).as_bool());
    assert!(!Node::Bool(Bool::new(false)).as_bool());
    assert!(num(0).as_bool());
    assert!(sym("a").is_symbol("a"));
    assert!(!sym("a").is_symbol("b"));
    assert!(call("unquote", vec![]).is_call_of("unquote"));
    assert!(!sym("unquote").is_call_of("unquote"));
    assert!(Node::Macro(Macro::new(vec![], vec![])).is_macro());
    assert!(!Node::Fn(Fn::new(vec![], vec![])).is_macro());
}
