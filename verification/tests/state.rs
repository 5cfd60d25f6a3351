use lust::lexer::{Lexer, Token};
use lust::nodes::{Bool, Call, Def, Fn, Keyword, Let, Macro, Number, Symbol};
use lust::state::{EvalError, Host};
use lust::{Node, Parser, State};

/// A host that computes with `f64`, as the interpreter does, and serves
/// files from memory.
struct FloatHost {
    files: Vec<(String, String)>,
}

fn to_f64(n: &Number) -> f64 {
    n.to_string().parse().unwrap()
}

fn from_f64(x: f64) -> Number {
    let text = format!("{}", x);
    match Lexer::new(&text).next() {
        Some(Ok(Token::Number { val, .. })) => val,
        other => panic!("not a number: {} ({:?})", text, other),
    }
}

impl Host for FloatHost {
    fn add(&self, a: &Number, b: &Number) -> Number {
        from_f64(to_f64(a) + to_f64(b))
    }

    fn sub(&self, a: &Number, b: &Number) -> Number {
        from_f64(to_f64(a) - to_f64(b))
    }

    fn mul(&self, a: &Number, b: &Number) -> Number {
        from_f64(to_f64(a) * to_f64(b))
    }

    fn div(&self, a: &Number, b: &Number) -> Number {
        from_f64(to_f64(a) / to_f64(b))
    }

    fn neg(&self, a: &Number) -> Number {
        from_f64(-to_f64(a))
    }

    fn recip(&self, a: &Number) -> Number {
        from_f64(1. / to_f64(a))
    }

    fn less(&self, a: &Number, b: &Number) -> bool {
        to_f64(a) < to_f64(b)
    }

    fn greater(&self, a: &Number, b: &Number) -> bool {
        to_f64(a) > to_f64(b)
    }

    fn equal(&self, a: &Number, b: &Number) -> bool {
        to_f64(a) == to_f64(b)
    }

    fn read_file(&self, path: &str) -> Option<Result<String, String>> {
        self.files.iter().find(|(p, _)| p == path).map(|(_, t)| Ok(t.clone()))
    }
}

fn host() -> FloatHost {
    FloatHost { files: vec![] }
}

fn num(x: f64) -> Node {
    Node::Number(from_f64(x))
}

fn boolean(b: bool) -> Node {
    Node::Bool(Bool::new(b))
}

fn string(s: &str) -> Node {
    Node::String(lust::nodes::String::new(s.to_string()))
}

fn sym(name: &str) -> Node {
    Node::Symbol(Symbol::new(None, name.to_string()))
}

fn keyword(name: &str) -> Node {
    Node::Keyword(Keyword::new(None, name.to_string()))
}

fn list(v: Vec<Node>) -> Node {
    Node::List(v)
}

fn vector(v: Vec<Node>) -> Node {
    Node::Vec(v)
}

fn call(name: &str, args: Vec<Node>) -> Node {
    Node::Call(Call::new(Symbol::new(None, name.to_string()), args))
}

fn def(name: &str, e: Node) -> Node {
    Node::Def(Def::new(Symbol::new(None, name.to_string()), e))
}

fn func(params: Vec<Node>, body: Vec<Node>) -> Node {
    Node::Fn(Fn::new(params, body))
}

fn mac(params: Vec<Node>, body: Vec<Node>) -> Node {
    Node::Macro(Macro::new(params, body))
}

fn let_node(bindings: Vec<Node>, body: Vec<Node>) -> Node {
    Node::Let(Let::new(bindings, body))
}

fn key(name: &str) -> Symbol {
    Symbol::new(None, name.to_string())
}

fn qualified(ns: &str, name: &str) -> Symbol {
    Symbol::new(Some(ns.to_string()), name.to_string())
}

fn parse_one(src: &str) -> Node {
    Parser::new(src).next().unwrap().ok().unwrap()
}

#[test]
fn test_insert_to_and_get_from_root_state() {
    let mut state = State::new("user".to_string());
    let val = num(10.5);
    state.insert(key("rust-is-terrific"), val.clone());
    assert_eq!(&val, state.get(&key("rust-is-terrific")).unwrap());
}

#[test]
fn test_insert_to_and_get_from_child_state() {
    let root_state = State::new("user".to_string());
    let mut state = State::new_chained(&root_state);
    let val = num(10.5);
    state.insert(key("rust-is-terrific"), val.clone());
    assert_eq!(&val, state.get(&key("rust-is-terrific")).unwrap());
}

#[test]
fn test_insert_to_root_state_and_get_from_child_state() {
    let mut root_state = State::new("user".to_string());
    let val = num(10.5);
    root_state.insert(key("rust-is-terrific"), val.clone());
    let state = State::new_chained(&root_state);
    assert_eq!(&val, state.get(&key("rust-is-terrific")).unwrap());
}

#[test]
fn test_insert_to_child_state_and_get_none_from_root_state() {
    let root_state = State::new("user".to_string());
    let val = num(10.5);
    let mut state = State::new_chained(&root_state);
    state.insert(key("rust-is-terrific"), val.clone());
    assert!(root_state.get(&key("rust-is-terrific")).is_none());
}

#[test]
fn test_shadow_val_in_root_state() {
    let mut root_state = State::new("user".to_string());
    root_state.insert(key("rust-is-terrific"), num(10.5));
    let val_in_child = num(0.);
    let mut state = State::new_chained(&root_state);
    state.insert(key("rust-is-terrific"), val_in_child.clone());
    assert_eq!(&val_in_child, state.get(&key("rust-is-terrific")).unwrap());
}

#[test]
fn test_insert_to_and_get_from_root_state_with_namespace() {
    let mut state = State::new("user".to_string());
    let val = num(10.5);
    state.insert(key("rust-is-terrific"), val.clone());
    assert_eq!(&val, state.get(&qualified("user", "rust-is-terrific")).unwrap());
}

#[test]
fn test_insert_to_and_get_from_child_state_with_namespace() {
    let root_state = State::new("user".to_string());
    let mut state = State::new_chained(&root_state);
    let val = num(10.5);
    state.insert(key("rust-is-terrific"), val.clone());
    assert_eq!(&val, state.get(&qualified("user_chained", "rust-is-terrific")).unwrap());
}

#[test]
fn test_insert_to_root_state_and_get_from_child_state_with_namespace() {
    let mut root_state = State::new("user".to_string());
    let val = num(10.5);
    root_state.insert(key("rust-is-terrific"), val.clone());
    let state = State::new_chained(&root_state);
    assert_eq!(&val, state.get(&qualified("user", "rust-is-terrific")).unwrap());
}

#[test]
fn test_insert_to_child_state_and_get_none_from_root_state_with_namespace() {
    let root_state = State::new("user".to_string());
    let val = num(10.5);
    let mut state = State::new_chained(&root_state);
    state.insert(key("rust-is-terrific"), val.clone());
    assert!(root_state.get(&qualified("user", "rust-is-terrific")).is_none());
}

#[test]
fn test_shadow_val_in_root_state_with_namespace() {
    let mut root_state = State::new("user".to_string());
    root_state.insert(key("rust-is-terrific"), num(10.5));
    let val_in_child = num(0.);
    let mut state = State::new_chained(&root_state);
    state.insert(key("rust-is-terrific"), val_in_child.clone());
    assert_eq!(&val_in_child, state.get(&key("rust-is-terrific")).unwrap());
}

#[test]
fn tests_test_expand_number() {
    let state = &mut State::new("user".to_string());
    assert_eq!(num(1.), state.expand(&host(), &num(1.)).ok().unwrap());
}

#[test]
fn tests_test_expand_string() {
    let state = &mut State::new("user".to_string());
    let s = "rust is wonderful";
    assert_eq!(string(s), state.expand(&host(), &string(s)).ok().unwrap());
}

#[test]
fn tests_test_expand_symbol() {
    let state = &mut State::new("user".to_string());
    assert_eq!(sym("+"), state.expand(&host(), &sym("+")).ok().unwrap());
}

#[test]
fn test_expand_keyword() {
    let state = &mut State::new("user".to_string());
    assert_eq!(keyword(":+"), state.expand(&host(), &keyword(":+")).ok().unwrap());
}

#[test]
fn tests_test_expand_empty_list() {
    let state = &mut State::new("user".to_string());
    assert_eq!(list(vec![]), state.expand(&host(), &list(vec![])).ok().unwrap());
}

#[test]
fn tests_test_expand_fn() {
    let state = &mut State::new("user".to_string());
    let e = func(vec![sym("a")], vec![call("+", vec![sym("a"), num(1.)])]);
    let n = list(vec![sym("fn"), vector(vec![sym("a")]), list(vec![sym("+"), sym("a"), num(1.)])]);
    assert_eq!(e, state.expand(&host(), &n).ok().unwrap());
}

#[test]
fn tests_test_expand_macro() {
    let state = &mut State::new("user".to_string());
    let e = mac(vec![sym("a")], vec![call("+", vec![sym("a"), num(1.)])]);
    let n = list(vec![sym("macro"), vector(vec![sym("a")]), list(vec![sym("+"), sym("a"), num(1.)])]);
    assert_eq!(e, state.expand(&host(), &n).ok().unwrap());
}

#[test]
fn tests_test_expand_def() {
    let state = &mut State::new("user".to_string());
    let e = def("a", num(1.));
    let n = list(vec![sym("def"), sym("a"), num(1.)]);
    assert_eq!(e, state.expand(&host(), &n).ok().unwrap());
}

#[test]
fn tests_test_expand_call_fn() {
    let state = &mut State::new("user".to_string());
    let e = call("+", vec![sym("a"), num(1.)]);
    let n = list(vec![sym("+"), sym("a"), num(1.)]);
    assert_eq!(e, state.expand(&host(), &n).ok().unwrap());
}

#[test]
fn test_expand_call_macro() {
    let state = &mut State::new("user".to_string());
    let m = def("m", mac(vec![sym("a"), sym("b")], vec![call("+", vec![sym("a"), sym("b")])]));
    state.eval(&host(), &m).ok().unwrap();
    let n = list(vec![sym("m"), num(1.), num(2.)]);
    assert_eq!(num(3.), state.expand(&host(), &n).ok().unwrap());
}

#[test]
fn tests_test_expand_quote() {
    let state = &mut State::new("user".to_string());
    let n = list(vec![sym("quote"), sym("a")]);
    assert_eq!(call("quote", vec![sym("a")]), state.expand(&host(), &n).ok().unwrap());
    let n = list(vec![sym("quote"), list(vec![sym("+"), sym("a"), sym("b")])]);
    assert_eq!(
        call("quote", vec![list(vec![sym("+"), sym("a"), sym("b")])]),
        state.expand(&host(), &n).ok().unwrap()
    );
}

#[test]
fn tests_test_expand_unquote() {
    let state = &mut State::new("user".to_string());
    let n = list(vec![sym("quote"), list(vec![sym("a"), list(vec![sym("unquote"), sym("b")])])]);
    let expected = call("quote", vec![list(vec![sym("a"), call("unquote", vec![sym("b")])])]);
    assert_eq!(expected, state.expand(&host(), &n).ok().unwrap());
}

#[test]
fn test_expand_unquote_splicing() {
    let state = &mut State::new("user".to_string());
    let n = list(vec![
        sym("quote"),
        list(vec![sym("a"), list(vec![sym("unquote-splicing"), sym("b")])]),
    ]);
    let expected = call("quote", vec![list(vec![sym("a"), call("unquote-splicing", vec![sym("b")])])]);
    assert_eq!(expected, state.expand(&host(), &n).ok().unwrap());
}

#[test]
fn test_expand_let() {
    let state = &mut State::new("user".to_string());
    let n = list(vec![
        sym("let"),
        vector(vec![
            sym("a"),
            list(vec![sym("+"), num(1.), num(2.)]),
            sym("b"),
            list(vec![sym("+"), sym("a"), num(3.)]),
        ]),
        list(vec![sym("+"), sym("a"), sym("b")]),
    ]);
    let expected = let_node(
        vec![
            sym("a"),
            call("+", vec![num(1.), num(2.)]),
            sym("b"),
            call("+", vec![sym("a"), num(3.)]),
        ],
        vec![call("+", vec![sym("a"), sym("b")])],
    );
    assert_eq!(expected, state.expand(&host(), &n).ok().unwrap());
}

#[test]
fn tests_test_eval_number_to_itself() {
    let state = &mut State::new("user".to_string());
    assert_eq!(num(10.), state.eval(&host(), &num(10.)).ok().unwrap());
}

#[test]
fn test_eval_keyword_to_itself() {
    let state = &mut State::new("user".to_string());
    assert_eq!(keyword(":keyword"), state.eval(&host(), &keyword(":keyword")).ok().unwrap());
}

#[test]
fn tests_test_eval_string_to_itself() {
    let state = &mut State::new("user".to_string());
    let s = "rust is awesome";
    assert_eq!(string(s), state.eval(&host(), &string(s)).ok().unwrap());
}

#[test]
fn tests_test_eval_undefined_symbol_to_error() {
    let state = &mut State::new("user".to_string());
    let expected = EvalError::ResolveError("a".to_string());
    assert_eq!(expected, state.eval(&host(), &sym("a")).err().unwrap());
}

#[test]
fn tests_test_eval_true_to_matching_bool() {
    let state = &mut State::new("user".to_string());
    assert_eq!(boolean(true), state.eval(&host(), &sym("true")).ok().unwrap());
}

#[test]
fn tests_test_eval_false_to_matching_bool() {
    let state = &mut State::new("user".to_string());
    assert_eq!(boolean(false), state.eval(&host(), &sym("false")).ok().unwrap());
}

#[test]
fn tests_test_eval_nil_to_empty_list() {
    let state = &mut State::new("user".to_string());
    assert_eq!(list(vec![]), state.eval(&host(), &sym("nil")).ok().unwrap());
}

#[test]
fn tests_test_eval_def_special_form() {
    let state = &mut State::new("user".to_string());
    assert_eq!(num(1.), state.eval(&host(), &def("a", num(1.))).ok().unwrap());
}

#[test]
fn test_eval_let_special_form() {
    let state = &mut State::new("user".to_string());
    let let_expr = let_node(
        vec![
            sym("a"),
            call("+", vec![num(1.), num(2.)]),
            sym("b"),
            call("+", vec![sym("a"), num(3.)]),
        ],
        vec![call("+", vec![sym("a"), sym("b")])],
    );
    assert_eq!(num(9.), state.eval(&host(), &let_expr).ok().unwrap());
}

#[test]
fn tests_test_eval_fn_special_form_and_call_defined_function() {
    let state = &mut State::new("user".to_string());
    let expr = def(
        "add-skip-and-sub",
        func(
            vec![sym("a"), sym("b")],
            vec![call("+", vec![sym("a"), sym("b")]), call("-", vec![sym("a"), sym("b")])],
        ),
    );
    state.eval(&host(), &expr).ok().unwrap();
    let input = call("add-skip-and-sub", vec![num(1.), num(2.)]);
    assert_eq!(num(-1.), state.eval(&host(), &input).ok().unwrap());
}

#[test]
fn tests_test_eval_macro_special_form_and_call_defined_macro() {
    let state = &mut State::new("user".to_string());
    let expr = def("add", mac(vec![sym("a"), sym("b")], vec![call("+", vec![sym("a"), sym("b")])]));
    state.eval(&host(), &expr).ok().unwrap();
    let input = call("add", vec![num(1.), num(2.)]);
    assert_eq!(num(3.), state.eval(&host(), &input).ok().unwrap());
}

#[test]
fn tests_test_eval_fn_and_get_error_when_call_defined_function_with_incorrect_number_of_args() {
    let state = &mut State::new("user".to_string());
    let input = def("add", func(vec![sym("a"), sym("b")], vec![call("+", vec![sym("a"), sym("b")])]));
    state.eval(&host(), &input).ok().unwrap();
    let expected = EvalError::IncorrectNumberOfArgumentsError(call("add", vec![num(1.)]));
    let expr = call("add", vec![num(1.)]);
    assert_eq!(expected, state.eval(&host(), &expr).err().unwrap());
    let expr = call("add", vec![num(1.), num(1.), num(1.), num(1.)]);
    let expected =
        EvalError::IncorrectNumberOfArgumentsError(call("add", vec![num(1.), num(1.), num(1.), num(1.)]));
    assert_eq!(expected, state.eval(&host(), &expr).err().unwrap());
}

#[test]
fn tests_test_eval_plus_builtin_fn() {
    let state = &mut State::new("user".to_string());
    state.eval(&host(), &def("a", num(1.))).ok().unwrap();
    state.eval(&host(), &def("b", num(2.))).ok().unwrap();
    let nested = call("+", vec![sym("a"), sym("b")]);
    let input = call("+", vec![nested, num(3.)]);
    assert_eq!(num(6.), state.eval(&host(), &input).ok().unwrap());
}

#[test]
fn tests_test_eval_minus_builtin_fn() {
    let state = &mut State::new("user".to_string());
    let input = call("-", vec![num(3.), num(2.)]);
    assert_eq!(num(1.), state.eval(&host(), &input).ok().unwrap());
}

#[test]
fn tests_test_eval_div_builtin_fn() {
    let state = &mut State::new("user".to_string());
    let input = call("/", vec![num(3.), num(2.)]);
    assert_eq!(num(1.5), state.eval(&host(), &input).ok().unwrap());
}

#[test]
fn tests_test_eval_mul_builtin_fn() {
    let state = &mut State::new("user".to_string());
    let input = call("*", vec![num(3.5), num(2.)]);
    assert_eq!(num(7.), state.eval(&host(), &input).ok().unwrap());
}

#[test]
fn tests_test_eval_lt_builtin_fn_positive_case() {
    let state = &mut State::new("user".to_string());
    let input = call("<", vec![num(1.), num(2.), num(3.)]);
    assert_eq!(boolean(true), state.eval(&host(), &input).ok().unwrap());
}

#[test]
fn tests_test_eval_lt_builtin_fn_negative_case() {
    let state = &mut State::new("user".to_string());
    let input = call("<", vec![num(3.5), num(20.), num(1.)]);
    assert_eq!(boolean(false), state.eval(&host(), &input).ok().unwrap());
}

#[test]
fn tests_test_eval_gt_builtin_fn_positive_case() {
    let state = &mut State::new("user".to_string());
    state.eval(&host(), &def("a", num(3.))).ok().unwrap();
    let input = call(">", vec![sym("a"), num(2.), num(1.)]);
    assert_eq!(boolean(true), state.eval(&host(), &input).ok().unwrap());
}

#[test]
fn tests_test_eval_gt_builtin_fn_negative_case() {
    let state = &mut State::new("user".to_string());
    state.eval(&host(), &def("a", num(20.))).ok().unwrap();
    let input = call(">", vec![num(3.5), sym("a"), num(1.)]);
    assert_eq!(boolean(false), state.eval(&host(), &input).ok().unwrap());
}

#[test]
fn tests_test_eval_quote_builtin_fn() {
    let state = &mut State::new("user".to_string());
    let expr = call("quote", vec![list(vec![sym("+"), sym("true"), num(1.)])]);
    let expected = list(vec![sym("+"), sym("true"), num(1.)]);
    assert_eq!(expected, state.eval(&host(), &expr).ok().unwrap());
}

#[test]
fn tests_test_eval_unquote_builtin_fn() {
    let state = &mut State::new("user".to_string());
    state.insert(key("a"), num(3.));
    let expr = call("quote", vec![list(vec![sym("+"), call("unquote", vec![sym("a")]), num(1.)])]);
    let expected = list(vec![sym("+"), num(3.), num(1.)]);
    assert_eq!(expected, state.eval(&host(), &expr).ok().unwrap());
}

#[test]
fn test_eval_unquote_splicing_builtin_fn() {
    let state = &mut State::new("user".to_string());
    state.insert(key("a"), list(vec![num(1.), num(2.), num(3.)]));
    let expr = call(
        "quote",
        vec![list(vec![sym("+"), call("unquote-splicing", vec![sym("a")]), num(1.)])],
    );
    let expected = list(vec![sym("+"), num(1.), num(2.), num(3.), num(1.)]);
    assert_eq!(expected, state.eval(&host(), &expr).ok().unwrap());
}

#[test]
fn tests_test_eval_eval_builtin_fn() {
    let state = &mut State::new("user".to_string());
    let expr = call("eval", vec![list(vec![sym("+"), num(1.), num(2.)])]);
    assert_eq!(num(3.), state.eval(&host(), &expr).ok().unwrap());
    let expr = call("eval", vec![call("quote", vec![list(vec![sym("+"), num(1.), num(2.)])])]);
    assert_eq!(num(3.), state.eval(&host(), &expr).ok().unwrap());
}

#[test]
fn tests_test_eval_eq_builtin_fn_positive_case() {
    let state = &mut State::new("user".to_string());
    state.eval(&host(), &def("a", num(3.))).ok().unwrap();
    let input = call("=", vec![sym("a"), num(3.), num(3.)]);
    assert_eq!(boolean(true), state.eval(&host(), &input).ok().unwrap());
}

#[test]
fn tests_test_eval_eq_builtin_fn_negative_case() {
    let state = &mut State::new("user".to_string());
    state.eval(&host(), &def("a", num(1.))).ok().unwrap();
    let input = call("=", vec![num(3.5), num(20.), sym("a")]);
    assert_eq!(boolean(false), state.eval(&host(), &input).ok().unwrap());
}

#[test]
fn tests_test_eval_if_builtin_fn() {
    let state = &mut State::new("user".to_string());
    let input = call(
        "if",
        vec![
            call("=", vec![num(3.), num(3.)]),
            call("+", vec![num(3.), num(3.)]),
            call("-", vec![num(3.), num(3.)]),
        ],
    );
    assert_eq!(num(6.), state.eval(&host(), &input).ok().unwrap());
    let input = call(
        "if",
        vec![
            call("<", vec![num(3.), num(3.)]),
            call("+", vec![num(3.), num(3.)]),
            call("-", vec![num(3.), num(3.)]),
        ],
    );
    assert_eq!(num(0.), state.eval(&host(), &input).ok().unwrap());
}

#[test]
fn error_test_descriptions_for_error_codes() {
    let err = EvalError::ResolveError("name".to_string());
    assert_eq!(r#"Unable to resolve symbol "name""#, err.to_string());
    let err = EvalError::DispatchError(list(vec![sym("def"), sym("a"), num(1.)]));
    assert_eq!(r#"Unable to dispatch expression "(def a 1)""#, err.to_string());
    let err = EvalError::IncorrectTypeOfArgumentError(sym("a"));
    assert_eq!(r#"Incorrect type of argument "a""#, err.to_string());
    let err = EvalError::IncorrectNumberOfArgumentsError(call("+", vec![]));
    assert_eq!(r#"Incorrect number of arguments (+)"#, err.to_string());
}

#[test]
fn test_macro_expansion() {
    let state = &mut State::new("user".to_string());
    let expr = state.eval(&host(), &parse_one("(def m (macro [a] '(+ 1 ~a)))")).ok().unwrap();
    assert_eq!(
        expr,
        mac(
            vec![sym("a")],
            vec![call("quote", vec![list(vec![sym("+"), num(1.), call("unquote", vec![sym("a")])])])]
        )
    );
    let expr = state.eval(&host(), &parse_one("(def f (fn [b] (m b)))")).ok().unwrap();
    assert_eq!(expr, func(vec![sym("b")], vec![call("+", vec![num(1.), sym("b")])]));
}

#[test]
fn test_namespaced_syntax_quoted_macro_expansion() {
    let state = &mut State::new("user".to_string());
    state.eval(&host(), &parse_one("(in-ns 'other)")).ok().unwrap();
    state.eval(&host(), &parse_one("(def a 1)")).ok().unwrap();
    state.eval(&host(), &parse_one("(def m (macro [b] `(+ a ~b)))")).ok().unwrap();
    state.eval(&host(), &parse_one("(in-ns 'user)")).ok().unwrap();
    let result = state.eval(&host(), &parse_one("(other/m 3)")).ok().unwrap();
    assert_eq!(result, num(4.));
}

fn eval_text(state: &mut State, h: &FloatHost, src: &str) -> Result<Node, EvalError> {
    let mut parser = Parser::new(src);
    let mut last = Ok(list(vec![]));
    while let Some(form) = parser.next() {
        last = state.eval(h, &form.ok().unwrap());
        if last.is_err() {
            return last;
        }
    }
    last
}

#[test]
fn test_gensym_counts_up() {
    let state = &mut State::new("user".to_string());
    let h = host();
    assert_eq!(sym("x0"), eval_text(state, &h, "(gensym \"x\")").unwrap());
    assert_eq!(sym("x1"), eval_text(state, &h, "(gensym \"x\")").unwrap());
    assert_eq!(sym("y2"), eval_text(state, &h, "(gensym \"y\")").unwrap());
}

#[test]
fn test_gensym_wants_one_string() {
    let state = &mut State::new("user".to_string());
    let h = host();
    assert_eq!(
        EvalError::IncorrectTypeOfArgumentError(num(1.)),
        eval_text(state, &h, "(gensym 1)").unwrap_err()
    );
    assert_eq!(
        EvalError::IncorrectNumberOfArgumentsError(call("gensym", vec![])),
        eval_text(state, &h, "(gensym)").unwrap_err()
    );
}

#[test]
fn test_refer_reads_through_alias() {
    let state = &mut State::new("user".to_string());
    let h = host();
    eval_text(state, &h, "(in-ns 'other) (def a 1) (in-ns 'user)").unwrap();
    assert_eq!(list(vec![]), eval_text(state, &h, "(refer b other/a)").unwrap());
    assert_eq!(num(1.), eval_text(state, &h, "b").unwrap());
}

#[test]
fn test_refer_needs_qualified_target() {
    let state = &mut State::new("user".to_string());
    let h = host();
    assert_eq!(
        EvalError::IncorrectTypeOfArgumentError(sym("a")),
        eval_text(state, &h, "(refer b a)").unwrap_err()
    );
}

#[test]
fn test_load_evaluates_each_form() {
    let state = &mut State::new("user".to_string());
    let h = FloatHost { files: vec![("lib.ls".to_string(), "(def a 2) (+ a 1)".to_string())] };
    assert_eq!(num(3.), eval_text(state, &h, "(load \"lib.ls\")").unwrap());
    assert_eq!(num(2.), eval_text(state, &h, "a").unwrap());
}

#[test]
fn test_load_of_empty_file_gives_nil() {
    let state = &mut State::new("user".to_string());
    let h = FloatHost { files: vec![("empty.ls".to_string(), "  ".to_string())] };
    assert_eq!(list(vec![]), eval_text(state, &h, "(load \"empty.ls\")").unwrap());
}

#[test]
fn test_load_missing_file_is_wrong_argument() {
    let state = &mut State::new("user".to_string());
    let h = host();
    assert_eq!(
        EvalError::IncorrectTypeOfArgumentError(string("nope.ls")),
        eval_text(state, &h, "(load \"nope.ls\")").unwrap_err()
    );
}

#[test]
fn test_load_reports_parse_error() {
    let state = &mut State::new("user".to_string());
    let h = FloatHost { files: vec![("bad.ls".to_string(), "(def a".to_string())] };
    let err = eval_text(state, &h, "(load \"bad.ls\")").unwrap_err();
    assert_eq!("Unexpected end of file detected", err.to_string());
}

#[test]
fn test_apply_calls_with_vector_elements() {
    let state = &mut State::new("user".to_string());
    let h = host();
    assert_eq!(num(6.), eval_text(state, &h, "(apply + [1 2 3])").unwrap());
    assert_eq!(
        EvalError::IncorrectTypeOfArgumentError(num(1.)),
        eval_text(state, &h, "(apply + 1)").unwrap_err()
    );
}

#[test]
fn test_head_that_is_not_a_symbol_cannot_dispatch() {
    let state = &mut State::new("user".to_string());
    let h = host();
    let err = eval_text(state, &h, "(1 2)").unwrap_err();
    assert_eq!(EvalError::DispatchError(num(1.)), err);
    assert_eq!(r#"Unable to dispatch expression "1""#, err.to_string());
}

#[test]
fn test_non_number_argument_is_wrong_type() {
    let state = &mut State::new("user".to_string());
    let h = host();
    assert_eq!(
        EvalError::IncorrectTypeOfArgumentError(string("a")),
        eval_text(state, &h, "(+ 1 \"a\")").unwrap_err()
    );
    assert_eq!(
        EvalError::IncorrectTypeOfArgumentError(sym("true")),
        eval_text(state, &h, "(< true 1)").unwrap_err()
    );
}

#[test]
fn test_depth_limit_stops_endless_recursion() {
    let state = &mut State::new("user".to_string());
    let h = host();
    eval_text(state, &h, "(def f (fn [] (f)))").unwrap();
    let err = state.eval_bounded(&h, &call("f", vec![]), 300).unwrap_err();
    assert_eq!(EvalError::DepthLimitExceeded, err);
    assert_eq!("Evaluation nested too deeply", err.to_string());
}

#[test]
fn test_minus_and_div_with_one_argument() {
    let state = &mut State::new("user".to_string());
    let h = host();
    assert_eq!(num(-3.), eval_text(state, &h, "(- 3)").unwrap());
    assert_eq!(num(0.25), eval_text(state, &h, "(/ 4)").unwrap());
    assert_eq!(num(1.), eval_text(state, &h, "(- 10 4 5)").unwrap());
    assert_eq!(
        EvalError::IncorrectNumberOfArgumentsError(call("-", vec![])),
        eval_text(state, &h, "(-)").unwrap_err()
    );
}

#[test]
fn test_comparison_with_one_argument_is_true() {
    let state = &mut State::new("user".to_string());
    let h = host();
    assert_eq!(boolean(true), eval_text(state, &h, "(< 5)").unwrap());
    assert_eq!(boolean(false), eval_text(state, &h, "(= 1 1 2)").unwrap());
}

#[test]
fn test_decimal_arithmetic_prints_as_floats_do() {
    let state = &mut State::new("user".to_string());
    let h = host();
    let v = eval_text(state, &h, "(+ 0.1 0.2)").unwrap();
    assert_eq!("0.30000000000000004", v.to_string());
}

#[test]
fn test_self_evaluation_law() {
    let state = &mut State::new("user".to_string());
    let h = host();
    for n in vec![num(2.5), boolean(false), string("s"), keyword("k"), vector(vec![num(1.)]), list(vec![])] {
        assert_eq!(n, state.eval(&h, &n).unwrap());
    }
}

#[test]
fn test_def_then_read_law() {
    let state = &mut State::new("user".to_string());
    let h = host();
    assert_eq!(string("v"), state.eval(&h, &def("x", string("v"))).unwrap());
    assert_eq!(&string("v"), state.get(&key("x")).unwrap());
    assert_eq!(string("v"), state.eval(&h, &sym("x")).unwrap());
}

#[test]
fn test_let_leaves_state_law() {
    let state = &mut State::new("user".to_string());
    let h = host();
    assert_eq!(num(2.), eval_text(state, &h, "(let [x 1] (def y 2))").unwrap());
    assert_eq!(EvalError::ResolveError("y".to_string()), eval_text(state, &h, "y").unwrap_err());
    assert_eq!(EvalError::ResolveError("x".to_string()), eval_text(state, &h, "x").unwrap_err());
}

#[test]
fn test_let_binds_body_law() {
    let state = &mut State::new("user".to_string());
    let h = host();
    let n = let_node(vec![sym("a"), string("v")], vec![sym("a")]);
    assert_eq!(string("v"), state.eval(&h, &n).unwrap());
}

#[test]
fn test_calls_keep_bindings_law() {
    let state = &mut State::new("user".to_string());
    let h = host();
    eval_text(state, &h, "(def f (fn [p] (+ p 1))) (def m (macro [q] q))").unwrap();
    assert_eq!(num(3.), eval_text(state, &h, "(f 2)").unwrap());
    assert_eq!(num(5.), eval_text(state, &h, "(m 5)").unwrap());
    assert!(state.get(&key("p")).is_none());
    assert!(state.get(&key("q")).is_none());
}

#[test]
fn test_quote_and_syntax_quote_laws() {
    let state = &mut State::new("user".to_string());
    let h = host();
    assert_eq!(sym("zz"), eval_text(state, &h, "'zz").unwrap());
    assert_eq!(Node::Symbol(qualified("user", "zz")), eval_text(state, &h, "`zz").unwrap());
    assert_eq!(Node::Symbol(qualified("o", "zz")), eval_text(state, &h, "`o/zz").unwrap());
}

#[test]
fn test_empty_sum_and_product_law() {
    let state = &mut State::new("user".to_string());
    let h = host();
    assert_eq!(num(0.), eval_text(state, &h, "(+)").unwrap());
    assert_eq!(num(1.), eval_text(state, &h, "(*)").unwrap());
}

#[test]
fn test_in_ns_switches_law() {
    let state = &mut State::new("user".to_string());
    let h = host();
    assert_eq!(sym("user"), eval_text(state, &h, "(in-ns 'other)").unwrap());
    eval_text(state, &h, "(def k 7)").unwrap();
    assert_eq!(&num(7.), state.get(&qualified("other", "k")).unwrap());
    assert_eq!(sym("other"), eval_text(state, &h, "(in-ns 'user)").unwrap());
    assert_eq!(num(7.), eval_text(state, &h, "other/k").unwrap());
}

#[test]
fn test_calling_a_value_that_is_not_callable() {
    let state = &mut State::new("user".to_string());
    let h = host();
    eval_text(state, &h, "(def a 1)").unwrap();
    assert_eq!(
        EvalError::IncorrectTypeOfArgumentError(call("a", vec![])),
        eval_text(state, &h, "(a)").unwrap_err()
    );
    eval_text(state, &h, "(def g (fn [1] 1))").unwrap();
    assert_eq!(
        EvalError::IncorrectTypeOfArgumentError(num(1.)),
        eval_text(state, &h, "(g 2)").unwrap_err()
    );
}

#[test]
fn test_special_forms_check_their_shape() {
    let state = &mut State::new("user".to_string());
    let h = host();
    assert_eq!(
        EvalError::IncorrectNumberOfArgumentsError(call("if", vec![num(1.)])),
        eval_text(state, &h, "(if 1)").unwrap_err()
    );
    assert_eq!(
        EvalError::IncorrectTypeOfArgumentError(num(1.)),
        eval_text(state, &h, "(def 1 2)").unwrap_err()
    );
    assert_eq!(
        EvalError::IncorrectNumberOfArgumentsError(list(vec![sym("def"), sym("a")])),
        eval_text(state, &h, "(def a)").unwrap_err()
    );
    assert_eq!(
        EvalError::IncorrectNumberOfArgumentsError(list(vec![
            sym("let"),
            vector(vec![sym("a")]),
            sym("a")
        ])),
        eval_text(state, &h, "(let [a] a)").unwrap_err()
    );
}

#[test]
fn test_error_texts() {
    assert_eq!("disk", EvalError::IoError("disk".to_string()).to_string());
    let err = EvalError::ParserError(lust::parser::ParserError::UnexpectedEndOfInput);
    assert_eq!("Unexpected end of file detected", err.to_string());
}

#[test]
fn test_insert_keeps_other_names() {
    let mut state = State::new("user".to_string());
    state.insert(key("a"), num(1.));
    state.insert(key("b"), num(2.));
    assert_eq!(Some(num(1.)), state.insert(key("a"), num(3.)));
    assert_eq!(&num(3.), state.get(&key("a")).unwrap());
    assert_eq!(&num(2.), state.get(&key("b")).unwrap());
    assert_eq!(&boolean(true), state.get(&key("true")).unwrap());
}

#[test]
fn test_more_depth_gives_the_same_result() {
    let h = host();
    let form = parse_one("(let [a 2] (* a (+ a 1)))");
    let shallow = &mut State::new("user".to_string());
    assert_eq!(EvalError::DepthLimitExceeded, shallow.eval_bounded(&h, &form, 3).unwrap_err());
    let enough = &mut State::new("user".to_string());
    let deep = &mut State::new("user".to_string());
    let a = enough.eval_bounded(&h, &form, 20).unwrap();
    let b = deep.eval(&h, &form).unwrap();
    assert_eq!(num(6.), a);
    assert_eq!(a, b);
}

#[test]
fn test_evaluation_keeps_enclosing_state() {
    let h = host();
    let mut root = State::new("user".to_string());
    root.insert(key("x"), num(1.));
    {
        let mut child = State::new_chained(&root);
        assert_eq!(num(1.), eval_text(&mut child, &h, "x").unwrap());
        eval_text(&mut child, &h, "(def x 5) (in-ns 'elsewhere) (def y 6)").unwrap();
        assert_eq!(num(5.), eval_text(&mut child, &h, "user_chained/x").unwrap());
    }
    assert_eq!(&num(1.), root.get(&key("x")).unwrap());
    assert!(root.get(&key("y")).is_none());
    assert_eq!("user", root.get_current().as_str());
}
