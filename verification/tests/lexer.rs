use lust::lexer::{Lexer, LexerError, Span, Token};
use lust::nodes::Number;

fn sym_token(name: &str, span: Span) -> Token {
    Token::Symbol { span, ns: None, name: name.to_string() }
}

fn num_token(negative: bool, mantissa: u64, scale: usize, span: Span) -> Token {
    Token::Number { span, val: Number::from_parts(negative, mantissa, scale) }
}

#[test]
fn test_read_nil() {
    let sym_name = "nil";
    let mut lexer = Lexer::new(sym_name);
    assert_eq!(Some(Ok(sym_token(sym_name, Span::new(1, 1, 1, 4)))), lexer.next());
    assert_eq!(None, lexer.next());
}

#[test]
fn test_read_integer_as_float() {
    let mut lexer = Lexer::new("64");
    assert_eq!(Some(Ok(num_token(false, 64, 0, Span::new(1, 1, 1, 3)))), lexer.next());
    assert_eq!(None, lexer.next());
}

#[test]
fn test_read_float() {
    let mut lexer = Lexer::new("64.5");
    assert_eq!(Some(Ok(num_token(false, 645, 1, Span::new(1, 1, 1, 5)))), lexer.next());
    assert_eq!(None, lexer.next());
}

#[test]
fn test_read_string() {
    let s = "rust is beautiful";
    let actual_input = format!(r#""{}""#, s);
    let mut lexer = Lexer::new(&actual_input);
    let span = Span::new(1, 1, 1, 20);
    assert_eq!(Some(Ok(Token::String { span, val: s.to_string() })), lexer.next());
    assert_eq!(None, lexer.next());
}

#[test]
fn test_read_symbol() {
    let sym_name = "my-symbol";
    let mut lexer = Lexer::new(sym_name);
    assert_eq!(Some(Ok(sym_token(sym_name, Span::new(1, 1, 1, 10)))), lexer.next());
    assert_eq!(None, lexer.next());
}

#[test]
fn test_read_incorrect_symbol_starting_with_digit() {
    let sym_name = "6-my-incorrect-symbol";
    let mut lexer = Lexer::new(sym_name);
    let expected_result = Some(Err(LexerError::new(1, 2)));
    assert_eq!(expected_result, lexer.next());
    assert_eq!(None, lexer.next());
}

#[test]
fn test_read_explicitly_positive_number() {
    let mut lexer = Lexer::new("+1");
    let expected_result = Some(Ok(num_token(false, 1, 0, Span::new(1, 1, 1, 3))));
    assert_eq!(expected_result, lexer.next());
    assert_eq!(None, lexer.next());
}

#[test]
fn test_read_explicitly_negative_number() {
    let mut lexer = Lexer::new("-1");
    let expected_result = Some(Ok(num_token(true, 1, 0, Span::new(1, 1, 1, 3))));
    assert_eq!(expected_result, lexer.next());
    assert_eq!(None, lexer.next());
}

fn kinds(src: &str) -> Vec<String> {
    let mut lexer = Lexer::new(src);
    let mut out = Vec::new();
    while let Some(t) = lexer.next() {
        out.push(match t {
            Ok(Token::Number { val, .. }) => format!("n:{}", val.to_string()),
            Ok(Token::String { val, .. }) => format!("s:{}", val),
            Ok(Token::Symbol { ns, name, .. }) => format!("y:{:?}/{}", ns, name),
            Ok(Token::Keyword { ns, name, .. }) => format!("k:{:?}/{}", ns, name),
            Ok(Token::ListStart { .. }) => "(".to_string(),
            Ok(Token::ListEnd { .. }) => ")".to_string(),
            Ok(Token::VecStart { .. }) => "[".to_string(),
            Ok(Token::VecEnd { .. }) => "]".to_string(),
            Ok(Token::Quote { .. }) => "'".to_string(),
            Ok(Token::Unquote { .. }) => "~".to_string(),
            Ok(Token::UnquoteSplicing { .. }) => "~@".to_string(),
            Ok(Token::SyntaxQuote { .. }) => "`".to_string(),
            Err(e) => format!("e:{}", e.to_string()),
        });
    }
    out
}

#[test]
fn test_read_dense_expression() {
    assert_eq!(kinds("(def a 1)"), vec!["(", "y:None/def", "y:None/a", "n:1", ")"]);
}

#[test]
fn test_read_sparse_expression() {
    assert_eq!(kinds(" ( \n def a\n1)   \n"), vec!["(", "y:None/def", "y:None/a", "n:1", ")"]);
}

#[test]
fn test_read_nested_list_expressions() {
    assert_eq!(
        kinds("(def a (+ 1 1))"),
        vec!["(", "y:None/def", "y:None/a", "(", "y:None/+", "n:1", "n:1", ")", ")"]
    );
}

#[test]
fn test_read_list_of_symbols() {
    let k = kinds("(+ - / * % > < = a b c z A X Y Z)");
    let names: Vec<&str> = vec!["+", "-", "/", "*", "%", ">", "<", "=", "a", "b", "c", "z", "A", "X", "Y", "Z"];
    let mut expected = vec!["(".to_string()];
    for n in names {
        expected.push(format!("y:None/{}", n));
    }
    expected.push(")".to_string());
    assert_eq!(k, expected);
}

#[test]
fn test_descriptions_for_error() {
    let err = LexerError::new(1, 10);
    assert_eq!("Invalid syntax at 1:10", err.to_string());
}

#[test]
fn lexes_quotes_keywords_and_namespaces() {
    assert_eq!(
        kinds("'a ~b ~@c `d :k :ns/k ns/s / [1]"),
        vec![
            "'", "y:None/a", "~", "y:None/b", "~@", "y:None/c", "`", "y:None/d",
            "k:None/k", "k:Some(\"ns\")/k", "y:Some(\"ns\")/s", "y:None//", "[", "n:1", "]"
        ]
    );
}

#[test]
fn lexes_numbers_with_fraction_groups() {
    assert_eq!(kinds("1.25 -0.5 +3. 1.2.3 007 10.50"), vec!["n:1.25", "n:-0.5", "n:3", "n:1.5", "n:7", "n:10.5"]);
}

#[test]
fn spans_follow_lines() {
    let mut lexer = Lexer::new("a\n  bc");
    assert_eq!(lexer.next(), Some(Ok(sym_token("a", Span::new(1, 1, 2, 1)))));
    assert_eq!(lexer.next(), Some(Ok(sym_token("bc", Span::new(2, 4, 2, 6)))));
    assert_eq!(lexer.next(), None);
}

#[test]
fn error_stops_lexing() {
    assert_eq!(kinds("a ? b"), vec!["y:None/a", "e:Invalid syntax at 1:3"]);
    assert_eq!(kinds("1x"), vec!["e:Invalid syntax at 1:2"]);
}

#[test]
fn unterminated_string_runs_to_the_end() {
    let mut lexer = Lexer::new("\"ab");
    assert_eq!(lexer.next(), Some(Ok(Token::String { span: Span::new(1, 1, 1, 5), val: "ab".to_string() })));
    assert_eq!(lexer.next(), None);
}
