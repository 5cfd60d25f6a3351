//! The parser: tokens to syntax trees, one top-level form at a time.

pub mod error;

use vstd::prelude::*;
use crate::ast::{Node, NodeView, QName, nodes_view};
use crate::ast::nodes;
use crate::lexer::{Lexer, LexerResult, Token, TokenView, LexView, lex_step, lex_measure, opt_lex_view, lex_view};

pub use self::error::{ParserError, ParserErrorView};

verus! {

/// What the parser hands out for one form.
pub type ParserResult = Result<Node, ParserError>;

/// What a parser result holds.
pub type ParseView = Result<NodeView, ParserErrorView>;

/// The view of a parser result.
pub open spec fn parse_view(r: ParserResult) -> ParseView {
    match r {
        Ok(n) => Ok(n@),
        Err(e) => Err(e@),
    }
}

/// The view of an optional parser result.
pub open spec fn opt_parse_view(r: Option<ParserResult>) -> Option<ParseView> {
    match r {
        Some(x) => Some(parse_view(x)),
        None => None,
    }
}

/// Where the lexer under the parser stands.
pub struct LexState {
    pub pos: int,
    pub finished: bool,
}

/// The next token and the lexer state after it.
pub open spec fn lex_next(s: Seq<char>, st: LexState) -> (Option<LexView>, LexState) {
    let (t, p, f) = lex_step(s, st.pos, st.finished);
    (t, LexState { pos: p, finished: f })
}

/// How much lexing is left.
pub open spec fn measure(s: Seq<char>, st: LexState) -> nat {
    lex_measure(s, st.pos, st.finished)
}

/// The symbol `name`, without namespace.
pub open spec fn sym_view(name: Seq<char>) -> NodeView {
    NodeView::Symbol(QName { ns: None, name })
}

/// Whether `t` closes a list (or a vector, if `is_vec`).
pub open spec fn closes(t: Option<LexView>, is_vec: bool) -> bool {
    if is_vec {
        t matches Some(Ok(TokenView::VecEnd { .. }))
    } else {
        t matches Some(Ok(TokenView::ListEnd { .. }))
    }
}

/// Parses the form that starts with token `tok`, the lexer then standing at
/// `st`: atoms stand for themselves, brackets open lists and vectors, and
/// a quote mark applies `quote`, `unquote`, `unquote-splicing` or
/// `syntax-quote` to the form after it.
pub open spec fn parse_expr_spec(s: Seq<char>, tok: Option<LexView>, st: LexState) -> (
    ParseView,
    LexState,
)
    decreases measure(s, st), 1int,
{
    match tok {
        None => (Err(ParserErrorView::UnexpectedEndOfInput), st),
        Some(Err(e)) => (Err(ParserErrorView::LexerError(e)), st),
        Some(Ok(t)) => match t {
            TokenView::Number { negative, digits, scale, .. } => (
                Ok(NodeView::Number { negative, digits, scale }),
                st,
            ),
            TokenView::String { val, .. } => (Ok(NodeView::String(val)), st),
            TokenView::Symbol { name, .. } => (Ok(NodeView::Symbol(name)), st),
            TokenView::Keyword { name, .. } => (Ok(NodeView::Keyword(name)), st),
            TokenView::ListStart { .. } => {
                let (r, st2) = parse_seq_spec(s, st, false, Seq::empty());
                (
                    match r {
                        Ok(v) => Ok(NodeView::List(v)),
                        Err(e) => Err(e),
                    },
                    st2,
                )
            },
            TokenView::VecStart { .. } => {
                let (r, st2) = parse_seq_spec(s, st, true, Seq::empty());
                (
                    match r {
                        Ok(v) => Ok(NodeView::Vec(v)),
                        Err(e) => Err(e),
                    },
                    st2,
                )
            },
            TokenView::Quote { .. } => parse_wrapped_spec(
                s,
                st,
                seq!['q', 'u', 'o', 't', 'e'],
            ),
            TokenView::Unquote { .. } => parse_wrapped_spec(
                s,
                st,
                seq!['u', 'n', 'q', 'u', 'o', 't', 'e'],
            ),
            TokenView::UnquoteSplicing { .. } => parse_wrapped_spec(
                s,
                st,
                seq!['u', 'n', 'q', 'u', 'o', 't', 'e', '-', 's', 'p', 'l', 'i', 'c', 'i', 'n', 'g'],
            ),
            TokenView::SyntaxQuote { .. } => parse_wrapped_spec(
                s,
                st,
                seq!['s', 'y', 'n', 't', 'a', 'x', '-', 'q', 'u', 'o', 't', 'e'],
            ),
            TokenView::ListEnd { .. } => (Err(ParserErrorView::UnexpectedToken(t)), st),
            TokenView::VecEnd { .. } => (Err(ParserErrorView::UnexpectedToken(t)), st),
        },
    }
}

/// Parses the form after a quote mark, and wraps it as `(name form)`.
pub open spec fn parse_wrapped_spec(s: Seq<char>, st: LexState, name: Seq<char>) -> (
    ParseView,
    LexState,
)
    decreases measure(s, st), 0int,
{
    let (t, st1) = lex_next(s, st);
    if t is None {
        (Err(ParserErrorView::UnexpectedEndOfInput), st1)
    } else if measure(s, st1) < measure(s, st) {
        let (r, st2) = parse_expr_spec(s, t, st1);
        (
            match r {
                Ok(n) => Ok(NodeView::List(seq![sym_view(name), n])),
                Err(e) => Err(e),
            },
            st2,
        )
    } else {
        (Err(ParserErrorView::UnexpectedEndOfInput), st1)
    }
}

/// Parses the elements of a list (or vector) after `acc`, up to its closing
/// bracket.
pub open spec fn parse_seq_spec(s: Seq<char>, st: LexState, is_vec: bool, acc: Seq<NodeView>) -> (
    Result<Seq<NodeView>, ParserErrorView>,
    LexState,
)
    decreases measure(s, st), 0int,
{
    let (t, st1) = lex_next(s, st);
    if closes(t, is_vec) {
        (Ok(acc), st1)
    } else if t is None {
        (Err(ParserErrorView::UnexpectedEndOfInput), st1)
    } else if measure(s, st1) < measure(s, st) {
        let (r, st2) = parse_expr_spec(s, t, st1);
        match r {
            Err(e) => (Err(e), st2),
            Ok(n) => if measure(s, st2) < measure(s, st) {
                parse_seq_spec(s, st2, is_vec, acc.push(n))
            } else {
                (Err(ParserErrorView::UnexpectedEndOfInput), st2)
            },
        }
    } else {
        (Err(ParserErrorView::UnexpectedEndOfInput), st1)
    }
}

/// One step of the parser: the next top-level form, or nothing once the
/// tokens are used up.
pub open spec fn parse_top_spec(s: Seq<char>, st: LexState) -> (Option<ParseView>, LexState) {
    let (t, st1) = lex_next(s, st);
    if t is None {
        (None, st1)
    } else {
        let (r, st2) = parse_expr_spec(s, t, st1);
        (Some(r), st2)
    }
}

/// A parser over a source text.
pub struct Parser {
    lexer: Lexer,
}

impl Parser {
    /// The source text.
    pub closed spec fn input(self) -> Seq<char> {
        self.lexer.input()
    }

    /// Where the lexer under the parser stands.
    pub closed spec fn state(self) -> LexState {
        LexState { pos: self.lexer.pos(), finished: self.lexer.finished() }
    }

    /// A parser at the start of `src`.
    pub fn new(src: &str) -> (p: Parser)
        requires
            src@.len() + 4 <= usize::MAX,
        ensures
            p.input() == src@,
            p.state() == (LexState { pos: 0, finished: false }),
    {
        Parser { lexer: Lexer::new(src) }
    }

    /// The next top-level form, or `None` once the text holds no more.
    pub fn next(&mut self) -> (r: Option<ParserResult>)
        ensures
            final(self).input() == old(self).input(),
            (opt_parse_view(r), final(self).state()) == parse_top_spec(
                old(self).input(),
                old(self).state(),
            ),
            r is Some ==> measure(final(self).input(), final(self).state()) < measure(
                old(self).input(),
                old(self).state(),
            ),
    {
        let t = self.lexer.next();
        match t {
            None => None,
            Some(tok) => Some(self.parse_expr(tok)),
        }
    }

    /// The symbol `name` as a node.
    fn symbol(name: &str) -> (n: Node)
        ensures
            n@ == sym_view(name@),
    {
        let s = name.to_string();
        proof {
            broadcast use vstd::string::group_string_axioms;
        }
        Node::Symbol(nodes::Symbol { ns: None, name: s })
    }

    /// Parses the form after a quote mark and wraps it as `(name form)`.
    fn parse_wrapped(&mut self, name: &str) -> (r: ParserResult)
        ensures
            final(self).input() == old(self).input(),
            (parse_view(r), final(self).state()) == parse_wrapped_spec(
                old(self).input(),
                old(self).state(),
                name@,
            ),
            measure(final(self).input(), final(self).state()) <= measure(
                old(self).input(),
                old(self).state(),
            ),
        decreases measure(old(self).input(), old(self).state()), 0int,
    {
        let t = self.lexer.next();
        match t {
            None => Err(ParserError::UnexpectedEndOfInput),
            Some(tok) => {
                let n = match self.parse_expr(tok) {
                    Ok(n) => n,
                    Err(e) => {
                        return Err(e);
                    },
                };
                let mut v: Vec<Node> = Vec::new();
                v.push(Parser::symbol(name));
                v.push(n);
                proof {
                    crate::ast::lemma_nodes_view_len(v@);
                    assert(nodes_view(v@) =~= seq![sym_view(name@), n@]);
                }
                Ok(Node::List(v))
            },
        }
    }

    /// Parses the elements of a list (or a vector) up to its closing bracket.
    fn parse_seq(&mut self, is_vec: bool) -> (r: Result<Vec<Node>, ParserError>)
        ensures
            final(self).input() == old(self).input(),
            (match r {
                Ok(v) => Ok(nodes_view(v@)),
                Err(e) => Err(e@),
            }, final(self).state()) == parse_seq_spec(
                old(self).input(),
                old(self).state(),
                is_vec,
                Seq::empty(),
            ),
            measure(final(self).input(), final(self).state()) <= measure(
                old(self).input(),
                old(self).state(),
            ),
        decreases measure(old(self).input(), old(self).state()), 0int,
    {
        let ghost s = self.input();
        let mut acc: Vec<Node> = Vec::new();
        loop
            invariant
                self.input() == s,
                s == old(self).input(),
                parse_seq_spec(s, self.state(), is_vec, nodes_view(acc@)) == parse_seq_spec(
                    s,
                    old(self).state(),
                    is_vec,
                    Seq::empty(),
                ),
                measure(s, self.state()) <= measure(s, old(self).state()),
            decreases measure(s, self.state()),
        {
            let ghost st = self.state();
            let t = self.lexer.next();
            match t {
                None => {
                    return Err(ParserError::UnexpectedEndOfInput);
                },
                Some(tok) => {
                    let closing = match &tok {
                        Ok(Token::ListEnd { .. }) => !is_vec,
                        Ok(Token::VecEnd { .. }) => is_vec,
                        _ => false,
                    };
                    if closing {
                        return Ok(acc);
                    }
                    let r = self.parse_expr(tok);
                    match r {
                        Err(e) => {
                            return Err(e);
                        },
                        Ok(n) => {
                            let ghost before = acc@;
                            acc.push(n);
                            proof {
                                assert(acc@.drop_last() =~= before);
                            }
                        },
                    }
                },
            }
        }
    }

    /// Parses the form that starts with token `tok`.
    fn parse_expr(&mut self, tok: LexerResult) -> (r: ParserResult)
        ensures
            final(self).input() == old(self).input(),
            (parse_view(r), final(self).state()) == parse_expr_spec(
                old(self).input(),
                Some(lex_view(tok)),
                old(self).state(),
            ),
            measure(final(self).input(), final(self).state()) <= measure(
                old(self).input(),
                old(self).state(),
            ),
        decreases measure(old(self).input(), old(self).state()), 1int,
    {
        match tok {
            Err(e) => Err(ParserError::LexerError(e)),
            Ok(t) => match t {
                Token::Number { val, .. } => {
                    Ok(Node::Number(val))
                },
                Token::String { val, .. } => {
                    Ok(Node::String(nodes::String { value: val }))
                },
                Token::Symbol { ns, name, .. } => Ok(Node::Symbol(nodes::Symbol { ns, name })),
                Token::Keyword { ns, name, .. } => Ok(Node::Keyword(nodes::Keyword { ns, name })),
                Token::ListStart { .. } => {
                    match self.parse_seq(false) {
                        Ok(v) => Ok(Node::List(v)),
                        Err(e) => Err(e),
                    }
                },
                Token::VecStart { .. } => {
                    match self.parse_seq(true) {
                        Ok(v) => Ok(Node::Vec(v)),
                        Err(e) => Err(e),
                    }
                },
                Token::Quote { .. } => {
                    let r = self.parse_wrapped("quote");
                    proof {
                        reveal_strlit("quote");
                        assert("quote"@ =~= seq!['q','u','o','t','e']);
                    }
                    r
                },
                Token::Unquote { .. } => {
                    let r = self.parse_wrapped("unquote");
                    proof {
                        reveal_strlit("unquote");
                        assert("unquote"@ =~= seq!['u','n','q','u','o','t','e']);
                    }
                    r
                },
                Token::UnquoteSplicing { .. } => {
                    let r = self.parse_wrapped("unquote-splicing");
                    proof {
                        reveal_strlit("unquote-splicing");
                        assert("unquote-splicing"@ =~= seq!['u','n','q','u','o','t','e','-','s','p','l','i','c','i','n','g']);
                    }
                    r
                },
                Token::SyntaxQuote { .. } => {
                    let r = self.parse_wrapped("syntax-quote");
                    proof {
                        reveal_strlit("syntax-quote");
                        assert("syntax-quote"@ =~= seq!['s','y','n','t','a','x','-','q','u','o','t','e']);
                    }
                    r
                },
                Token::ListEnd { span } => {
                    Err(ParserError::UnexpectedToken(Token::ListEnd { span }))
                },
                Token::VecEnd { span } => Err(ParserError::UnexpectedToken(Token::VecEnd { span })),
            },
        }
    }
}

} // verus!
