//! Tokens and the positions they span.

use vstd::prelude::*;
use crate::ast::{QName, opt_text};
use crate::number::Number;

verus! {

/// A position in the source: line and column, both counted from 1.
#[derive(Debug, PartialEq, Clone, Copy)]
pub struct Pos {
    pub line: usize,
    pub col: usize,
}

impl Pos {
    pub fn new(line: usize, col: usize) -> (p: Pos)
        ensures
            p.line == line,
            p.col == col,
    {
        Pos { line, col }
    }
}

/// The stretch of source that a token covers: from its first character to
/// the position just after it.
#[derive(Debug, PartialEq, Clone, Copy)]
pub struct Span {
    pub start: Pos,
    pub end: Pos,
}

impl Span {
    pub fn new(start_line: usize, start_col: usize, end_line: usize, end_col: usize) -> (s: Span)
        ensures
            s.start.line == start_line,
            s.start.col == start_col,
            s.end.line == end_line,
            s.end.col == end_col,
    {
        Span { start: Pos::new(start_line, start_col), end: Pos::new(end_line, end_col) }
    }
}

/// A token of the source text.
#[derive(Debug, PartialEq)]
pub enum Token {
    Number { span: Span, val: Number },
    String { span: Span, val: String },
    Symbol { span: Span, ns: Option<String>, name: String },
    Keyword { span: Span, ns: Option<String>, name: String },
    ListStart { span: Span },
    ListEnd { span: Span },
    VecStart { span: Span },
    VecEnd { span: Span },
    Quote { span: Span },
    Unquote { span: Span },
    UnquoteSplicing { span: Span },
    SyntaxQuote { span: Span },
}

/// What a token holds, with text as character sequences.
pub enum TokenView {
    Number { span: Span, negative: bool, digits: Seq<u8>, scale: nat },
    String { span: Span, val: Seq<char> },
    Symbol { span: Span, name: QName },
    Keyword { span: Span, name: QName },
    ListStart { span: Span },
    ListEnd { span: Span },
    VecStart { span: Span },
    VecEnd { span: Span },
    Quote { span: Span },
    Unquote { span: Span },
    UnquoteSplicing { span: Span },
    SyntaxQuote { span: Span },
}

impl View for Token {
    type V = TokenView;

    open spec fn view(&self) -> TokenView {
        match *self {
            Token::Number { span, val } => TokenView::Number {
                span,
                negative: val.negative(),
                digits: val.digits(),
                scale: val.scale(),
            },
            Token::String { span, val } => TokenView::String { span, val: val@ },
            Token::Symbol { span, ns, name } => TokenView::Symbol {
                span,
                name: QName { ns: opt_text(ns), name: name@ },
            },
            Token::Keyword { span, ns, name } => TokenView::Keyword {
                span,
                name: QName { ns: opt_text(ns), name: name@ },
            },
            Token::ListStart { span } => TokenView::ListStart { span },
            Token::ListEnd { span } => TokenView::ListEnd { span },
            Token::VecStart { span } => TokenView::VecStart { span },
            Token::VecEnd { span } => TokenView::VecEnd { span },
            Token::Quote { span } => TokenView::Quote { span },
            Token::Unquote { span } => TokenView::Unquote { span },
            Token::UnquoteSplicing { span } => TokenView::UnquoteSplicing { span },
            Token::SyntaxQuote { span } => TokenView::SyntaxQuote { span },
        }
    }
}

} // verus!
