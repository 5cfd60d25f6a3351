//! The errors that the parser reports.

use vstd::prelude::*;
use crate::lexer::{Token, TokenView, LexerError};
use crate::lexer::error::lexer_error_text;
#[allow(unused_imports)]
use crate::text;

verus! {

/// An error of the parser.
#[derive(Debug, PartialEq)]
pub enum ParserError {
    UnexpectedToken(Token),
    UnexpectedEndOfInput,
    LexerError(LexerError),
}

/// What a parser error holds.
pub enum ParserErrorView {
    UnexpectedToken(TokenView),
    UnexpectedEndOfInput,
    LexerError((nat, nat)),
}

impl View for ParserError {
    type V = ParserErrorView;

    open spec fn view(&self) -> ParserErrorView {
        match *self {
            ParserError::UnexpectedToken(t) => ParserErrorView::UnexpectedToken(t@),
            ParserError::UnexpectedEndOfInput => ParserErrorView::UnexpectedEndOfInput,
            ParserError::LexerError(e) => ParserErrorView::LexerError(e@),
        }
    }
}

/// The text that describes a parser error.
pub open spec fn parser_error_text(e: ParserErrorView) -> Seq<char> {
    let detected = seq![' ', 'd', 'e', 't', 'e', 'c', 't', 'e', 'd'];
    match e {
        ParserErrorView::UnexpectedToken(_) => seq![
            'U',
            'n',
            'e',
            'x',
            'p',
            'e',
            'c',
            't',
            'e',
            'd',
            ' ',
            't',
            'o',
            'k',
            'e',
            'n',
        ] + detected,
        ParserErrorView::UnexpectedEndOfInput => seq![
            'U',
            'n',
            'e',
            'x',
            'p',
            'e',
            'c',
            't',
            'e',
            'd',
            ' ',
            'e',
            'n',
            'd',
            ' ',
            'o',
            'f',
            ' ',
            'f',
            'i',
            'l',
            'e',
        ] + detected,
        ParserErrorView::LexerError((l, c)) => lexer_error_text(l, c) + detected,
    }
}

impl ParserError {
    /// The text that describes the error, ending in ` detected`.
    pub fn to_string(&self) -> (s: String)
        ensures
            s@ == parser_error_text(self@),
    {
        let mut s = match self {
            ParserError::UnexpectedToken(_) => {
                let t = "Unexpected token";
                proof {
                    reveal_strlit("Unexpected token");
                }
                let mut s = String::new();
                s.append(t);
                s
            },
            ParserError::UnexpectedEndOfInput => {
                let t = "Unexpected end of file";
                proof {
                    reveal_strlit("Unexpected end of file");
                }
                let mut s = String::new();
                s.append(t);
                s
            },
            ParserError::LexerError(e) => e.to_string(),
        };
        let d = " detected";
        proof {
            reveal_strlit(" detected");
        }
        s.append(d);
        assert(s@ =~= parser_error_text(self@));
        s
    }
}

} // verus!
