//! The errors that evaluation reports.

use vstd::prelude::*;
use crate::ast::{Node, view_text};
use crate::parser::ParserError;
use crate::parser::error::parser_error_text;
use crate::state::semantics::EvalErrorView;
#[allow(unused_imports)]
use crate::text;

verus! {

/// An error of evaluation.
#[derive(Debug, PartialEq)]
pub enum EvalError {
    ResolveError(String),
    DispatchError(Node),
    IncorrectTypeOfArgumentError(Node),
    IncorrectNumberOfArgumentsError(Node),
    IoError(String),
    ParserError(ParserError),
    DepthLimitExceeded,
}

impl View for EvalError {
    type V = EvalErrorView;

    open spec fn view(&self) -> EvalErrorView {
        match *self {
            EvalError::ResolveError(s) => EvalErrorView::Resolve(s@),
            EvalError::DispatchError(n) => EvalErrorView::Dispatch(n@),
            EvalError::IncorrectTypeOfArgumentError(n) => EvalErrorView::IncorrectType(n@),
            EvalError::IncorrectNumberOfArgumentsError(n) => EvalErrorView::IncorrectNumber(n@),
            EvalError::IoError(s) => EvalErrorView::Io(s@),
            EvalError::ParserError(e) => EvalErrorView::Parser(e@),
            EvalError::DepthLimitExceeded => EvalErrorView::DepthLimit,
        }
    }
}

/// `text` between double quotes.
pub open spec fn quoted(text: Seq<char>) -> Seq<char> {
    seq!['"'] + text + seq!['"']
}

/// The text that describes an evaluation error.
pub open spec fn eval_error_text(e: EvalErrorView) -> Seq<char> {
    match e {
        EvalErrorView::Resolve(name) => "Unable to resolve symbol "@ + quoted(name),
        EvalErrorView::Dispatch(n) => "Unable to dispatch expression "@ + quoted(view_text(n)),
        EvalErrorView::IncorrectType(n) => "Incorrect type of argument "@ + quoted(view_text(n)),
        EvalErrorView::IncorrectNumber(n) => "Incorrect number of arguments "@ + view_text(n),
        EvalErrorView::Io(msg) => msg,
        EvalErrorView::Parser(p) => parser_error_text(p),
        EvalErrorView::DepthLimit => "Evaluation nested too deeply"@,
        EvalErrorView::Unanswered => Seq::empty(),
    }
}

/// Appends `"text"` to `s`.
fn push_quoted(s: &mut String, text: &str)
    ensures
        final(s)@ == old(s)@ + quoted(text@),
{
    s.push('"');
    s.append(text);
    s.push('"');
    assert(final(s)@ =~= old(s)@ + quoted(text@));
}

impl EvalError {
    /// The text that describes the error.
    pub fn to_string(&self) -> (s: String)
        ensures
            s@ == eval_error_text(self@),
    {
        match self {
            EvalError::ResolveError(name) => {
                let mut s = String::new();
                s.append("Unable to resolve symbol ");
                push_quoted(&mut s, name.as_str());
                s
            },
            EvalError::DispatchError(n) => {
                let mut s = String::new();
                s.append("Unable to dispatch expression ");
                let t = n.to_string();
                push_quoted(&mut s, t.as_str());
                s
            },
            EvalError::IncorrectTypeOfArgumentError(n) => {
                let mut s = String::new();
                s.append("Incorrect type of argument ");
                let t = n.to_string();
                push_quoted(&mut s, t.as_str());
                s
            },
            EvalError::IncorrectNumberOfArgumentsError(n) => {
                let mut s = String::new();
                s.append("Incorrect number of arguments ");
                let t = n.to_string();
                s.append(t.as_str());
                s
            },
            EvalError::IoError(msg) => msg.clone(),
            EvalError::ParserError(e) => e.to_string(),
            EvalError::DepthLimitExceeded => {
                let mut s = String::new();
                s.append("Evaluation nested too deeply");
                s
            },
        }
    }
}

} // verus!
