//! A small Lisp: a lexer, a parser and a printer for its syntax tree, the
//! namespaced environment that evaluation reads and writes, and the
//! evaluator, which leaves arithmetic and files to a host.

pub mod number;
pub mod text;
pub mod ast;

pub use ast::Node;
pub use ast::nodes;
pub mod lexer;
pub mod parser;

pub use parser::Parser;
pub mod state;

pub use state::State;
