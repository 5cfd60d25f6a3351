//! Definitions: `(def name expr)`.

use vstd::prelude::*;
use crate::ast::Node;
use crate::ast::nodes::symbol::Symbol;

verus! {

/// A definition that binds `symbol` to the value of `expr`.
#[derive(Debug, PartialEq)]
pub struct Def {
    pub symbol: Symbol,
    pub expr: Box<Node>,
}

impl Def {
    /// The defined symbol.
    pub open spec fn symbol_spec(self) -> Symbol {
        self.symbol
    }

    /// The defining expression.
    pub open spec fn expr_spec(self) -> Node {
        *self.expr
    }

    pub fn new(symbol: Symbol, expr: Node) -> (d: Def)
        ensures
            d.symbol_spec() == symbol,
            d.expr_spec() == expr,
    {
        Def { symbol, expr: Box::new(expr) }
    }

    pub fn symbol(&self) -> (r: &Symbol)
        ensures
            *r == self.symbol_spec(),
    {
        &self.symbol
    }

    pub fn expr(&self) -> (r: &Node)
        ensures
            *r == self.expr_spec(),
    {
        &self.expr
    }
}

} // verus!
