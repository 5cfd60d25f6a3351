//! Calls: a symbol applied to arguments.

use vstd::prelude::*;
use crate::ast::Node;
use crate::ast::nodes::symbol::Symbol;

verus! {

/// A call of the function or macro that `symbol` names.
#[derive(Debug, PartialEq)]
pub struct Call {
    pub symbol: Symbol,
    pub args: Vec<Node>,
}

impl Call {
    /// The called symbol.
    pub open spec fn symbol_spec(self) -> Symbol {
        self.symbol
    }

    /// The arguments.
    pub open spec fn args_spec(self) -> Seq<Node> {
        self.args@
    }

    pub fn new(symbol: Symbol, args: Vec<Node>) -> (c: Call)
        ensures
            c.symbol_spec() == symbol,
            c.args_spec() == args@,
    {
        Call { symbol, args }
    }

    pub fn symbol(&self) -> (r: &Symbol)
        ensures
            *r == self.symbol_spec(),
    {
        &self.symbol
    }

    pub fn args(&self) -> (r: &Vec<Node>)
        ensures
            r@ == self.args_spec(),
    {
        &self.args
    }
}

} // verus!
