//! Aliases: a name that refers to a symbol of another namespace.

use vstd::prelude::*;
use crate::ast::nodes::symbol::Symbol;

verus! {

/// An alias for a symbol.
#[derive(Debug, PartialEq, Clone)]
pub struct Alias {
    pub symbol: Symbol,
}

impl Alias {
    /// The symbol the alias refers to.
    pub open spec fn symbol_spec(self) -> Symbol {
        self.symbol
    }

    /// The text that shows the alias: that of its symbol.
    pub open spec fn text(self) -> Seq<char> {
        self.symbol.text()
    }

    pub fn new(symbol: Symbol) -> (a: Alias)
        ensures
            a.symbol_spec() == symbol,
    {
        Alias { symbol }
    }

    pub fn symbol(&self) -> (r: &Symbol)
        ensures
            *r == self.symbol_spec(),
    {
        &self.symbol
    }

    /// The text that shows the alias.
    pub fn to_string(&self) -> (s: String)
        ensures
            s@ == self.text(),
    {
        self.symbol.to_string()
    }
}

} // verus!
