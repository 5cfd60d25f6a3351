//! Lists of nodes.

use vstd::prelude::*;
use crate::ast::Node;

verus! {

/// A list of nodes.
#[derive(Debug, PartialEq)]
pub struct List {
    pub list: Vec<Node>,
}

impl List {
    /// The elements.
    pub open spec fn list_spec(self) -> Seq<Node> {
        self.list@
    }

    pub fn new(list: Vec<Node>) -> (l: List)
        ensures
            l.list_spec() == list@,
    {
        List { list }
    }

    pub fn list(&self) -> (r: &[Node])
        ensures
            r@ == self.list_spec(),
    {
        self.list.as_slice()
    }
}

} // verus!
