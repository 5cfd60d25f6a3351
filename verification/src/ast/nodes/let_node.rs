//! Local bindings: `(let [name expr ...] body...)`.

use vstd::prelude::*;
use crate::ast::Node;

verus! {

/// Local bindings and a body evaluated under them.
#[derive(Debug, PartialEq)]
pub struct Let {
    pub bindings: Vec<Node>,
    pub body: Vec<Node>,
}

impl Let {
    /// The bindings: names and expressions, alternating.
    pub open spec fn bindings_spec(self) -> Seq<Node> {
        self.bindings@
    }

    /// The body, evaluated in order.
    pub open spec fn body_spec(self) -> Seq<Node> {
        self.body@
    }

    pub fn new(bindings: Vec<Node>, body: Vec<Node>) -> (r: Let)
        ensures
            r.bindings_spec() == bindings@,
            r.body_spec() == body@,
    {
        Let { bindings, body }
    }

    pub fn bindings(&self) -> (r: &Vec<Node>)
        ensures
            r@ == self.bindings_spec(),
    {
        &self.bindings
    }

    pub fn body(&self) -> (r: &Vec<Node>)
        ensures
            r@ == self.body_spec(),
    {
        &self.body
    }
}

} // verus!
