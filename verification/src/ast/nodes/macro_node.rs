//! Macros: `(macro [params] body...)`.

use vstd::prelude::*;
use crate::ast::Node;

verus! {

/// A macro: parameters and a body that builds code.
#[derive(Debug, PartialEq)]
pub struct Macro {
    pub params: Vec<Node>,
    pub body: Vec<Node>,
}

impl Macro {
    /// The parameters.
    pub open spec fn params_spec(self) -> Seq<Node> {
        self.params@
    }

    /// The body, evaluated in order.
    pub open spec fn body_spec(self) -> Seq<Node> {
        self.body@
    }

    pub fn new(params: Vec<Node>, body: Vec<Node>) -> (r: Macro)
        ensures
            r.params_spec() == params@,
            r.body_spec() == body@,
    {
        Macro { params, body }
    }

    pub fn params(&self) -> (r: &Vec<Node>)
        ensures
            r@ == self.params_spec(),
    {
        &self.params
    }

    pub fn body(&self) -> (r: &Vec<Node>)
        ensures
            r@ == self.body_spec(),
    {
        &self.body
    }
}

} // verus!
