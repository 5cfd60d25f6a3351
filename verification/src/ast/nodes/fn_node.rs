//! Functions: `(fn [params] body...)`.

use vstd::prelude::*;
use crate::ast::Node;

verus! {

/// A function: parameters and a body.
#[derive(Debug, PartialEq)]
pub struct Fn {
    pub params: Vec<Node>,
    pub body: Vec<Node>,
}

impl Fn {
    /// The parameters.
    pub open spec fn params_spec(self) -> Seq<Node> {
        self.params@
    }

    /// The body, evaluated in order.
    pub open spec fn body_spec(self) -> Seq<Node> {
        self.body@
    }

    pub fn new(params: Vec<Node>, body: Vec<Node>) -> (r: Fn)
        ensures
            r.params_spec() == params@,
            r.body_spec() == body@,
    {
        Fn { params, body }
    }

    pub fn params(&self) -> (r: &Vec<Node>)
        ensures
            r@ == self.params_spec(),
    {
        &self.params
    }

    pub fn body(&self) -> (r: &Vec<Node>)
        ensures
            r@ == self.body_spec(),
    {
        &self.body
    }
}

} // verus!
