//! Vectors of nodes, read by index or by a cursor.

use vstd::prelude::*;
use crate::ast::Node;

verus! {

/// A vector of nodes.
#[derive(Debug, PartialEq)]
pub struct Vector {
    pub vector: Vec<Node>,
}

impl Vector {
    /// The elements.
    pub open spec fn vector_spec(self) -> Seq<Node> {
        self.vector@
    }

    pub fn new(vector: Vec<Node>) -> (v: Vector)
        ensures
            v.vector_spec() == vector@,
    {
        Vector { vector }
    }

    pub fn len(&self) -> (n: usize)
        ensures
            n == self.vector_spec().len(),
    {
        self.vector.len()
    }

    /// The element at `index`.
    pub fn index(&self, index: usize) -> (r: &Node)
        requires
            index < self.vector_spec().len(),
        ensures
            *r == self.vector_spec()[index as int],
    {
        &self.vector[index]
    }

    /// The elements from `start` on.
    pub fn from(&self, start: usize) -> (r: &[Node])
        requires
            start <= self.vector_spec().len(),
        ensures
            r@ == self.vector_spec().subrange(start as int, self.vector_spec().len() as int),
    {
        let s = self.vector.as_slice();
        vstd::slice::slice_subrange(s, start, s.len())
    }

    /// A cursor over the elements, from the first.
    pub fn iter(&self) -> (it: VectorIntoIterator<'_>)
        ensures
            it.vector_spec() == *self,
            it.index_spec() == 0,
    {
        VectorIntoIterator { vector: self, index: 0 }
    }
}

/// A cursor that hands out the elements of a vector in order.
pub struct VectorIntoIterator<'a> {
    vector: &'a Vector,
    index: usize,
}

impl<'a> VectorIntoIterator<'a> {
    /// The vector walked.
    pub closed spec fn vector_spec(self) -> Vector {
        *self.vector
    }

    /// How many elements have been handed out.
    pub closed spec fn index_spec(self) -> nat {
        self.index as nat
    }

    /// The next element, or `None` once all have been handed out.
    pub fn next(&mut self) -> (r: Option<&'a Node>)
        ensures
            final(self).vector_spec() == old(self).vector_spec(),
            old(self).index_spec() < old(self).vector_spec().vector_spec().len() ==> {
                &&& r == Some(&old(self).vector_spec().vector_spec()[old(self).index_spec() as int])
                &&& final(self).index_spec() == old(self).index_spec() + 1
            },
            old(self).index_spec() >= old(self).vector_spec().vector_spec().len() ==> {
                &&& r is None
                &&& final(self).index_spec() == old(self).index_spec()
            },
    {
        if self.index < self.vector.len() {
            let cur = &self.vector.vector[self.index];
            self.index = self.index + 1;
            Some(cur)
        } else {
            None
        }
    }
}

} // verus!
