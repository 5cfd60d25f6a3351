//! Booleans.

use vstd::prelude::*;
#[allow(unused_imports)]
use crate::text;

verus! {

/// The text that shows a boolean.
pub open spec fn bool_text(b: bool) -> Seq<char> {
    if b {
        seq!['t', 'r', 'u', 'e']
    } else {
        seq!['f', 'a', 'l', 's', 'e']
    }
}

/// A boolean value.
#[derive(Debug, PartialEq, Clone)]
pub struct Bool {
    pub value: bool,
}

impl Bool {
    /// The boolean's value.
    pub open spec fn value_spec(self) -> bool {
        self.value
    }

    pub fn new(value: bool) -> (b: Bool)
        ensures
            b.value_spec() == value,
    {
        Bool { value }
    }

    pub fn value(&self) -> (r: bool)
        ensures
            r == self.value_spec(),
    {
        self.value
    }

    /// The text that shows the boolean: `true` or `false`.
    pub fn to_string(&self) -> (s: String)
        ensures
            s@ == bool_text(self.value),
    {
        let mut s = String::new();
        if self.value {
            s.push('t');
            s.push('r');
            s.push('u');
            s.push('e');
        } else {
            s.push('f');
            s.push('a');
            s.push('l');
            s.push('s');
            s.push('e');
        }
        assert(s@ =~= bool_text(self.value));
        s
    }
}

} // verus!
