//! String literals.

use vstd::prelude::*;

verus! {

/// A string value.
#[derive(Debug, PartialEq, Clone)]
pub struct String {
    pub value: std::string::String,
}

impl String {
    /// The string's contents.
    pub open spec fn value_spec(self) -> std::string::String {
        self.value
    }

    /// The text that shows the string: its contents between double quotes.
    pub open spec fn text(self) -> Seq<char> {
        seq!['"'] + self.value@ + seq!['"']
    }

    pub fn new(value: std::string::String) -> (s: String)
        ensures
            s.value_spec() == value,
    {
        String { value }
    }

    pub fn value(&self) -> (r: &std::string::String)
        ensures
            *r == self.value_spec(),
    {
        &self.value
    }

    /// The text that shows the string.
    pub fn to_string(&self) -> (s: std::string::String)
        ensures
            s@ == self.text(),
    {
        let mut s = std::string::String::new();
        s.push('"');
        s.append(self.value.as_str());
        s.push('"');
        s
    }
}

} // verus!
