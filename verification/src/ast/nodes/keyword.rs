//! Keywords: `:name` or `:ns/name`.

use vstd::prelude::*;
use crate::ast::{QName, opt_text, qname_text};

verus! {

/// A keyword: a name, optionally qualified by a namespace.
#[derive(Debug, PartialEq, Clone)]
pub struct Keyword {
    pub ns: Option<String>,
    pub name: String,
}

impl Keyword {
    /// The keyword's namespace, if it has one.
    pub open spec fn ns_spec(self) -> Option<String> {
        self.ns
    }

    /// The keyword's name.
    pub open spec fn name_spec(self) -> String {
        self.name
    }

    /// The text that shows the keyword: a colon, then the qualified name.
    pub open spec fn text(self) -> Seq<char> {
        seq![':'] + qname_text(QName { ns: opt_text(self.ns), name: self.name@ })
    }

    pub fn new(ns: Option<String>, name: String) -> (k: Keyword)
        ensures
            k.ns_spec() == ns,
            k.name_spec() == name,
    {
        Keyword { ns, name }
    }

    pub fn name(&self) -> (r: &String)
        ensures
            *r == self.name_spec(),
    {
        &self.name
    }

    pub fn ns(&self) -> (r: Option<&String>)
        ensures
            r is Some <==> self.ns_spec() is Some,
            r is Some ==> *r.unwrap() == self.ns_spec().unwrap(),
    {
        self.ns.as_ref()
    }

    /// The text that shows the keyword.
    pub fn to_string(&self) -> (s: String)
        ensures
            s@ == self.text(),
    {
        let mut s = String::new();
        s.push(':');
        if let Some(n) = &self.ns {
            s.append(n.as_str());
            s.push('/');
        }
        s.append(self.name.as_str());
        s
    }
}

} // verus!
