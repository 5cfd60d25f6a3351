//! Symbols, optionally qualified by a namespace: `name` or `ns/name`.

use vstd::prelude::*;
use crate::ast::{QName, opt_text, qname_text};

verus! {

/// A symbol: a name, optionally qualified by a namespace.
#[derive(Debug, PartialEq, Eq, Hash, Clone)]
pub struct Symbol {
    pub ns: Option<String>,
    pub name: String,
}

impl View for Symbol {
    type V = QName;

    open spec fn view(&self) -> QName {
        QName { ns: opt_text(self.ns), name: self.name@ }
    }
}

impl Symbol {
    /// The symbol's namespace, if it has one.
    pub open spec fn ns_spec(self) -> Option<String> {
        self.ns
    }

    /// The symbol's name.
    pub open spec fn name_spec(self) -> String {
        self.name
    }

    /// The text that shows the symbol.
    pub open spec fn text(self) -> Seq<char> {
        qname_text(self@)
    }

    pub fn new(ns: Option<String>, name: String) -> (s: Symbol)
        ensures
            s.ns_spec() == ns,
            s.name_spec() == name,
    {
        Symbol { ns, name }
    }

    pub fn name(&self) -> (r: &String)
        ensures
            *r == self.name_spec(),
    {
        &self.name
    }

    pub fn ns(&self) -> (r: Option<&String>)
        ensures
            r is Some <==> self.ns_spec() is Some,
            r is Some ==> *r.unwrap() == self.ns_spec().unwrap(),
    {
        self.ns.as_ref()
    }

    /// A symbol equal to this one.
    pub fn duplicate(&self) -> (r: Symbol)
        ensures
            r == *self,
    {
        crate::ast::symbol_clone(self)
    }

    /// The text that shows the symbol.
    pub fn to_string(&self) -> (s: String)
        ensures
            s@ == self.text(),
    {
        let mut s = String::new();
        if let Some(n) = &self.ns {
            s.append(n.as_str());
            s.push('/');
        }
        s.append(self.name.as_str());
        s
    }
}

} // verus!
