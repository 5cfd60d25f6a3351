//! The evaluation state: namespaced bindings, chained to the state of the
//! enclosing scope.

pub mod laws;
pub mod semantics;
pub mod error;
pub mod host;
pub mod eval;
pub mod eval_laws;
pub mod depth_laws;
pub mod scope_laws;
pub mod builtin_laws;

pub use self::error::EvalError;
pub use self::host::Host;
pub use self::eval::{EvalResult, MAX_DEPTH};

use vstd::prelude::*;
use crate::ast::{Node, NodeView, QName, node_clone, symbol_clone};
use crate::ast::nodes::{Symbol, Bool};
#[allow(unused_imports)]
use crate::text;

verus! {

/// The bindings of one state, as (qualified name, value) pairs.
pub type Bindings = Seq<(QName, NodeView)>;

/// What a state holds.
pub struct StateView {
    pub current: Seq<char>,
    pub bindings: Bindings,
    pub parent: Option<Box<StateView>>,
    pub id: nat,
}

/// The index of the first binding of `k` from `i` on, or `b.len()`.
pub open spec fn find_key(b: Bindings, k: QName, i: int) -> int
    decreases b.len() - i,
{
    if 0 <= i < b.len() && b[i].0 != k {
        find_key(b, k, i + 1)
    } else {
        i
    }
}

pub proof fn lemma_find_key(b: Bindings, k: QName, i: int)
    requires
        0 <= i <= b.len(),
    ensures
        i <= find_key(b, k, i) <= b.len(),
        find_key(b, k, i) < b.len() ==> b[find_key(b, k, i)].0 == k,
        forall|j: int| i <= j < find_key(b, k, i) ==> b[j].0 != k,
    decreases b.len() - i,
{
    if i < b.len() && b[i].0 != k {
        lemma_find_key(b, k, i + 1);
    }
}

/// The value bound to `k`, if any.
pub open spec fn lookup(b: Bindings, k: QName) -> Option<NodeView> {
    let i = find_key(b, k, 0);
    if 0 <= i < b.len() {
        Some(b[i].1)
    } else {
        None
    }
}

/// The bindings with `k` bound to `v`: the binding of `k` is replaced, or,
/// without one, a new binding added.
pub open spec fn bind(b: Bindings, k: QName, v: NodeView) -> Bindings {
    let i = find_key(b, k, 0);
    if 0 <= i < b.len() {
        b.update(i, (k, v))
    } else {
        b.push((k, v))
    }
}

/// The key under which a state files name `q`: `q` itself when qualified,
/// else `q` in the state's current namespace.
pub open spec fn key_in(current: Seq<char>, q: QName) -> QName {
    match q.ns {
        Some(_) => q,
        None => QName { ns: Some(current), name: q.name },
    }
}

/// The value that a state gives name `q`: its own binding (an alias bound
/// there standing for the binding of its target there), else, if it has
/// none, the value that the enclosing state gives.
pub open spec fn get_spec(st: StateView, q: QName) -> Option<NodeView>
    decreases st,
{
    let v = lookup(st.bindings, key_in(st.current, q));
    let v2 = match v {
        Some(NodeView::Alias(a)) => lookup(st.bindings, a),
        _ => v,
    };
    if v2 is None && st.parent is Some {
        get_spec(*st.parent.unwrap(), q)
    } else {
        v2
    }
}

/// The bindings of a fresh state whose current namespace is `current`:
/// `nil` (the empty list), `true` and `false`.
pub open spec fn initial_bindings(current: Seq<char>) -> Bindings {
    seq![
        (QName { ns: Some(current), name: seq!['n', 'i', 'l'] }, NodeView::List(Seq::empty())),
        (QName { ns: Some(current), name: seq!['t', 'r', 'u', 'e'] }, NodeView::Bool(true)),
        (QName { ns: Some(current), name: seq!['f', 'a', 'l', 's', 'e'] }, NodeView::Bool(false)),
    ]
}

/// The name of the namespace of a state chained to one whose current
/// namespace is `current`.
pub open spec fn chained_name(current: Seq<char>) -> Seq<char> {
    current + seq!['_', 'c', 'h', 'a', 'i', 'n', 'e', 'd']
}

/// A fresh state chained to `parent`.
pub open spec fn chained_spec(parent: StateView) -> StateView {
    StateView {
        current: chained_name(parent.current),
        bindings: initial_bindings(chained_name(parent.current)),
        parent: Some(Box::new(parent)),
        id: 0,
    }
}

/// The evaluation state.
#[derive(Debug)]
pub struct State<'s> {
    current: String,
    bindings: Vec<(Symbol, Node)>,
    parent: Option<&'s State<'s>>,
    id: usize,
}

/// The view of a state's bindings.
pub open spec fn bindings_view(v: Seq<(Symbol, Node)>) -> Bindings {
    Seq::new(v.len(), |i: int| (v[i].0@, v[i].1@))
}

/// The view of a state.
pub closed spec fn state_view<'s>(s: State<'s>) -> StateView
    decreases s,
{
    StateView {
        current: s.current@,
        bindings: bindings_view(s.bindings@),
        parent: match s.parent {
            Some(p) => Some(Box::new(state_view(*p))),
            None => None,
        },
        id: s.id as nat,
    }
}

impl<'s> View for State<'s> {
    type V = StateView;

    open spec fn view(&self) -> StateView {
        state_view(*self)
    }
}

/// A string of the given characters.
fn text_of(t: &str) -> (s: String)
    ensures
        s@ == t@,
{
    let s = t.to_string();
    proof {
        broadcast use vstd::string::group_string_axioms;
    }
    s
}

impl<'s> State<'s> {
    /// A fresh state whose current namespace is `current`, with `nil`, `true`
    /// and `false` bound there.
    pub fn new(current: String) -> (st: State<'s>)
        ensures
            st@ == (StateView {
                current: current@,
                bindings: initial_bindings(current@),
                parent: None,
                id: 0,
            }),
    {
        let mut bindings: Vec<(Symbol, Node)> = Vec::new();
        let nil = text_of("nil");
        let t = text_of("true");
        let f = text_of("false");
        proof {
            reveal_strlit("nil");
            reveal_strlit("true");
            reveal_strlit("false");
            assert("nil"@ =~= seq!['n', 'i', 'l']);
            assert("true"@ =~= seq!['t', 'r', 'u', 'e']);
            assert("false"@ =~= seq!['f', 'a', 'l', 's', 'e']);
        }
        bindings.push((Symbol { ns: Some(current.clone()), name: nil }, Node::List(Vec::new())));
        bindings.push(
            (Symbol { ns: Some(current.clone()), name: t }, Node::Bool(Bool { value: true })),
        );
        bindings.push(
            (Symbol { ns: Some(current.clone()), name: f }, Node::Bool(Bool { value: false })),
        );
        let st = State { current, bindings, parent: None, id: 0 };
        proof {
            assert(crate::ast::nodes_view(Seq::<Node>::empty()) =~= Seq::<NodeView>::empty());
            assert(bindings_view(st.bindings@) =~= initial_bindings(current@));
        }
        st
    }

    /// A fresh state chained to `parent`: its current namespace is the
    /// parent's with `_chained` appended.
    pub fn new_chained(parent: &'s State<'s>) -> (st: State<'s>)
        ensures
            st@ == chained_spec(parent@),
    {
        let mut name = parent.current.clone();
        let suffix = "_chained";
        proof {
            reveal_strlit("_chained");
            assert("_chained"@ =~= seq!['_', 'c', 'h', 'a', 'i', 'n', 'e', 'd']);
        }
        name.append(suffix);
        let mut st = State::new(name);
        st.parent = Some(parent);
        assert(st@ == chained_spec(parent@));
        st
    }

    /// The current namespace.
    pub fn get_current(&self) -> (r: &String)
        ensures
            r@ == self@.current,
    {
        &self.current
    }

    /// Makes `current` the current namespace, and hands back the previous one.
    pub fn set_current(&mut self, current: String) -> (old_current: String)
        ensures
            old_current@ == old(self)@.current,
            final(self)@ == (StateView { current: current@, ..old(self)@ }),
    {
        let old_current = self.current.clone();
        self.current = current;
        old_current
    }

    /// A fresh number: each call hands out the next one, from 0; after the
    /// largest `usize` the count starts again at 0.
    pub fn next_id(&mut self) -> (next: usize)
        ensures
            next == old(self)@.id,
            final(self)@ == (StateView { id: semantics::next_id_spec(old(self)@.id), ..old(self)@ }),
    {
        let next = self.id;
        self.id = if self.id == usize::MAX { 0 } else { self.id + 1 };
        next
    }
}

/// The view of an optional node.
pub open spec fn opt_node_view(r: Option<&Node>) -> Option<NodeView> {
    match r {
        Some(n) => Some(n@),
        None => None,
    }
}

impl<'s> State<'s> {
    /// The index of the binding of `key`, or the number of bindings.
    fn key_index(&self, key: &Symbol) -> (i: usize)
        ensures
            i == find_key(self@.bindings, key@, 0),
            i <= self.bindings@.len(),
            self@.bindings.len() == self.bindings@.len(),
    {
        let ghost b = self@.bindings;
        assert(b =~= bindings_view(self.bindings@));
        let mut i: usize = 0;
        while i < self.bindings.len() && !symbol_eq(&self.bindings[i].0, key)
            invariant
                i <= self.bindings@.len(),
                b == bindings_view(self.bindings@),
                find_key(b, key@, i as int) == find_key(b, key@, 0),
            decreases self.bindings.len() - i,
        {
            i = i + 1;
        }
        i
    }

    /// The key under which this state files `symbol`.
    fn key_for(&self, symbol: &Symbol) -> (k: Symbol)
        ensures
            k@ == key_in(self@.current, symbol@),
    {
        match &symbol.ns {
            Some(_) => symbol_clone(symbol),
            None => Symbol { ns: Some(self.current.clone()), name: symbol.name.clone() },
        }
    }

    /// Binds `symbol` (in the current namespace, when unqualified) to `node`,
    /// and hands back what it was bound to before in this state.
    pub fn insert(&mut self, symbol: Symbol, node: Node) -> (prev: Option<Node>)
        ensures
            final(self)@ == (StateView {
                bindings: bind(old(self)@.bindings, key_in(old(self)@.current, symbol@), node@),
                ..old(self)@
            }),
            match prev {
                Some(p) => Some(p@),
                None => None::<NodeView>,
            } == lookup(old(self)@.bindings, key_in(old(self)@.current, symbol@)),
    {
        let key = self.key_for(&symbol);
        let i = self.key_index(&key);
        let ghost b = self@.bindings;
        if i < self.bindings.len() {
            let (k, prev) = self.bindings.remove(i);
            self.bindings.insert(i, (k, node));
            proof {
                lemma_find_key(b, key@, 0);
                assert(bindings_view(self.bindings@) =~= b.update(i as int, (key@, node@)));
            }
            Some(prev)
        } else {
            self.bindings.push((key, node));
            proof {
                assert(bindings_view(self.bindings@) =~= b.push((key@, node@)));
            }
            None
        }
    }

    /// The value that this state gives `symbol`: its own binding (following
    /// an alias bound here), else that of the enclosing state.
    pub fn get(&self, symbol: &Symbol) -> (r: Option<&Node>)
        ensures
            opt_node_view(r) == get_spec(self@, symbol@),
        decreases self,
    {
        let key = self.key_for(symbol);
        let i = self.key_index(&key);
        let mut v: Option<&Node> = if i < self.bindings.len() {
            Some(&self.bindings[i].1)
        } else {
            None
        };
        if let Some(Node::Alias(a)) = v {
            let j = self.key_index(&a.symbol);
            v = if j < self.bindings.len() {
                Some(&self.bindings[j].1)
            } else {
                None
            };
        }
        if v.is_none() {
            match self.parent {
                Some(p) => {
                    return p.get(symbol);
                },
                None => {},
            }
        }
        v
    }
}

/// Whether two optional strings are equal.
fn opt_string_eq(a: &Option<String>, b: &Option<String>) -> (r: bool)
    ensures
        r == (crate::ast::opt_text(*a) == crate::ast::opt_text(*b)),
{
    match (a, b) {
        (Some(x), Some(y)) => *x == *y,
        (None, None) => true,
        _ => false,
    }
}

/// Whether two symbols name the same thing.
fn symbol_eq(a: &Symbol, b: &Symbol) -> (r: bool)
    ensures
        r == (a@ == b@),
{
    opt_string_eq(&a.ns, &b.ns) && a.name == b.name
}

} // verus!
