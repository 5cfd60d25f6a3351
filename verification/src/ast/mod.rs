//! The syntax tree and the text that shows it.

pub mod nodes;

use vstd::prelude::*;
use crate::number::{Number, number_text};
use crate::ast::nodes::bool::bool_text;
#[allow(unused_imports)]
use crate::text;

verus! {

/// A node of the syntax tree.
#[derive(Debug, PartialEq)]
pub enum Node {
    Number(Number),
    Bool(nodes::Bool),
    String(nodes::String),
    Symbol(nodes::Symbol),
    Keyword(nodes::Keyword),
    Alias(nodes::Alias),
    List(Vec<Node>),
    Vec(Vec<Node>),
    Let(nodes::Let),
    Fn(nodes::Fn),
    Macro(nodes::Macro),
    Def(nodes::Def),
    Call(nodes::Call),
}

/// A namespace-qualified name as plain text.
pub struct QName {
    pub ns: Option<Seq<char>>,
    pub name: Seq<char>,
}

/// The text of an optional string.
pub open spec fn opt_text(o: Option<String>) -> Option<Seq<char>> {
    match o {
        Some(s) => Some(s@),
        None => None,
    }
}

/// The text that shows a qualified name: `ns/name`, or `name`.
pub open spec fn qname_text(q: QName) -> Seq<char> {
    match q.ns {
        Some(n) => n + seq!['/'] + q.name,
        None => q.name,
    }
}

/// The mathematical content of a node: what it holds, with text as
/// character sequences and children as sequences.
pub enum NodeView {
    Number { negative: bool, digits: Seq<u8>, scale: nat },
    Bool(bool),
    String(Seq<char>),
    Symbol(QName),
    Keyword(QName),
    Alias(QName),
    List(Seq<NodeView>),
    Vec(Seq<NodeView>),
    Let { bindings: Seq<NodeView>, body: Seq<NodeView> },
    Fn { params: Seq<NodeView>, body: Seq<NodeView> },
    Macro { params: Seq<NodeView>, body: Seq<NodeView> },
    Def { symbol: QName, expr: Box<NodeView> },
    Call { symbol: QName, args: Seq<NodeView> },
}

/// The views of a sequence of nodes.
pub open spec fn nodes_view(s: Seq<Node>) -> Seq<NodeView>
    decreases s, 0int,
{
    if s.len() == 0 {
        Seq::empty()
    } else {
        nodes_view(s.drop_last()).push(node_view(s.last()))
    }
}

/// The view of a node.
pub open spec fn node_view(n: Node) -> NodeView
    decreases n, 1int,
{
    match n {
        Node::Number(x) => NodeView::Number {
            negative: x.negative(),
            digits: x.digits(),
            scale: x.scale(),
        },
        Node::Bool(b) => NodeView::Bool(b.value),
        Node::String(s) => NodeView::String(s.value@),
        Node::Symbol(s) => NodeView::Symbol(s@),
        Node::Keyword(k) => NodeView::Keyword(QName { ns: opt_text(k.ns), name: k.name@ }),
        Node::Alias(a) => NodeView::Alias(a.symbol@),
        Node::List(l) => NodeView::List(nodes_view(l@)),
        Node::Vec(v) => NodeView::Vec(nodes_view(v@)),
        Node::Let(l) => NodeView::Let { bindings: nodes_view(l.bindings@), body: nodes_view(l.body@) },
        Node::Fn(f) => NodeView::Fn { params: nodes_view(f.params@), body: nodes_view(f.body@) },
        Node::Macro(m) => NodeView::Macro { params: nodes_view(m.params@), body: nodes_view(m.body@) },
        Node::Def(d) => NodeView::Def { symbol: d.symbol@, expr: Box::new(node_view(*d.expr)) },
        Node::Call(c) => NodeView::Call { symbol: c.symbol@, args: nodes_view(c.args@) },
    }
}

impl View for Node {
    type V = NodeView;

    open spec fn view(&self) -> NodeView {
        node_view(*self)
    }
}

/// The texts of `s`, separated by single spaces.
pub open spec fn views_text(s: Seq<NodeView>) -> Seq<char>
    decreases s, 0int,
{
    if s.len() == 0 {
        Seq::empty()
    } else if s.len() == 1 {
        view_text(s[0])
    } else {
        views_text(s.drop_last()) + seq![' '] + view_text(s.last())
    }
}

/// The text that shows a node.
pub open spec fn view_text(n: NodeView) -> Seq<char>
    decreases n, 1int,
{
    match n {
        NodeView::Number { negative, digits, scale } => number_text(negative, digits, scale),
        NodeView::Bool(b) => bool_text(b),
        NodeView::String(s) => seq!['"'] + s + seq!['"'],
        NodeView::Symbol(q) => qname_text(q),
        NodeView::Keyword(q) => seq![':'] + qname_text(q),
        NodeView::Alias(q) => qname_text(q),
        NodeView::List(l) => seq!['('] + views_text(l) + seq![')'],
        NodeView::Vec(v) => seq!['['] + views_text(v) + seq![']'],
        NodeView::Def { symbol, expr } => seq!['(', 'd', 'e', 'f', ' '] + symbol.name + seq![' ']
            + view_text(*expr) + seq![')'],
        NodeView::Let { bindings, body } => seq!['(', 'l', 'e', 't', ' ', '['] + views_text(
            bindings,
        ) + seq![']', ' '] + views_text(body) + seq![')'],
        NodeView::Fn { params, body } => seq!['(', 'f', 'n', ' ']
            + (seq!['(', 'f', 'n', ' ', '['] + views_text(params) + seq![']', ' '] + views_text(body)
            + seq![')']) + seq![')'],
        NodeView::Macro { params, body } => seq!['(', 'm', 'a', 'c', 'r', 'o', ' ']
            + (seq!['(', 'm', 'a', 'c', 'r', 'o', ' ', '['] + views_text(params) + seq![']', ' ']
            + views_text(body) + seq![')']) + seq![')'],
        NodeView::Call { symbol, args } => seq!['('] + qname_text(symbol) + (if args.len() == 0 {
            Seq::empty()
        } else {
            seq![' '] + views_text(args)
        }) + seq![')'],
    }
}

impl Node {
    /// The node's text.
    pub open spec fn text(self) -> Seq<char> {
        view_text(self@)
    }

    pub fn as_bool(&self) -> (r: bool)
        ensures
            r == (self@ != NodeView::Bool(false)),
    {
        if let Node::Bool(b) = self {
            b.value()
        } else {
            true
        }
    }

    /// Whether the node is a symbol with name `name` (in any namespace).
    pub fn is_symbol(&self, name: &str) -> (r: bool)
        ensures
            r == (self@ matches NodeView::Symbol(q) && q.name == name@),
    {
        if let Node::Symbol(s) = self {
            let n = name.to_string();
            proof {
                broadcast use vstd::string::group_string_axioms;
            }
            *s.name() == n
        } else {
            false
        }
    }

    /// Whether the node is a macro.
    pub fn is_macro(&self) -> (r: bool)
        ensures
            r == (self@ is Macro),
    {
        if let Node::Macro(..) = self {
            true
        } else {
            false
        }
    }

    /// Whether the node is a call of a symbol with name `name`.
    pub fn is_call_of(&self, name: &str) -> (r: bool)
        ensures
            r == (self@ matches NodeView::Call { symbol, .. } && symbol.name == name@),
    {
        if let Node::Call(c) = self {
            let n = name.to_string();
            proof {
                broadcast use vstd::string::group_string_axioms;
            }
            *c.symbol().name() == n
        } else {
            false
        }
    }

    /// The text that shows the node.
    pub fn to_string(&self) -> (s: String)
        ensures
            s@ == self.text(),
    {
        node_to_string(self)
    }
}

impl Node {
    /// A node equal to this one.
    pub fn duplicate(&self) -> (r: Node)
        ensures
            r@ == self@,
    {
        node_clone(self)
    }
}

/// The view of a sequence of nodes has one element per node.
pub proof fn lemma_nodes_view_len(s: Seq<Node>)
    ensures
        nodes_view(s).len() == s.len(),
        forall|i: int| 0 <= i < s.len() ==> #[trigger] nodes_view(s)[i] == node_view(s[i]),
        forall|i: int| 0 <= i < s.len() ==> #[trigger] nodes_view(s)[i] == s[i]@,
    decreases s.len(),
{
    if s.len() > 0 {
        lemma_nodes_view_len(s.drop_last());
    }
}

impl Clone for Node {
    fn clone(&self) -> (r: Node)
        ensures
            r@ == self@,
    {
        node_clone(self)
    }
}

/// A copy of the nodes of `v`.
pub fn nodes_clone(v: &Vec<Node>) -> (r: Vec<Node>)
    ensures
        nodes_view(r@) == nodes_view(v@),
    decreases v@, 0int,
{
    let mut out: Vec<Node> = Vec::new();
    let mut i: usize = 0;
    while i < v.len()
        invariant
            i <= v.len(),
            nodes_view(out@) == nodes_view(v@.take(i as int)),
        decreases v.len() - i,
    {
        proof {
            assert(decreases_to!(v@ => v@[i as int]));
        }
        let c = node_clone(&v[i]);
        let ghost before = out@;
        out.push(c);
        proof {
            assert(out@.drop_last() =~= before);
            assert(v@.take(i + 1).drop_last() =~= v@.take(i as int));
        }
        i = i + 1;
    }
    assert(v@.take(i as int) =~= v@);
    out
}

fn string_clone(s: &String) -> (r: String)
    ensures
        r == *s,
{
    s.clone()
}

fn option_string_clone(s: &Option<String>) -> (r: Option<String>)
    ensures
        r == *s,
{
    match s {
        Some(x) => Some(x.clone()),
        None => None,
    }
}

/// A copy of a symbol.
pub fn symbol_clone(s: &nodes::Symbol) -> (r: nodes::Symbol)
    ensures
        r == *s,
{
    nodes::Symbol { ns: option_string_clone(&s.ns), name: string_clone(&s.name) }
}

/// A copy of a node.
pub fn node_clone(n: &Node) -> (r: Node)
    ensures
        r@ == n@,
    decreases n, 1int,
{
    match n {
        Node::Number(x) => Node::Number(x.duplicate()),
        Node::Bool(b) => Node::Bool(nodes::Bool { value: b.value }),
        Node::String(x) => Node::String(nodes::String { value: string_clone(&x.value) }),
        Node::Symbol(x) => Node::Symbol(symbol_clone(x)),
        Node::Keyword(x) => Node::Keyword(
            nodes::Keyword { ns: option_string_clone(&x.ns), name: string_clone(&x.name) },
        ),
        Node::Alias(x) => Node::Alias(nodes::Alias { symbol: symbol_clone(&x.symbol) }),
        Node::List(l) => Node::List(nodes_clone(l)),
        Node::Vec(l) => Node::Vec(nodes_clone(l)),
        Node::Def(d) => {
            let e = node_clone(&d.expr);
            Node::Def(nodes::Def { symbol: symbol_clone(&d.symbol), expr: Box::new(e) })
        },
        Node::Let(l) => Node::Let(
            nodes::Let { bindings: nodes_clone(&l.bindings), body: nodes_clone(&l.body) },
        ),
        Node::Fn(f) => Node::Fn(
            nodes::Fn { params: nodes_clone(&f.params), body: nodes_clone(&f.body) },
        ),
        Node::Macro(m) => Node::Macro(
            nodes::Macro { params: nodes_clone(&m.params), body: nodes_clone(&m.body) },
        ),
        Node::Call(c) => Node::Call(
            nodes::Call { symbol: symbol_clone(&c.symbol), args: nodes_clone(&c.args) },
        ),
    }
}

/// Appends `text` of a node sequence, separated by spaces.
fn push_nodes(s: &mut String, v: &[Node])
    ensures
        final(s)@ == old(s)@ + views_text(nodes_view(v@)),
    decreases v@, 0int,
{
    let ghost start = s@;
    let len = v.len();
    let mut i: usize = 0;
    while i < len
        invariant
            0 <= i <= len == v@.len(),
            s@ == start + views_text(nodes_view(v@.take(i as int))),
        decreases len - i,
    {
        proof {
            assert(decreases_to!(v@ => v@[i as int]));
        }
        if i > 0 {
            s.push(' ');
        }
        let t = node_to_string(&v[i]);
        s.append(t.as_str());
        proof {
            let p = v@.take(i + 1);
            assert(p.drop_last() =~= v@.take(i as int));
            assert(p.last() == v@[i as int]);
            assert(nodes_view(p).len() == i + 1) by {
                lemma_nodes_view_len(p);
            }
            assert(nodes_view(p).drop_last() =~= nodes_view(v@.take(i as int)));
            assert(nodes_view(p).last() == node_view(v@[i as int]));
            if i == 0 {
                assert(nodes_view(p) =~= seq![node_view(v@[0])]);
            }
        }
        i = i + 1;
    }
    assert(v@.take(len as int) =~= v@);
}

/// The text of the nodes in `v`, separated by single spaces.
pub fn format_vec(v: &[Node]) -> (s: String)
    ensures
        s@ == views_text(nodes_view(v@)),
{
    let mut s = String::new();
    push_nodes(&mut s, v);
    s
}

/// The text that shows a node.
pub fn node_to_string(n: &Node) -> (s: String)
    ensures
        s@ == view_text(n@),
    decreases n, 1int,
{
    match n {
        Node::Number(x) => {
            let s = x.to_string();
            assert(s@ == view_text(n@));
            s
        },
        Node::Bool(b) => b.to_string(),
        Node::String(x) => x.to_string(),
        Node::Symbol(x) => x.to_string(),
        Node::Keyword(x) => x.to_string(),
        Node::Alias(x) => x.to_string(),
        Node::List(l) => {
            let mut s = String::new();
            s.push('(');
            push_nodes(&mut s, l.as_slice());
            s.push(')');
            assert(s@ =~= view_text(n@));
            s
        },
        Node::Vec(l) => {
            let mut s = String::new();
            s.push('[');
            push_nodes(&mut s, l.as_slice());
            s.push(']');
            assert(s@ =~= view_text(n@));
            s
        },
        Node::Def(d) => {
            let mut s = String::new();
            s.push('(');
            s.push('d');
            s.push('e');
            s.push('f');
            s.push(' ');
            s.append(d.symbol.name.as_str());
            s.push(' ');
            let t = node_to_string(&d.expr);
            s.append(t.as_str());
            s.push(')');
            assert(s@ =~= view_text(n@));
            s
        },
        Node::Let(l) => {
            let mut s = String::new();
            s.push('(');
            s.push('l');
            s.push('e');
            s.push('t');
            s.push(' ');
            s.push('[');
            push_nodes(&mut s, l.bindings.as_slice());
            s.push(']');
            s.push(' ');
            push_nodes(&mut s, l.body.as_slice());
            s.push(')');
            assert(s@ =~= view_text(n@));
            s
        },
        Node::Fn(f) => {
            let mut s = String::new();
            s.push('(');
            s.push('f');
            s.push('n');
            s.push(' ');
            s.push('(');
            s.push('f');
            s.push('n');
            s.push(' ');
            s.push('[');
            push_nodes(&mut s, f.params.as_slice());
            s.push(']');
            s.push(' ');
            push_nodes(&mut s, f.body.as_slice());
            s.push(')');
            s.push(')');
            assert(s@ =~= view_text(n@));
            s
        },
        Node::Macro(m) => {
            let mut s = String::new();
            s.push('(');
            s.push('m');
            s.push('a');
            s.push('c');
            s.push('r');
            s.push('o');
            s.push(' ');
            s.push('(');
            s.push('m');
            s.push('a');
            s.push('c');
            s.push('r');
            s.push('o');
            s.push(' ');
            s.push('[');
            push_nodes(&mut s, m.params.as_slice());
            s.push(']');
            s.push(' ');
            push_nodes(&mut s, m.body.as_slice());
            s.push(')');
            s.push(')');
            assert(s@ =~= view_text(n@));
            s
        },
        Node::Call(c) => {
            let mut s = String::new();
            s.push('(');
            let t = c.symbol.to_string();
            s.append(t.as_str());
            proof {
                lemma_nodes_view_len(c.args@);
            }
            if c.args.len() > 0 {
                s.push(' ');
                push_nodes(&mut s, c.args.as_slice());
            }
            s.push(')');
            assert(s@ =~= view_text(n@));
            s
        },
    }
}

} // verus!
