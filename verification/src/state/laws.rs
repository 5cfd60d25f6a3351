//! What the bindings of a state promise: a read gives back the last write,
//! writes leave other names alone, no name is bound twice, and a chained
//! state reads through to its parent until it binds a name itself.

use vstd::prelude::*;
use crate::ast::{NodeView, QName};
use crate::state::{
    Bindings, StateView, find_key, lookup, bind, key_in, get_spec, chained_spec,
    initial_bindings, chained_name, lemma_find_key,
};

verus! {

proof fn lemma_find_key_unique(b: Bindings, k: QName, i: int)
    requires
        0 <= i <= b.len(),
        i < b.len() ==> b[i].0 == k,
        forall|j: int| 0 <= j < i ==> b[j].0 != k,
    ensures
        find_key(b, k, 0) == i,
{
    lemma_find_key(b, k, 0);
    let r = find_key(b, k, 0);
    if r < i {
        assert(b[r].0 == k);
    } else if r > i {
        assert(b[i].0 != k);
    }
}

/// Binding `k` makes `k` read as the new value.
pub proof fn lemma_lookup_bind_same(b: Bindings, k: QName, v: NodeView)
    ensures
        lookup(bind(b, k, v), k) == Some(v),
{
    lemma_find_key(b, k, 0);
    let i = find_key(b, k, 0);
    let b2 = bind(b, k, v);
    if i < b.len() {
        assert forall|j: int| 0 <= j < i implies b2[j].0 != k by {
            assert(b2[j] == b[j]);
        }
        lemma_find_key_unique(b2, k, i);
    } else {
        assert forall|j: int| 0 <= j < b.len() implies b2[j].0 != k by {
            assert(b2[j] == b[j]);
        }
        lemma_find_key_unique(b2, k, b.len() as int);
    }
}

/// Binding `k` leaves every other key as it was.
pub proof fn lemma_lookup_bind_other(b: Bindings, k: QName, v: NodeView, k2: QName)
    requires
        k2 != k,
    ensures
        lookup(bind(b, k, v), k2) == lookup(b, k2),
{
    lemma_find_key(b, k, 0);
    lemma_find_key(b, k2, 0);
    let i = find_key(b, k, 0);
    let i2 = find_key(b, k2, 0);
    let b2 = bind(b, k, v);
    assert forall|j: int| 0 <= j < b.len() implies b2[j].0 == b[j].0 by {
        if i < b.len() && j == i {
            assert(b[i].0 == k);
        }
    }
    if i2 < b.len() {
        assert(b2[i2].0 == k2);
        lemma_find_key_unique(b2, k2, i2);
        if i < b.len() && i2 == i {
            assert(b[i].0 == k);
        }
    } else if i < b.len() {
        lemma_find_key_unique(b2, k2, b.len() as int);
    } else {
        assert(b2[b.len() as int].0 == k);
        assert forall|j: int| 0 <= j < b2.len() implies b2[j].0 != k2 by {
            if j < b.len() {
                assert(b2[j] == b[j]);
            }
        }
        lemma_find_key_unique(b2, k2, b2.len() as int);
    }
}

/// The state after binding `q` (in its current namespace when unqualified)
/// to `v`.
pub open spec fn after_insert(st: StateView, q: QName, v: NodeView) -> StateView {
    StateView { bindings: bind(st.bindings, key_in(st.current, q), v), ..st }
}

/// A read gives back what a write wrote: after binding `q` to a value that
/// is not an alias, `q` reads as that value, unqualified or qualified by the
/// current namespace, whatever the enclosing states hold.
pub proof fn law_get_after_insert(st: StateView, q: QName, v: NodeView)
    requires
        !(v is Alias),
    ensures
        get_spec(after_insert(st, q, v), q) == Some(v),
        get_spec(after_insert(st, q, v), key_in(st.current, q)) == Some(v),
{
    lemma_lookup_bind_same(st.bindings, key_in(st.current, q), v);
}

/// A write leaves other names alone: after binding `q`, a name filed under
/// another key, and not bound here to an alias, reads as before.
pub proof fn law_insert_keeps_others(st: StateView, q: QName, v: NodeView, q2: QName)
    requires
        key_in(st.current, q2) != key_in(st.current, q),
        !(lookup(st.bindings, key_in(st.current, q2)) matches Some(NodeView::Alias(_))),
    ensures
        get_spec(after_insert(st, q, v), q2) == get_spec(st, q2),
{
    lemma_lookup_bind_other(st.bindings, key_in(st.current, q), v, key_in(st.current, q2));
}

/// A chained state reads through to its parent: every name that the fresh
/// chained state does not bind itself (all but its own `nil`, `true` and
/// `false`) reads as in the parent.
pub proof fn law_chained_reads_parent(p: StateView, q: QName)
    requires
        lookup(
            initial_bindings(chained_name(p.current)),
            key_in(chained_name(p.current), q),
        ) is None,
    ensures
        get_spec(chained_spec(p), q) == get_spec(p, q),
{
}

/// A chained state shadows its parent: a name bound in the chained state
/// reads as its own value there, whatever the parent binds, while the
/// parent itself is left as it was.
pub proof fn law_chained_shadows_parent(p: StateView, q: QName, v: NodeView)
    requires
        !(v is Alias),
    ensures
        get_spec(after_insert(chained_spec(p), q, v), q) == Some(v),
        after_insert(chained_spec(p), q, v).parent == Some(Box::new(p)),
{
    law_get_after_insert(chained_spec(p), q, v);
}

/// Whether no key is bound twice in `b`.
pub open spec fn keys_distinct(b: Bindings) -> bool {
    forall|i: int, j: int| 0 <= i < j < b.len() ==> #[trigger] b[i].0 != #[trigger] b[j].0
}

/// A fresh state binds each of its names once.
pub proof fn law_initial_keys_distinct(current: Seq<char>)
    ensures
        keys_distinct(initial_bindings(current)),
{
    let b = initial_bindings(current);
    assert(b[0].0.name.len() == 3);
    assert(b[1].0.name.len() == 4);
    assert(b[2].0.name.len() == 5);
}

/// Binding a key never binds it twice: the binding it had is replaced, so
/// bindings in which no key occurs twice stay so.
pub proof fn law_bind_keeps_keys_distinct(b: Bindings, k: QName, v: NodeView)
    requires
        keys_distinct(b),
    ensures
        keys_distinct(bind(b, k, v)),
{
    lemma_find_key(b, k, 0);
    let i = find_key(b, k, 0);
    let b2 = bind(b, k, v);
    if i < b.len() {
        assert forall|x: int, y: int| 0 <= x < y < b2.len() implies #[trigger] b2[x].0 != #[trigger] b2[y].0 by {
            assert(b2[x].0 == b[x].0);
            assert(b2[y].0 == b[y].0);
        }
    } else {
        assert forall|x: int, y: int| 0 <= x < y < b2.len() implies #[trigger] b2[x].0 != #[trigger] b2[y].0 by {
            if y < b.len() {
                assert(b2[x] == b[x]);
                assert(b2[y] == b[y]);
            } else {
                assert(b2[x] == b[x]);
                assert(b[x].0 != k);
            }
        }
    }
}

} // verus!
