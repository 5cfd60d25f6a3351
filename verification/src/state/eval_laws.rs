//! What evaluation promises as a whole: which forms stand for themselves,
//! that `def` stores what a later read of the name gives back, that `let`
//! and calls keep their bindings to themselves, what quoting and `in-ns`
//! give, and that `gensym` hands out fresh names.

use vstd::prelude::*;
use crate::ast::{NodeView, QName};
use crate::state::{StateView, get_spec, chained_spec};
use crate::state::laws::{after_insert, law_get_after_insert};
use crate::lexer::error::lemma_nat_text_injective;
use crate::state::semantics::{
    Answer,
    EvalErrorView,
    eval_s,
    expand_s,
    expand_quote_s,
    expand_quoted_s,
    eval_quoted_s,
    eval_call_s,
    fold_s,
    gensym_s,
    id_text,
    next_id_spec,
    in_ns_s,
    let_bind_s,
    body_s,
    nil,
    ArithOp,
    eval_args_s,
    call_fn_s,
    call_macro_s,
    num_node,
    zero,
    one,
    plain,
    s_quote,
    s_def,
    s_fn,
    s_macro,
    s_unquote,
    s_unquote_splicing,
    s_let,
    s_syntax_quote,
};

verus! {

/// The nodes that evaluate to themselves: numbers, booleans, strings,
/// keywords, aliases, vectors, functions, macros and the empty list.
pub open spec fn self_evaluating(n: NodeView) -> bool {
    match n {
        NodeView::Number { .. } => true,
        NodeView::Bool(_) => true,
        NodeView::String(_) => true,
        NodeView::Keyword(_) => true,
        NodeView::Alias(_) => true,
        NodeView::Vec(_) => true,
        NodeView::Fn { .. } => true,
        NodeView::Macro { .. } => true,
        NodeView::List(l) => l.len() == 0,
        _ => false,
    }
}

/// A self-evaluating node expands to itself and evaluates to itself; the
/// host is asked nothing and the state is left as it was.
pub proof fn law_self_evaluation(st: StateView, n: NodeView, f: nat, log: Seq<Answer>)
    requires
        self_evaluating(n),
        f >= 2,
    ensures
        expand_s(st, n, (f - 1) as nat, log) == (Ok::<NodeView, EvalErrorView>(n), st, log),
        eval_s(st, n, f, log) == (Ok::<NodeView, EvalErrorView>(n), st, log),
{
    assert(expand_s(st, n, (f - 1) as nat, log) == (Ok::<NodeView, EvalErrorView>(n), st, log));
}

/// What `def` stores, a later read of the name gives back: once evaluating
/// `(def q e)` has given a value that is not an alias, `q` is bound to that
/// value, and evaluating the symbol `q` gives it, asks the host nothing and
/// leaves the state alone.
pub proof fn law_def_then_read(
    st: StateView,
    q: QName,
    e: NodeView,
    f: nat,
    log: Seq<Answer>,
    f2: nat,
    log2: Seq<Answer>,
)
    requires
        eval_s(st, NodeView::Def { symbol: q, expr: Box::new(e) }, f, log).0 is Ok,
        !(eval_s(st, NodeView::Def { symbol: q, expr: Box::new(e) }, f, log).0->Ok_0 is Alias),
        f2 >= 2,
    ensures
        ({
            let (r, st3, _) = eval_s(st, NodeView::Def { symbol: q, expr: Box::new(e) }, f, log);
            &&& get_spec(st3, q) == Some(r->Ok_0)
            &&& eval_s(st3, NodeView::Symbol(q), f2, log2) == (r, st3, log2)
        }),
{
    let d = NodeView::Def { symbol: q, expr: Box::new(e) };
    if f == 1 {
        assert(expand_s(st, d, 0, log).0 is Err);
    }
    assert(f >= 2);
    assert(expand_s(st, d, (f - 1) as nat, log) == (Ok::<NodeView, EvalErrorView>(d), st, log));
    let (r2, st2, l2) = eval_s(st, e, (f - 1) as nat, log);
    let v = r2->Ok_0;
    assert(eval_s(st, d, f, log) == (r2, after_insert(st2, q, v), l2));
    law_get_after_insert(st2, q, v);
    let st3 = after_insert(st2, q, v);
    assert(expand_s(st3, NodeView::Symbol(q), (f2 - 1) as nat, log2) == (
        Ok::<NodeView, EvalErrorView>(NodeView::Symbol(q)),
        st3,
        log2,
    ));
}

/// `let` keeps its bindings to itself: evaluating a `let` form leaves the
/// state exactly as it was, whatever its bindings and body do.
pub proof fn law_let_leaves_state(
    st: StateView,
    bindings: Seq<NodeView>,
    body: Seq<NodeView>,
    f: nat,
    log: Seq<Answer>,
)
    ensures
        eval_s(st, NodeView::Let { bindings, body }, f, log).1 == st,
{
    if f > 0 {
        let n = NodeView::Let { bindings, body };
        assert(expand_s(st, n, (f - 1) as nat, log).1 == st);
    }
}

/// Calls keep their parameters to themselves: a macro call leaves the
/// caller's state as it was, and a function call changes it only as
/// evaluating the arguments did.
pub proof fn law_calls_keep_bindings(
    st: StateView,
    node: NodeView,
    args: Seq<NodeView>,
    params: Seq<NodeView>,
    body: Seq<NodeView>,
    f: nat,
    log: Seq<Answer>,
)
    ensures
        call_macro_s(st, node, args, params, body, f, log).1 == st,
        f > 0 && args.len() == params.len() ==> call_fn_s(st, node, args, params, body, f, log).1
            == eval_args_s(st, args, 0, Seq::empty(), (f - 1) as nat, log).1,
{
}

/// `(quote s)` gives the symbol `s` itself, unevaluated; the host is asked
/// nothing and the state is left alone.
pub proof fn law_quote_symbol(st: StateView, q: QName, f: nat, log: Seq<Answer>)
    requires
        f >= 4,
    ensures
        eval_s(
            st,
            NodeView::List(seq![NodeView::Symbol(plain(s_quote())), NodeView::Symbol(q)]),
            f,
            log,
        ) == (Ok::<NodeView, EvalErrorView>(NodeView::Symbol(q)), st, log),
{
    let l = seq![NodeView::Symbol(plain(s_quote())), NodeView::Symbol(q)];
    let n = NodeView::List(l);
    let args = seq![NodeView::Symbol(q)];
    let c = NodeView::Call { symbol: plain(s_quote()), args };
    lemma_special_names();
    assert(expand_s(st, NodeView::Symbol(q), (f - 3) as nat, log)
        == (Ok::<NodeView, EvalErrorView>(NodeView::Symbol(q)), st, log));
    assert(expand_quoted_s(st, NodeView::Symbol(q), false, (f - 2) as nat, log)
        == (Ok::<NodeView, EvalErrorView>(NodeView::Symbol(q)), st, log));
    assert(expand_quote_s(st, n, l, s_quote(), (f - 1) as nat, log)
        == (Ok::<NodeView, EvalErrorView>(c), st, log));
    assert(expand_s(st, n, (f - 1) as nat, log) == (Ok::<NodeView, EvalErrorView>(c), st, log));
    assert(eval_quoted_s(st, NodeView::Symbol(q), (f - 2) as nat, log)
        == (Ok::<NodeView, EvalErrorView>(NodeView::Symbol(q)), st, log));
    assert(eval_call_s(st, c, plain(s_quote()), args, (f - 1) as nat, log)
        == (Ok::<NodeView, EvalErrorView>(NodeView::Symbol(q)), st, log));
}

/// `(syntax-quote s)` gives `s` qualified by the current namespace when it
/// is unqualified; the host is asked nothing and the state is left alone.
pub proof fn law_syntax_quote_qualifies(st: StateView, name: Seq<char>, f: nat, log: Seq<Answer>)
    requires
        f >= 4,
    ensures
        eval_s(
            st,
            NodeView::List(seq![NodeView::Symbol(plain(s_syntax_quote())), NodeView::Symbol(plain(name))]),
            f,
            log,
        ) == (Ok::<NodeView, EvalErrorView>(NodeView::Symbol(QName { ns: Some(st.current), name })), st, log),
{
    let l = seq![NodeView::Symbol(plain(s_syntax_quote())), NodeView::Symbol(plain(name))];
    let n = NodeView::List(l);
    let qualified = NodeView::Symbol(QName { ns: Some(st.current), name });
    let args = seq![qualified];
    let c = NodeView::Call { symbol: plain(s_syntax_quote()), args };
    lemma_special_names();
    assert(expand_quoted_s(st, NodeView::Symbol(plain(name)), true, (f - 2) as nat, log)
        == (Ok::<NodeView, EvalErrorView>(qualified), st, log));
    assert(expand_quote_s(st, n, l, s_syntax_quote(), (f - 1) as nat, log)
        == (Ok::<NodeView, EvalErrorView>(c), st, log));
    assert(expand_s(st, n, (f - 1) as nat, log) == (Ok::<NodeView, EvalErrorView>(c), st, log));
    assert(eval_quoted_s(st, qualified, (f - 2) as nat, log)
        == (Ok::<NodeView, EvalErrorView>(qualified), st, log));
    assert(eval_call_s(st, c, plain(s_syntax_quote()), args, (f - 1) as nat, log)
        == (Ok::<NodeView, EvalErrorView>(qualified), st, log));
}

/// `+` and `*` with no arguments give 0 and 1 without asking the host.
pub proof fn law_empty_sum_and_product(st: StateView, f: nat, log: Seq<Answer>)
    requires
        f >= 3,
    ensures
        eval_s(st, NodeView::Call { symbol: plain(seq!['+']), args: Seq::empty() }, f, log) == (
            Ok::<NodeView, EvalErrorView>(num_node(zero())),
            st,
            log,
        ),
        eval_s(st, NodeView::Call { symbol: plain(seq!['*']), args: Seq::empty() }, f, log) == (
            Ok::<NodeView, EvalErrorView>(num_node(one())),
            st,
            log,
        ),
{
    let plus = NodeView::Call { symbol: plain(seq!['+']), args: Seq::empty() };
    let times = NodeView::Call { symbol: plain(seq!['*']), args: Seq::empty() };
    lemma_special_names();
    assert(expand_s(st, plus, (f - 1) as nat, log) == (Ok::<NodeView, EvalErrorView>(plus), st, log));
    assert(expand_s(st, times, (f - 1) as nat, log) == (Ok::<NodeView, EvalErrorView>(times), st, log));
    assert(fold_s(st, Seq::empty(), 0, zero(), ArithOp::Add, (f - 2) as nat, log)
        == (Ok::<NodeView, EvalErrorView>(num_node(zero())), st, log));
    assert(fold_s(st, Seq::empty(), 0, one(), ArithOp::Mul, (f - 2) as nat, log)
        == (Ok::<NodeView, EvalErrorView>(num_node(one())), st, log));
    assert(eval_call_s(st, plus, plain(seq!['+']), Seq::empty(), (f - 1) as nat, log)
        == (Ok::<NodeView, EvalErrorView>(num_node(zero())), st, log));
    assert(eval_call_s(st, times, plain(seq!['*']), Seq::empty(), (f - 1) as nat, log)
        == (Ok::<NodeView, EvalErrorView>(num_node(one())), st, log));
}


/// `in-ns` switches namespaces: `(in-ns (quote x))` makes `x` the current
/// namespace, leaves the bindings alone, and gives the namespace left as a
/// symbol; the host is asked nothing.
pub proof fn law_in_ns_switches(st: StateView, x: QName, f: nat, log: Seq<Answer>)
    requires
        f >= 5,
    ensures
        eval_s(
            st,
            NodeView::Call {
                symbol: plain(seq!['i', 'n', '-', 'n', 's']),
                args: seq![NodeView::Call { symbol: plain(s_quote()), args: seq![NodeView::Symbol(x)] }],
            },
            f,
            log,
        ) == (
            Ok::<NodeView, EvalErrorView>(NodeView::Symbol(plain(st.current))),
            StateView { current: x.name, ..st },
            log,
        ),
{
    lemma_special_names();
    let quoted = NodeView::Call { symbol: plain(s_quote()), args: seq![NodeView::Symbol(x)] };
    let args = seq![quoted];
    let c = NodeView::Call { symbol: plain(seq!['i', 'n', '-', 'n', 's']), args };
    assert(expand_s(st, c, (f - 1) as nat, log) == (Ok::<NodeView, EvalErrorView>(c), st, log));
    assert(expand_s(st, quoted, (f - 3) as nat, log) == (Ok::<NodeView, EvalErrorView>(quoted), st, log));
    assert(eval_quoted_s(st, NodeView::Symbol(x), (f - 4) as nat, log)
        == (Ok::<NodeView, EvalErrorView>(NodeView::Symbol(x)), st, log));
    assert(eval_call_s(st, quoted, plain(s_quote()), seq![NodeView::Symbol(x)], (f - 3) as nat, log)
        == (Ok::<NodeView, EvalErrorView>(NodeView::Symbol(x)), st, log));
    assert(eval_s(st, quoted, (f - 2) as nat, log)
        == (Ok::<NodeView, EvalErrorView>(NodeView::Symbol(x)), st, log));
    assert(in_ns_s(st, c, args, (f - 1) as nat, log) == (
        Ok::<NodeView, EvalErrorView>(NodeView::Symbol(plain(st.current))),
        StateView { current: x.name, ..st },
        log,
    ));
    assert(eval_call_s(st, c, plain(seq!['i', 'n', '-', 'n', 's']), args, (f - 1) as nat, log) == (
        Ok::<NodeView, EvalErrorView>(NodeView::Symbol(plain(st.current))),
        StateView { current: x.name, ..st },
        log,
    ));
}

/// A `let` binding is seen by the body: `(let [a v] a)`, with `v` a value
/// that stands for itself and is not an alias, gives `v`, and leaves the
/// state as it was.
pub proof fn law_let_binds_body(st: StateView, a: QName, v: NodeView, f: nat, log: Seq<Answer>)
    requires
        self_evaluating(v),
        !(v is Alias),
        f >= 4,
    ensures
        eval_s(
            st,
            NodeView::Let { bindings: seq![NodeView::Symbol(a), v], body: seq![NodeView::Symbol(a)] },
            f,
            log,
        ) == (Ok::<NodeView, EvalErrorView>(v), st, log),
{
    let b = seq![NodeView::Symbol(a), v];
    let body = seq![NodeView::Symbol(a)];
    let n = NodeView::Let { bindings: b, body };
    let g = (f - 1) as nat;
    let c = chained_spec(st);
    assert(expand_s(st, n, g, log) == (Ok::<NodeView, EvalErrorView>(n), st, log));
    law_self_evaluation(c, v, g, log);
    let c1 = after_insert(c, a, v);
    assert(let_bind_s(c1, b, 1, g, log) == (Ok::<(), EvalErrorView>(()), c1, log));
    assert(let_bind_s(c, b, 0, g, log) == (Ok::<(), EvalErrorView>(()), c1, log));
    law_get_after_insert(c, a, v);
    assert(expand_s(c1, NodeView::Symbol(a), (g - 1) as nat, log)
        == (Ok::<NodeView, EvalErrorView>(NodeView::Symbol(a)), c1, log));
    assert(eval_s(c1, NodeView::Symbol(a), g, log) == (Ok::<NodeView, EvalErrorView>(v), c1, log));
    assert(body_s(c1, body, 1, v, g, log) == (Ok::<NodeView, EvalErrorView>(v), c1, log));
    assert(body_s(c1, body, 0, nil(), g, log) == (Ok::<NodeView, EvalErrorView>(v), c1, log));
}


/// `gensym` hands out fresh names: two calls in a row with the same prefix
/// give different symbols, also where the counter starts again at 0.
pub proof fn law_gensym_fresh(st: StateView, node: NodeView, prefix: Seq<char>, log: Seq<Answer>)
    ensures
        ({
            let args = seq![NodeView::String(prefix)];
            let (r1, st1, log1) = gensym_s(st, node, args, log);
            let (r2, st2, log2) = gensym_s(st1, node, args, log1);
            &&& r1 is Ok
            &&& r2 is Ok
            &&& r1->Ok_0 != r2->Ok_0
        }),
{
    let next = next_id_spec(st.id);
    let t1 = id_text(st.id);
    let t2 = id_text(next);
    lemma_nat_text_injective(st.id, next);
    if prefix + t1 == prefix + t2 {
        assert((prefix + t1).subrange(prefix.len() as int, (prefix + t1).len() as int) =~= t1);
        assert((prefix + t2).subrange(prefix.len() as int, (prefix + t2).len() as int) =~= t2);
    }
}

/// The special names differ from each other and from the builtin names.
proof fn lemma_special_names()
    ensures
        s_quote()[0] == 'q' && s_quote().len() == 5,
        s_syntax_quote()[0] == 's' && s_syntax_quote().len() == 12,
        s_def().len() == 3,
        s_fn().len() == 2,
        s_macro()[0] == 'm' && s_macro().len() == 5,
        s_unquote().len() == 7,
        s_unquote_splicing().len() == 16,
        s_let().len() == 3,
        seq!['*'][0] == '*' && seq!['+'][0] == '+',
        seq!['a', 'p', 'p', 'l', 'y'][0] == 'a',
        seq!['r', 'e', 'f', 'e', 'r'][0] == 'r',
        seq!['g', 'e', 'n', 's', 'y', 'm'].len() == 6,
{
}

} // verus!
