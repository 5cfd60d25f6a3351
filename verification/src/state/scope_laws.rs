//! Evaluation keeps the enclosing states: a form evaluated in a state, even
//! in one chained to others, leaves that state's chain of enclosing states
//! exactly as it was.

use vstd::prelude::*;
use crate::ast::{NodeView, QName};
use crate::parser::{LexState, measure, parse_top_spec};
use crate::state::{StateView, get_spec, key_in, bind};
use crate::state::semantics::{
    Answer,
    Query,
    Reply,
    ArithOp,
    Relation,
    NumV,
    ask,
    as_num,
    nil,
    zero,
    one,
    s_def,
    s_fn,
    s_macro,
    s_quote,
    s_syntax_quote,
    s_unquote,
    s_unquote_splicing,
    s_let,
    is_unquote_symbol,
    is_splice_call,
    eval_s,
    let_bind_s,
    body_s,
    eval_args_s,
    fold_s,
    chain_s,
    first_num_s,
    minus_div_s,
    compare_s,
    eval_call_s,
    if_s,
    eval_twice_s,
    apply_s,
    in_ns_s,
    load_call_s,
    load_s,
    call_custom_s,
    call_fn_s,
    call_macro_s,
    eval_quoted_s,
    quoted_elems_s,
    expand_s,
    expand_def_s,
    expand_fn_s,
    expand_quote_s,
    expand_unquote_s,
    expand_let_s,
    expand_call_s,
    expand_all_s,
    expand_pairs_s,
    expand_quoted_s,
    expand_quoted_all_s,
};

verus! {

proof fn keep_eval(st: StateView, n: NodeView, f: nat, log: Seq<Answer>)
    ensures
        eval_s(st, n, f, log).1.parent == st.parent,
    decreases f, 0nat,
{
    if f > 0 {
        let g = (f - 1) as nat;
        let (r, st1, log1) = expand_s(st, n, g, log);
        keep_expand(st, n, g, log);
        if let Ok(m) = r {
            match m {
                NodeView::Def { symbol, expr } => {
                    keep_eval(st1, *expr, g, log1);
                },
                NodeView::Call { symbol, args } => {
                    keep_eval_call(st1, m, symbol, args, g, log1);
                },
                _ => {},
            }
        }
    }
}

proof fn keep_let_bind(st: StateView, b: Seq<NodeView>, k: nat, f: nat, log: Seq<Answer>)
    ensures
        let_bind_s(st, b, k, f, log).1.parent == st.parent,
    decreases f, b.len() + 1 - 2 * k,
{
    if 2 * k < b.len() {
        let last = if 2 * k + 1 < b.len() {
            b[(2 * k + 1) as int]
        } else {
            b[2 * k as int]
        };
        match b[2 * k as int] {
            NodeView::Symbol(q) => {
                let (r, st1, log1) = eval_s(st, last, f, log);
                keep_eval(st, last, f, log);
                if let Ok(v) = r {
                    let st2 = StateView { bindings: bind(st1.bindings, key_in(st1.current, q), v), ..st1 };
                    keep_let_bind(st2, b, k + 1, f, log1);
                }
            },
            _ => {
                keep_let_bind(st, b, k + 1, f, log);
            },
        }
    }
}

proof fn keep_body(st: StateView, body: Seq<NodeView>, i: nat, last: NodeView, f: nat, log: Seq<Answer>)
    ensures
        body_s(st, body, i, last, f, log).1.parent == st.parent,
    decreases f, body.len() - i,
{
    if i < body.len() {
        let (r, st1, log1) = eval_s(st, body[i as int], f, log);
        keep_eval(st, body[i as int], f, log);
        if let Ok(v) = r {
            keep_body(st1, body, i + 1, v, f, log1);
        }
    }
}

proof fn keep_eval_args(st: StateView, args: Seq<NodeView>, i: nat, acc: Seq<NodeView>, f: nat, log: Seq<Answer>)
    ensures
        eval_args_s(st, args, i, acc, f, log).1.parent == st.parent,
    decreases f, args.len() - i,
{
    if i < args.len() {
        let (r, st1, log1) = eval_s(st, args[i as int], f, log);
        keep_eval(st, args[i as int], f, log);
        if let Ok(v) = r {
            keep_eval_args(st1, args, i + 1, acc.push(v), f, log1);
        }
    }
}

proof fn keep_fold(st: StateView, args: Seq<NodeView>, i: nat, acc: NumV, op: ArithOp, f: nat, log: Seq<Answer>)
    ensures
        fold_s(st, args, i, acc, op, f, log).1.parent == st.parent,
    decreases f, args.len() - i,
{
    if i < args.len() {
        let (r, st1, log1) = eval_s(st, args[i as int], f, log);
        keep_eval(st, args[i as int], f, log);
        if let Ok(v) = r {
            if let Some(n) = as_num(v) {
                if let Some((Reply::Number(m), log2)) = ask(log1, crate::state::semantics::arith_query(op, acc, n)) {
                    keep_fold(st1, args, i + 1, m, op, f, log2);
                }
            }
        }
    }
}

proof fn keep_chain(st: StateView, args: Seq<NodeView>, i: nat, temp: NumV, op: Relation, f: nat, log: Seq<Answer>)
    ensures
        chain_s(st, args, i, temp, op, f, log).1.parent == st.parent,
    decreases f, args.len() - i,
{
    if i < args.len() {
        let (r, st1, log1) = eval_s(st, args[i as int], f, log);
        keep_eval(st, args[i as int], f, log);
        if let Ok(v) = r {
            if let Some(n) = as_num(v) {
                if let Some((Reply::Truth(b), log2)) = ask(log1, crate::state::semantics::relation_query(op, temp, n)) {
                    if b {
                        keep_chain(st1, args, i + 1, n, op, f, log2);
                    }
                }
            }
        }
    }
}

proof fn keep_first_num(st: StateView, args: Seq<NodeView>, f: nat, log: Seq<Answer>)
    ensures
        first_num_s(st, args, f, log).1.parent == st.parent,
    decreases f, args.len() + 1,
{
    keep_eval(st, args[0], f, log);
}

proof fn keep_minus_div(st: StateView, node: NodeView, args: Seq<NodeView>, is_div: bool, f: nat, log: Seq<Answer>)
    ensures
        minus_div_s(st, node, args, is_div, f, log).1.parent == st.parent,
    decreases f, args.len() + 2,
{
    if args.len() >= 1 {
        let (r, st1, log1) = first_num_s(st, args, f, log);
        keep_first_num(st, args, f, log);
        if let Ok(v) = r {
            let op = if is_div {
                ArithOp::Div
            } else {
                ArithOp::Sub
            };
            if args.len() == 1 {
                let q = if is_div {
                    Query::Recip(v)
                } else {
                    Query::Neg(v)
                };
                if let Some((Reply::Number(m), log2)) = ask(log1, q) {
                    keep_fold(st1, args, 1, m, op, f, log2);
                }
            } else {
                keep_fold(st1, args, 1, v, op, f, log1);
            }
        }
    }
}

proof fn keep_compare(st: StateView, node: NodeView, args: Seq<NodeView>, op: Relation, f: nat, log: Seq<Answer>)
    ensures
        compare_s(st, node, args, op, f, log).1.parent == st.parent,
    decreases f, args.len() + 2,
{
    if args.len() >= 1 {
        let (r, st1, log1) = first_num_s(st, args, f, log);
        keep_first_num(st, args, f, log);
        if let Ok(v) = r {
            keep_chain(st1, args, 1, v, op, f, log1);
        }
    }
}

proof fn keep_eval_call(st: StateView, node: NodeView, symbol: QName, args: Seq<NodeView>, f: nat, log: Seq<Answer>)
    ensures
        eval_call_s(st, node, symbol, args, f, log).1.parent == st.parent,
    decreases f, 2nat,
{
    if f > 0 {
        let g = (f - 1) as nat;
        let name = symbol.name;
        if name == seq!['+'] {
            keep_fold(st, args, 0, zero(), ArithOp::Add, g, log);
        } else if name == seq!['-'] {
            keep_minus_div(st, node, args, false, g, log);
        } else if name == seq!['*'] {
            keep_fold(st, args, 0, one(), ArithOp::Mul, g, log);
        } else if name == seq!['/'] {
            keep_minus_div(st, node, args, true, g, log);
        } else if name == seq!['<'] {
            keep_compare(st, node, args, Relation::Less, g, log);
        } else if name == seq!['>'] {
            keep_compare(st, node, args, Relation::Greater, g, log);
        } else if name == seq!['='] {
            keep_compare(st, node, args, Relation::Equal, g, log);
        } else if name == seq!['i', 'f'] {
            keep_if(st, node, args, f, log);
        } else if name == s_quote() || name == s_syntax_quote() {
            if args.len() == 1 {
                keep_eval_quoted(st, args[0], g, log);
            }
        } else if name == s_unquote() || name == s_unquote_splicing() {
            if args.len() == 1 {
                keep_eval(st, args[0], g, log);
            }
        } else if name == seq!['e', 'v', 'a', 'l'] {
            keep_eval_twice(st, node, args, f, log);
        } else if name == seq!['a', 'p', 'p', 'l', 'y'] {
            keep_apply(st, node, args, f, log);
        } else if name == seq!['g', 'e', 'n', 's', 'y', 'm'] {
        } else if name == seq!['i', 'n', '-', 'n', 's'] {
            keep_in_ns(st, node, args, f, log);
        } else if name == seq!['l', 'o', 'a', 'd'] {
            keep_load_call(st, node, args, f, log);
        } else if name == seq!['r', 'e', 'f', 'e', 'r'] {
        } else {
            keep_call_custom(st, node, symbol, args, f, log);
        }
    }
}

proof fn keep_if(st: StateView, node: NodeView, args: Seq<NodeView>, f: nat, log: Seq<Answer>)
    ensures
        if_s(st, node, args, f, log).1.parent == st.parent,
    decreases f, 0nat,
{
    if f > 0 && args.len() == 3 {
        let g = (f - 1) as nat;
        let (r, st1, log1) = eval_s(st, args[0], g, log);
        keep_eval(st, args[0], g, log);
        if let Ok(c) = r {
            let k = if c != NodeView::Bool(false) {
                1int
            } else {
                2int
            };
            keep_eval(st1, args[k], g, log1);
        }
    }
}

proof fn keep_eval_twice(st: StateView, node: NodeView, args: Seq<NodeView>, f: nat, log: Seq<Answer>)
    ensures
        eval_twice_s(st, node, args, f, log).1.parent == st.parent,
    decreases f, 0nat,
{
    if f > 0 && args.len() == 1 {
        let g = (f - 1) as nat;
        let (r, st1, log1) = eval_s(st, args[0], g, log);
        keep_eval(st, args[0], g, log);
        if let Ok(v) = r {
            keep_eval(st1, v, g, log1);
        }
    }
}

proof fn keep_apply(st: StateView, node: NodeView, args: Seq<NodeView>, f: nat, log: Seq<Answer>)
    ensures
        apply_s(st, node, args, f, log).1.parent == st.parent,
    decreases f, 0nat,
{
    if f > 0 && args.len() == 2 {
        let g = (f - 1) as nat;
        if let NodeView::Symbol(s) = args[0] {
            let (r, st1, log1) = eval_s(st, args[1], g, log);
            keep_eval(st, args[1], g, log);
            if let Ok(NodeView::Vec(v)) = r {
                let c = NodeView::Call { symbol: s, args: v };
                keep_eval(st1, c, g, log1);
            }
        }
    }
}

proof fn keep_in_ns(st: StateView, node: NodeView, args: Seq<NodeView>, f: nat, log: Seq<Answer>)
    ensures
        in_ns_s(st, node, args, f, log).1.parent == st.parent,
    decreases f, 0nat,
{
    if f > 0 && args.len() == 1 {
        let g = (f - 1) as nat;
        keep_eval(st, args[0], g, log);
    }
}

proof fn keep_load_call(st: StateView, node: NodeView, args: Seq<NodeView>, f: nat, log: Seq<Answer>)
    ensures
        load_call_s(st, node, args, f, log).1.parent == st.parent,
    decreases f, 0nat,
{
    if f > 0 && args.len() == 1 {
        let g = (f - 1) as nat;
        let (r, st1, log1) = eval_s(st, args[0], g, log);
        keep_eval(st, args[0], g, log);
        if let Ok(NodeView::String(p)) = r {
            if let Some((Reply::File(Some(Ok(text))), log2)) = ask(log1, Query::ReadFile(p)) {
                let ls = LexState { pos: 0, finished: false };
                keep_load(st1, text, ls, nil(), g, log2);
            }
        }
    }
}

proof fn keep_load(st: StateView, text: Seq<char>, ls: LexState, last: NodeView, f: nat, log: Seq<Answer>)
    ensures
        load_s(st, text, ls, last, f, log).1.parent == st.parent,
    decreases f, measure(text, ls),
{
    let (p, ls1) = parse_top_spec(text, ls);
    if let Some(Ok(n)) = p {
        let (r, st1, log1) = eval_s(st, n, f, log);
        keep_eval(st, n, f, log);
        if let Ok(v) = r {
            if measure(text, ls1) < measure(text, ls) {
                keep_load(st1, text, ls1, v, f, log1);
            }
        }
    }
}

proof fn keep_call_custom(st: StateView, node: NodeView, symbol: QName, args: Seq<NodeView>, f: nat, log: Seq<Answer>)
    ensures
        call_custom_s(st, node, symbol, args, f, log).1.parent == st.parent,
    decreases f, 1nat,
{
    match get_spec(st, symbol) {
        Some(NodeView::Fn { params, body }) => {
            keep_call_fn(st, node, args, params, body, f, log);
        },
        Some(NodeView::Macro { params, body }) => {
            keep_call_macro(st, node, args, params, body, f, log);
        },
        _ => {},
    }
}

proof fn keep_call_fn(
    st: StateView,
    node: NodeView,
    args: Seq<NodeView>,
    params: Seq<NodeView>,
    body: Seq<NodeView>,
    f: nat,
    log: Seq<Answer>,
)
    ensures
        call_fn_s(st, node, args, params, body, f, log).1.parent == st.parent,
    decreases f, 0nat,
{
    if f > 0 && args.len() == params.len() {
        let g = (f - 1) as nat;
        keep_eval_args(st, args, 0, Seq::empty(), g, log);
    }
}

proof fn keep_call_macro(
    st: StateView,
    node: NodeView,
    args: Seq<NodeView>,
    params: Seq<NodeView>,
    body: Seq<NodeView>,
    f: nat,
    log: Seq<Answer>,
)
    ensures
        call_macro_s(st, node, args, params, body, f, log).1.parent == st.parent,
{
}

proof fn keep_eval_quoted(st: StateView, n: NodeView, f: nat, log: Seq<Answer>)
    ensures
        eval_quoted_s(st, n, f, log).1.parent == st.parent,
    decreases f, 0nat,
{
    if f > 0 {
        let g = (f - 1) as nat;
        match n {
            NodeView::Symbol(_) => {},
            NodeView::List(l) => {
                keep_quoted_elems(st, l, 0, Seq::empty(), g, log);
            },
            _ => {
                keep_eval(st, n, g, log);
            },
        }
    }
}

proof fn keep_quoted_elems(st: StateView, l: Seq<NodeView>, i: nat, acc: Seq<NodeView>, f: nat, log: Seq<Answer>)
    ensures
        quoted_elems_s(st, l, i, acc, f, log).1.parent == st.parent,
    decreases f, l.len() - i,
{
    if i < l.len() {
        let e = l[i as int];
        if is_splice_call(e) {
            let (r, st1, log1) = eval_s(st, e, f, log);
            keep_eval(st, e, f, log);
            if let Ok(NodeView::List(items)) = r {
                keep_quoted_elems(st1, l, i + 1, acc + items, f, log1);
            }
        } else {
            let (r, st1, log1) = eval_quoted_s(st, e, f, log);
            keep_eval_quoted(st, e, f, log);
            if let Ok(v) = r {
                keep_quoted_elems(st1, l, i + 1, acc.push(v), f, log1);
            }
        }
    }
}

proof fn keep_expand(st: StateView, n: NodeView, f: nat, log: Seq<Answer>)
    ensures
        expand_s(st, n, f, log).1.parent == st.parent,
    decreases f, 1nat,
{
    if let NodeView::List(l) = n {
        if l.len() > 0 {
            if let NodeView::Symbol(s) = l[0] {
                let name = s.name;
                if name == s_def() {
                    keep_expand_def(st, n, l, f, log);
                } else if name == s_fn() || name == s_macro() {
                    keep_expand_fn(st, n, l, name == s_fn(), f, log);
                } else if name == s_quote() || name == s_syntax_quote() {
                    keep_expand_quote(st, n, l, name, f, log);
                } else if name == s_unquote() || name == s_unquote_splicing() {
                    keep_expand_unquote(st, n, l, name, f, log);
                } else if name == s_let() {
                    keep_expand_let(st, n, l, f, log);
                } else {
                    keep_expand_call(st, l, s, f, log);
                }
            }
        }
    }
}

proof fn keep_expand_def(st: StateView, n: NodeView, l: Seq<NodeView>, f: nat, log: Seq<Answer>)
    ensures
        expand_def_s(st, n, l, f, log).1.parent == st.parent,
    decreases f, 0nat,
{
    if f > 0 && l.len() == 3 {
        let g = (f - 1) as nat;
        keep_expand(st, l[2], g, log);
    }
}

proof fn keep_expand_fn(st: StateView, n: NodeView, l: Seq<NodeView>, is_fn: bool, f: nat, log: Seq<Answer>)
    ensures
        expand_fn_s(st, n, l, is_fn, f, log).1.parent == st.parent,
    decreases f, 0nat,
{
    if f > 0 && l.len() >= 3 {
        let g = (f - 1) as nat;
        if let NodeView::Vec(params) = l[1] {
            let (r, st1, log1) = expand_all_s(st, params, 0, Seq::empty(), g, log);
            keep_expand_all(st, params, 0, Seq::empty(), g, log);
            keep_expand_all(st1, l, 2, Seq::empty(), g, log1);
        }
    }
}

proof fn keep_expand_quote(st: StateView, n: NodeView, l: Seq<NodeView>, name: Seq<char>, f: nat, log: Seq<Answer>)
    ensures
        expand_quote_s(st, n, l, name, f, log).1.parent == st.parent,
    decreases f, 0nat,
{
    if f > 0 && l.len() == 2 {
        let g = (f - 1) as nat;
        keep_expand_quoted(st, l[1], name != s_quote(), g, log);
    }
}

proof fn keep_expand_unquote(st: StateView, n: NodeView, l: Seq<NodeView>, name: Seq<char>, f: nat, log: Seq<Answer>)
    ensures
        expand_unquote_s(st, n, l, name, f, log).1.parent == st.parent,
    decreases f, 0nat,
{
    if f > 0 && l.len() == 2 {
        let g = (f - 1) as nat;
        keep_expand(st, l[1], g, log);
    }
}

proof fn keep_expand_let(st: StateView, n: NodeView, l: Seq<NodeView>, f: nat, log: Seq<Answer>)
    ensures
        expand_let_s(st, n, l, f, log).1.parent == st.parent,
    decreases f, 0nat,
{
    if f > 0 && l.len() >= 3 {
        let g = (f - 1) as nat;
        if let NodeView::Vec(v) = l[1] {
            if v.len() % 2 == 0 {
                let (r, st1, log1) = expand_pairs_s(st, n, v, 0, Seq::empty(), g, log);
                keep_expand_pairs(st, n, v, 0, Seq::empty(), g, log);
                keep_expand_all(st1, l, 2, Seq::empty(), g, log1);
            }
        }
    }
}

proof fn keep_expand_call(st: StateView, l: Seq<NodeView>, s: QName, f: nat, log: Seq<Answer>)
    ensures
        expand_call_s(st, l, s, f, log).1.parent == st.parent,
    decreases f, 0nat,
{
    if f > 0 {
        let g = (f - 1) as nat;
        let (r, st1, log1) = expand_all_s(st, l, 1, Seq::empty(), g, log);
        keep_expand_all(st, l, 1, Seq::empty(), g, log);
        if let Ok(args) = r {
            let call = NodeView::Call { symbol: s, args };
            keep_eval(st1, call, g, log1);
        }
    }
}

proof fn keep_expand_all(st: StateView, s: Seq<NodeView>, i: nat, acc: Seq<NodeView>, f: nat, log: Seq<Answer>)
    ensures
        expand_all_s(st, s, i, acc, f, log).1.parent == st.parent,
    decreases f, s.len() + 1 - i,
{
    if i < s.len() {
        let (r, st1, log1) = expand_s(st, s[i as int], f, log);
        keep_expand(st, s[i as int], f, log);
        if let Ok(v) = r {
            keep_expand_all(st1, s, i + 1, acc.push(v), f, log1);
        }
    }
}

proof fn keep_expand_pairs(
    st: StateView,
    node: NodeView,
    v: Seq<NodeView>,
    k: nat,
    acc: Seq<NodeView>,
    f: nat,
    log: Seq<Answer>,
)
    ensures
        expand_pairs_s(st, node, v, k, acc, f, log).1.parent == st.parent,
    decreases f, v.len() + 2 - 2 * k,
{
    if 2 * k + 1 < v.len() {
        if let NodeView::Symbol(_) = v[2 * k as int] {
            let (r, st1, log1) = expand_s(st, v[(2 * k + 1) as int], f, log);
            keep_expand(st, v[(2 * k + 1) as int], f, log);
            if let Ok(e) = r {
                keep_expand_pairs(st1, node, v, k + 1, acc.push(v[2 * k as int]).push(e), f, log1);
            }
        }
    }
}

proof fn keep_expand_quoted(st: StateView, n: NodeView, syntax: bool, f: nat, log: Seq<Answer>)
    ensures
        expand_quoted_s(st, n, syntax, f, log).1.parent == st.parent,
    decreases f, 0nat,
{
    if f > 0 {
        let g = (f - 1) as nat;
        keep_expand(st, n, g, log);
        if let NodeView::List(l) = n {
            if l.len() > 0 && !is_unquote_symbol(l[0]) {
                keep_expand_quoted_all(st, l, syntax, 0, Seq::empty(), g, log);
            }
        }
    }
}

proof fn keep_expand_quoted_all(
    st: StateView,
    s: Seq<NodeView>,
    syntax: bool,
    i: nat,
    acc: Seq<NodeView>,
    f: nat,
    log: Seq<Answer>,
)
    ensures
        expand_quoted_all_s(st, s, syntax, i, acc, f, log).1.parent == st.parent,
    decreases f, s.len() - i,
{
    if i < s.len() {
        let (r, st1, log1) = expand_quoted_s(st, s[i as int], syntax, f, log);
        keep_expand_quoted(st, s[i as int], syntax, f, log);
        if let Ok(v) = r {
            keep_expand_quoted_all(st1, s, syntax, i + 1, acc.push(v), f, log1);
        }
    }
}

/// Evaluation keeps the enclosing states: evaluating any form, whatever it
/// defines, switches or calls, leaves the chain of states enclosing the one
/// it runs in exactly as it was; the same holds of expansion.
pub proof fn law_eval_keeps_enclosing(st: StateView, n: NodeView, f: nat, log: Seq<Answer>)
    ensures
        eval_s(st, n, f, log).1.parent == st.parent,
        expand_s(st, n, f, log).1.parent == st.parent,
{
    keep_eval(st, n, f, log);
    keep_expand(st, n, f, log);
}

} // verus!
