//! The depth limit only ever cuts evaluation short: once a step finishes
//! without reaching the limit, allowing more depth gives the same result,
//! the same state and the same use of the host's answers.

use vstd::prelude::*;
use crate::ast::{NodeView, QName};
use crate::parser::{LexState, measure, parse_top_spec};
use crate::state::{StateView, get_spec, chained_spec, key_in, bind};
use crate::state::semantics::{
    Answer,
    EvalErrorView,
    Out,
    Query,
    Reply,
    ArithOp,
    Relation,
    NumV,
    ask,
    as_num,
    nil,
    zero,
    one,
    s_def,
    s_fn,
    s_macro,
    s_quote,
    s_syntax_quote,
    s_unquote,
    s_unquote_splicing,
    s_let,
    is_unquote_symbol,
    is_splice_call,
    eval_s,
    let_bind_s,
    body_s,
    eval_args_s,
    fold_s,
    chain_s,
    first_num_s,
    minus_div_s,
    compare_s,
    eval_call_s,
    if_s,
    eval_twice_s,
    apply_s,
    in_ns_s,
    load_call_s,
    load_s,
    bind_params_s,
    call_custom_s,
    call_fn_s,
    call_macro_s,
    eval_quoted_s,
    quoted_elems_s,
    expand_s,
    expand_def_s,
    expand_fn_s,
    expand_quote_s,
    expand_unquote_s,
    expand_let_s,
    expand_call_s,
    expand_all_s,
    expand_pairs_s,
    expand_quoted_s,
    expand_quoted_all_s,
};

verus! {

/// The step finished without reaching the depth limit.
pub open spec fn reached<T>(o: Out<T>) -> bool {
    o.0 != Err::<T, EvalErrorView>(EvalErrorView::DepthLimit)
}

proof fn fuel_eval(st: StateView, n: NodeView, f: nat, log: Seq<Answer>)
    requires
        reached(eval_s(st, n, f, log)),
    ensures
        eval_s(st, n, f + 1, log) == eval_s(st, n, f, log),
    decreases f, 0nat,
{
    let g = (f - 1) as nat;
    let (r, st1, log1) = expand_s(st, n, g, log);
    if reached(expand_s(st, n, g, log)) {
        fuel_expand(st, n, g, log);
    }
    if let Ok(m) = r {
        match m {
            NodeView::Def { symbol, expr } => {
                if reached(eval_s(st1, *expr, g, log1)) {
                    fuel_eval(st1, *expr, g, log1);
                }
            },
            NodeView::Call { symbol, args } => {
                if reached(eval_call_s(st1, m, symbol, args, g, log1)) {
                    fuel_eval_call(st1, m, symbol, args, g, log1);
                }
            },
            NodeView::Let { bindings, body } => {
                let c = chained_spec(st1);
                let (r2, c2, log2) = let_bind_s(c, bindings, 0, g, log1);
                if reached(let_bind_s(c, bindings, 0, g, log1)) {
                    fuel_let_bind(c, bindings, 0, g, log1);
                }
                if reached(body_s(c2, body, 0, nil(), g, log2)) {
                    fuel_body(c2, body, 0, nil(), g, log2);
                }
            },
            _ => {},
        }
    }
}

proof fn fuel_let_bind(st: StateView, b: Seq<NodeView>, k: nat, f: nat, log: Seq<Answer>)
    requires
        reached(let_bind_s(st, b, k, f, log)),
    ensures
        let_bind_s(st, b, k, f + 1, log) == let_bind_s(st, b, k, f, log),
    decreases f, b.len() + 1 - 2 * k,
{
    if 2 * k < b.len() {
        let last = if 2 * k + 1 < b.len() {
            b[(2 * k + 1) as int]
        } else {
            b[2 * k as int]
        };
        match b[2 * k as int] {
            NodeView::Symbol(q) => {
                let (r, st1, log1) = eval_s(st, last, f, log);
                if reached(eval_s(st, last, f, log)) {
                    fuel_eval(st, last, f, log);
                }
                if let Ok(v) = r {
                    let st2 = StateView { bindings: bind(st1.bindings, key_in(st1.current, q), v), ..st1 };
                    fuel_let_bind(st2, b, k + 1, f, log1);
                }
            },
            _ => {
                fuel_let_bind(st, b, k + 1, f, log);
            },
        }
    }
}

proof fn fuel_body(st: StateView, body: Seq<NodeView>, i: nat, last: NodeView, f: nat, log: Seq<Answer>)
    requires
        reached(body_s(st, body, i, last, f, log)),
    ensures
        body_s(st, body, i, last, f + 1, log) == body_s(st, body, i, last, f, log),
    decreases f, body.len() - i,
{
    if i < body.len() {
        let (r, st1, log1) = eval_s(st, body[i as int], f, log);
        if reached(eval_s(st, body[i as int], f, log)) {
            fuel_eval(st, body[i as int], f, log);
        }
        if let Ok(v) = r {
            fuel_body(st1, body, i + 1, v, f, log1);
        }
    }
}

proof fn fuel_eval_args(st: StateView, args: Seq<NodeView>, i: nat, acc: Seq<NodeView>, f: nat, log: Seq<Answer>)
    requires
        reached(eval_args_s(st, args, i, acc, f, log)),
    ensures
        eval_args_s(st, args, i, acc, f + 1, log) == eval_args_s(st, args, i, acc, f, log),
    decreases f, args.len() - i,
{
    if i < args.len() {
        let (r, st1, log1) = eval_s(st, args[i as int], f, log);
        if reached(eval_s(st, args[i as int], f, log)) {
            fuel_eval(st, args[i as int], f, log);
        }
        if let Ok(v) = r {
            fuel_eval_args(st1, args, i + 1, acc.push(v), f, log1);
        }
    }
}

proof fn fuel_fold(st: StateView, args: Seq<NodeView>, i: nat, acc: NumV, op: ArithOp, f: nat, log: Seq<Answer>)
    requires
        reached(fold_s(st, args, i, acc, op, f, log)),
    ensures
        fold_s(st, args, i, acc, op, f + 1, log) == fold_s(st, args, i, acc, op, f, log),
    decreases f, args.len() - i,
{
    if i < args.len() {
        let (r, st1, log1) = eval_s(st, args[i as int], f, log);
        if reached(eval_s(st, args[i as int], f, log)) {
            fuel_eval(st, args[i as int], f, log);
        }
        if let Ok(v) = r {
            if let Some(n) = as_num(v) {
                if let Some((Reply::Number(m), log2)) = ask(log1, crate::state::semantics::arith_query(op, acc, n)) {
                    fuel_fold(st1, args, i + 1, m, op, f, log2);
                }
            }
        }
    }
}

proof fn fuel_chain(st: StateView, args: Seq<NodeView>, i: nat, temp: NumV, op: Relation, f: nat, log: Seq<Answer>)
    requires
        reached(chain_s(st, args, i, temp, op, f, log)),
    ensures
        chain_s(st, args, i, temp, op, f + 1, log) == chain_s(st, args, i, temp, op, f, log),
    decreases f, args.len() - i,
{
    if i < args.len() {
        let (r, st1, log1) = eval_s(st, args[i as int], f, log);
        if reached(eval_s(st, args[i as int], f, log)) {
            fuel_eval(st, args[i as int], f, log);
        }
        if let Ok(v) = r {
            if let Some(n) = as_num(v) {
                if let Some((Reply::Truth(b), log2)) = ask(log1, crate::state::semantics::relation_query(op, temp, n)) {
                    if b {
                        fuel_chain(st1, args, i + 1, n, op, f, log2);
                    }
                }
            }
        }
    }
}

proof fn fuel_first_num(st: StateView, args: Seq<NodeView>, f: nat, log: Seq<Answer>)
    requires
        reached(first_num_s(st, args, f, log)),
    ensures
        first_num_s(st, args, f + 1, log) == first_num_s(st, args, f, log),
    decreases f, args.len() + 1,
{
    if reached(eval_s(st, args[0], f, log)) {
        fuel_eval(st, args[0], f, log);
    }
}

proof fn fuel_minus_div(st: StateView, node: NodeView, args: Seq<NodeView>, is_div: bool, f: nat, log: Seq<Answer>)
    requires
        reached(minus_div_s(st, node, args, is_div, f, log)),
    ensures
        minus_div_s(st, node, args, is_div, f + 1, log) == minus_div_s(st, node, args, is_div, f, log),
    decreases f, args.len() + 2,
{
    if args.len() >= 1 {
        let (r, st1, log1) = first_num_s(st, args, f, log);
        if reached(first_num_s(st, args, f, log)) {
            fuel_first_num(st, args, f, log);
        }
        if let Ok(v) = r {
            let op = if is_div {
                ArithOp::Div
            } else {
                ArithOp::Sub
            };
            if args.len() == 1 {
                let q = if is_div {
                    Query::Recip(v)
                } else {
                    Query::Neg(v)
                };
                if let Some((Reply::Number(m), log2)) = ask(log1, q) {
                    if reached(fold_s(st1, args, 1, m, op, f, log2)) {
                        fuel_fold(st1, args, 1, m, op, f, log2);
                    }
                }
            } else {
                if reached(fold_s(st1, args, 1, v, op, f, log1)) {
                    fuel_fold(st1, args, 1, v, op, f, log1);
                }
            }
        }
    }
}

proof fn fuel_compare(st: StateView, node: NodeView, args: Seq<NodeView>, op: Relation, f: nat, log: Seq<Answer>)
    requires
        reached(compare_s(st, node, args, op, f, log)),
    ensures
        compare_s(st, node, args, op, f + 1, log) == compare_s(st, node, args, op, f, log),
    decreases f, args.len() + 2,
{
    if args.len() >= 1 {
        let (r, st1, log1) = first_num_s(st, args, f, log);
        if reached(first_num_s(st, args, f, log)) {
            fuel_first_num(st, args, f, log);
        }
        if let Ok(v) = r {
            if reached(chain_s(st1, args, 1, v, op, f, log1)) {
                fuel_chain(st1, args, 1, v, op, f, log1);
            }
        }
    }
}

proof fn fuel_eval_call(st: StateView, node: NodeView, symbol: QName, args: Seq<NodeView>, f: nat, log: Seq<Answer>)
    requires
        reached(eval_call_s(st, node, symbol, args, f, log)),
    ensures
        eval_call_s(st, node, symbol, args, f + 1, log) == eval_call_s(st, node, symbol, args, f, log),
    decreases f, 2nat,
{
    let g = (f - 1) as nat;
    let name = symbol.name;
    if name == seq!['+'] {
        fuel_fold(st, args, 0, zero(), ArithOp::Add, g, log);
    } else if name == seq!['-'] {
        fuel_minus_div(st, node, args, false, g, log);
    } else if name == seq!['*'] {
        fuel_fold(st, args, 0, one(), ArithOp::Mul, g, log);
    } else if name == seq!['/'] {
        fuel_minus_div(st, node, args, true, g, log);
    } else if name == seq!['<'] {
        fuel_compare(st, node, args, Relation::Less, g, log);
    } else if name == seq!['>'] {
        fuel_compare(st, node, args, Relation::Greater, g, log);
    } else if name == seq!['='] {
        fuel_compare(st, node, args, Relation::Equal, g, log);
    } else if name == seq!['i', 'f'] {
        fuel_if(st, node, args, f, log);
    } else if name == s_quote() || name == s_syntax_quote() {
        if args.len() == 1 {
            fuel_eval_quoted(st, args[0], g, log);
        }
    } else if name == s_unquote() || name == s_unquote_splicing() {
        if args.len() == 1 {
            fuel_eval(st, args[0], g, log);
        }
    } else if name == seq!['e', 'v', 'a', 'l'] {
        fuel_eval_twice(st, node, args, f, log);
    } else if name == seq!['a', 'p', 'p', 'l', 'y'] {
        fuel_apply(st, node, args, f, log);
    } else if name == seq!['g', 'e', 'n', 's', 'y', 'm'] {
    } else if name == seq!['i', 'n', '-', 'n', 's'] {
        fuel_in_ns(st, node, args, f, log);
    } else if name == seq!['l', 'o', 'a', 'd'] {
        fuel_load_call(st, node, args, f, log);
    } else if name == seq!['r', 'e', 'f', 'e', 'r'] {
    } else {
        fuel_call_custom(st, node, symbol, args, f, log);
    }
}

proof fn fuel_if(st: StateView, node: NodeView, args: Seq<NodeView>, f: nat, log: Seq<Answer>)
    requires
        reached(if_s(st, node, args, f, log)),
    ensures
        if_s(st, node, args, f + 1, log) == if_s(st, node, args, f, log),
    decreases f, 0nat,
{
    if f > 0 && args.len() == 3 {
        let g = (f - 1) as nat;
        let (r, st1, log1) = eval_s(st, args[0], g, log);
        if reached(eval_s(st, args[0], g, log)) {
            fuel_eval(st, args[0], g, log);
        }
        if let Ok(c) = r {
            let k = if c != NodeView::Bool(false) {
                1int
            } else {
                2int
            };
            if reached(eval_s(st1, args[k], g, log1)) {
                fuel_eval(st1, args[k], g, log1);
            }
        }
    }
}

proof fn fuel_eval_twice(st: StateView, node: NodeView, args: Seq<NodeView>, f: nat, log: Seq<Answer>)
    requires
        reached(eval_twice_s(st, node, args, f, log)),
    ensures
        eval_twice_s(st, node, args, f + 1, log) == eval_twice_s(st, node, args, f, log),
    decreases f, 0nat,
{
    if f > 0 && args.len() == 1 {
        let g = (f - 1) as nat;
        let (r, st1, log1) = eval_s(st, args[0], g, log);
        if reached(eval_s(st, args[0], g, log)) {
            fuel_eval(st, args[0], g, log);
        }
        if let Ok(v) = r {
            if reached(eval_s(st1, v, g, log1)) {
                fuel_eval(st1, v, g, log1);
            }
        }
    }
}

proof fn fuel_apply(st: StateView, node: NodeView, args: Seq<NodeView>, f: nat, log: Seq<Answer>)
    requires
        reached(apply_s(st, node, args, f, log)),
    ensures
        apply_s(st, node, args, f + 1, log) == apply_s(st, node, args, f, log),
    decreases f, 0nat,
{
    if f > 0 && args.len() == 2 {
        let g = (f - 1) as nat;
        if let NodeView::Symbol(s) = args[0] {
            let (r, st1, log1) = eval_s(st, args[1], g, log);
            if reached(eval_s(st, args[1], g, log)) {
                fuel_eval(st, args[1], g, log);
            }
            if let Ok(NodeView::Vec(v)) = r {
                let c = NodeView::Call { symbol: s, args: v };
                if reached(eval_s(st1, c, g, log1)) {
                    fuel_eval(st1, c, g, log1);
                }
            }
        }
    }
}

proof fn fuel_in_ns(st: StateView, node: NodeView, args: Seq<NodeView>, f: nat, log: Seq<Answer>)
    requires
        reached(in_ns_s(st, node, args, f, log)),
    ensures
        in_ns_s(st, node, args, f + 1, log) == in_ns_s(st, node, args, f, log),
    decreases f, 0nat,
{
    if f > 0 && args.len() == 1 {
        let g = (f - 1) as nat;
        if reached(eval_s(st, args[0], g, log)) {
            fuel_eval(st, args[0], g, log);
        }
    }
}

proof fn fuel_load_call(st: StateView, node: NodeView, args: Seq<NodeView>, f: nat, log: Seq<Answer>)
    requires
        reached(load_call_s(st, node, args, f, log)),
    ensures
        load_call_s(st, node, args, f + 1, log) == load_call_s(st, node, args, f, log),
    decreases f, 0nat,
{
    if f > 0 && args.len() == 1 {
        let g = (f - 1) as nat;
        let (r, st1, log1) = eval_s(st, args[0], g, log);
        if reached(eval_s(st, args[0], g, log)) {
            fuel_eval(st, args[0], g, log);
        }
        if let Ok(NodeView::String(p)) = r {
            if let Some((Reply::File(Some(Ok(text))), log2)) = ask(log1, Query::ReadFile(p)) {
                let ls = LexState { pos: 0, finished: false };
                if reached(load_s(st1, text, ls, nil(), g, log2)) {
                    fuel_load(st1, text, ls, nil(), g, log2);
                }
            }
        }
    }
}

proof fn fuel_load(st: StateView, text: Seq<char>, ls: LexState, last: NodeView, f: nat, log: Seq<Answer>)
    requires
        reached(load_s(st, text, ls, last, f, log)),
    ensures
        load_s(st, text, ls, last, f + 1, log) == load_s(st, text, ls, last, f, log),
    decreases f, measure(text, ls),
{
    let (p, ls1) = parse_top_spec(text, ls);
    if let Some(Ok(n)) = p {
        let (r, st1, log1) = eval_s(st, n, f, log);
        if reached(eval_s(st, n, f, log)) {
            fuel_eval(st, n, f, log);
        }
        if let Ok(v) = r {
            if measure(text, ls1) < measure(text, ls) {
                fuel_load(st1, text, ls1, v, f, log1);
            }
        }
    }
}

proof fn fuel_call_custom(st: StateView, node: NodeView, symbol: QName, args: Seq<NodeView>, f: nat, log: Seq<Answer>)
    requires
        reached(call_custom_s(st, node, symbol, args, f, log)),
    ensures
        call_custom_s(st, node, symbol, args, f + 1, log) == call_custom_s(st, node, symbol, args, f, log),
    decreases f, 1nat,
{
    match get_spec(st, symbol) {
        Some(NodeView::Fn { params, body }) => {
            fuel_call_fn(st, node, args, params, body, f, log);
        },
        Some(NodeView::Macro { params, body }) => {
            fuel_call_macro(st, node, args, params, body, f, log);
        },
        _ => {},
    }
}

proof fn fuel_call_fn(
    st: StateView,
    node: NodeView,
    args: Seq<NodeView>,
    params: Seq<NodeView>,
    body: Seq<NodeView>,
    f: nat,
    log: Seq<Answer>,
)
    requires
        reached(call_fn_s(st, node, args, params, body, f, log)),
    ensures
        call_fn_s(st, node, args, params, body, f + 1, log) == call_fn_s(st, node, args, params, body, f, log),
    decreases f, 0nat,
{
    if f > 0 && args.len() == params.len() {
        let g = (f - 1) as nat;
        let (r, st1, log1) = eval_args_s(st, args, 0, Seq::empty(), g, log);
        if reached(eval_args_s(st, args, 0, Seq::empty(), g, log)) {
            fuel_eval_args(st, args, 0, Seq::empty(), g, log);
        }
        if let Ok(vals) = r {
            if let Ok(c) = bind_params_s(chained_spec(st1), params, vals, 0) {
                if reached(body_s(c, body, 0, nil(), g, log1)) {
                    fuel_body(c, body, 0, nil(), g, log1);
                }
            }
        }
    }
}

proof fn fuel_call_macro(
    st: StateView,
    node: NodeView,
    args: Seq<NodeView>,
    params: Seq<NodeView>,
    body: Seq<NodeView>,
    f: nat,
    log: Seq<Answer>,
)
    requires
        reached(call_macro_s(st, node, args, params, body, f, log)),
    ensures
        call_macro_s(st, node, args, params, body, f + 1, log) == call_macro_s(st, node, args, params, body, f, log),
    decreases f, 0nat,
{
    if f > 0 && args.len() == params.len() {
        let g = (f - 1) as nat;
        if let Ok(c) = bind_params_s(chained_spec(st), params, args, 0) {
            let (r2, c2, log2) = body_s(c, body, 0, nil(), g, log);
            if reached(body_s(c, body, 0, nil(), g, log)) {
                fuel_body(c, body, 0, nil(), g, log);
            }
            if let Ok(v) = r2 {
                if reached(expand_s(c2, v, g, log2)) {
                    fuel_expand(c2, v, g, log2);
                }
            }
        }
    }
}

proof fn fuel_eval_quoted(st: StateView, n: NodeView, f: nat, log: Seq<Answer>)
    requires
        reached(eval_quoted_s(st, n, f, log)),
    ensures
        eval_quoted_s(st, n, f + 1, log) == eval_quoted_s(st, n, f, log),
    decreases f, 0nat,
{
    if f > 0 {
        let g = (f - 1) as nat;
        match n {
            NodeView::Symbol(_) => {},
            NodeView::List(l) => {
                if reached(quoted_elems_s(st, l, 0, Seq::empty(), g, log)) {
                    fuel_quoted_elems(st, l, 0, Seq::empty(), g, log);
                }
            },
            _ => {
                if reached(eval_s(st, n, g, log)) {
                    fuel_eval(st, n, g, log);
                }
            },
        }
    }
}

proof fn fuel_quoted_elems(st: StateView, l: Seq<NodeView>, i: nat, acc: Seq<NodeView>, f: nat, log: Seq<Answer>)
    requires
        reached(quoted_elems_s(st, l, i, acc, f, log)),
    ensures
        quoted_elems_s(st, l, i, acc, f + 1, log) == quoted_elems_s(st, l, i, acc, f, log),
    decreases f, l.len() - i,
{
    if i < l.len() {
        let e = l[i as int];
        if is_splice_call(e) {
            let (r, st1, log1) = eval_s(st, e, f, log);
            if reached(eval_s(st, e, f, log)) {
                fuel_eval(st, e, f, log);
            }
            if let Ok(NodeView::List(items)) = r {
                fuel_quoted_elems(st1, l, i + 1, acc + items, f, log1);
            }
        } else {
            let (r, st1, log1) = eval_quoted_s(st, e, f, log);
            if reached(eval_quoted_s(st, e, f, log)) {
                fuel_eval_quoted(st, e, f, log);
            }
            if let Ok(v) = r {
                fuel_quoted_elems(st1, l, i + 1, acc.push(v), f, log1);
            }
        }
    }
}

proof fn fuel_expand(st: StateView, n: NodeView, f: nat, log: Seq<Answer>)
    requires
        reached(expand_s(st, n, f, log)),
    ensures
        expand_s(st, n, f + 1, log) == expand_s(st, n, f, log),
    decreases f, 1nat,
{
    if let NodeView::List(l) = n {
        if l.len() > 0 {
            if let NodeView::Symbol(s) = l[0] {
                let name = s.name;
                if name == s_def() {
                    fuel_expand_def(st, n, l, f, log);
                } else if name == s_fn() || name == s_macro() {
                    fuel_expand_fn(st, n, l, name == s_fn(), f, log);
                } else if name == s_quote() || name == s_syntax_quote() {
                    fuel_expand_quote(st, n, l, name, f, log);
                } else if name == s_unquote() || name == s_unquote_splicing() {
                    fuel_expand_unquote(st, n, l, name, f, log);
                } else if name == s_let() {
                    fuel_expand_let(st, n, l, f, log);
                } else {
                    fuel_expand_call(st, l, s, f, log);
                }
            }
        }
    }
}

proof fn fuel_expand_def(st: StateView, n: NodeView, l: Seq<NodeView>, f: nat, log: Seq<Answer>)
    requires
        reached(expand_def_s(st, n, l, f, log)),
    ensures
        expand_def_s(st, n, l, f + 1, log) == expand_def_s(st, n, l, f, log),
    decreases f, 0nat,
{
    if f > 0 && l.len() == 3 {
        let g = (f - 1) as nat;
        if reached(expand_s(st, l[2], g, log)) {
            fuel_expand(st, l[2], g, log);
        }
    }
}

proof fn fuel_expand_fn(st: StateView, n: NodeView, l: Seq<NodeView>, is_fn: bool, f: nat, log: Seq<Answer>)
    requires
        reached(expand_fn_s(st, n, l, is_fn, f, log)),
    ensures
        expand_fn_s(st, n, l, is_fn, f + 1, log) == expand_fn_s(st, n, l, is_fn, f, log),
    decreases f, 0nat,
{
    if f > 0 && l.len() >= 3 {
        let g = (f - 1) as nat;
        if let NodeView::Vec(params) = l[1] {
            let (r, st1, log1) = expand_all_s(st, params, 0, Seq::empty(), g, log);
            if reached(expand_all_s(st, params, 0, Seq::empty(), g, log)) {
                fuel_expand_all(st, params, 0, Seq::empty(), g, log);
            }
            if reached(expand_all_s(st1, l, 2, Seq::empty(), g, log1)) {
                fuel_expand_all(st1, l, 2, Seq::empty(), g, log1);
            }
        }
    }
}

proof fn fuel_expand_quote(st: StateView, n: NodeView, l: Seq<NodeView>, name: Seq<char>, f: nat, log: Seq<Answer>)
    requires
        reached(expand_quote_s(st, n, l, name, f, log)),
    ensures
        expand_quote_s(st, n, l, name, f + 1, log) == expand_quote_s(st, n, l, name, f, log),
    decreases f, 0nat,
{
    if f > 0 && l.len() == 2 {
        let g = (f - 1) as nat;
        if reached(expand_quoted_s(st, l[1], name != s_quote(), g, log)) {
            fuel_expand_quoted(st, l[1], name != s_quote(), g, log);
        }
    }
}

proof fn fuel_expand_unquote(st: StateView, n: NodeView, l: Seq<NodeView>, name: Seq<char>, f: nat, log: Seq<Answer>)
    requires
        reached(expand_unquote_s(st, n, l, name, f, log)),
    ensures
        expand_unquote_s(st, n, l, name, f + 1, log) == expand_unquote_s(st, n, l, name, f, log),
    decreases f, 0nat,
{
    if f > 0 && l.len() == 2 {
        let g = (f - 1) as nat;
        if reached(expand_s(st, l[1], g, log)) {
            fuel_expand(st, l[1], g, log);
        }
    }
}

proof fn fuel_expand_let(st: StateView, n: NodeView, l: Seq<NodeView>, f: nat, log: Seq<Answer>)
    requires
        reached(expand_let_s(st, n, l, f, log)),
    ensures
        expand_let_s(st, n, l, f + 1, log) == expand_let_s(st, n, l, f, log),
    decreases f, 0nat,
{
    if f > 0 && l.len() >= 3 {
        let g = (f - 1) as nat;
        if let NodeView::Vec(v) = l[1] {
            if v.len() % 2 == 0 {
                let (r, st1, log1) = expand_pairs_s(st, n, v, 0, Seq::empty(), g, log);
                if reached(expand_pairs_s(st, n, v, 0, Seq::empty(), g, log)) {
                    fuel_expand_pairs(st, n, v, 0, Seq::empty(), g, log);
                }
                if reached(expand_all_s(st1, l, 2, Seq::empty(), g, log1)) {
                    fuel_expand_all(st1, l, 2, Seq::empty(), g, log1);
                }
            }
        }
    }
}

proof fn fuel_expand_call(st: StateView, l: Seq<NodeView>, s: QName, f: nat, log: Seq<Answer>)
    requires
        reached(expand_call_s(st, l, s, f, log)),
    ensures
        expand_call_s(st, l, s, f + 1, log) == expand_call_s(st, l, s, f, log),
    decreases f, 0nat,
{
    if f > 0 {
        let g = (f - 1) as nat;
        let (r, st1, log1) = expand_all_s(st, l, 1, Seq::empty(), g, log);
        if reached(expand_all_s(st, l, 1, Seq::empty(), g, log)) {
            fuel_expand_all(st, l, 1, Seq::empty(), g, log);
        }
        if let Ok(args) = r {
            let call = NodeView::Call { symbol: s, args };
            if reached(eval_s(st1, call, g, log1)) {
                fuel_eval(st1, call, g, log1);
            }
        }
    }
}

proof fn fuel_expand_all(st: StateView, s: Seq<NodeView>, i: nat, acc: Seq<NodeView>, f: nat, log: Seq<Answer>)
    requires
        reached(expand_all_s(st, s, i, acc, f, log)),
    ensures
        expand_all_s(st, s, i, acc, f + 1, log) == expand_all_s(st, s, i, acc, f, log),
    decreases f, s.len() + 1 - i,
{
    if i < s.len() {
        let (r, st1, log1) = expand_s(st, s[i as int], f, log);
        if reached(expand_s(st, s[i as int], f, log)) {
            fuel_expand(st, s[i as int], f, log);
        }
        if let Ok(v) = r {
            fuel_expand_all(st1, s, i + 1, acc.push(v), f, log1);
        }
    }
}

proof fn fuel_expand_pairs(
    st: StateView,
    node: NodeView,
    v: Seq<NodeView>,
    k: nat,
    acc: Seq<NodeView>,
    f: nat,
    log: Seq<Answer>,
)
    requires
        reached(expand_pairs_s(st, node, v, k, acc, f, log)),
    ensures
        expand_pairs_s(st, node, v, k, acc, f + 1, log) == expand_pairs_s(st, node, v, k, acc, f, log),
    decreases f, v.len() + 2 - 2 * k,
{
    if 2 * k + 1 < v.len() {
        if let NodeView::Symbol(_) = v[2 * k as int] {
            let (r, st1, log1) = expand_s(st, v[(2 * k + 1) as int], f, log);
            if reached(expand_s(st, v[(2 * k + 1) as int], f, log)) {
                fuel_expand(st, v[(2 * k + 1) as int], f, log);
            }
            if let Ok(e) = r {
                fuel_expand_pairs(st1, node, v, k + 1, acc.push(v[2 * k as int]).push(e), f, log1);
            }
        }
    }
}

proof fn fuel_expand_quoted(st: StateView, n: NodeView, syntax: bool, f: nat, log: Seq<Answer>)
    requires
        reached(expand_quoted_s(st, n, syntax, f, log)),
    ensures
        expand_quoted_s(st, n, syntax, f + 1, log) == expand_quoted_s(st, n, syntax, f, log),
    decreases f, 0nat,
{
    if f > 0 {
        let g = (f - 1) as nat;
        if reached(expand_s(st, n, g, log)) {
            fuel_expand(st, n, g, log);
        }
        if let NodeView::List(l) = n {
            if l.len() > 0 && !is_unquote_symbol(l[0]) {
                if reached(expand_quoted_all_s(st, l, syntax, 0, Seq::empty(), g, log)) {
                    fuel_expand_quoted_all(st, l, syntax, 0, Seq::empty(), g, log);
                }
            }
        }
    }
}

proof fn fuel_expand_quoted_all(
    st: StateView,
    s: Seq<NodeView>,
    syntax: bool,
    i: nat,
    acc: Seq<NodeView>,
    f: nat,
    log: Seq<Answer>,
)
    requires
        reached(expand_quoted_all_s(st, s, syntax, i, acc, f, log)),
    ensures
        expand_quoted_all_s(st, s, syntax, i, acc, f + 1, log) == expand_quoted_all_s(st, s, syntax, i, acc, f, log),
    decreases f, s.len() - i,
{
    if i < s.len() {
        let (r, st1, log1) = expand_quoted_s(st, s[i as int], syntax, f, log);
        if reached(expand_quoted_s(st, s[i as int], syntax, f, log)) {
            fuel_expand_quoted(st, s[i as int], syntax, f, log);
        }
        if let Ok(v) = r {
            fuel_expand_quoted_all(st1, s, syntax, i + 1, acc.push(v), f, log1);
        }
    }
}

/// More depth never changes a finished evaluation: if evaluating `n` with
/// depth `f` does not reach the limit, evaluating it with any larger depth
/// gives the same result, the same state, and leaves the same answers of
/// the host unused.
pub proof fn law_depth_only_cuts_short(st: StateView, n: NodeView, f: nat, f2: nat, log: Seq<Answer>)
    requires
        f <= f2,
        reached(eval_s(st, n, f, log)),
    ensures
        eval_s(st, n, f2, log) == eval_s(st, n, f, log),
    decreases f2 - f,
{
    if f < f2 {
        fuel_eval(st, n, f, log);
        law_depth_only_cuts_short(st, n, f + 1, f2, log);
    }
}

} // verus!
