//! The meaning of evaluation: a functional definition over views, for any
//! behaviour of the host that supplies arithmetic and files.
//!
//! The host's replies are read from a log, in the order the evaluator asks:
//! each step that needs the host takes the first answer, which must answer
//! exactly the question asked.

use vstd::prelude::*;
use crate::ast::{NodeView, QName};
use crate::parser::{LexState, ParserErrorView, parse_top_spec, measure};
use crate::state::{StateView, get_spec, key_in, bind, chained_spec};

verus! {

/// A number as the host sees it.
pub struct NumV {
    pub negative: bool,
    pub digits: Seq<u8>,
    pub scale: nat,
}

/// A question to the host.
pub enum Query {
    Add(NumV, NumV),
    Sub(NumV, NumV),
    Mul(NumV, NumV),
    Div(NumV, NumV),
    Neg(NumV),
    Recip(NumV),
    Less(NumV, NumV),
    Greater(NumV, NumV),
    Equal(NumV, NumV),
    ReadFile(Seq<char>),
}

/// The host's reply.
pub enum Reply {
    Number(NumV),
    Truth(bool),
    File(Option<Result<Seq<char>, Seq<char>>>),
}

/// A question and the reply it got.
pub type Answer = (Query, Reply);

/// What an evaluation error holds. `Unanswered` stands for a log that does
/// not answer the question asked; it never comes out of the evaluator.
pub enum EvalErrorView {
    Resolve(Seq<char>),
    Dispatch(NodeView),
    IncorrectType(NodeView),
    IncorrectNumber(NodeView),
    Io(Seq<char>),
    Parser(ParserErrorView),
    DepthLimit,
    Unanswered,
}

/// The outcome of an evaluation step: the result, the state after it, and
/// the host answers left.
pub type Out<T> = (Result<T, EvalErrorView>, StateView, Seq<Answer>);

/// The first answer of the log, if it answers `q`, and the rest of the log.
pub open spec fn ask(log: Seq<Answer>, q: Query) -> Option<(Reply, Seq<Answer>)> {
    if log.len() > 0 && log[0].0 == q {
        Some((log[0].1, log.drop_first()))
    } else {
        None
    }
}

/// Logs concatenate associatively.
pub broadcast proof fn lemma_log_assoc(a: Seq<Answer>, b: Seq<Answer>, c: Seq<Answer>)
    ensures
        #[trigger] ((a + b) + c) == a + (b + c),
{
    assert(((a + b) + c) =~= a + (b + c));
}

/// The empty log adds nothing.
pub broadcast proof fn lemma_log_empty(c: Seq<Answer>)
    ensures
        #[trigger] (Seq::<Answer>::empty() + c) == c,
{
    assert(Seq::<Answer>::empty() + c =~= c);
}

/// An answer at the front of the log answers its own question.
pub broadcast proof fn lemma_ask(q: Query, r: Reply, rest: Seq<Answer>)
    ensures
        #[trigger] ask(seq![(q, r)] + rest, q) == Some((r, rest)),
{
    assert((seq![(q, r)] + rest).drop_first() =~= rest);
}

pub broadcast group group_log {
    lemma_log_assoc,
    lemma_log_empty,
    lemma_ask,
}


/// The number a node holds, if it is a number.
pub open spec fn as_num(v: NodeView) -> Option<NumV> {
    match v {
        NodeView::Number { negative, digits, scale } => Some(NumV { negative, digits, scale }),
        _ => None,
    }
}

/// The node that holds number `n`.
pub open spec fn num_node(n: NumV) -> NodeView {
    NodeView::Number { negative: n.negative, digits: n.digits, scale: n.scale }
}

/// The number zero.
pub open spec fn zero() -> NumV {
    NumV { negative: false, digits: Seq::empty(), scale: 0 }
}

/// The number one.
pub open spec fn one() -> NumV {
    NumV { negative: false, digits: seq![1u8], scale: 0 }
}

/// The empty list, which `nil` names.
pub open spec fn nil() -> NodeView {
    NodeView::List(Seq::empty())
}

/// An unqualified name.
pub open spec fn plain(name: Seq<char>) -> QName {
    QName { ns: None, name }
}

/// The arithmetic operations that fold over arguments.
#[derive(Clone, Copy)]
pub enum ArithOp {
    Add,
    Sub,
    Mul,
    Div,
}

/// The comparisons that chain over arguments.
#[derive(Clone, Copy)]
pub enum Relation {
    Less,
    Greater,
    Equal,
}

pub open spec fn arith_query(op: ArithOp, a: NumV, b: NumV) -> Query {
    match op {
        ArithOp::Add => Query::Add(a, b),
        ArithOp::Sub => Query::Sub(a, b),
        ArithOp::Mul => Query::Mul(a, b),
        ArithOp::Div => Query::Div(a, b),
    }
}

pub open spec fn relation_query(op: Relation, a: NumV, b: NumV) -> Query {
    match op {
        Relation::Less => Query::Less(a, b),
        Relation::Greater => Query::Greater(a, b),
        Relation::Equal => Query::Equal(a, b),
    }
}

/// Text constants.
pub open spec fn s_def() -> Seq<char> { seq!['d', 'e', 'f'] }
pub open spec fn s_fn() -> Seq<char> { seq!['f', 'n'] }
pub open spec fn s_macro() -> Seq<char> { seq!['m', 'a', 'c', 'r', 'o'] }
pub open spec fn s_quote() -> Seq<char> { seq!['q', 'u', 'o', 't', 'e'] }
pub open spec fn s_syntax_quote() -> Seq<char> {
    seq!['s', 'y', 'n', 't', 'a', 'x', '-', 'q', 'u', 'o', 't', 'e']
}
pub open spec fn s_unquote() -> Seq<char> { seq!['u', 'n', 'q', 'u', 'o', 't', 'e'] }
pub open spec fn s_unquote_splicing() -> Seq<char> {
    seq!['u', 'n', 'q', 'u', 'o', 't', 'e', '-', 's', 'p', 'l', 'i', 'c', 'i', 'n', 'g']
}
pub open spec fn s_let() -> Seq<char> { seq!['l', 'e', 't'] }

/// Whether a node is a symbol named `unquote` or `unquote-splicing`.
pub open spec fn is_unquote_symbol(v: NodeView) -> bool {
    v matches NodeView::Symbol(q) && (q.name == s_unquote() || q.name == s_unquote_splicing())
}

/// Whether a node is a call of a symbol named `unquote-splicing`.
pub open spec fn is_splice_call(v: NodeView) -> bool {
    v matches NodeView::Call { symbol, .. } && symbol.name == s_unquote_splicing()
}

/// Evaluates a node: expand it, then evaluate what the expansion gives.
pub open spec fn eval_s(st: StateView, n: NodeView, f: nat, log: Seq<Answer>) -> Out<NodeView>
    decreases f, 0nat,
{
    if f == 0 {
        (Err(EvalErrorView::DepthLimit), st, log)
    } else {
        let (r, st1, log1) = expand_s(st, n, (f - 1) as nat, log);
        match r {
            Err(e) => (Err(e), st1, log1),
            Ok(m) => match m {
                NodeView::Symbol(q) => match get_spec(st1, q) {
                    Some(v) => (Ok(v), st1, log1),
                    None => (Err(EvalErrorView::Resolve(q.name)), st1, log1),
                },
                NodeView::Def { symbol, expr } => {
                    let (r2, st2, log2) = eval_s(st1, *expr, (f - 1) as nat, log1);
                    match r2 {
                        Err(e) => (Err(e), st2, log2),
                        Ok(v) => (
                            Ok(v),
                            StateView {
                                bindings: bind(st2.bindings, key_in(st2.current, symbol), v),
                                ..st2
                            },
                            log2,
                        ),
                    }
                },
                NodeView::Call { symbol, args } => eval_call_s(
                    st1,
                    m,
                    symbol,
                    args,
                    (f - 1) as nat,
                    log1,
                ),
                NodeView::Let { bindings, body } => {
                    let (r2, c2, log2) = let_bind_s(
                        chained_spec(st1),
                        bindings,
                        0,
                        (f - 1) as nat,
                        log1,
                    );
                    match r2 {
                        Err(e) => (Err(e), st1, log2),
                        Ok(_) => {
                            let (r3, c3, log3) = body_s(c2, body, 0, nil(), (f - 1) as nat, log2);
                            (r3, st1, log3)
                        },
                    }
                },
                _ => (Ok(m), st1, log1),
            },
        }
    }
}

/// Binds the `let` bindings from pair `k` on, in order, each name to the
/// value of its expression in the chained state.
pub open spec fn let_bind_s(st: StateView, b: Seq<NodeView>, k: nat, f: nat, log: Seq<Answer>) -> Out<()>
    decreases f, b.len() + 1 - 2 * k,
{
    if 2 * k >= b.len() {
        (Ok(()), st, log)
    } else {
        let first = b[2 * k as int];
        let last = if 2 * k + 1 < b.len() {
            b[(2 * k + 1) as int]
        } else {
            b[2 * k as int]
        };
        match first {
            NodeView::Symbol(q) => {
                let (r, st1, log1) = eval_s(st, last, f, log);
                match r {
                    Err(e) => (Err(e), st1, log1),
                    Ok(v) => let_bind_s(
                        StateView { bindings: bind(st1.bindings, key_in(st1.current, q), v), ..st1 },
                        b,
                        k + 1,
                        f,
                        log1,
                    ),
                }
            },
            _ => let_bind_s(st, b, k + 1, f, log),
        }
    }
}

/// Evaluates a body from index `i` on; the result is that of the last form,
/// or `last` when none is left.
pub open spec fn body_s(
    st: StateView,
    body: Seq<NodeView>,
    i: nat,
    last: NodeView,
    f: nat,
    log: Seq<Answer>,
) -> Out<NodeView>
    decreases f, body.len() - i,
{
    if i >= body.len() {
        (Ok(last), st, log)
    } else {
        let (r, st1, log1) = eval_s(st, body[i as int], f, log);
        match r {
            Err(e) => (Err(e), st1, log1),
            Ok(v) => body_s(st1, body, i + 1, v, f, log1),
        }
    }
}

/// Evaluates the arguments from index `i` on, after the values `acc`.
pub open spec fn eval_args_s(
    st: StateView,
    args: Seq<NodeView>,
    i: nat,
    acc: Seq<NodeView>,
    f: nat,
    log: Seq<Answer>,
) -> Out<Seq<NodeView>>
    decreases f, args.len() - i,
{
    if i >= args.len() {
        (Ok(acc), st, log)
    } else {
        let (r, st1, log1) = eval_s(st, args[i as int], f, log);
        match r {
            Err(e) => (Err(e), st1, log1),
            Ok(v) => eval_args_s(st1, args, i + 1, acc.push(v), f, log1),
        }
    }
}

/// Folds `op` over the arguments from index `i` on, from `acc`: each must
/// evaluate to a number.
pub open spec fn fold_s(
    st: StateView,
    args: Seq<NodeView>,
    i: nat,
    acc: NumV,
    op: ArithOp,
    f: nat,
    log: Seq<Answer>,
) -> Out<NodeView>
    decreases f, args.len() - i,
{
    if i >= args.len() {
        (Ok(num_node(acc)), st, log)
    } else {
        let (r, st1, log1) = eval_s(st, args[i as int], f, log);
        match r {
            Err(e) => (Err(e), st1, log1),
            Ok(v) => match as_num(v) {
                None => (Err(EvalErrorView::IncorrectType(args[i as int])), st1, log1),
                Some(n) => match ask(log1, arith_query(op, acc, n)) {
                    Some((Reply::Number(m), log2)) => fold_s(st1, args, i + 1, m, op, f, log2),
                    _ => (Err(EvalErrorView::Unanswered), st1, log1),
                },
            },
        }
    }
}

/// Checks that `op` holds between each pair of neighbouring arguments from
/// index `i` on, `temp` being the value before: stops at the first pair for
/// which it does not.
pub open spec fn chain_s(
    st: StateView,
    args: Seq<NodeView>,
    i: nat,
    temp: NumV,
    op: Relation,
    f: nat,
    log: Seq<Answer>,
) -> Out<NodeView>
    decreases f, args.len() - i,
{
    if i >= args.len() {
        (Ok(NodeView::Bool(true)), st, log)
    } else {
        let (r, st1, log1) = eval_s(st, args[i as int], f, log);
        match r {
            Err(e) => (Err(e), st1, log1),
            Ok(v) => match as_num(v) {
                None => (Err(EvalErrorView::IncorrectType(args[i as int])), st1, log1),
                Some(n) => match ask(log1, relation_query(op, temp, n)) {
                    Some((Reply::Truth(b), log2)) => if b {
                        chain_s(st1, args, i + 1, n, op, f, log2)
                    } else {
                        (Ok(NodeView::Bool(false)), st1, log2)
                    },
                    _ => (Err(EvalErrorView::Unanswered), st1, log1),
                },
            },
        }
    }
}

/// Evaluates the first argument, which must be a number.
pub open spec fn first_num_s(st: StateView, args: Seq<NodeView>, f: nat, log: Seq<Answer>) -> Out<NumV>
    decreases f, args.len() + 1,
{
    let (r, st1, log1) = eval_s(st, args[0], f, log);
    match r {
        Err(e) => (Err(e), st1, log1),
        Ok(v) => match as_num(v) {
            None => (Err(EvalErrorView::IncorrectType(args[0])), st1, log1),
            Some(n) => (Ok(n), st1, log1),
        },
    }
}

/// `-` and `/`: with one argument, its negation (or reciprocal); with more,
/// the first minus (or divided by) the others in turn.
pub open spec fn minus_div_s(
    st: StateView,
    node: NodeView,
    args: Seq<NodeView>,
    is_div: bool,
    f: nat,
    log: Seq<Answer>,
) -> Out<NodeView>
    decreases f, args.len() + 2,
{
    if args.len() < 1 {
        (Err(EvalErrorView::IncorrectNumber(node)), st, log)
    } else {
        let (r, st1, log1) = first_num_s(st, args, f, log);
        match r {
            Err(e) => (Err(e), st1, log1),
            Ok(v) => {
                let op = if is_div {
                    ArithOp::Div
                } else {
                    ArithOp::Sub
                };
                if args.len() == 1 {
                    let q = if is_div {
                        Query::Recip(v)
                    } else {
                        Query::Neg(v)
                    };
                    match ask(log1, q) {
                        Some((Reply::Number(m), log2)) => fold_s(st1, args, 1, m, op, f, log2),
                        _ => (Err(EvalErrorView::Unanswered), st1, log1),
                    }
                } else {
                    fold_s(st1, args, 1, v, op, f, log1)
                }
            },
        }
    }
}

/// `<`, `>` and `=`: at least one argument, all numbers.
pub open spec fn compare_s(
    st: StateView,
    node: NodeView,
    args: Seq<NodeView>,
    op: Relation,
    f: nat,
    log: Seq<Answer>,
) -> Out<NodeView>
    decreases f, args.len() + 2,
{
    if args.len() < 1 {
        (Err(EvalErrorView::IncorrectNumber(node)), st, log)
    } else {
        let (r, st1, log1) = first_num_s(st, args, f, log);
        match r {
            Err(e) => (Err(e), st1, log1),
            Ok(v) => chain_s(st1, args, 1, v, op, f, log1),
        }
    }
}

/// Evaluates a call: a builtin when the called name (in any namespace) is
/// one, else the function or macro that the symbol names.
pub open spec fn eval_call_s(
    st: StateView,
    node: NodeView,
    symbol: QName,
    args: Seq<NodeView>,
    f: nat,
    log: Seq<Answer>,
) -> Out<NodeView>
    decreases f, 2nat,
{
    if f == 0 {
        (Err(EvalErrorView::DepthLimit), st, log)
    } else {
        let g = (f - 1) as nat;
        let name = symbol.name;
        if name == seq!['+'] {
            fold_s(st, args, 0, zero(), ArithOp::Add, g, log)
        } else if name == seq!['-'] {
            minus_div_s(st, node, args, false, g, log)
        } else if name == seq!['*'] {
            fold_s(st, args, 0, one(), ArithOp::Mul, g, log)
        } else if name == seq!['/'] {
            minus_div_s(st, node, args, true, g, log)
        } else if name == seq!['<'] {
            compare_s(st, node, args, Relation::Less, g, log)
        } else if name == seq!['>'] {
            compare_s(st, node, args, Relation::Greater, g, log)
        } else if name == seq!['='] {
            compare_s(st, node, args, Relation::Equal, g, log)
        } else if name == seq!['i', 'f'] {
            if_s(st, node, args, f, log)
        } else if name == s_quote() || name == s_syntax_quote() {
            if args.len() == 1 {
                eval_quoted_s(st, args[0], g, log)
            } else {
                (Err(EvalErrorView::IncorrectNumber(node)), st, log)
            }
        } else if name == s_unquote() || name == s_unquote_splicing() {
            if args.len() == 1 {
                eval_s(st, args[0], g, log)
            } else {
                (Err(EvalErrorView::IncorrectNumber(node)), st, log)
            }
        } else if name == seq!['e', 'v', 'a', 'l'] {
            eval_twice_s(st, node, args, f, log)
        } else if name == seq!['a', 'p', 'p', 'l', 'y'] {
            apply_s(st, node, args, f, log)
        } else if name == seq!['g', 'e', 'n', 's', 'y', 'm'] {
            gensym_s(st, node, args, log)
        } else if name == seq!['i', 'n', '-', 'n', 's'] {
            in_ns_s(st, node, args, f, log)
        } else if name == seq!['l', 'o', 'a', 'd'] {
            load_call_s(st, node, args, f, log)
        } else if name == seq!['r', 'e', 'f', 'e', 'r'] {
            refer_s(st, node, args, log)
        } else {
            call_custom_s(st, node, symbol, args, f, log)
        }
    }
}

/// `if`: exactly three arguments; the second is evaluated when the first
/// is anything but `false`, else the third.
pub open spec fn if_s(st: StateView, node: NodeView, args: Seq<NodeView>, f: nat, log: Seq<Answer>) -> Out<NodeView>
    decreases f, 0nat,
{
    if f == 0 {
        (Err(EvalErrorView::DepthLimit), st, log)
    } else if args.len() == 3 {
        let g = (f - 1) as nat;
        let (r, st1, log1) = eval_s(st, args[0], g, log);
        match r {
            Err(e) => (Err(e), st1, log1),
            Ok(c) => if c != NodeView::Bool(false) {
                eval_s(st1, args[1], g, log1)
            } else {
                eval_s(st1, args[2], g, log1)
            },
        }
    } else {
        (Err(EvalErrorView::IncorrectNumber(node)), st, log)
    }
}

/// `eval`: one argument, whose value is evaluated again.
pub open spec fn eval_twice_s(st: StateView, node: NodeView, args: Seq<NodeView>, f: nat, log: Seq<Answer>) -> Out<NodeView>
    decreases f, 0nat,
{
    if f == 0 {
        (Err(EvalErrorView::DepthLimit), st, log)
    } else if args.len() == 1 {
        let g = (f - 1) as nat;
        let (r, st1, log1) = eval_s(st, args[0], g, log);
        match r {
            Err(e) => (Err(e), st1, log1),
            Ok(v) => eval_s(st1, v, g, log1),
        }
    } else {
        (Err(EvalErrorView::IncorrectNumber(node)), st, log)
    }
}

/// `apply`: a symbol and an argument that evaluates to a vector; calls the
/// symbol with the vector's elements.
pub open spec fn apply_s(st: StateView, node: NodeView, args: Seq<NodeView>, f: nat, log: Seq<Answer>) -> Out<NodeView>
    decreases f, 0nat,
{
    if f == 0 {
        (Err(EvalErrorView::DepthLimit), st, log)
    } else if args.len() == 2 {
        let g = (f - 1) as nat;
        match args[0] {
            NodeView::Symbol(s) => {
                let (r, st1, log1) = eval_s(st, args[1], g, log);
                match r {
                    Err(e) => (Err(e), st1, log1),
                    Ok(NodeView::Vec(v)) => eval_s(st1, NodeView::Call { symbol: s, args: v }, g, log1),
                    Ok(_) => (Err(EvalErrorView::IncorrectType(args[1])), st1, log1),
                }
            },
            _ => (Err(EvalErrorView::IncorrectType(args[0])), st, log),
        }
    } else {
        (Err(EvalErrorView::IncorrectNumber(node)), st, log)
    }
}

/// `gensym`: one string argument; a fresh symbol made of the string and the
/// state's counter, which then moves on.
pub open spec fn gensym_s(st: StateView, node: NodeView, args: Seq<NodeView>, log: Seq<Answer>) -> Out<NodeView> {
    if args.len() == 1 {
        match args[0] {
            NodeView::String(s) => (
                Ok(NodeView::Symbol(plain(s + id_text(st.id)))),
                StateView { id: next_id_spec(st.id), ..st },
                log,
            ),
            _ => (Err(EvalErrorView::IncorrectType(args[0])), st, log),
        }
    } else {
        (Err(EvalErrorView::IncorrectNumber(node)), st, log)
    }
}

/// `in-ns`: one argument that evaluates to a symbol, whose name becomes the
/// current namespace; the result names the namespace left.
pub open spec fn in_ns_s(st: StateView, node: NodeView, args: Seq<NodeView>, f: nat, log: Seq<Answer>) -> Out<NodeView>
    decreases f, 0nat,
{
    if f == 0 {
        (Err(EvalErrorView::DepthLimit), st, log)
    } else if args.len() == 1 {
        let g = (f - 1) as nat;
        let (r, st1, log1) = eval_s(st, args[0], g, log);
        match r {
            Err(e) => (Err(e), st1, log1),
            Ok(NodeView::Symbol(q)) => (
                Ok(NodeView::Symbol(plain(st1.current))),
                StateView { current: q.name, ..st1 },
                log1,
            ),
            Ok(_) => (Err(EvalErrorView::IncorrectType(args[0])), st1, log1),
        }
    } else {
        (Err(EvalErrorView::IncorrectNumber(node)), st, log)
    }
}

/// `load`: one argument that evaluates to a path; each form of the file is
/// evaluated in turn. A path that names no file is an argument of the wrong
/// type; a file that cannot be read gives the reader's message.
pub open spec fn load_call_s(st: StateView, node: NodeView, args: Seq<NodeView>, f: nat, log: Seq<Answer>) -> Out<NodeView>
    decreases f, 0nat,
{
    if f == 0 {
        (Err(EvalErrorView::DepthLimit), st, log)
    } else if args.len() == 1 {
        let g = (f - 1) as nat;
        let (r, st1, log1) = eval_s(st, args[0], g, log);
        match r {
            Err(e) => (Err(e), st1, log1),
            Ok(NodeView::String(p)) => match ask(log1, Query::ReadFile(p)) {
                Some((Reply::File(None), log2)) => (
                    Err(EvalErrorView::IncorrectType(NodeView::String(p))),
                    st1,
                    log2,
                ),
                Some((Reply::File(Some(Err(msg))), log2)) => (Err(EvalErrorView::Io(msg)), st1, log2),
                Some((Reply::File(Some(Ok(text))), log2)) => if text.len() + 4 <= usize::MAX {
                    load_s(st1, text, LexState { pos: 0, finished: false }, nil(), g, log2)
                } else {
                    (Err(EvalErrorView::Io(Seq::empty())), st1, log2)
                },
                _ => (Err(EvalErrorView::Unanswered), st1, log1),
            },
            Ok(_) => (Err(EvalErrorView::IncorrectType(args[0])), st1, log1),
        }
    } else {
        (Err(EvalErrorView::IncorrectNumber(node)), st, log)
    }
}

/// `refer`: two symbols; the first is bound, in the current namespace, to an
/// alias of the second, which must be qualified.
pub open spec fn refer_s(st: StateView, node: NodeView, args: Seq<NodeView>, log: Seq<Answer>) -> Out<NodeView> {
    if args.len() == 2 {
        match args[0] {
            NodeView::Symbol(s) => match args[1] {
                NodeView::Symbol(t) => if t.ns is Some {
                    (
                        Ok(nil()),
                        StateView {
                            bindings: bind(st.bindings, key_in(st.current, s), NodeView::Alias(t)),
                            ..st
                        },
                        log,
                    )
                } else {
                    (Err(EvalErrorView::IncorrectType(args[1])), st, log)
                },
                _ => (Err(EvalErrorView::IncorrectType(args[1])), st, log),
            },
            _ => (Err(EvalErrorView::IncorrectType(args[0])), st, log),
        }
    } else {
        (Err(EvalErrorView::IncorrectNumber(node)), st, log)
    }
}

/// The text of a counter value.
pub open spec fn id_text(id: nat) -> Seq<char> {
    crate::lexer::error::nat_text(id)
}

/// The counter after `id`, wrapping at the machine limit.
pub open spec fn next_id_spec(id: nat) -> nat {
    if id >= usize::MAX {
        0
    } else {
        id + 1
    }
}

/// Evaluates each form of a loaded text in turn; the result is the last
/// value, or `last` when no form is left.
pub open spec fn load_s(
    st: StateView,
    text: Seq<char>,
    ls: LexState,
    last: NodeView,
    f: nat,
    log: Seq<Answer>,
) -> Out<NodeView>
    decreases f, measure(text, ls),
{
    let (p, ls1) = parse_top_spec(text, ls);
    match p {
        None => (Ok(last), st, log),
        Some(Err(e)) => (Err(EvalErrorView::Parser(e)), st, log),
        Some(Ok(n)) => {
            let (r, st1, log1) = eval_s(st, n, f, log);
            match r {
                Err(e) => (Err(e), st1, log1),
                Ok(v) => if measure(text, ls1) < measure(text, ls) {
                    load_s(st1, text, ls1, v, f, log1)
                } else {
                    (Ok(v), st1, log1)
                },
            }
        },
    }
}

/// Binds parameters to values, pair by pair, in a chained state; a
/// parameter that is not a symbol is an error.
pub open spec fn bind_params_s(st: StateView, params: Seq<NodeView>, vals: Seq<NodeView>, i: nat) -> Result<
    StateView,
    EvalErrorView,
>
    decreases params.len() - i,
{
    if i >= params.len() || i >= vals.len() {
        Ok(st)
    } else {
        match params[i as int] {
            NodeView::Symbol(q) => bind_params_s(
                StateView { bindings: bind(st.bindings, key_in(st.current, q), vals[i as int]), ..st },
                params,
                vals,
                i + 1,
            ),
            _ => Err(EvalErrorView::IncorrectType(params[i as int])),
        }
    }
}

/// Calls the function or macro that `symbol` names.
pub open spec fn call_custom_s(
    st: StateView,
    node: NodeView,
    symbol: QName,
    args: Seq<NodeView>,
    f: nat,
    log: Seq<Answer>,
) -> Out<NodeView>
    decreases f, 1nat,
{
    match get_spec(st, symbol) {
        None => (Err(EvalErrorView::Resolve(symbol.name)), st, log),
        Some(NodeView::Fn { params, body }) => call_fn_s(st, node, args, params, body, f, log),
        Some(NodeView::Macro { params, body }) => call_macro_s(st, node, args, params, body, f, log),
        Some(_) => (Err(EvalErrorView::IncorrectType(node)), st, log),
    }
}

/// Calls a function: the arguments are evaluated, bound to the parameters
/// in a state chained to this one, and the body evaluated there.
pub open spec fn call_fn_s(
    st: StateView,
    node: NodeView,
    args: Seq<NodeView>,
    params: Seq<NodeView>,
    body: Seq<NodeView>,
    f: nat,
    log: Seq<Answer>,
) -> Out<NodeView>
    decreases f, 0nat,
{
    if f == 0 {
        (Err(EvalErrorView::DepthLimit), st, log)
    } else if args.len() != params.len() {
        (Err(EvalErrorView::IncorrectNumber(node)), st, log)
    } else {
        let g = (f - 1) as nat;
        let (r, st1, log1) = eval_args_s(st, args, 0, Seq::empty(), g, log);
        match r {
            Err(e) => (Err(e), st1, log1),
            Ok(vals) => match bind_params_s(chained_spec(st1), params, vals, 0) {
                Err(e) => (Err(e), st1, log1),
                Ok(c) => {
                    let (r2, c2, log2) = body_s(c, body, 0, nil(), g, log1);
                    (r2, st1, log2)
                },
            },
        }
    }
}

/// Calls a macro: the arguments, as written, are bound to the parameters in
/// a state chained to this one, the body is evaluated there, and its value
/// expanded there.
pub open spec fn call_macro_s(
    st: StateView,
    node: NodeView,
    args: Seq<NodeView>,
    params: Seq<NodeView>,
    body: Seq<NodeView>,
    f: nat,
    log: Seq<Answer>,
) -> Out<NodeView>
    decreases f, 0nat,
{
    if f == 0 {
        (Err(EvalErrorView::DepthLimit), st, log)
    } else if args.len() != params.len() {
        (Err(EvalErrorView::IncorrectNumber(node)), st, log)
    } else {
        let g = (f - 1) as nat;
        match bind_params_s(chained_spec(st), params, args, 0) {
            Err(e) => (Err(e), st, log),
            Ok(c) => {
                let (r2, c2, log2) = body_s(c, body, 0, nil(), g, log);
                match r2 {
                    Err(e) => (Err(e), st, log2),
                    Ok(v) => {
                        let (r3, c3, log3) = expand_s(c2, v, g, log2);
                        (r3, st, log3)
                    },
                }
            },
        }
    }
}

/// Evaluates a quoted form: symbols stand for themselves, lists are walked
/// (splicing the lists that `unquote-splicing` calls evaluate to), anything
/// else is evaluated.
pub open spec fn eval_quoted_s(st: StateView, n: NodeView, f: nat, log: Seq<Answer>) -> Out<NodeView>
    decreases f, 0nat,
{
    if f == 0 {
        (Err(EvalErrorView::DepthLimit), st, log)
    } else {
        match n {
            NodeView::Symbol(_) => (Ok(n), st, log),
            NodeView::List(l) => {
                let (r, st1, log1) = quoted_elems_s(st, l, 0, Seq::empty(), (f - 1) as nat, log);
                match r {
                    Err(e) => (Err(e), st1, log1),
                    Ok(v) => (Ok(NodeView::List(v)), st1, log1),
                }
            },
            _ => eval_s(st, n, (f - 1) as nat, log),
        }
    }
}

/// The elements of a quoted list from index `i` on, after `acc`.
pub open spec fn quoted_elems_s(
    st: StateView,
    l: Seq<NodeView>,
    i: nat,
    acc: Seq<NodeView>,
    f: nat,
    log: Seq<Answer>,
) -> Out<Seq<NodeView>>
    decreases f, l.len() - i,
{
    if i >= l.len() {
        (Ok(acc), st, log)
    } else {
        let e = l[i as int];
        if is_splice_call(e) {
            let (r, st1, log1) = eval_s(st, e, f, log);
            match r {
                Err(er) => (Err(er), st1, log1),
                Ok(NodeView::List(items)) => quoted_elems_s(st1, l, i + 1, acc + items, f, log1),
                Ok(_) => (Err(EvalErrorView::IncorrectType(e)), st1, log1),
            }
        } else {
            let (r, st1, log1) = eval_quoted_s(st, e, f, log);
            match r {
                Err(er) => (Err(er), st1, log1),
                Ok(v) => quoted_elems_s(st1, l, i + 1, acc.push(v), f, log1),
            }
        }
    }
}

/// Expands a node: a non-empty list headed by a symbol becomes a special
/// form or a call (a macro call is evaluated now); a list headed by
/// anything else is an error; other nodes stand for themselves.
pub open spec fn expand_s(st: StateView, n: NodeView, f: nat, log: Seq<Answer>) -> Out<NodeView>
    decreases f, 1nat,
{
    if f == 0 {
        (Err(EvalErrorView::DepthLimit), st, log)
    } else {
        match n {
            NodeView::List(l) => if l.len() == 0 {
                (Ok(n), st, log)
            } else {
                match l[0] {
                    NodeView::Symbol(s) => {
                        let name = s.name;
                        if name == s_def() {
                            expand_def_s(st, n, l, f, log)
                        } else if name == s_fn() || name == s_macro() {
                            expand_fn_s(st, n, l, name == s_fn(), f, log)
                        } else if name == s_quote() || name == s_syntax_quote() {
                            expand_quote_s(st, n, l, name, f, log)
                        } else if name == s_unquote() || name == s_unquote_splicing() {
                            expand_unquote_s(st, n, l, name, f, log)
                        } else if name == s_let() {
                            expand_let_s(st, n, l, f, log)
                        } else {
                            expand_call_s(st, l, s, f, log)
                        }
                    },
                    _ => (Err(EvalErrorView::Dispatch(l[0])), st, log),
                }
            },
            _ => (Ok(n), st, log),
        }
    }
}

/// `(def name expr)`: a definition of the plain name, with `expr` expanded.
pub open spec fn expand_def_s(st: StateView, n: NodeView, l: Seq<NodeView>, f: nat, log: Seq<Answer>) -> Out<NodeView>
    decreases f, 0nat,
{
    if f == 0 {
        (Err(EvalErrorView::DepthLimit), st, log)
    } else if l.len() == 3 {
        match l[1] {
            NodeView::Symbol(q) => {
                let (r, st1, log1) = expand_s(st, l[2], (f - 1) as nat, log);
                match r {
                    Err(e) => (Err(e), st1, log1),
                    Ok(e) => (Ok(NodeView::Def { symbol: plain(q.name), expr: Box::new(e) }), st1, log1),
                }
            },
            _ => (Err(EvalErrorView::IncorrectType(l[1])), st, log),
        }
    } else {
        (Err(EvalErrorView::IncorrectNumber(n)), st, log)
    }
}

/// `(fn [params] body...)` (or `macro`, if not `is_fn`): parameters and body
/// expanded.
pub open spec fn expand_fn_s(st: StateView, n: NodeView, l: Seq<NodeView>, is_fn: bool, f: nat, log: Seq<Answer>) -> Out<
    NodeView,
>
    decreases f, 0nat,
{
    if f == 0 {
        (Err(EvalErrorView::DepthLimit), st, log)
    } else if l.len() >= 3 {
        let g = (f - 1) as nat;
        match l[1] {
            NodeView::Vec(params) => {
                let (r, st1, log1) = expand_all_s(st, params, 0, Seq::empty(), g, log);
                match r {
                    Err(e) => (Err(e), st1, log1),
                    Ok(ps) => {
                        let (r2, st2, log2) = expand_all_s(st1, l, 2, Seq::empty(), g, log1);
                        match r2 {
                            Err(e) => (Err(e), st2, log2),
                            Ok(bs) => (
                                Ok(if is_fn {
                                    NodeView::Fn { params: ps, body: bs }
                                } else {
                                    NodeView::Macro { params: ps, body: bs }
                                }),
                                st2,
                                log2,
                            ),
                        }
                    },
                }
            },
            _ => (Err(EvalErrorView::IncorrectType(l[1])), st, log),
        }
    } else {
        (Err(EvalErrorView::IncorrectNumber(n)), st, log)
    }
}

/// `(quote form)` or `(syntax-quote form)`: a call of `name` on the form,
/// expanded as quoted.
pub open spec fn expand_quote_s(st: StateView, n: NodeView, l: Seq<NodeView>, name: Seq<char>, f: nat, log: Seq<Answer>) -> Out<
    NodeView,
>
    decreases f, 0nat,
{
    if f == 0 {
        (Err(EvalErrorView::DepthLimit), st, log)
    } else if l.len() == 2 {
        let (r, st1, log1) = expand_quoted_s(st, l[1], name != s_quote(), (f - 1) as nat, log);
        match r {
            Err(e) => (Err(e), st1, log1),
            Ok(e) => (Ok(NodeView::Call { symbol: plain(name), args: seq![e] }), st1, log1),
        }
    } else {
        (Err(EvalErrorView::IncorrectNumber(n)), st, log)
    }
}

/// `(unquote form)` or `(unquote-splicing form)`: a call of `name` on the
/// expanded form.
pub open spec fn expand_unquote_s(st: StateView, n: NodeView, l: Seq<NodeView>, name: Seq<char>, f: nat, log: Seq<Answer>) -> Out<
    NodeView,
>
    decreases f, 0nat,
{
    if f == 0 {
        (Err(EvalErrorView::DepthLimit), st, log)
    } else if l.len() == 2 {
        let (r, st1, log1) = expand_s(st, l[1], (f - 1) as nat, log);
        match r {
            Err(e) => (Err(e), st1, log1),
            Ok(e) => (Ok(NodeView::Call { symbol: plain(name), args: seq![e] }), st1, log1),
        }
    } else {
        (Err(EvalErrorView::IncorrectNumber(n)), st, log)
    }
}

/// `(let [name expr ...] body...)`: an even number of binding forms, each
/// name a symbol; expressions and body expanded.
pub open spec fn expand_let_s(st: StateView, n: NodeView, l: Seq<NodeView>, f: nat, log: Seq<Answer>) -> Out<NodeView>
    decreases f, 0nat,
{
    if f == 0 {
        (Err(EvalErrorView::DepthLimit), st, log)
    } else if l.len() >= 3 {
        let g = (f - 1) as nat;
        match l[1] {
            NodeView::Vec(v) => if v.len() % 2 == 0 {
                let (r, st1, log1) = expand_pairs_s(st, n, v, 0, Seq::empty(), g, log);
                match r {
                    Err(e) => (Err(e), st1, log1),
                    Ok(bs) => {
                        let (r2, st2, log2) = expand_all_s(st1, l, 2, Seq::empty(), g, log1);
                        match r2 {
                            Err(e) => (Err(e), st2, log2),
                            Ok(body) => (Ok(NodeView::Let { bindings: bs, body }), st2, log2),
                        }
                    },
                }
            } else {
                (Err(EvalErrorView::IncorrectNumber(n)), st, log)
            },
            _ => (Err(EvalErrorView::IncorrectType(n)), st, log),
        }
    } else {
        (Err(EvalErrorView::IncorrectNumber(n)), st, log)
    }
}

/// A call `(s args...)`: the arguments expanded; when `s` names a macro the
/// call is evaluated now.
pub open spec fn expand_call_s(st: StateView, l: Seq<NodeView>, s: QName, f: nat, log: Seq<Answer>) -> Out<NodeView>
    decreases f, 0nat,
{
    if f == 0 {
        (Err(EvalErrorView::DepthLimit), st, log)
    } else {
        let g = (f - 1) as nat;
        let (r, st1, log1) = expand_all_s(st, l, 1, Seq::empty(), g, log);
        match r {
            Err(e) => (Err(e), st1, log1),
            Ok(args) => {
                let call = NodeView::Call { symbol: s, args };
                if get_spec(st1, s) matches Some(NodeView::Macro { .. }) {
                    eval_s(st1, call, g, log1)
                } else {
                    (Ok(call), st1, log1)
                }
            },
        }
    }
}

/// Expands the nodes of `s` from index `i` on, after `acc`.
pub open spec fn expand_all_s(
    st: StateView,
    s: Seq<NodeView>,
    i: nat,
    acc: Seq<NodeView>,
    f: nat,
    log: Seq<Answer>,
) -> Out<Seq<NodeView>>
    decreases f, s.len() + 1 - i,
{
    if i >= s.len() {
        (Ok(acc), st, log)
    } else {
        let (r, st1, log1) = expand_s(st, s[i as int], f, log);
        match r {
            Err(e) => (Err(e), st1, log1),
            Ok(v) => expand_all_s(st1, s, i + 1, acc.push(v), f, log1),
        }
    }
}

/// Expands the `let` binding pairs from pair `k` on: each name must be a
/// symbol, each expression is expanded.
pub open spec fn expand_pairs_s(
    st: StateView,
    node: NodeView,
    v: Seq<NodeView>,
    k: nat,
    acc: Seq<NodeView>,
    f: nat,
    log: Seq<Answer>,
) -> Out<Seq<NodeView>>
    decreases f, v.len() + 2 - 2 * k,
{
    if 2 * k + 1 >= v.len() {
        (Ok(acc), st, log)
    } else {
        match v[2 * k as int] {
            NodeView::Symbol(_) => {
                let (r, st1, log1) = expand_s(st, v[(2 * k + 1) as int], f, log);
                match r {
                    Err(e) => (Err(e), st1, log1),
                    Ok(e) => expand_pairs_s(
                        st1,
                        node,
                        v,
                        k + 1,
                        acc.push(v[2 * k as int]).push(e),
                        f,
                        log1,
                    ),
                }
            },
            _ => (Err(EvalErrorView::IncorrectType(node)), st, log),
        }
    }
}

/// Expands a quoted form (a syntax-quoted one when `syntax`): lists headed
/// by `unquote` or `unquote-splicing` are expanded, other non-empty lists
/// walked; under syntax quote an unqualified symbol is qualified by the
/// current namespace; anything else is expanded.
pub open spec fn expand_quoted_s(st: StateView, n: NodeView, syntax: bool, f: nat, log: Seq<Answer>) -> Out<
    NodeView,
>
    decreases f, 0nat,
{
    if f == 0 {
        (Err(EvalErrorView::DepthLimit), st, log)
    } else {
        let g = (f - 1) as nat;
        match n {
            NodeView::Symbol(q) => if syntax && q.ns is None {
                (Ok(NodeView::Symbol(QName { ns: Some(st.current), name: q.name })), st, log)
            } else {
                expand_s(st, n, g, log)
            },
            NodeView::List(l) => if l.len() > 0 {
                if is_unquote_symbol(l[0]) {
                    expand_s(st, n, g, log)
                } else {
                    let (r, st1, log1) = expand_quoted_all_s(st, l, syntax, 0, Seq::empty(), g, log);
                    match r {
                        Err(e) => (Err(e), st1, log1),
                        Ok(v) => (Ok(NodeView::List(v)), st1, log1),
                    }
                }
            } else {
                expand_s(st, n, g, log)
            },
            _ => expand_s(st, n, g, log),
        }
    }
}

/// Expands the elements of a quoted list from index `i` on, after `acc`.
pub open spec fn expand_quoted_all_s(
    st: StateView,
    s: Seq<NodeView>,
    syntax: bool,
    i: nat,
    acc: Seq<NodeView>,
    f: nat,
    log: Seq<Answer>,
) -> Out<Seq<NodeView>>
    decreases f, s.len() - i,
{
    if i >= s.len() {
        (Ok(acc), st, log)
    } else {
        let (r, st1, log1) = expand_quoted_s(st, s[i as int], syntax, f, log);
        match r {
            Err(e) => (Err(e), st1, log1),
            Ok(v) => expand_quoted_all_s(st1, s, syntax, i + 1, acc.push(v), f, log1),
        }
    }
}

} // verus!
