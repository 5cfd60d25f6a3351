//! Evaluation: expanding special forms and macros, then evaluating the
//! result, each step proved to follow the definitions in `semantics`.
//!
//! Arithmetic on numbers and reading files are left to a `Host`. Every
//! question put to the host is recorded, with its reply, in a ghost log; the
//! contracts say that the result is what the definitions give for that log,
//! and that each reply in it came from a call of the host method that its
//! question names, on the question's own arguments.

use vstd::prelude::*;
use crate::ast::{Node, NodeView, nodes_view, node_clone, symbol_clone, lemma_nodes_view_len};
use crate::ast::nodes;
use crate::ast::nodes::Symbol;
use crate::number::Number;
use crate::parser::{Parser, LexState, measure};
use crate::state::{State, StateView};
use crate::state::error::EvalError;
use crate::state::host::{Host, num_v, file_view, backed, answered};
use crate::state::semantics::{
    NumV,
    Query,
    Reply,
    Answer,
    EvalErrorView,
    ask,
    zero,
    one,
    nil,
    ArithOp,
    Relation,
    arith_query,
    relation_query,
    s_def,
    s_fn,
    s_macro,
    s_quote,
    s_syntax_quote,
    s_unquote,
    s_unquote_splicing,
    s_let,
    is_unquote_symbol,
    is_splice_call,
    eval_s,
    let_bind_s,
    body_s,
    eval_args_s,
    fold_s,
    chain_s,
    first_num_s,
    minus_div_s,
    compare_s,
    eval_call_s,
    if_s,
    eval_twice_s,
    apply_s,
    gensym_s,
    in_ns_s,
    load_call_s,
    refer_s,
    load_s,
    bind_params_s,
    call_custom_s,
    call_fn_s,
    call_macro_s,
    eval_quoted_s,
    quoted_elems_s,
    expand_s,
    expand_def_s,
    expand_fn_s,
    expand_quote_s,
    expand_unquote_s,
    expand_let_s,
    expand_call_s,
    expand_all_s,
    expand_pairs_s,
    expand_quoted_s,
    expand_quoted_all_s,
};
#[allow(unused_imports)]
use crate::text;

verus! {

/// What evaluation gives: a node, or an error.
pub type EvalResult = Result<Node, EvalError>;

/// The view of an evaluation result.
pub open spec fn rv(r: EvalResult) -> Result<NodeView, EvalErrorView> {
    match r {
        Ok(n) => Ok(n@),
        Err(e) => Err(e@),
    }
}

/// The view of a result that holds nodes.
pub open spec fn rvs(r: Result<Vec<Node>, EvalError>) -> Result<Seq<NodeView>, EvalErrorView> {
    match r {
        Ok(v) => Ok(nodes_view(v@)),
        Err(e) => Err(e@),
    }
}

/// The view of a result that holds nothing.
pub open spec fn rvu(r: Result<(), EvalError>) -> Result<(), EvalErrorView> {
    match r {
        Ok(_) => Ok(()),
        Err(e) => Err(e@),
    }
}

/// The view of a result that holds a number.
pub open spec fn rvn(r: Result<Number, EvalError>) -> Result<NumV, EvalErrorView> {
    match r {
        Ok(n) => Ok(num_v(n)),
        Err(e) => Err(e@),
    }
}

broadcast use crate::state::semantics::group_log, crate::state::host::group_answered;

/// Appending one node appends its view.
pub proof fn lemma_nodes_view_push(s: Seq<Node>, x: Node)
    ensures
        nodes_view(s.push(x)) == nodes_view(s).push(x@),
{
    assert(s.push(x).drop_last() =~= s);
}

/// The views of two node sequences concatenate.
pub proof fn lemma_nodes_view_add(a: Seq<Node>, b: Seq<Node>)
    ensures
        nodes_view(a + b) == nodes_view(a) + nodes_view(b),
    decreases b.len(),
{
    if b.len() == 0 {
        assert(a + b =~= a);
        assert(nodes_view(b) =~= Seq::<NodeView>::empty());
        assert(nodes_view(a) + nodes_view(b) =~= nodes_view(a));
    } else {
        lemma_nodes_view_add(a, b.drop_last());
        assert((a + b).drop_last() =~= a + b.drop_last());
        assert((a + b).last() == b.last());
        assert(nodes_view(a + b) =~= nodes_view(a) + nodes_view(b));
    }
}

/// The names that evaluation treats specially, as text.
proof fn lemma_names()
    ensures
        "+"@ == seq!['+'],
        "-"@ == seq!['-'],
        "*"@ == seq!['*'],
        "/"@ == seq!['/'],
        "<"@ == seq!['<'],
        ">"@ == seq!['>'],
        "="@ == seq!['='],
        "if"@ == seq!['i', 'f'],
        "eval"@ == seq!['e', 'v', 'a', 'l'],
        "apply"@ == seq!['a', 'p', 'p', 'l', 'y'],
        "gensym"@ == seq!['g', 'e', 'n', 's', 'y', 'm'],
        "in-ns"@ == seq!['i', 'n', '-', 'n', 's'],
        "load"@ == seq!['l', 'o', 'a', 'd'],
        "refer"@ == seq!['r', 'e', 'f', 'e', 'r'],
        "def"@ == s_def(),
        "fn"@ == s_fn(),
        "macro"@ == s_macro(),
        "quote"@ == s_quote(),
        "syntax-quote"@ == s_syntax_quote(),
        "unquote"@ == s_unquote(),
        "unquote-splicing"@ == s_unquote_splicing(),
        "let"@ == s_let(),
{
    reveal_strlit("+");
    reveal_strlit("-");
    reveal_strlit("*");
    reveal_strlit("/");
    reveal_strlit("<");
    reveal_strlit(">");
    reveal_strlit("=");
    reveal_strlit("if");
    reveal_strlit("eval");
    reveal_strlit("apply");
    reveal_strlit("gensym");
    reveal_strlit("in-ns");
    reveal_strlit("load");
    reveal_strlit("refer");
    reveal_strlit("def");
    reveal_strlit("fn");
    reveal_strlit("macro");
    reveal_strlit("quote");
    reveal_strlit("syntax-quote");
    reveal_strlit("unquote");
    reveal_strlit("unquote-splicing");
    reveal_strlit("let");
    assert("+"@ =~= seq!['+']);
    assert("-"@ =~= seq!['-']);
    assert("*"@ =~= seq!['*']);
    assert("/"@ =~= seq!['/']);
    assert("<"@ =~= seq!['<']);
    assert(">"@ =~= seq!['>']);
    assert("="@ =~= seq!['=']);
    assert("if"@ =~= seq!['i', 'f']);
    assert("eval"@ =~= seq!['e', 'v', 'a', 'l']);
    assert("apply"@ =~= seq!['a', 'p', 'p', 'l', 'y']);
    assert("gensym"@ =~= seq!['g', 'e', 'n', 's', 'y', 'm']);
    assert("in-ns"@ =~= seq!['i', 'n', '-', 'n', 's']);
    assert("load"@ =~= seq!['l', 'o', 'a', 'd']);
    assert("refer"@ =~= seq!['r', 'e', 'f', 'e', 'r']);
    assert("def"@ =~= s_def());
    assert("fn"@ =~= s_fn());
    assert("macro"@ =~= s_macro());
    assert("quote"@ =~= s_quote());
    assert("syntax-quote"@ =~= s_syntax_quote());
    assert("unquote"@ =~= s_unquote());
    assert("unquote-splicing"@ =~= s_unquote_splicing());
    assert("let"@ =~= s_let());
}

/// Whether `name` reads `lit`.
fn name_is(name: &String, lit: &str) -> (r: bool)
    ensures
        r == (name@ == lit@),
{
    let t = lit.to_string();
    proof {
        broadcast use vstd::string::group_string_axioms;
    }
    *name == t
}

/// The empty list.
fn nil_node() -> (n: Node)
    ensures
        n@ == nil(),
{
    let n = Node::List(Vec::new());
    assert(nodes_view(Seq::<Node>::empty()) =~= Seq::<NodeView>::empty());
    n
}

/// The boolean node `b`.
fn bool_node(b: bool) -> (n: Node)
    ensures
        n@ == NodeView::Bool(b),
{
    Node::Bool(nodes::Bool { value: b })
}

/// Asks the host for `a op b`, calling the method that `op` names.
fn ask_arith<H: Host>(host: &H, op: ArithOp, a: &Number, b: &Number) -> (out: (Number, Ghost<Answer>))
    ensures
        out.1@ == (arith_query(op, num_v(*a), num_v(*b)), Reply::Number(num_v(out.0))),
        backed(host, out.1@),
{
    let r = match op {
        ArithOp::Add => {
            let f = H::add;
            f(host, a, b)
        },
        ArithOp::Sub => {
            let f = H::sub;
            f(host, a, b)
        },
        ArithOp::Mul => {
            let f = H::mul;
            f(host, a, b)
        },
        ArithOp::Div => {
            let f = H::div;
            f(host, a, b)
        },
    };
    (r, Ghost((arith_query(op, num_v(*a), num_v(*b)), Reply::Number(num_v(r)))))
}

/// Asks the host for `-a` (or `1 / a`, if `recip`).
fn ask_unary<H: Host>(host: &H, recip: bool, a: &Number) -> (out: (Number, Ghost<Answer>))
    ensures
        out.1@ == (if recip {
            Query::Recip(num_v(*a))
        } else {
            Query::Neg(num_v(*a))
        }, Reply::Number(num_v(out.0))),
        backed(host, out.1@),
{
    let r = if recip {
        let f = H::recip;
        f(host, a)
    } else {
        let f = H::neg;
        f(host, a)
    };
    let ghost q = if recip {
        Query::Recip(num_v(*a))
    } else {
        Query::Neg(num_v(*a))
    };
    (r, Ghost((q, Reply::Number(num_v(r)))))
}

/// Asks the host whether `a op b`, calling the method that `op` names.
fn ask_relation<H: Host>(host: &H, op: Relation, a: &Number, b: &Number) -> (out: (bool, Ghost<Answer>))
    ensures
        out.1@ == (relation_query(op, num_v(*a), num_v(*b)), Reply::Truth(out.0)),
        backed(host, out.1@),
{
    let r = match op {
        Relation::Less => {
            let f = H::less;
            f(host, a, b)
        },
        Relation::Greater => {
            let f = H::greater;
            f(host, a, b)
        },
        Relation::Equal => {
            let f = H::equal;
            f(host, a, b)
        },
    };
    (r, Ghost((relation_query(op, num_v(*a), num_v(*b)), Reply::Truth(r))))
}

/// Asks the host for the file at `path`.
fn ask_file<H: Host>(host: &H, path: &String) -> (out: (Option<Result<String, String>>, Ghost<Answer>))
    ensures
        out.1@ == (Query::ReadFile(path@), Reply::File(file_view(out.0))),
        backed(host, out.1@),
{
    let p = path.as_str();
    let f = H::read_file;
    let r = f(host, p);
    (r, Ghost((Query::ReadFile(path@), Reply::File(file_view(r)))))
}


impl<'s> State<'s> {
    /// Evaluates `n` with fuel `f`: expands it, then evaluates the result.
    fn eval_node<H: Host>(&mut self, host: &H, n: &Node, f: usize) -> (out: (EvalResult, Ghost<Seq<Answer>>))
        ensures
            answered(host, out.1@),
            forall|rest: Seq<Answer>| #[trigger]
                eval_s(old(self)@, n@, f as nat, out.1@ + rest) == (rv(out.0), final(self)@, rest),
        decreases f, 0nat,
    {
        let ghost st0 = self@;
        if f == 0 {
            proof {
                assert forall|rest: Seq<Answer>|
                    #[trigger] eval_s(st0, n@, f as nat, Seq::<Answer>::empty() + rest)
                        == (Err::<NodeView, EvalErrorView>(EvalErrorView::DepthLimit), st0, rest) by {
                    assert(Seq::<Answer>::empty() + rest == rest);
                }
            }
            return (Err(EvalError::DepthLimitExceeded), Ghost(Seq::empty()));
        }
        let g = f - 1;
        assert(g as nat == (f - 1) as nat);
        let (r, Ghost(c1)) = self.expand_node(host, n, g);
        let ghost st1 = self@;
        let m = match r {
            Err(e) => {
                proof {
                    assert forall|rest: Seq<Answer>|
                        #[trigger] eval_s(st0, n@, f as nat, c1 + rest)
                            == (Err::<NodeView, EvalErrorView>(e@), st1, rest) by {
                        assert(expand_s(st0, n@, g as nat, c1 + rest)
                            == (Err::<NodeView, EvalErrorView>(e@), st1, rest));
                    }
                }
                return (Err(e), Ghost(c1));
            },
            Ok(m) => m,
        };
        let ghost mv = m@;
        assert forall|rest: Seq<Answer>|
            #[trigger] expand_s(st0, n@, g as nat, c1 + rest)
                == (Ok::<NodeView, EvalErrorView>(mv), st1, rest) by {}
        match &m {
            Node::Symbol(q) => {
                match self.get(q) {
                    Some(x) => {
                        let v = x.clone();
                        proof {
                            assert forall|rest: Seq<Answer>|
                                #[trigger] eval_s(st0, n@, f as nat, c1 + rest)
                                    == (Ok::<NodeView, EvalErrorView>(v@), st1, rest) by {
                                assert(expand_s(st0, n@, g as nat, c1 + rest)
                                    == (Ok::<NodeView, EvalErrorView>(mv), st1, rest));
                            }
                        }
                        (Ok(v), Ghost(c1))
                    },
                    None => {
                        let e = EvalError::ResolveError(q.name.clone());
                        proof {
                            assert forall|rest: Seq<Answer>|
                                #[trigger] eval_s(st0, n@, f as nat, c1 + rest)
                                    == (Err::<NodeView, EvalErrorView>(e@), st1, rest) by {
                                assert(expand_s(st0, n@, g as nat, c1 + rest)
                                    == (Ok::<NodeView, EvalErrorView>(mv), st1, rest));
                            }
                        }
                        (Err(e), Ghost(c1))
                    },
                }
            },
            Node::Def(d) => {
                let (r2, Ghost(c2)) = self.eval_node(host, &d.expr, g);
                let ghost st2 = self@;
                match r2 {
                    Err(e) => {
                        proof {
                            assert forall|rest: Seq<Answer>|
                                #[trigger] eval_s(st0, n@, f as nat, (c1 + c2) + rest)
                                    == (Err::<NodeView, EvalErrorView>(e@), st2, rest) by {
                                assert((c1 + c2) + rest == c1 + (c2 + rest));
                                assert(expand_s(st0, n@, g as nat, c1 + (c2 + rest))
                                    == (Ok::<NodeView, EvalErrorView>(mv), st1, c2 + rest));
                                assert(eval_s(st1, (*d.expr)@, g as nat, c2 + rest)
                                    == (Err::<NodeView, EvalErrorView>(e@), st2, rest));
                            }
                        }
                        (Err(e), Ghost(c1 + c2))
                    },
                    Ok(v) => {
                        let _ = self.insert(symbol_clone(&d.symbol), v.clone());
                        proof {
                            assert forall|rest: Seq<Answer>|
                                #[trigger] eval_s(st0, n@, f as nat, (c1 + c2) + rest)
                                    == (Ok::<NodeView, EvalErrorView>(v@), self@, rest) by {
                                assert((c1 + c2) + rest == c1 + (c2 + rest));
                                assert(expand_s(st0, n@, g as nat, c1 + (c2 + rest))
                                    == (Ok::<NodeView, EvalErrorView>(mv), st1, c2 + rest));
                                assert(eval_s(st1, (*d.expr)@, g as nat, c2 + rest)
                                    == (Ok::<NodeView, EvalErrorView>(v@), st2, rest));
                            }
                        }
                        (Ok(v), Ghost(c1 + c2))
                    },
                }
            },
            Node::Call(c) => {
                let (r2, Ghost(c2)) = self.eval_call(host, &m, &c.symbol, &c.args, g);
                proof {
                    assert forall|rest: Seq<Answer>|
                        #[trigger] eval_s(st0, n@, f as nat, (c1 + c2) + rest)
                            == (rv(r2), self@, rest) by {
                        assert((c1 + c2) + rest == c1 + (c2 + rest));
                        assert(expand_s(st0, n@, g as nat, c1 + (c2 + rest))
                            == (Ok::<NodeView, EvalErrorView>(mv), st1, c2 + rest));
                        assert(eval_call_s(st1, mv, c.symbol@, nodes_view(c.args@), g as nat, c2 + rest)
                            == (rv(r2), self@, rest));
                    }
                }
                (r2, Ghost(c1 + c2))
            },
            Node::Let(l) => {
                let mut ch = State::new_chained(&*self);
                let ghost ch0 = ch@;
                let (r2, Ghost(c2)) = ch.let_bind(host, &l.bindings, 0, g);
                let ghost ch1 = ch@;
                match r2 {
                    Err(e) => {
                        proof {
                            assert forall|rest: Seq<Answer>|
                                #[trigger] eval_s(st0, n@, f as nat, (c1 + c2) + rest)
                                    == (Err::<NodeView, EvalErrorView>(e@), st1, rest) by {
                                assert((c1 + c2) + rest == c1 + (c2 + rest));
                                assert(expand_s(st0, n@, g as nat, c1 + (c2 + rest))
                                    == (Ok::<NodeView, EvalErrorView>(mv), st1, c2 + rest));
                                assert(let_bind_s(ch0, nodes_view(l.bindings@), 0, g as nat, c2 + rest)
                                    == (Err::<(), EvalErrorView>(e@), ch1, rest));
                            }
                        }
                        (Err(e), Ghost(c1 + c2))
                    },
                    Ok(_) => {
                        let (r3, Ghost(c3)) = ch.body(host, &l.body, 0, nil_node(), g);
                        proof {
                            assert forall|rest: Seq<Answer>|
                                #[trigger] eval_s(st0, n@, f as nat, ((c1 + c2) + c3) + rest)
                                    == (rv(r3), st1, rest) by {
                                assert(((c1 + c2) + c3) + rest == c1 + (c2 + (c3 + rest)));
                                assert(expand_s(st0, n@, g as nat, c1 + (c2 + (c3 + rest)))
                                    == (Ok::<NodeView, EvalErrorView>(mv), st1, c2 + (c3 + rest)));
                                assert(let_bind_s(ch0, nodes_view(l.bindings@), 0, g as nat, c2 + (c3 + rest))
                                    == (Ok::<(), EvalErrorView>(()), ch1, c3 + rest));
                                assert(body_s(ch1, nodes_view(l.body@), 0, nil(), g as nat, c3 + rest)
                                    == (rv(r3), ch@, rest));
                            }
                        }
                        (r3, Ghost(c1 + c2 + c3))
                    },
                }
            },
            _ => {
                proof {
                    assert forall|rest: Seq<Answer>|
                        #[trigger] eval_s(st0, n@, f as nat, c1 + rest)
                            == (Ok::<NodeView, EvalErrorView>(mv), st1, rest) by {
                        assert(expand_s(st0, n@, g as nat, c1 + rest)
                            == (Ok::<NodeView, EvalErrorView>(mv), st1, rest));
                    }
                }
                (Ok(m), Ghost(c1))
            },
        }
    }

    /// Binds the `let` pairs from pair `k` on.
    fn let_bind<H: Host>(&mut self, host: &H, b: &Vec<Node>, k: usize, f: usize) -> (out: (
        Result<(), EvalError>,
        Ghost<Seq<Answer>>,
    ))
        requires
            k <= b@.len(),
        ensures
            answered(host, out.1@),
            forall|rest: Seq<Answer>| #[trigger]
                let_bind_s(old(self)@, nodes_view(b@), k as nat, f as nat, out.1@ + rest) == (
                    rvu(out.0),
                    final(self)@,
                    rest,
                ),
        decreases f, b@.len() + 1 - 2 * k,
    {
        proof {
            lemma_nodes_view_len(b@);
        }
        let ghost st0 = self@;
        let ghost bv = nodes_view(b@);
        let len = b.len();
        if k >= len / 2 + len % 2 {
            proof {
                assert(2 * k >= len);
                assert forall|rest: Seq<Answer>|
                    #[trigger] let_bind_s(st0, bv, k as nat, f as nat, Seq::<Answer>::empty() + rest)
                        == (Ok::<(), EvalErrorView>(()), st0, rest) by {
                    assert(Seq::<Answer>::empty() + rest == rest);
                }
            }
            return (Ok(()), Ghost(Seq::empty()));
        }
        assert(2 * k < len);
        let j = 2 * k;
        let last = if j + 1 < len {
            j + 1
        } else {
            j
        };
        match &b[j] {
            Node::Symbol(q) => {
                let (r, Ghost(c1)) = self.eval_node(host, &b[last], f);
                let ghost st1 = self@;
                match r {
                    Err(e) => {
                        proof {
                            assert forall|rest: Seq<Answer>|
                                #[trigger] let_bind_s(st0, bv, k as nat, f as nat, c1 + rest)
                                    == (Err::<(), EvalErrorView>(e@), st1, rest) by {
                                assert(eval_s(st0, bv[last as int], f as nat, c1 + rest)
                                    == (Err::<NodeView, EvalErrorView>(e@), st1, rest));
                            }
                        }
                        (Err(e), Ghost(c1))
                    },
                    Ok(v) => {
                        let ghost vv = v@;
                        let _ = self.insert(symbol_clone(q), v);
                        let ghost st2 = self@;
                        let (r2, Ghost(c2)) = self.let_bind(host, b, k + 1, f);
                        proof {
                            assert forall|rest: Seq<Answer>|
                                #[trigger] let_bind_s(st0, bv, k as nat, f as nat, (c1 + c2) + rest)
                                    == (rvu(r2), self@, rest) by {
                                assert((c1 + c2) + rest == c1 + (c2 + rest));
                                assert(eval_s(st0, bv[last as int], f as nat, c1 + (c2 + rest))
                                    == (Ok::<NodeView, EvalErrorView>(vv), st1, c2 + rest));
                                assert(let_bind_s(st2, bv, (k + 1) as nat, f as nat, c2 + rest)
                                    == (rvu(r2), self@, rest));
                            }
                        }
                        (r2, Ghost(c1 + c2))
                    },
                }
            },
            _ => {
                let (r2, Ghost(c2)) = self.let_bind(host, b, k + 1, f);
                proof {
                    assert forall|rest: Seq<Answer>|
                        #[trigger] let_bind_s(st0, bv, k as nat, f as nat, c2 + rest)
                            == (rvu(r2), self@, rest) by {
                        assert(let_bind_s(st0, bv, (k + 1) as nat, f as nat, c2 + rest)
                            == (rvu(r2), self@, rest));
                    }
                }
                (r2, Ghost(c2))
            },
        }
    }

    /// Evaluates a body from index `i` on; `last` is the value so far.
    fn body<H: Host>(&mut self, host: &H, body: &Vec<Node>, i: usize, last: Node, f: usize) -> (out: (
        EvalResult,
        Ghost<Seq<Answer>>,
    ))
        requires
            i <= body@.len(),
        ensures
            answered(host, out.1@),
            forall|rest: Seq<Answer>| #[trigger]
                body_s(old(self)@, nodes_view(body@), i as nat, last@, f as nat, out.1@ + rest) == (
                    rv(out.0),
                    final(self)@,
                    rest,
                ),
        decreases f, body@.len() - i,
    {
        proof {
            lemma_nodes_view_len(body@);
        }
        if i >= body.len() {
            return (Ok(last), Ghost(Seq::empty()));
        }
        let ghost st0 = self@;
        let ghost bv = nodes_view(body@);
        let (r, Ghost(c1)) = self.eval_node(host, &body[i], f);
        let ghost st1 = self@;
        match r {
            Err(e) => {
                proof {
                    assert forall|rest: Seq<Answer>|
                        #[trigger] body_s(st0, bv, i as nat, last@, f as nat, c1 + rest)
                            == (Err::<NodeView, EvalErrorView>(e@), self@, rest) by {
                        assert(bv[i as int] == body@[i as int]@);
                        assert(eval_s(st0, bv[i as int], f as nat, c1 + rest)
                            == (Err::<NodeView, EvalErrorView>(e@), st1, rest));
                        assert(i < bv.len());
                    }
                }
                (Err(e), Ghost(c1))
            },
            Ok(v) => {
                let ghost vv = v@;
                let (r2, Ghost(c2)) = self.body(host, body, i + 1, v, f);
                proof {
                    assert forall|rest: Seq<Answer>|
                        #[trigger] body_s(st0, bv, i as nat, last@, f as nat, (c1 + c2) + rest)
                            == (rv(r2), self@, rest) by {
                        assert((c1 + c2) + rest == c1 + (c2 + rest));
                        assert(bv[i as int] == body@[i as int]@);
                        assert(eval_s(st0, bv[i as int], f as nat, c1 + (c2 + rest))
                            == (Ok::<NodeView, EvalErrorView>(vv), st1, c2 + rest));
                        assert(body_s(st1, bv, (i + 1) as nat, vv, f as nat, c2 + rest)
                            == (rv(r2), self@, rest));
                    }
                }
                (r2, Ghost(c1 + c2))
            },
        }
    }

    /// Evaluates the arguments from index `i` on, after the values `acc`.
    fn eval_args<H: Host>(&mut self, host: &H, args: &Vec<Node>, i: usize, acc: Vec<Node>, f: usize) -> (out: (
        Result<Vec<Node>, EvalError>,
        Ghost<Seq<Answer>>,
    ))
        requires
            i <= args@.len(),
        ensures
            answered(host, out.1@),
            forall|rest: Seq<Answer>| #[trigger]
                eval_args_s(
                    old(self)@,
                    nodes_view(args@),
                    i as nat,
                    nodes_view(acc@),
                    f as nat,
                    out.1@ + rest,
                ) == (rvs(out.0), final(self)@, rest),
        decreases f, args@.len() - i,
    {
        proof {
            lemma_nodes_view_len(args@);
        }
        if i >= args.len() {
            return (Ok(acc), Ghost(Seq::empty()));
        }
        let ghost st0 = self@;
        let (r, Ghost(c1)) = self.eval_node(host, &args[i], f);
        match r {
            Err(e) => {
                proof {
                    assert forall|rest: Seq<Answer>|
                        #[trigger] eval_args_s(st0, nodes_view(args@), i as nat, nodes_view(acc@), f as nat, c1 + rest)
                            == (Err::<Seq<NodeView>, EvalErrorView>(e@), self@, rest) by {
                        assert(eval_s(st0, nodes_view(args@)[i as int], f as nat, c1 + rest)
                            == (Err::<NodeView, EvalErrorView>(e@), self@, rest));
                    }
                }
                (Err(e), Ghost(c1))
            },
            Ok(v) => {
                let ghost st1 = self@;
                let ghost acc0 = nodes_view(acc@);
                let mut acc = acc;
                proof {
                    lemma_nodes_view_push(acc@, v);
                }
                acc.push(v);
                let ghost acc1 = nodes_view(acc@);
                let (r2, Ghost(c2)) = self.eval_args(host, args, i + 1, acc, f);
                proof {
                    assert forall|rest: Seq<Answer>|
                        #[trigger] eval_args_s(st0, nodes_view(args@), i as nat, acc0, f as nat, (c1 + c2) + rest)
                            == (rvs(r2), self@, rest) by {
                        assert((c1 + c2) + rest == c1 + (c2 + rest));
                        assert(eval_s(st0, nodes_view(args@)[i as int], f as nat, c1 + (c2 + rest))
                            == (Ok::<NodeView, EvalErrorView>(acc1.last()), st1, c2 + rest));
                        assert(eval_args_s(st1, nodes_view(args@), (i + 1) as nat, acc1, f as nat, c2 + rest)
                            == (rvs(r2), self@, rest));
                    }
                }
                (r2, Ghost(c1 + c2))
            },
        }
    }

    /// Folds `op` over the arguments from index `i` on, from `acc`.
    fn fold<H: Host>(&mut self, host: &H, args: &Vec<Node>, i: usize, acc: Number, op: ArithOp, f: usize) -> (out: (
        EvalResult,
        Ghost<Seq<Answer>>,
    ))
        requires
            i <= args@.len(),
        ensures
            answered(host, out.1@),
            forall|rest: Seq<Answer>| #[trigger]
                fold_s(old(self)@, nodes_view(args@), i as nat, num_v(acc), op, f as nat, out.1@ + rest)
                    == (rv(out.0), final(self)@, rest),
        decreases f, args@.len() - i,
    {
        proof {
            lemma_nodes_view_len(args@);
        }
        let ghost st0 = self@;
        let ghost av = nodes_view(args@);
        let ghost accv = num_v(acc);
        if i >= args.len() {
            let res = Node::Number(acc);
            proof {
                assert forall|rest: Seq<Answer>|
                    #[trigger] fold_s(st0, av, i as nat, accv, op, f as nat, Seq::<Answer>::empty() + rest)
                        == (Ok::<NodeView, EvalErrorView>(res@), st0, rest) by {
                    assert(Seq::<Answer>::empty() + rest == rest);
                }
            }
            return (Ok(res), Ghost(Seq::empty()));
        }
        let (r, Ghost(c1)) = self.eval_node(host, &args[i], f);
        let ghost st1 = self@;
        match r {
            Err(e) => {
                proof {
                    assert forall|rest: Seq<Answer>|
                        #[trigger] fold_s(st0, av, i as nat, accv, op, f as nat, c1 + rest)
                            == (Err::<NodeView, EvalErrorView>(e@), st1, rest) by {
                        assert(eval_s(st0, av[i as int], f as nat, c1 + rest)
                            == (Err::<NodeView, EvalErrorView>(e@), st1, rest));
                    }
                }
                (Err(e), Ghost(c1))
            },
            Ok(Node::Number(x)) => {
                let ghost xv = num_v(x);
                let (m, Ghost(a)) = ask_arith(host, op, &acc, &x);
                let ghost mv = num_v(m);
                let (r2, Ghost(c2)) = self.fold(host, args, i + 1, m, op, f);
                proof {
                    assert forall|rest: Seq<Answer>|
                        #[trigger] fold_s(st0, av, i as nat, accv, op, f as nat, (c1 + (seq![a] + c2)) + rest)
                            == (rv(r2), self@, rest) by {
                        assert((c1 + (seq![a] + c2)) + rest == c1 + (seq![a] + (c2 + rest)));
                        assert(eval_s(st0, av[i as int], f as nat, c1 + (seq![a] + (c2 + rest)))
                            == (Ok::<NodeView, EvalErrorView>(NodeView::Number { negative: xv.negative, digits: xv.digits, scale: xv.scale }), st1, seq![a] + (c2 + rest)));
                        assert(ask(seq![a] + (c2 + rest), arith_query(op, accv, xv))
                            == Some((Reply::Number(mv), c2 + rest)));
                        assert(fold_s(st1, av, (i + 1) as nat, mv, op, f as nat, c2 + rest)
                            == (rv(r2), self@, rest));
                    }
                }
                (r2, Ghost(c1 + (seq![a] + c2)))
            },
            Ok(other) => {
                let e = EvalError::IncorrectTypeOfArgumentError(args[i].clone());
                proof {
                    assert forall|rest: Seq<Answer>|
                        #[trigger] fold_s(st0, av, i as nat, accv, op, f as nat, c1 + rest)
                            == (Err::<NodeView, EvalErrorView>(e@), st1, rest) by {
                        assert(eval_s(st0, av[i as int], f as nat, c1 + rest)
                            == (Ok::<NodeView, EvalErrorView>(other@), st1, rest));
                    }
                }
                (Err(e), Ghost(c1))
            },
        }
    }

    /// Checks `op` between neighbouring arguments from index `i` on, `temp`
    /// being the value before.
    fn chain<H: Host>(&mut self, host: &H, args: &Vec<Node>, i: usize, temp: Number, op: Relation, f: usize) -> (out: (
        EvalResult,
        Ghost<Seq<Answer>>,
    ))
        requires
            i <= args@.len(),
        ensures
            answered(host, out.1@),
            forall|rest: Seq<Answer>| #[trigger]
                chain_s(old(self)@, nodes_view(args@), i as nat, num_v(temp), op, f as nat, out.1@ + rest)
                    == (rv(out.0), final(self)@, rest),
        decreases f, args@.len() - i,
    {
        proof {
            lemma_nodes_view_len(args@);
        }
        let ghost st0 = self@;
        let ghost av = nodes_view(args@);
        let ghost tv = num_v(temp);
        if i >= args.len() {
            let res = bool_node(true);
            proof {
                assert forall|rest: Seq<Answer>|
                    #[trigger] chain_s(st0, av, i as nat, tv, op, f as nat, Seq::<Answer>::empty() + rest)
                        == (Ok::<NodeView, EvalErrorView>(res@), st0, rest) by {
                    assert(Seq::<Answer>::empty() + rest == rest);
                }
            }
            return (Ok(res), Ghost(Seq::empty()));
        }
        let (r, Ghost(c1)) = self.eval_node(host, &args[i], f);
        let ghost st1 = self@;
        match r {
            Err(e) => {
                proof {
                    assert forall|rest: Seq<Answer>|
                        #[trigger] chain_s(st0, av, i as nat, tv, op, f as nat, c1 + rest)
                            == (Err::<NodeView, EvalErrorView>(e@), st1, rest) by {
                        assert(eval_s(st0, av[i as int], f as nat, c1 + rest)
                            == (Err::<NodeView, EvalErrorView>(e@), st1, rest));
                    }
                }
                (Err(e), Ghost(c1))
            },
            Ok(Node::Number(x)) => {
                let ghost xv = num_v(x);
                let ghost xn = NodeView::Number { negative: xv.negative, digits: xv.digits, scale: xv.scale };
                let (b, Ghost(a)) = ask_relation(host, op, &temp, &x);
                if b {
                    let (r2, Ghost(c2)) = self.chain(host, args, i + 1, x, op, f);
                    proof {
                        assert forall|rest: Seq<Answer>|
                            #[trigger] chain_s(st0, av, i as nat, tv, op, f as nat, (c1 + (seq![a] + c2)) + rest)
                                == (rv(r2), self@, rest) by {
                            assert((c1 + (seq![a] + c2)) + rest == c1 + (seq![a] + (c2 + rest)));
                            assert(eval_s(st0, av[i as int], f as nat, c1 + (seq![a] + (c2 + rest)))
                                == (Ok::<NodeView, EvalErrorView>(xn), st1, seq![a] + (c2 + rest)));
                            assert(ask(seq![a] + (c2 + rest), relation_query(op, tv, xv))
                                == Some((Reply::Truth(true), c2 + rest)));
                            assert(chain_s(st1, av, (i + 1) as nat, xv, op, f as nat, c2 + rest)
                                == (rv(r2), self@, rest));
                        }
                    }
                    (r2, Ghost(c1 + (seq![a] + c2)))
                } else {
                    let res = bool_node(false);
                    proof {
                        assert forall|rest: Seq<Answer>|
                            #[trigger] chain_s(st0, av, i as nat, tv, op, f as nat, (c1 + seq![a]) + rest)
                                == (Ok::<NodeView, EvalErrorView>(res@), st1, rest) by {
                            assert((c1 + seq![a]) + rest == c1 + (seq![a] + rest));
                            assert(eval_s(st0, av[i as int], f as nat, c1 + (seq![a] + rest))
                                == (Ok::<NodeView, EvalErrorView>(xn), st1, seq![a] + rest));
                            assert(ask(seq![a] + rest, relation_query(op, tv, xv))
                                == Some((Reply::Truth(false), rest)));
                        }
                    }
                    (Ok(res), Ghost(c1 + seq![a]))
                }
            },
            Ok(other) => {
                let e = EvalError::IncorrectTypeOfArgumentError(args[i].clone());
                proof {
                    assert forall|rest: Seq<Answer>|
                        #[trigger] chain_s(st0, av, i as nat, tv, op, f as nat, c1 + rest)
                            == (Err::<NodeView, EvalErrorView>(e@), st1, rest) by {
                        assert(eval_s(st0, av[i as int], f as nat, c1 + rest)
                            == (Ok::<NodeView, EvalErrorView>(other@), st1, rest));
                    }
                }
                (Err(e), Ghost(c1))
            },
        }
    }

    /// Evaluates the first argument, which must be a number.
    fn first_num<H: Host>(&mut self, host: &H, args: &Vec<Node>, f: usize) -> (out: (
        Result<Number, EvalError>,
        Ghost<Seq<Answer>>,
    ))
        requires
            args@.len() >= 1,
        ensures
            answered(host, out.1@),
            forall|rest: Seq<Answer>| #[trigger]
                first_num_s(old(self)@, nodes_view(args@), f as nat, out.1@ + rest) == (
                    rvn(out.0),
                    final(self)@,
                    rest,
                ),
        decreases f, 1nat,
    {
        proof {
            lemma_nodes_view_len(args@);
        }
        let ghost st0 = self@;
        let ghost av = nodes_view(args@);
        let (r, Ghost(c1)) = self.eval_node(host, &args[0], f);
        let ghost st1 = self@;
        let res = match r {
            Err(e) => Err(e),
            Ok(Node::Number(x)) => Ok(x),
            Ok(_) => Err(EvalError::IncorrectTypeOfArgumentError(args[0].clone())),
        };
        proof {
            assert forall|rest: Seq<Answer>|
                #[trigger] first_num_s(st0, av, f as nat, c1 + rest)
                    == (rvn(res), st1, rest) by {
                assert(eval_s(st0, av[0], f as nat, c1 + rest) == (rv(r), st1, rest));
            }
        }
        (res, Ghost(c1))
    }

    /// `-` (or `/`, if `is_div`).
    fn minus_div<H: Host>(&mut self, host: &H, node: &Node, args: &Vec<Node>, is_div: bool, f: usize) -> (out: (
        EvalResult,
        Ghost<Seq<Answer>>,
    ))
        ensures
            answered(host, out.1@),
            forall|rest: Seq<Answer>| #[trigger]
                minus_div_s(old(self)@, node@, nodes_view(args@), is_div, f as nat, out.1@ + rest)
                    == (rv(out.0), final(self)@, rest),
        decreases f, args@.len() + 2,
    {
        proof {
            lemma_nodes_view_len(args@);
        }
        let ghost st0 = self@;
        let ghost av = nodes_view(args@);
        if args.len() < 1 {
            let e = EvalError::IncorrectNumberOfArgumentsError(node.clone());
            proof {
                assert forall|rest: Seq<Answer>|
                    #[trigger] minus_div_s(st0, node@, av, is_div, f as nat, Seq::<Answer>::empty() + rest)
                        == (Err::<NodeView, EvalErrorView>(e@), st0, rest) by {
                    assert(Seq::<Answer>::empty() + rest == rest);
                }
            }
            return (Err(e), Ghost(Seq::empty()));
        }
        let (r, Ghost(c1)) = self.first_num(host, args, f);
        let ghost st1 = self@;
        match r {
            Err(e) => {
                proof {
                    assert forall|rest: Seq<Answer>|
                        #[trigger] minus_div_s(st0, node@, av, is_div, f as nat, c1 + rest)
                            == (Err::<NodeView, EvalErrorView>(e@), st1, rest) by {
                        assert(first_num_s(st0, av, f as nat, c1 + rest)
                            == (Err::<NumV, EvalErrorView>(e@), st1, rest));
                    }
                }
                (Err(e), Ghost(c1))
            },
            Ok(v) => {
                let ghost vv = num_v(v);
                let op = if is_div {
                    ArithOp::Div
                } else {
                    ArithOp::Sub
                };
                if args.len() == 1 {
                    let (m, Ghost(a)) = ask_unary(host, is_div, &v);
                    let ghost mv = num_v(m);
                    let (r2, Ghost(c2)) = self.fold(host, args, 1, m, op, f);
                    proof {
                        assert forall|rest: Seq<Answer>|
                            #[trigger] minus_div_s(st0, node@, av, is_div, f as nat, (c1 + (seq![a] + c2)) + rest)
                                == (rv(r2), self@, rest) by {
                            assert((c1 + (seq![a] + c2)) + rest == c1 + (seq![a] + (c2 + rest)));
                            assert(first_num_s(st0, av, f as nat, c1 + (seq![a] + (c2 + rest)))
                                == (Ok::<NumV, EvalErrorView>(vv), st1, seq![a] + (c2 + rest)));
                            let q = if is_div {
                                Query::Recip(vv)
                            } else {
                                Query::Neg(vv)
                            };
                            assert(ask(seq![a] + (c2 + rest), q) == Some((Reply::Number(mv), c2 + rest)));
                            assert(fold_s(st1, av, 1, mv, op, f as nat, c2 + rest) == (rv(r2), self@, rest));
                        }
                    }
                    (r2, Ghost(c1 + (seq![a] + c2)))
                } else {
                    let (r2, Ghost(c2)) = self.fold(host, args, 1, v, op, f);
                    proof {
                        assert forall|rest: Seq<Answer>|
                            #[trigger] minus_div_s(st0, node@, av, is_div, f as nat, (c1 + c2) + rest)
                                == (rv(r2), self@, rest) by {
                            assert((c1 + c2) + rest == c1 + (c2 + rest));
                            assert(first_num_s(st0, av, f as nat, c1 + (c2 + rest))
                                == (Ok::<NumV, EvalErrorView>(vv), st1, c2 + rest));
                            assert(fold_s(st1, av, 1, vv, op, f as nat, c2 + rest) == (rv(r2), self@, rest));
                        }
                    }
                    (r2, Ghost(c1 + c2))
                }
            },
        }
    }

    /// `<`, `>` or `=`.
    fn compare<H: Host>(&mut self, host: &H, node: &Node, args: &Vec<Node>, op: Relation, f: usize) -> (out: (
        EvalResult,
        Ghost<Seq<Answer>>,
    ))
        ensures
            answered(host, out.1@),
            forall|rest: Seq<Answer>| #[trigger]
                compare_s(old(self)@, node@, nodes_view(args@), op, f as nat, out.1@ + rest) == (
                    rv(out.0),
                    final(self)@,
                    rest,
                ),
        decreases f, args@.len() + 2,
    {
        proof {
            lemma_nodes_view_len(args@);
        }
        let ghost st0 = self@;
        let ghost av = nodes_view(args@);
        if args.len() < 1 {
            let e = EvalError::IncorrectNumberOfArgumentsError(node.clone());
            proof {
                assert forall|rest: Seq<Answer>|
                    #[trigger] compare_s(st0, node@, av, op, f as nat, Seq::<Answer>::empty() + rest)
                        == (Err::<NodeView, EvalErrorView>(e@), st0, rest) by {
                    assert(Seq::<Answer>::empty() + rest == rest);
                }
            }
            return (Err(e), Ghost(Seq::empty()));
        }
        let (r, Ghost(c1)) = self.first_num(host, args, f);
        let ghost st1 = self@;
        match r {
            Err(e) => {
                proof {
                    assert forall|rest: Seq<Answer>|
                        #[trigger] compare_s(st0, node@, av, op, f as nat, c1 + rest)
                            == (Err::<NodeView, EvalErrorView>(e@), st1, rest) by {
                        assert(first_num_s(st0, av, f as nat, c1 + rest)
                            == (Err::<NumV, EvalErrorView>(e@), st1, rest));
                    }
                }
                (Err(e), Ghost(c1))
            },
            Ok(v) => {
                let ghost vv = num_v(v);
                let (r2, Ghost(c2)) = self.chain(host, args, 1, v, op, f);
                proof {
                    assert forall|rest: Seq<Answer>|
                        #[trigger] compare_s(st0, node@, av, op, f as nat, (c1 + c2) + rest)
                            == (rv(r2), self@, rest) by {
                        assert((c1 + c2) + rest == c1 + (c2 + rest));
                        assert(first_num_s(st0, av, f as nat, c1 + (c2 + rest))
                            == (Ok::<NumV, EvalErrorView>(vv), st1, c2 + rest));
                        assert(chain_s(st1, av, 1, vv, op, f as nat, c2 + rest) == (rv(r2), self@, rest));
                    }
                }
                (r2, Ghost(c1 + c2))
            },
        }
    }

    /// Evaluates the call `node` of `sym` with arguments `args`.
    fn eval_call<H: Host>(&mut self, host: &H, node: &Node, sym: &Symbol, args: &Vec<Node>, f: usize) -> (out: (
        EvalResult,
        Ghost<Seq<Answer>>,
    ))
        ensures
            answered(host, out.1@),
            forall|rest: Seq<Answer>| #[trigger]
                eval_call_s(old(self)@, node@, sym@, nodes_view(args@), f as nat, out.1@ + rest)
                    == (rv(out.0), final(self)@, rest),
        decreases f, 2nat,
    {
        proof {
            lemma_names();
            lemma_nodes_view_len(args@);
        }
        let ghost st0 = self@;
        let ghost av = nodes_view(args@);
        let ghost sv = sym@;
        if f == 0 {
            proof {
                assert forall|rest: Seq<Answer>|
                    #[trigger] eval_call_s(st0, node@, sv, av, f as nat, Seq::<Answer>::empty() + rest)
                        == (Err::<NodeView, EvalErrorView>(EvalErrorView::DepthLimit), st0, rest) by {
                    assert(Seq::<Answer>::empty() + rest == rest);
                }
            }
            return (Err(EvalError::DepthLimitExceeded), Ghost(Seq::empty()));
        }
        let g = f - 1;
        assert(g as nat == (f - 1) as nat);
        let name = &sym.name;
        if name_is(name, "+") {
            let z = Number::zero();
            assert(num_v(z) == zero());
            assert forall|log: Seq<Answer>|
                #[trigger] eval_call_s(st0, node@, sv, av, f as nat, log)
                    == fold_s(st0, av, 0, num_v(z), ArithOp::Add, g as nat, log) by {}
            self.fold(host, args, 0, z, ArithOp::Add, g)
        } else if name_is(name, "-") {
            assert forall|log: Seq<Answer>|
                #[trigger] eval_call_s(st0, node@, sv, av, f as nat, log)
                    == minus_div_s(st0, node@, av, false, g as nat, log) by {}
            self.minus_div(host, node, args, false, g)
        } else if name_is(name, "*") {
            let o = Number::one();
            assert(num_v(o) == one());
            assert forall|log: Seq<Answer>|
                #[trigger] eval_call_s(st0, node@, sv, av, f as nat, log)
                    == fold_s(st0, av, 0, num_v(o), ArithOp::Mul, g as nat, log) by {}
            self.fold(host, args, 0, o, ArithOp::Mul, g)
        } else if name_is(name, "/") {
            assert forall|log: Seq<Answer>|
                #[trigger] eval_call_s(st0, node@, sv, av, f as nat, log)
                    == minus_div_s(st0, node@, av, true, g as nat, log) by {}
            self.minus_div(host, node, args, true, g)
        } else if name_is(name, "<") {
            assert forall|log: Seq<Answer>|
                #[trigger] eval_call_s(st0, node@, sv, av, f as nat, log)
                    == compare_s(st0, node@, av, Relation::Less, g as nat, log) by {}
            self.compare(host, node, args, Relation::Less, g)
        } else if name_is(name, ">") {
            assert forall|log: Seq<Answer>|
                #[trigger] eval_call_s(st0, node@, sv, av, f as nat, log)
                    == compare_s(st0, node@, av, Relation::Greater, g as nat, log) by {}
            self.compare(host, node, args, Relation::Greater, g)
        } else if name_is(name, "=") {
            assert forall|log: Seq<Answer>|
                #[trigger] eval_call_s(st0, node@, sv, av, f as nat, log)
                    == compare_s(st0, node@, av, Relation::Equal, g as nat, log) by {}
            self.compare(host, node, args, Relation::Equal, g)
        } else if name_is(name, "if") {
            assert forall|log: Seq<Answer>|
                #[trigger] eval_call_s(st0, node@, sv, av, f as nat, log)
                    == if_s(st0, node@, av, f as nat, log) by {}
            self.call_if(host, node, args, f)
        } else if name_is(name, "quote") || name_is(name, "syntax-quote") {
            if args.len() == 1 {
                assert forall|log: Seq<Answer>|
                    #[trigger] eval_call_s(st0, node@, sv, av, f as nat, log)
                        == eval_quoted_s(st0, av[0], g as nat, log) by {}
                self.eval_quoted(host, &args[0], g)
            } else {
                let e = EvalError::IncorrectNumberOfArgumentsError(node.clone());
                proof {
                    assert forall|rest: Seq<Answer>|
                        #[trigger] eval_call_s(st0, node@, sv, av, f as nat, Seq::<Answer>::empty() + rest)
                            == (Err::<NodeView, EvalErrorView>(e@), st0, rest) by {
                        assert(Seq::<Answer>::empty() + rest == rest);
                    }
                }
                (Err(e), Ghost(Seq::empty()))
            }
        } else if name_is(name, "unquote") || name_is(name, "unquote-splicing") {
            if args.len() == 1 {
                assert forall|log: Seq<Answer>|
                    #[trigger] eval_call_s(st0, node@, sv, av, f as nat, log)
                        == eval_s(st0, av[0], g as nat, log) by {}
                self.eval_node(host, &args[0], g)
            } else {
                let e = EvalError::IncorrectNumberOfArgumentsError(node.clone());
                proof {
                    assert forall|rest: Seq<Answer>|
                        #[trigger] eval_call_s(st0, node@, sv, av, f as nat, Seq::<Answer>::empty() + rest)
                            == (Err::<NodeView, EvalErrorView>(e@), st0, rest) by {
                        assert(Seq::<Answer>::empty() + rest == rest);
                    }
                }
                (Err(e), Ghost(Seq::empty()))
            }
        } else if name_is(name, "eval") {
            assert forall|log: Seq<Answer>|
                #[trigger] eval_call_s(st0, node@, sv, av, f as nat, log)
                    == eval_twice_s(st0, node@, av, f as nat, log) by {}
            self.call_eval(host, node, args, f)
        } else if name_is(name, "apply") {
            assert forall|log: Seq<Answer>|
                #[trigger] eval_call_s(st0, node@, sv, av, f as nat, log)
                    == apply_s(st0, node@, av, f as nat, log) by {}
            self.call_apply(host, node, args, f)
        } else if name_is(name, "gensym") {
            assert forall|log: Seq<Answer>|
                #[trigger] eval_call_s(st0, node@, sv, av, f as nat, log)
                    == gensym_s(st0, node@, av, log) by {}
            self.call_gensym(node, args)
        } else if name_is(name, "in-ns") {
            assert forall|log: Seq<Answer>|
                #[trigger] eval_call_s(st0, node@, sv, av, f as nat, log)
                    == in_ns_s(st0, node@, av, f as nat, log) by {}
            self.call_in_ns(host, node, args, f)
        } else if name_is(name, "load") {
            assert forall|log: Seq<Answer>|
                #[trigger] eval_call_s(st0, node@, sv, av, f as nat, log)
                    == load_call_s(st0, node@, av, f as nat, log) by {}
            self.call_load(host, node, args, f)
        } else if name_is(name, "refer") {
            assert forall|log: Seq<Answer>|
                #[trigger] eval_call_s(st0, node@, sv, av, f as nat, log)
                    == refer_s(st0, node@, av, log) by {}
            self.call_refer(node, args)
        } else {
            assert forall|log: Seq<Answer>|
                #[trigger] eval_call_s(st0, node@, sv, av, f as nat, log)
                    == call_custom_s(st0, node@, sv, av, f as nat, log) by {}
            self.call_custom(host, node, sym, args, f)
        }
    }

    /// `if`.
    fn call_if<H: Host>(&mut self, host: &H, node: &Node, args: &Vec<Node>, f: usize) -> (out: (
        EvalResult,
        Ghost<Seq<Answer>>,
    ))
        ensures
            answered(host, out.1@),
            forall|rest: Seq<Answer>| #[trigger]
                if_s(old(self)@, node@, nodes_view(args@), f as nat, out.1@ + rest) == (
                    rv(out.0),
                    final(self)@,
                    rest,
                ),
        decreases f, 0nat,
    {
        proof {
            lemma_nodes_view_len(args@);
        }
        let ghost st0 = self@;
        let ghost av = nodes_view(args@);
        if f == 0 || args.len() != 3 {
            let e = if f == 0 {
                EvalError::DepthLimitExceeded
            } else {
                EvalError::IncorrectNumberOfArgumentsError(node.clone())
            };
            proof {
                assert forall|rest: Seq<Answer>|
                    #[trigger] if_s(st0, node@, av, f as nat, Seq::<Answer>::empty() + rest)
                        == (Err::<NodeView, EvalErrorView>(e@), st0, rest) by {
                    assert(Seq::<Answer>::empty() + rest == rest);
                }
            }
            return (Err(e), Ghost(Seq::empty()));
        }
        let g = f - 1;
        assert(g as nat == (f - 1) as nat);
        let (r, Ghost(c1)) = self.eval_node(host, &args[0], g);
        let ghost st1 = self@;
        match r {
            Err(e) => {
                proof {
                    assert forall|rest: Seq<Answer>|
                        #[trigger] if_s(st0, node@, av, f as nat, c1 + rest)
                            == (Err::<NodeView, EvalErrorView>(e@), st1, rest) by {
                        assert(eval_s(st0, av[0], g as nat, c1 + rest)
                            == (Err::<NodeView, EvalErrorView>(e@), st1, rest));
                    }
                }
                (Err(e), Ghost(c1))
            },
            Ok(c) => {
                let ghost cv = c@;
                let k: usize = if c.as_bool() {
                    1
                } else {
                    2
                };
                let (r2, Ghost(c2)) = self.eval_node(host, &args[k], g);
                proof {
                    assert forall|rest: Seq<Answer>|
                        #[trigger] if_s(st0, node@, av, f as nat, (c1 + c2) + rest)
                            == (rv(r2), self@, rest) by {
                        assert((c1 + c2) + rest == c1 + (c2 + rest));
                        assert(eval_s(st0, av[0], g as nat, c1 + (c2 + rest))
                            == (Ok::<NodeView, EvalErrorView>(cv), st1, c2 + rest));
                        assert(eval_s(st1, av[k as int], g as nat, c2 + rest) == (rv(r2), self@, rest));
                    }
                }
                (r2, Ghost(c1 + c2))
            },
        }
    }

    /// `eval`.
    fn call_eval<H: Host>(&mut self, host: &H, node: &Node, args: &Vec<Node>, f: usize) -> (out: (
        EvalResult,
        Ghost<Seq<Answer>>,
    ))
        ensures
            answered(host, out.1@),
            forall|rest: Seq<Answer>| #[trigger]
                eval_twice_s(old(self)@, node@, nodes_view(args@), f as nat, out.1@ + rest) == (
                    rv(out.0),
                    final(self)@,
                    rest,
                ),
        decreases f, 0nat,
    {
        proof {
            lemma_nodes_view_len(args@);
        }
        let ghost st0 = self@;
        let ghost av = nodes_view(args@);
        if f == 0 || args.len() != 1 {
            let e = if f == 0 {
                EvalError::DepthLimitExceeded
            } else {
                EvalError::IncorrectNumberOfArgumentsError(node.clone())
            };
            proof {
                assert forall|rest: Seq<Answer>|
                    #[trigger] eval_twice_s(st0, node@, av, f as nat, Seq::<Answer>::empty() + rest)
                        == (Err::<NodeView, EvalErrorView>(e@), st0, rest) by {
                    assert(Seq::<Answer>::empty() + rest == rest);
                }
            }
            return (Err(e), Ghost(Seq::empty()));
        }
        let g = f - 1;
        assert(g as nat == (f - 1) as nat);
        let (r, Ghost(c1)) = self.eval_node(host, &args[0], g);
        let ghost st1 = self@;
        match r {
            Err(e) => {
                proof {
                    assert forall|rest: Seq<Answer>|
                        #[trigger] eval_twice_s(st0, node@, av, f as nat, c1 + rest)
                            == (Err::<NodeView, EvalErrorView>(e@), st1, rest) by {
                        assert(eval_s(st0, av[0], g as nat, c1 + rest)
                            == (Err::<NodeView, EvalErrorView>(e@), st1, rest));
                    }
                }
                (Err(e), Ghost(c1))
            },
            Ok(v) => {
                let (r2, Ghost(c2)) = self.eval_node(host, &v, g);
                proof {
                    assert forall|rest: Seq<Answer>|
                        #[trigger] eval_twice_s(st0, node@, av, f as nat, (c1 + c2) + rest)
                            == (rv(r2), self@, rest) by {
                        assert((c1 + c2) + rest == c1 + (c2 + rest));
                        assert(eval_s(st0, av[0], g as nat, c1 + (c2 + rest))
                            == (Ok::<NodeView, EvalErrorView>(v@), st1, c2 + rest));
                        assert(eval_s(st1, v@, g as nat, c2 + rest) == (rv(r2), self@, rest));
                    }
                }
                (r2, Ghost(c1 + c2))
            },
        }
    }

    /// `apply`.
    fn call_apply<H: Host>(&mut self, host: &H, node: &Node, args: &Vec<Node>, f: usize) -> (out: (
        EvalResult,
        Ghost<Seq<Answer>>,
    ))
        ensures
            answered(host, out.1@),
            forall|rest: Seq<Answer>| #[trigger]
                apply_s(old(self)@, node@, nodes_view(args@), f as nat, out.1@ + rest) == (
                    rv(out.0),
                    final(self)@,
                    rest,
                ),
        decreases f, 0nat,
    {
        proof {
            lemma_nodes_view_len(args@);
        }
        let ghost st0 = self@;
        let ghost av = nodes_view(args@);
        if f == 0 || args.len() != 2 {
            let e = if f == 0 {
                EvalError::DepthLimitExceeded
            } else {
                EvalError::IncorrectNumberOfArgumentsError(node.clone())
            };
            proof {
                assert forall|rest: Seq<Answer>|
                    #[trigger] apply_s(st0, node@, av, f as nat, Seq::<Answer>::empty() + rest)
                        == (Err::<NodeView, EvalErrorView>(e@), st0, rest) by {
                    assert(Seq::<Answer>::empty() + rest == rest);
                }
            }
            return (Err(e), Ghost(Seq::empty()));
        }
        let g = f - 1;
        assert(g as nat == (f - 1) as nat);
        match &args[0] {
            Node::Symbol(s) => {
                let (r, Ghost(c1)) = self.eval_node(host, &args[1], g);
                let ghost st1 = self@;
                match r {
                    Err(e) => {
                        proof {
                            assert forall|rest: Seq<Answer>|
                                #[trigger] apply_s(st0, node@, av, f as nat, c1 + rest)
                                    == (Err::<NodeView, EvalErrorView>(e@), st1, rest) by {
                                assert(eval_s(st0, av[1], g as nat, c1 + rest)
                                    == (Err::<NodeView, EvalErrorView>(e@), st1, rest));
                            }
                        }
                        (Err(e), Ghost(c1))
                    },
                    Ok(Node::Vec(v)) => {
                        let ghost vv = nodes_view(v@);
                        let call = Node::Call(nodes::Call { symbol: symbol_clone(s), args: v });
                        let (r2, Ghost(c2)) = self.eval_node(host, &call, g);
                        proof {
                            assert forall|rest: Seq<Answer>|
                                #[trigger] apply_s(st0, node@, av, f as nat, (c1 + c2) + rest)
                                    == (rv(r2), self@, rest) by {
                                assert((c1 + c2) + rest == c1 + (c2 + rest));
                                assert(eval_s(st0, av[1], g as nat, c1 + (c2 + rest))
                                    == (Ok::<NodeView, EvalErrorView>(NodeView::Vec(vv)), st1, c2 + rest));
                                assert(call@ == NodeView::Call { symbol: s@, args: vv });
                                assert(eval_s(st1, call@, g as nat, c2 + rest) == (rv(r2), self@, rest));
                            }
                        }
                        (r2, Ghost(c1 + c2))
                    },
                    Ok(other) => {
                        let e = EvalError::IncorrectTypeOfArgumentError(args[1].clone());
                        proof {
                            assert forall|rest: Seq<Answer>|
                                #[trigger] apply_s(st0, node@, av, f as nat, c1 + rest)
                                    == (Err::<NodeView, EvalErrorView>(e@), st1, rest) by {
                                assert(eval_s(st0, av[1], g as nat, c1 + rest)
                                    == (Ok::<NodeView, EvalErrorView>(other@), st1, rest));
                            }
                        }
                        (Err(e), Ghost(c1))
                    },
                }
            },
            _ => {
                let e = EvalError::IncorrectTypeOfArgumentError(args[0].clone());
                proof {
                    assert forall|rest: Seq<Answer>|
                        #[trigger] apply_s(st0, node@, av, f as nat, Seq::<Answer>::empty() + rest)
                            == (Err::<NodeView, EvalErrorView>(e@), st0, rest) by {
                        assert(Seq::<Answer>::empty() + rest == rest);
                    }
                }
                (Err(e), Ghost(Seq::empty()))
            },
        }
    }

    /// `gensym`.
    fn call_gensym(&mut self, node: &Node, args: &Vec<Node>) -> (out: (EvalResult, Ghost<Seq<Answer>>))
        ensures
            out.1@ == Seq::<Answer>::empty(),
            forall|rest: Seq<Answer>| #[trigger]
                gensym_s(old(self)@, node@, nodes_view(args@), out.1@ + rest) == (
                    rv(out.0),
                    final(self)@,
                    rest,
                ),
    {
        proof {
            lemma_nodes_view_len(args@);
        }
        if args.len() != 1 {
            return (Err(EvalError::IncorrectNumberOfArgumentsError(node.clone())), Ghost(Seq::empty()));
        }
        match &args[0] {
            Node::String(s) => {
                let mut name = s.value.clone();
                let id = self.next_id();
                let t = Number::from_parts(false, id as u64, 0).to_string();
                name.append(t.as_str());
                (Ok(Node::Symbol(Symbol { ns: None, name })), Ghost(Seq::empty()))
            },
            _ => (Err(EvalError::IncorrectTypeOfArgumentError(args[0].clone())), Ghost(Seq::empty())),
        }
    }

    /// `in-ns`.
    fn call_in_ns<H: Host>(&mut self, host: &H, node: &Node, args: &Vec<Node>, f: usize) -> (out: (
        EvalResult,
        Ghost<Seq<Answer>>,
    ))
        ensures
            answered(host, out.1@),
            forall|rest: Seq<Answer>| #[trigger]
                in_ns_s(old(self)@, node@, nodes_view(args@), f as nat, out.1@ + rest) == (
                    rv(out.0),
                    final(self)@,
                    rest,
                ),
        decreases f, 0nat,
    {
        proof {
            lemma_nodes_view_len(args@);
        }
        let ghost st0 = self@;
        let ghost av = nodes_view(args@);
        if f == 0 || args.len() != 1 {
            let e = if f == 0 {
                EvalError::DepthLimitExceeded
            } else {
                EvalError::IncorrectNumberOfArgumentsError(node.clone())
            };
            proof {
                assert forall|rest: Seq<Answer>|
                    #[trigger] in_ns_s(st0, node@, av, f as nat, Seq::<Answer>::empty() + rest)
                        == (Err::<NodeView, EvalErrorView>(e@), st0, rest) by {
                    assert(Seq::<Answer>::empty() + rest == rest);
                }
            }
            return (Err(e), Ghost(Seq::empty()));
        }
        let g = f - 1;
        assert(g as nat == (f - 1) as nat);
        let (r, Ghost(c1)) = self.eval_node(host, &args[0], g);
        let ghost st1 = self@;
        match r {
            Err(e) => {
                proof {
                    assert forall|rest: Seq<Answer>|
                        #[trigger] in_ns_s(st0, node@, av, f as nat, c1 + rest)
                            == (Err::<NodeView, EvalErrorView>(e@), st1, rest) by {
                        assert(eval_s(st0, av[0], g as nat, c1 + rest)
                            == (Err::<NodeView, EvalErrorView>(e@), st1, rest));
                    }
                }
                (Err(e), Ghost(c1))
            },
            Ok(Node::Symbol(q)) => {
                let ghost qv = q@;
                let previous = self.set_current(q.name);
                let res = Node::Symbol(Symbol { ns: None, name: previous });
                proof {
                    assert forall|rest: Seq<Answer>|
                        #[trigger] in_ns_s(st0, node@, av, f as nat, c1 + rest)
                            == (Ok::<NodeView, EvalErrorView>(res@), self@, rest) by {
                        assert(eval_s(st0, av[0], g as nat, c1 + rest)
                            == (Ok::<NodeView, EvalErrorView>(NodeView::Symbol(qv)), st1, rest));
                    }
                }
                (Ok(res), Ghost(c1))
            },
            Ok(other) => {
                let e = EvalError::IncorrectTypeOfArgumentError(args[0].clone());
                proof {
                    assert forall|rest: Seq<Answer>|
                        #[trigger] in_ns_s(st0, node@, av, f as nat, c1 + rest)
                            == (Err::<NodeView, EvalErrorView>(e@), st1, rest) by {
                        assert(eval_s(st0, av[0], g as nat, c1 + rest)
                            == (Ok::<NodeView, EvalErrorView>(other@), st1, rest));
                    }
                }
                (Err(e), Ghost(c1))
            },
        }
    }

    /// `refer`.
    fn call_refer(&mut self, node: &Node, args: &Vec<Node>) -> (out: (EvalResult, Ghost<Seq<Answer>>))
        ensures
            out.1@ == Seq::<Answer>::empty(),
            forall|rest: Seq<Answer>| #[trigger]
                refer_s(old(self)@, node@, nodes_view(args@), out.1@ + rest) == (
                    rv(out.0),
                    final(self)@,
                    rest,
                ),
    {
        proof {
            lemma_nodes_view_len(args@);
        }
        if args.len() != 2 {
            return (Err(EvalError::IncorrectNumberOfArgumentsError(node.clone())), Ghost(Seq::empty()));
        }
        match &args[0] {
            Node::Symbol(s) => match &args[1] {
                Node::Symbol(t) => {
                    if t.ns.is_some() {
                        let alias = Node::Alias(nodes::Alias { symbol: symbol_clone(t) });
                        let _ = self.insert(symbol_clone(s), alias);
                        (Ok(nil_node()), Ghost(Seq::empty()))
                    } else {
                        (Err(EvalError::IncorrectTypeOfArgumentError(args[1].clone())), Ghost(Seq::empty()))
                    }
                },
                _ => (Err(EvalError::IncorrectTypeOfArgumentError(args[1].clone())), Ghost(Seq::empty())),
            },
            _ => (Err(EvalError::IncorrectTypeOfArgumentError(args[0].clone())), Ghost(Seq::empty())),
        }
    }

    /// `load`.
    fn call_load<H: Host>(&mut self, host: &H, node: &Node, args: &Vec<Node>, f: usize) -> (out: (
        EvalResult,
        Ghost<Seq<Answer>>,
    ))
        ensures
            answered(host, out.1@),
            forall|rest: Seq<Answer>| #[trigger]
                load_call_s(old(self)@, node@, nodes_view(args@), f as nat, out.1@ + rest) == (
                    rv(out.0),
                    final(self)@,
                    rest,
                ),
        decreases f, 0nat,
    {
        proof {
            lemma_nodes_view_len(args@);
        }
        let ghost st0 = self@;
        let ghost av = nodes_view(args@);
        if f == 0 || args.len() != 1 {
            let e = if f == 0 {
                EvalError::DepthLimitExceeded
            } else {
                EvalError::IncorrectNumberOfArgumentsError(node.clone())
            };
            proof {
                assert forall|rest: Seq<Answer>|
                    #[trigger] load_call_s(st0, node@, av, f as nat, Seq::<Answer>::empty() + rest)
                        == (Err::<NodeView, EvalErrorView>(e@), st0, rest) by {
                    assert(Seq::<Answer>::empty() + rest == rest);
                }
            }
            return (Err(e), Ghost(Seq::empty()));
        }
        let g = f - 1;
        assert(g as nat == (f - 1) as nat);
        let (r, Ghost(c1)) = self.eval_node(host, &args[0], g);
        let ghost st1 = self@;
        match r {
            Err(e) => {
                proof {
                    assert forall|rest: Seq<Answer>|
                        #[trigger] load_call_s(st0, node@, av, f as nat, c1 + rest)
                            == (Err::<NodeView, EvalErrorView>(e@), st1, rest) by {
                        assert(eval_s(st0, av[0], g as nat, c1 + rest)
                            == (Err::<NodeView, EvalErrorView>(e@), st1, rest));
                    }
                }
                (Err(e), Ghost(c1))
            },
            Ok(Node::String(p)) => {
                let ghost pv = p.value@;
                let (file, Ghost(a)) = ask_file(host, &p.value);
                let ghost fv = file_view(file);
                match file {
                    None => {
                        let e = EvalError::IncorrectTypeOfArgumentError(Node::String(p));
                        proof {
                            assert forall|rest: Seq<Answer>|
                                #[trigger] load_call_s(st0, node@, av, f as nat, (c1 + seq![a]) + rest)
                                    == (Err::<NodeView, EvalErrorView>(e@), st1, rest) by {
                                assert((c1 + seq![a]) + rest == c1 + (seq![a] + rest));
                                assert(eval_s(st0, av[0], g as nat, c1 + (seq![a] + rest))
                                    == (Ok::<NodeView, EvalErrorView>(NodeView::String(pv)), st1, seq![a] + rest));
                                assert(ask(seq![a] + rest, Query::ReadFile(pv))
                                    == Some((Reply::File(fv), rest)));
                            }
                        }
                        (Err(e), Ghost(c1 + seq![a]))
                    },
                    Some(Err(msg)) => {
                        let e = EvalError::IoError(msg);
                        proof {
                            assert forall|rest: Seq<Answer>|
                                #[trigger] load_call_s(st0, node@, av, f as nat, (c1 + seq![a]) + rest)
                                    == (Err::<NodeView, EvalErrorView>(e@), st1, rest) by {
                                assert((c1 + seq![a]) + rest == c1 + (seq![a] + rest));
                                assert(eval_s(st0, av[0], g as nat, c1 + (seq![a] + rest))
                                    == (Ok::<NodeView, EvalErrorView>(NodeView::String(pv)), st1, seq![a] + rest));
                                assert(ask(seq![a] + rest, Query::ReadFile(pv))
                                    == Some((Reply::File(fv), rest)));
                            }
                        }
                        (Err(e), Ghost(c1 + seq![a]))
                    },
                    Some(Ok(text)) => {
                        if text.as_str().unicode_len() <= usize::MAX - 4 {
                            let (r2, Ghost(c2)) = self.load_text(host, &text, g);
                            proof {
                                assert forall|rest: Seq<Answer>|
                                    #[trigger] load_call_s(st0, node@, av, f as nat, (c1 + (seq![a] + c2)) + rest)
                                        == (rv(r2), self@, rest) by {
                                    assert((c1 + (seq![a] + c2)) + rest == c1 + (seq![a] + (c2 + rest)));
                                    assert(eval_s(st0, av[0], g as nat, c1 + (seq![a] + (c2 + rest)))
                                        == (Ok::<NodeView, EvalErrorView>(NodeView::String(pv)), st1, seq![a] + (c2 + rest)));
                                    assert(ask(seq![a] + (c2 + rest), Query::ReadFile(pv))
                                        == Some((Reply::File(fv), c2 + rest)));
                                    assert(load_s(st1, text@, LexState { pos: 0, finished: false }, nil(), g as nat, c2 + rest)
                                        == (rv(r2), self@, rest));
                                }
                            }
                            (r2, Ghost(c1 + (seq![a] + c2)))
                        } else {
                            let e = EvalError::IoError(String::new());
                            proof {
                                assert forall|rest: Seq<Answer>|
                                    #[trigger] load_call_s(st0, node@, av, f as nat, (c1 + seq![a]) + rest)
                                        == (Err::<NodeView, EvalErrorView>(e@), st1, rest) by {
                                    assert((c1 + seq![a]) + rest == c1 + (seq![a] + rest));
                                    assert(eval_s(st0, av[0], g as nat, c1 + (seq![a] + rest))
                                        == (Ok::<NodeView, EvalErrorView>(NodeView::String(pv)), st1, seq![a] + rest));
                                    assert(ask(seq![a] + rest, Query::ReadFile(pv))
                                        == Some((Reply::File(fv), rest)));
                                }
                            }
                            (Err(e), Ghost(c1 + seq![a]))
                        }
                    },
                }
            },
            Ok(other) => {
                let e = EvalError::IncorrectTypeOfArgumentError(args[0].clone());
                proof {
                    assert forall|rest: Seq<Answer>|
                        #[trigger] load_call_s(st0, node@, av, f as nat, c1 + rest)
                            == (Err::<NodeView, EvalErrorView>(e@), st1, rest) by {
                        assert(eval_s(st0, av[0], g as nat, c1 + rest)
                            == (Ok::<NodeView, EvalErrorView>(other@), st1, rest));
                    }
                }
                (Err(e), Ghost(c1))
            },
        }
    }

    /// Evaluates each form of `text` in turn.
    fn load_text<H: Host>(&mut self, host: &H, text: &String, f: usize) -> (out: (
        EvalResult,
        Ghost<Seq<Answer>>,
    ))
        requires
            text@.len() + 4 <= usize::MAX,
        ensures
            answered(host, out.1@),
            forall|rest: Seq<Answer>| #[trigger]
                load_s(old(self)@, text@, LexState { pos: 0, finished: false }, nil(), f as nat, out.1@ + rest)
                    == (rv(out.0), final(self)@, rest),
        decreases f, 1nat,
    {
        let ghost st0 = self@;
        let ghost tv = text@;
        let mut parser = Parser::new(text.as_str());
        let mut last = nil_node();
        let ghost mut log: Seq<Answer> = Seq::empty();
        assert forall|rest: Seq<Answer>|
            #[trigger] load_s(st0, tv, LexState { pos: 0, finished: false }, nil(), f as nat, log + rest)
                == load_s(self@, tv, parser.state(), last@, f as nat, rest) by {
            assert(log + rest == rest);
        }
        loop
            invariant
                parser.input() == tv,
                tv == text@,
                st0 == old(self)@,
                answered(host, log),
                forall|rest: Seq<Answer>| #[trigger]
                    load_s(st0, tv, LexState { pos: 0, finished: false }, nil(), f as nat, log + rest)
                        == load_s(self@, tv, parser.state(), last@, f as nat, rest),
            decreases measure(tv, parser.state()),
        {
            let ghost before = parser.state();
            let ghost stb = self@;
            let ghost lastb = last@;
            let t = parser.next();
            match t {
                None => {
                    proof {
                        assert forall|rest: Seq<Answer>|
                            #[trigger] load_s(st0, tv, LexState { pos: 0, finished: false }, nil(), f as nat, log + rest)
                                == (Ok::<NodeView, EvalErrorView>(last@), self@, rest) by {
                            assert(load_s(stb, tv, before, lastb, f as nat, rest)
                                == (Ok::<NodeView, EvalErrorView>(last@), self@, rest));
                        }
                    }
                    return (Ok(last), Ghost(log));
                },
                Some(Err(e)) => {
                    let err = EvalError::ParserError(e);
                    proof {
                        assert forall|rest: Seq<Answer>|
                            #[trigger] load_s(st0, tv, LexState { pos: 0, finished: false }, nil(), f as nat, log + rest)
                                == (Err::<NodeView, EvalErrorView>(err@), self@, rest) by {
                            assert(load_s(stb, tv, before, lastb, f as nat, rest)
                                == (Err::<NodeView, EvalErrorView>(err@), self@, rest));
                        }
                    }
                    return (Err(err), Ghost(log));
                },
                Some(Ok(form)) => {
                    let ghost formv = form@;
                    let ghost after = parser.state();
                    let (r, Ghost(c)) = self.eval_node(host, &form, f);
                    match r {
                        Err(e) => {
                            proof {
                                assert forall|rest: Seq<Answer>|
                                    #[trigger] load_s(st0, tv, LexState { pos: 0, finished: false }, nil(), f as nat, (log + c) + rest)
                                        == (Err::<NodeView, EvalErrorView>(e@), self@, rest) by {
                                    assert((log + c) + rest == log + (c + rest));
                                    assert(eval_s(stb, formv, f as nat, c + rest)
                                        == (Err::<NodeView, EvalErrorView>(e@), self@, rest));
                                    assert(load_s(stb, tv, before, lastb, f as nat, c + rest)
                                        == (Err::<NodeView, EvalErrorView>(e@), self@, rest));
                                }
                            }
                            return (Err(e), Ghost(log + c));
                        },
                        Ok(v) => {
                            last = v;
                            proof {
                                assert forall|rest: Seq<Answer>|
                                    #[trigger] load_s(st0, tv, LexState { pos: 0, finished: false }, nil(), f as nat, (log + c) + rest)
                                        == load_s(self@, tv, after, last@, f as nat, rest) by {
                                    assert((log + c) + rest == log + (c + rest));
                                    assert(eval_s(stb, formv, f as nat, c + rest)
                                        == (Ok::<NodeView, EvalErrorView>(last@), self@, rest));
                                    assert(measure(tv, after) < measure(tv, before));
                                    assert(load_s(stb, tv, before, lastb, f as nat, c + rest)
                                        == load_s(self@, tv, after, last@, f as nat, rest));
                                }
                                log = log + c;
                            }
                        },
                    }
                },
            }
        }
    }

    /// Calls the function or macro that `sym` names.
    fn call_custom<H: Host>(&mut self, host: &H, node: &Node, sym: &Symbol, args: &Vec<Node>, f: usize) -> (out: (
        EvalResult,
        Ghost<Seq<Answer>>,
    ))
        ensures
            answered(host, out.1@),
            forall|rest: Seq<Answer>| #[trigger]
                call_custom_s(old(self)@, node@, sym@, nodes_view(args@), f as nat, out.1@ + rest)
                    == (rv(out.0), final(self)@, rest),
        decreases f, 1nat,
    {
        let ghost st0 = self@;
        let ghost av = nodes_view(args@);
        let callee = match self.get(sym) {
            Some(x) => node_clone(x),
            None => {
                let e = EvalError::ResolveError(sym.name.clone());
                proof {
                    assert forall|rest: Seq<Answer>|
                        #[trigger] call_custom_s(st0, node@, sym@, av, f as nat, Seq::<Answer>::empty() + rest)
                            == (Err::<NodeView, EvalErrorView>(e@), st0, rest) by {
                        assert(Seq::<Answer>::empty() + rest == rest);
                    }
                }
                return (Err(e), Ghost(Seq::empty()));
            },
        };
        match callee {
            Node::Fn(func) => {
                assert forall|log: Seq<Answer>|
                    #[trigger] call_custom_s(st0, node@, sym@, av, f as nat, log)
                        == call_fn_s(st0, node@, av, nodes_view(func.params@), nodes_view(func.body@), f as nat, log) by {}
                self.call_fn(host, node, args, &func.params, &func.body, f)
            },
            Node::Macro(mac) => {
                assert forall|log: Seq<Answer>|
                    #[trigger] call_custom_s(st0, node@, sym@, av, f as nat, log)
                        == call_macro_s(st0, node@, av, nodes_view(mac.params@), nodes_view(mac.body@), f as nat, log) by {}
                self.call_macro(host, node, args, &mac.params, &mac.body, f)
            },
            _ => {
                let e = EvalError::IncorrectTypeOfArgumentError(node.clone());
                proof {
                    assert forall|rest: Seq<Answer>|
                        #[trigger] call_custom_s(st0, node@, sym@, av, f as nat, Seq::<Answer>::empty() + rest)
                            == (Err::<NodeView, EvalErrorView>(e@), st0, rest) by {
                        assert(Seq::<Answer>::empty() + rest == rest);
                    }
                }
                (Err(e), Ghost(Seq::empty()))
            },
        }
    }

    /// Calls the function with `params` and `body` on `args`.
    fn call_fn<H: Host>(
        &mut self,
        host: &H,
        node: &Node,
        args: &Vec<Node>,
        params: &Vec<Node>,
        body: &Vec<Node>,
        f: usize,
    ) -> (out: (EvalResult, Ghost<Seq<Answer>>))
        ensures
            answered(host, out.1@),
            forall|rest: Seq<Answer>| #[trigger]
                call_fn_s(old(self)@, node@, nodes_view(args@), nodes_view(params@), nodes_view(body@), f as nat, out.1@ + rest)
                    == (rv(out.0), final(self)@, rest),
        decreases f, 0nat,
    {
        proof {
            lemma_nodes_view_len(args@);
            lemma_nodes_view_len(params@);
        }
        let ghost st0 = self@;
        let ghost av = nodes_view(args@);
        let ghost pv = nodes_view(params@);
        let ghost bv = nodes_view(body@);
        if f == 0 || args.len() != params.len() {
            let e = if f == 0 {
                EvalError::DepthLimitExceeded
            } else {
                EvalError::IncorrectNumberOfArgumentsError(node.clone())
            };
            proof {
                assert forall|rest: Seq<Answer>|
                    #[trigger] call_fn_s(st0, node@, av, pv, bv, f as nat, Seq::<Answer>::empty() + rest)
                        == (Err::<NodeView, EvalErrorView>(e@), st0, rest) by {
                    assert(Seq::<Answer>::empty() + rest == rest);
                }
            }
            return (Err(e), Ghost(Seq::empty()));
        }
        let g = f - 1;
        assert(g as nat == (f - 1) as nat);
        let (r, Ghost(c1)) = self.eval_args(host, args, 0, Vec::new(), g);
        let ghost st1 = self@;
        assert(nodes_view(Seq::<Node>::empty()) =~= Seq::<NodeView>::empty());
        let vals = match r {
            Err(e) => {
                proof {
                    assert forall|rest: Seq<Answer>|
                        #[trigger] call_fn_s(st0, node@, av, pv, bv, f as nat, c1 + rest)
                            == (Err::<NodeView, EvalErrorView>(e@), st1, rest) by {
                        assert(eval_args_s(st0, av, 0, Seq::<NodeView>::empty(), g as nat, c1 + rest)
                            == (Err::<Seq<NodeView>, EvalErrorView>(e@), st1, rest));
                    }
                }
                return (Err(e), Ghost(c1));
            },
            Ok(vals) => vals,
        };
        let ghost vv = nodes_view(vals@);
        let mut ch = State::new_chained(&*self);
        let ghost ch0 = ch@;
        match ch.bind_params(params, &vals, 0) {
            Err(e) => {
                proof {
                    assert forall|rest: Seq<Answer>|
                        #[trigger] call_fn_s(st0, node@, av, pv, bv, f as nat, c1 + rest)
                            == (Err::<NodeView, EvalErrorView>(e@), st1, rest) by {
                        assert(eval_args_s(st0, av, 0, Seq::<NodeView>::empty(), g as nat, c1 + rest)
                            == (Ok::<Seq<NodeView>, EvalErrorView>(vv), st1, rest));
                        assert(bind_params_s(ch0, pv, vv, 0) == Err::<StateView, EvalErrorView>(e@));
                    }
                }
                (Err(e), Ghost(c1))
            },
            Ok(_) => {
                let ghost ch1 = ch@;
                let (r2, Ghost(c2)) = ch.body(host, body, 0, nil_node(), g);
                proof {
                    assert forall|rest: Seq<Answer>|
                        #[trigger] call_fn_s(st0, node@, av, pv, bv, f as nat, (c1 + c2) + rest)
                            == (rv(r2), st1, rest) by {
                        assert((c1 + c2) + rest == c1 + (c2 + rest));
                        assert(eval_args_s(st0, av, 0, Seq::<NodeView>::empty(), g as nat, c1 + (c2 + rest))
                            == (Ok::<Seq<NodeView>, EvalErrorView>(vv), st1, c2 + rest));
                        assert(bind_params_s(ch0, pv, vv, 0) == Ok::<StateView, EvalErrorView>(ch1));
                        assert(body_s(ch1, bv, 0, nil(), g as nat, c2 + rest) == (rv(r2), ch@, rest));
                    }
                }
                (r2, Ghost(c1 + c2))
            },
        }
    }

    /// Calls the macro with `params` and `body` on `args`.
    fn call_macro<H: Host>(
        &mut self,
        host: &H,
        node: &Node,
        args: &Vec<Node>,
        params: &Vec<Node>,
        body: &Vec<Node>,
        f: usize,
    ) -> (out: (EvalResult, Ghost<Seq<Answer>>))
        ensures
            answered(host, out.1@),
            forall|rest: Seq<Answer>| #[trigger]
                call_macro_s(old(self)@, node@, nodes_view(args@), nodes_view(params@), nodes_view(body@), f as nat, out.1@ + rest)
                    == (rv(out.0), final(self)@, rest),
        decreases f, 0nat,
    {
        proof {
            lemma_nodes_view_len(args@);
            lemma_nodes_view_len(params@);
        }
        let ghost st0 = self@;
        let ghost av = nodes_view(args@);
        let ghost pv = nodes_view(params@);
        let ghost bv = nodes_view(body@);
        if f == 0 || args.len() != params.len() {
            let e = if f == 0 {
                EvalError::DepthLimitExceeded
            } else {
                EvalError::IncorrectNumberOfArgumentsError(node.clone())
            };
            proof {
                assert forall|rest: Seq<Answer>|
                    #[trigger] call_macro_s(st0, node@, av, pv, bv, f as nat, Seq::<Answer>::empty() + rest)
                        == (Err::<NodeView, EvalErrorView>(e@), st0, rest) by {
                    assert(Seq::<Answer>::empty() + rest == rest);
                }
            }
            return (Err(e), Ghost(Seq::empty()));
        }
        let g = f - 1;
        assert(g as nat == (f - 1) as nat);
        let mut ch = State::new_chained(&*self);
        let ghost ch0 = ch@;
        match ch.bind_params(params, args, 0) {
            Err(e) => {
                proof {
                    assert forall|rest: Seq<Answer>|
                        #[trigger] call_macro_s(st0, node@, av, pv, bv, f as nat, Seq::<Answer>::empty() + rest)
                            == (Err::<NodeView, EvalErrorView>(e@), st0, rest) by {
                        assert(Seq::<Answer>::empty() + rest == rest);
                        assert(bind_params_s(ch0, pv, av, 0) == Err::<StateView, EvalErrorView>(e@));
                    }
                }
                (Err(e), Ghost(Seq::empty()))
            },
            Ok(_) => {
                let ghost ch1 = ch@;
                let (r2, Ghost(c2)) = ch.body(host, body, 0, nil_node(), g);
                let ghost ch2 = ch@;
                match r2 {
                    Err(e) => {
                        proof {
                            assert forall|rest: Seq<Answer>|
                                #[trigger] call_macro_s(st0, node@, av, pv, bv, f as nat, c2 + rest)
                                    == (Err::<NodeView, EvalErrorView>(e@), st0, rest) by {
                                assert(bind_params_s(ch0, pv, av, 0) == Ok::<StateView, EvalErrorView>(ch1));
                                assert(body_s(ch1, bv, 0, nil(), g as nat, c2 + rest)
                                    == (Err::<NodeView, EvalErrorView>(e@), ch2, rest));
                            }
                        }
                        (Err(e), Ghost(c2))
                    },
                    Ok(v) => {
                        let ghost vv = v@;
                        let (r3, Ghost(c3)) = ch.expand_node(host, &v, g);
                        proof {
                            assert forall|rest: Seq<Answer>|
                                #[trigger] call_macro_s(st0, node@, av, pv, bv, f as nat, (c2 + c3) + rest)
                                    == (rv(r3), st0, rest) by {
                                assert((c2 + c3) + rest == c2 + (c3 + rest));
                                assert(bind_params_s(ch0, pv, av, 0) == Ok::<StateView, EvalErrorView>(ch1));
                                assert(body_s(ch1, bv, 0, nil(), g as nat, c2 + (c3 + rest))
                                    == (Ok::<NodeView, EvalErrorView>(vv), ch2, c3 + rest));
                                assert(expand_s(ch2, vv, g as nat, c3 + rest) == (rv(r3), ch@, rest));
                            }
                        }
                        (r3, Ghost(c2 + c3))
                    },
                }
            },
        }
    }

    /// Binds parameters to values, pair by pair, from index `i` on.
    fn bind_params(&mut self, params: &Vec<Node>, vals: &Vec<Node>, i: usize) -> (r: Result<(), EvalError>)
        requires
            i <= params@.len(),
        ensures
            bind_params_s(old(self)@, nodes_view(params@), nodes_view(vals@), i as nat) == (match r {
                Ok(_) => Ok(final(self)@),
                Err(e) => Err(e@),
            }),
        decreases params@.len() - i,
    {
        proof {
            lemma_nodes_view_len(params@);
            lemma_nodes_view_len(vals@);
        }
        if i >= params.len() || i >= vals.len() {
            return Ok(());
        }
        match &params[i] {
            Node::Symbol(q) => {
                let _ = self.insert(symbol_clone(q), vals[i].clone());
                self.bind_params(params, vals, i + 1)
            },
            _ => Err(EvalError::IncorrectTypeOfArgumentError(params[i].clone())),
        }
    }


    /// Evaluates a quoted form.
    fn eval_quoted<H: Host>(&mut self, host: &H, n: &Node, f: usize) -> (out: (EvalResult, Ghost<Seq<Answer>>))
        ensures
            answered(host, out.1@),
            forall|rest: Seq<Answer>| #[trigger]
                eval_quoted_s(old(self)@, n@, f as nat, out.1@ + rest) == (rv(out.0), final(self)@, rest),
        decreases f, 0nat,
    {
        let ghost st0 = self@;
        if f == 0 {
            proof {
                assert forall|rest: Seq<Answer>|
                    #[trigger] eval_quoted_s(st0, n@, f as nat, Seq::<Answer>::empty() + rest)
                        == (Err::<NodeView, EvalErrorView>(EvalErrorView::DepthLimit), st0, rest) by {
                    assert(Seq::<Answer>::empty() + rest == rest);
                }
            }
            return (Err(EvalError::DepthLimitExceeded), Ghost(Seq::empty()));
        }
        let g = f - 1;
        assert(g as nat == (f - 1) as nat);
        match n {
            Node::Symbol(_) => {
                let c = node_clone(n);
                proof {
                    assert forall|rest: Seq<Answer>|
                        #[trigger] eval_quoted_s(st0, n@, f as nat, Seq::<Answer>::empty() + rest)
                            == (Ok::<NodeView, EvalErrorView>(c@), st0, rest) by {
                        assert(Seq::<Answer>::empty() + rest == rest);
                    }
                }
                (Ok(c), Ghost(Seq::empty()))
            },
            Node::List(l) => {
                let (r, Ghost(c1)) = self.quoted_elems(host, l, 0, Vec::new(), g);
                let ghost st1 = self@;
                assert(nodes_view(Seq::<Node>::empty()) =~= Seq::<NodeView>::empty());
                let res = match r {
                    Err(e) => Err(e),
                    Ok(v) => Ok(Node::List(v)),
                };
                proof {
                    assert forall|rest: Seq<Answer>|
                        #[trigger] eval_quoted_s(st0, n@, f as nat, c1 + rest)
                            == (rv(res), st1, rest) by {
                        assert(quoted_elems_s(st0, nodes_view(l@), 0, Seq::<NodeView>::empty(), g as nat, c1 + rest)
                            == (rvs(r), st1, rest));
                    }
                }
                (res, Ghost(c1))
            },
            _ => {
                assert forall|log: Seq<Answer>|
                    #[trigger] eval_quoted_s(st0, n@, f as nat, log)
                        == eval_s(st0, n@, g as nat, log) by {}
                self.eval_node(host, n, g)
            },
        }
    }

    /// The elements of a quoted list from index `i` on, after `acc`.
    fn quoted_elems<H: Host>(&mut self, host: &H, l: &Vec<Node>, i: usize, acc: Vec<Node>, f: usize) -> (out: (
        Result<Vec<Node>, EvalError>,
        Ghost<Seq<Answer>>,
    ))
        requires
            i <= l@.len(),
        ensures
            answered(host, out.1@),
            forall|rest: Seq<Answer>| #[trigger]
                quoted_elems_s(old(self)@, nodes_view(l@), i as nat, nodes_view(acc@), f as nat, out.1@ + rest)
                    == (rvs(out.0), final(self)@, rest),
        decreases f, l@.len() - i,
    {
        proof {
            lemma_nodes_view_len(l@);
            lemma_names();
        }
        let ghost st0 = self@;
        let ghost lv = nodes_view(l@);
        let ghost acc0 = nodes_view(acc@);
        if i >= l.len() {
            proof {
                assert forall|rest: Seq<Answer>|
                    #[trigger] quoted_elems_s(st0, lv, i as nat, acc0, f as nat, Seq::<Answer>::empty() + rest)
                        == (Ok::<Seq<NodeView>, EvalErrorView>(acc0), st0, rest) by {
                    assert(Seq::<Answer>::empty() + rest == rest);
                }
            }
            return (Ok(acc), Ghost(Seq::empty()));
        }
        let e = &l[i];
        let mut acc = acc;
        if e.is_call_of("unquote-splicing") {
            assert(is_splice_call(lv[i as int]));
            let (r, Ghost(c1)) = self.eval_node(host, e, f);
            let ghost st1 = self@;
            match r {
                Err(er) => {
                    proof {
                        assert forall|rest: Seq<Answer>|
                            #[trigger] quoted_elems_s(st0, lv, i as nat, acc0, f as nat, c1 + rest)
                                == (Err::<Seq<NodeView>, EvalErrorView>(er@), st1, rest) by {
                            assert(eval_s(st0, lv[i as int], f as nat, c1 + rest)
                                == (Err::<NodeView, EvalErrorView>(er@), st1, rest));
                        }
                    }
                    (Err(er), Ghost(c1))
                },
                Ok(Node::List(items)) => {
                    let ghost iv = nodes_view(items@);
                    let mut items = items;
                    proof {
                        lemma_nodes_view_add(acc@, items@);
                    }
                    acc.append(&mut items);
                    let ghost acc1 = nodes_view(acc@);
                    let (r2, Ghost(c2)) = self.quoted_elems(host, l, i + 1, acc, f);
                    proof {
                        assert forall|rest: Seq<Answer>|
                            #[trigger] quoted_elems_s(st0, lv, i as nat, acc0, f as nat, (c1 + c2) + rest)
                                == (rvs(r2), self@, rest) by {
                            assert((c1 + c2) + rest == c1 + (c2 + rest));
                            assert(eval_s(st0, lv[i as int], f as nat, c1 + (c2 + rest))
                                == (Ok::<NodeView, EvalErrorView>(NodeView::List(iv)), st1, c2 + rest));
                            assert(acc1 == acc0 + iv);
                            assert(quoted_elems_s(st1, lv, (i + 1) as nat, acc1, f as nat, c2 + rest)
                                == (rvs(r2), self@, rest));
                        }
                    }
                    (r2, Ghost(c1 + c2))
                },
                Ok(other) => {
                    let er = EvalError::IncorrectTypeOfArgumentError(e.clone());
                    proof {
                        assert forall|rest: Seq<Answer>|
                            #[trigger] quoted_elems_s(st0, lv, i as nat, acc0, f as nat, c1 + rest)
                                == (Err::<Seq<NodeView>, EvalErrorView>(er@), st1, rest) by {
                            assert(eval_s(st0, lv[i as int], f as nat, c1 + rest)
                                == (Ok::<NodeView, EvalErrorView>(other@), st1, rest));
                        }
                    }
                    (Err(er), Ghost(c1))
                },
            }
        } else {
            assert(!is_splice_call(lv[i as int]));
            let (r, Ghost(c1)) = self.eval_quoted(host, e, f);
            let ghost st1 = self@;
            match r {
                Err(er) => {
                    proof {
                        assert forall|rest: Seq<Answer>|
                            #[trigger] quoted_elems_s(st0, lv, i as nat, acc0, f as nat, c1 + rest)
                                == (Err::<Seq<NodeView>, EvalErrorView>(er@), st1, rest) by {
                            assert(eval_quoted_s(st0, lv[i as int], f as nat, c1 + rest)
                                == (Err::<NodeView, EvalErrorView>(er@), st1, rest));
                        }
                    }
                    (Err(er), Ghost(c1))
                },
                Ok(v) => {
                    let ghost vv = v@;
                    proof {
                        lemma_nodes_view_push(acc@, v);
                    }
                    acc.push(v);
                    let ghost acc1 = nodes_view(acc@);
                    let (r2, Ghost(c2)) = self.quoted_elems(host, l, i + 1, acc, f);
                    proof {
                        assert forall|rest: Seq<Answer>|
                            #[trigger] quoted_elems_s(st0, lv, i as nat, acc0, f as nat, (c1 + c2) + rest)
                                == (rvs(r2), self@, rest) by {
                            assert((c1 + c2) + rest == c1 + (c2 + rest));
                            assert(eval_quoted_s(st0, lv[i as int], f as nat, c1 + (c2 + rest))
                                == (Ok::<NodeView, EvalErrorView>(vv), st1, c2 + rest));
                            assert(acc1 == acc0.push(vv));
                            assert(quoted_elems_s(st1, lv, (i + 1) as nat, acc1, f as nat, c2 + rest)
                                == (rvs(r2), self@, rest));
                        }
                    }
                    (r2, Ghost(c1 + c2))
                },
            }
        }
    }

    /// Expands `n` with fuel `f`.
    fn expand_node<H: Host>(&mut self, host: &H, n: &Node, f: usize) -> (out: (EvalResult, Ghost<Seq<Answer>>))
        ensures
            answered(host, out.1@),
            forall|rest: Seq<Answer>| #[trigger]
                expand_s(old(self)@, n@, f as nat, out.1@ + rest) == (rv(out.0), final(self)@, rest),
        decreases f, 1nat,
    {
        let ghost st0 = self@;
        if f == 0 {
            proof {
                assert forall|rest: Seq<Answer>|
                    #[trigger] expand_s(st0, n@, f as nat, Seq::<Answer>::empty() + rest)
                        == (Err::<NodeView, EvalErrorView>(EvalErrorView::DepthLimit), st0, rest) by {
                    assert(Seq::<Answer>::empty() + rest == rest);
                }
            }
            return (Err(EvalError::DepthLimitExceeded), Ghost(Seq::empty()));
        }
        match n {
            Node::List(l) => {
                proof {
                    lemma_nodes_view_len(l@);
                    lemma_names();
                }
                if l.len() == 0 {
                    let c = node_clone(n);
                    proof {
                        assert forall|rest: Seq<Answer>|
                            #[trigger] expand_s(st0, n@, f as nat, Seq::<Answer>::empty() + rest)
                                == (Ok::<NodeView, EvalErrorView>(c@), st0, rest) by {
                            assert(Seq::<Answer>::empty() + rest == rest);
                        }
                    }
                    return (Ok(c), Ghost(Seq::empty()));
                }
                match &l[0] {
                    Node::Symbol(s) => {
                        let name = &s.name;
                        let ghost lv = nodes_view(l@);
                        assert(n@ == NodeView::List(lv) && lv.len() > 0 && lv[0] == NodeView::Symbol(s@));
                        if name_is(name, "def") {
                            assert forall|log: Seq<Answer>|
                                #[trigger] expand_s(st0, n@, f as nat, log)
                                    == expand_def_s(st0, n@, lv, f as nat, log) by {}
                            self.expand_def(host, n, l, f)
                        } else if name_is(name, "fn") {
                            assert forall|log: Seq<Answer>|
                                #[trigger] expand_s(st0, n@, f as nat, log)
                                    == expand_fn_s(st0, n@, lv, true, f as nat, log) by {}
                            self.expand_fn(host, n, l, true, f)
                        } else if name_is(name, "macro") {
                            assert forall|log: Seq<Answer>|
                                #[trigger] expand_s(st0, n@, f as nat, log)
                                    == expand_fn_s(st0, n@, lv, false, f as nat, log) by {}
                            self.expand_fn(host, n, l, false, f)
                        } else if name_is(name, "quote") || name_is(name, "syntax-quote") {
                            assert forall|log: Seq<Answer>|
                                #[trigger] expand_s(st0, n@, f as nat, log)
                                    == expand_quote_s(st0, n@, lv, s@.name, f as nat, log) by {}
                            let syntax = !name_is(name, "quote");
                            self.expand_quote(host, n, l, s, syntax, f)
                        } else if name_is(name, "unquote") || name_is(name, "unquote-splicing") {
                            assert forall|log: Seq<Answer>|
                                #[trigger] expand_s(st0, n@, f as nat, log)
                                    == expand_unquote_s(st0, n@, lv, s@.name, f as nat, log) by {}
                            self.expand_unquote(host, n, l, s, f)
                        } else if name_is(name, "let") {
                            assert forall|log: Seq<Answer>|
                                #[trigger] expand_s(st0, n@, f as nat, log)
                                    == expand_let_s(st0, n@, lv, f as nat, log) by {}
                            self.expand_let(host, n, l, f)
                        } else {
                            assert forall|log: Seq<Answer>|
                                #[trigger] expand_s(st0, n@, f as nat, log)
                                    == expand_call_s(st0, lv, s@, f as nat, log) by {}
                            self.expand_call(host, l, s, f)
                        }
                    },
                    _ => {
                        let e = EvalError::DispatchError(l[0].clone());
                        proof {
                            assert forall|rest: Seq<Answer>|
                                #[trigger] expand_s(st0, n@, f as nat, Seq::<Answer>::empty() + rest)
                                    == (Err::<NodeView, EvalErrorView>(e@), st0, rest) by {
                                assert(Seq::<Answer>::empty() + rest == rest);
                            }
                        }
                        (Err(e), Ghost(Seq::empty()))
                    },
                }
            },
            _ => {
                let c = node_clone(n);
                proof {
                    assert forall|rest: Seq<Answer>|
                        #[trigger] expand_s(st0, n@, f as nat, Seq::<Answer>::empty() + rest)
                            == (Ok::<NodeView, EvalErrorView>(c@), st0, rest) by {
                        assert(Seq::<Answer>::empty() + rest == rest);
                    }
                }
                (Ok(c), Ghost(Seq::empty()))
            },
        }
    }

    /// Expands `(def name expr)`.
    fn expand_def<H: Host>(&mut self, host: &H, n: &Node, l: &Vec<Node>, f: usize) -> (out: (
        EvalResult,
        Ghost<Seq<Answer>>,
    ))
        ensures
            answered(host, out.1@),
            forall|rest: Seq<Answer>| #[trigger]
                expand_def_s(old(self)@, n@, nodes_view(l@), f as nat, out.1@ + rest) == (
                    rv(out.0),
                    final(self)@,
                    rest,
                ),
        decreases f, 0nat,
    {
        proof {
            lemma_nodes_view_len(l@);
        }
        let ghost st0 = self@;
        let ghost lv = nodes_view(l@);
        if f == 0 || l.len() != 3 {
            let e = if f == 0 {
                EvalError::DepthLimitExceeded
            } else {
                EvalError::IncorrectNumberOfArgumentsError(n.clone())
            };
            proof {
                assert forall|rest: Seq<Answer>|
                    #[trigger] expand_def_s(st0, n@, lv, f as nat, Seq::<Answer>::empty() + rest)
                        == (Err::<NodeView, EvalErrorView>(e@), st0, rest) by {
                    assert(Seq::<Answer>::empty() + rest == rest);
                }
            }
            return (Err(e), Ghost(Seq::empty()));
        }
        let g = f - 1;
        assert(g as nat == (f - 1) as nat);
        match &l[1] {
            Node::Symbol(q) => {
                let (r, Ghost(c1)) = self.expand_node(host, &l[2], g);
                let ghost st1 = self@;
                let res = match r {
                    Err(e) => Err(e),
                    Ok(e) => {
                        let d = nodes::Def { symbol: Symbol { ns: None, name: q.name.clone() }, expr: Box::new(e) };
                        Ok(Node::Def(d))
                    },
                };
                proof {
                    assert forall|rest: Seq<Answer>|
                        #[trigger] expand_def_s(st0, n@, lv, f as nat, c1 + rest)
                            == (rv(res), st1, rest) by {
                        assert(expand_s(st0, lv[2], g as nat, c1 + rest) == (rv(r), st1, rest));
                    }
                }
                (res, Ghost(c1))
            },
            _ => {
                let e = EvalError::IncorrectTypeOfArgumentError(l[1].clone());
                proof {
                    assert forall|rest: Seq<Answer>|
                        #[trigger] expand_def_s(st0, n@, lv, f as nat, Seq::<Answer>::empty() + rest)
                            == (Err::<NodeView, EvalErrorView>(e@), st0, rest) by {
                        assert(Seq::<Answer>::empty() + rest == rest);
                    }
                }
                (Err(e), Ghost(Seq::empty()))
            },
        }
    }

    /// Expands `(fn [params] body...)` (or `macro`, if not `is_fn`).
    fn expand_fn<H: Host>(&mut self, host: &H, n: &Node, l: &Vec<Node>, is_fn: bool, f: usize) -> (out: (
        EvalResult,
        Ghost<Seq<Answer>>,
    ))
        ensures
            answered(host, out.1@),
            forall|rest: Seq<Answer>| #[trigger]
                expand_fn_s(old(self)@, n@, nodes_view(l@), is_fn, f as nat, out.1@ + rest) == (
                    rv(out.0),
                    final(self)@,
                    rest,
                ),
        decreases f, 0nat,
    {
        proof {
            lemma_nodes_view_len(l@);
        }
        let ghost st0 = self@;
        let ghost lv = nodes_view(l@);
        if f == 0 || l.len() < 3 {
            let e = if f == 0 {
                EvalError::DepthLimitExceeded
            } else {
                EvalError::IncorrectNumberOfArgumentsError(n.clone())
            };
            proof {
                assert forall|rest: Seq<Answer>|
                    #[trigger] expand_fn_s(st0, n@, lv, is_fn, f as nat, Seq::<Answer>::empty() + rest)
                        == (Err::<NodeView, EvalErrorView>(e@), st0, rest) by {
                    assert(Seq::<Answer>::empty() + rest == rest);
                }
            }
            return (Err(e), Ghost(Seq::empty()));
        }
        let g = f - 1;
        assert(g as nat == (f - 1) as nat);
        match &l[1] {
            Node::Vec(params) => {
                let (r, Ghost(c1)) = self.expand_all(host, params, 0, Vec::new(), g);
                let ghost st1 = self@;
                assert(nodes_view(Seq::<Node>::empty()) =~= Seq::<NodeView>::empty());
                let ps = match r {
                    Err(e) => {
                        proof {
                            assert forall|rest: Seq<Answer>|
                                #[trigger] expand_fn_s(st0, n@, lv, is_fn, f as nat, c1 + rest)
                                    == (Err::<NodeView, EvalErrorView>(e@), st1, rest) by {
                                assert(expand_all_s(st0, nodes_view(params@), 0, Seq::<NodeView>::empty(), g as nat, c1 + rest)
                                    == (Err::<Seq<NodeView>, EvalErrorView>(e@), st1, rest));
                            }
                        }
                        return (Err(e), Ghost(c1));
                    },
                    Ok(ps) => ps,
                };
                let ghost psv = nodes_view(ps@);
                let (r2, Ghost(c2)) = self.expand_all(host, l, 2, Vec::new(), g);
                let ghost st2 = self@;
                let res = match r2 {
                    Err(e) => Err(e),
                    Ok(bs) => Ok(
                        if is_fn {
                            Node::Fn(nodes::Fn { params: ps, body: bs })
                        } else {
                            Node::Macro(nodes::Macro { params: ps, body: bs })
                        },
                    ),
                };
                proof {
                    assert forall|rest: Seq<Answer>|
                        #[trigger] expand_fn_s(st0, n@, lv, is_fn, f as nat, (c1 + c2) + rest)
                            == (rv(res), st2, rest) by {
                        assert((c1 + c2) + rest == c1 + (c2 + rest));
                        assert(expand_all_s(st0, nodes_view(params@), 0, Seq::<NodeView>::empty(), g as nat, c1 + (c2 + rest))
                            == (Ok::<Seq<NodeView>, EvalErrorView>(psv), st1, c2 + rest));
                        assert(expand_all_s(st1, lv, 2, Seq::<NodeView>::empty(), g as nat, c2 + rest)
                            == (rvs(r2), st2, rest));
                    }
                }
                (res, Ghost(c1 + c2))
            },
            _ => {
                let e = EvalError::IncorrectTypeOfArgumentError(l[1].clone());
                proof {
                    assert forall|rest: Seq<Answer>|
                        #[trigger] expand_fn_s(st0, n@, lv, is_fn, f as nat, Seq::<Answer>::empty() + rest)
                            == (Err::<NodeView, EvalErrorView>(e@), st0, rest) by {
                        assert(Seq::<Answer>::empty() + rest == rest);
                    }
                }
                (Err(e), Ghost(Seq::empty()))
            },
        }
    }

    /// Expands `(quote form)` (or `(syntax-quote form)`, if `syntax`).
    fn expand_quote<H: Host>(&mut self, host: &H, n: &Node, l: &Vec<Node>, head: &Symbol, syntax: bool, f: usize) -> (out: (
        EvalResult,
        Ghost<Seq<Answer>>,
    ))
        requires
            syntax == (head@.name != s_quote()),
        ensures
            answered(host, out.1@),
            forall|rest: Seq<Answer>| #[trigger]
                expand_quote_s(old(self)@, n@, nodes_view(l@), head@.name, f as nat, out.1@ + rest) == (
                    rv(out.0),
                    final(self)@,
                    rest,
                ),
        decreases f, 0nat,
    {
        proof {
            lemma_nodes_view_len(l@);
        }
        let ghost st0 = self@;
        let ghost lv = nodes_view(l@);
        if f == 0 || l.len() != 2 {
            let e = if f == 0 {
                EvalError::DepthLimitExceeded
            } else {
                EvalError::IncorrectNumberOfArgumentsError(n.clone())
            };
            proof {
                assert forall|rest: Seq<Answer>|
                    #[trigger] expand_quote_s(st0, n@, lv, head@.name, f as nat, Seq::<Answer>::empty() + rest)
                        == (Err::<NodeView, EvalErrorView>(e@), st0, rest) by {
                    assert(Seq::<Answer>::empty() + rest == rest);
                }
            }
            return (Err(e), Ghost(Seq::empty()));
        }
        let g = f - 1;
        assert(g as nat == (f - 1) as nat);
        let (r, Ghost(c1)) = self.expand_quoted(host, &l[1], syntax, g);
        let ghost st1 = self@;
        let res = match r {
            Err(e) => Err(e),
            Ok(e) => {
                let mut args: Vec<Node> = Vec::new();
                proof {
                    assert(nodes_view(args@) =~= Seq::<NodeView>::empty());
                    lemma_nodes_view_push(args@, e);
                }
                args.push(e);
                assert(nodes_view(args@) =~= seq![e@]);
                Ok(Node::Call(nodes::Call { symbol: Symbol { ns: None, name: head.name.clone() }, args }))
            },
        };
        proof {
            assert forall|rest: Seq<Answer>|
                #[trigger] expand_quote_s(st0, n@, lv, head@.name, f as nat, c1 + rest)
                    == (rv(res), st1, rest) by {
                assert(expand_quoted_s(st0, lv[1], syntax, g as nat, c1 + rest) == (rv(r), st1, rest));
            }
        }
        (res, Ghost(c1))
    }

    /// Expands `(unquote form)` or `(unquote-splicing form)`.
    fn expand_unquote<H: Host>(&mut self, host: &H, n: &Node, l: &Vec<Node>, head: &Symbol, f: usize) -> (out: (
        EvalResult,
        Ghost<Seq<Answer>>,
    ))
        ensures
            answered(host, out.1@),
            forall|rest: Seq<Answer>| #[trigger]
                expand_unquote_s(old(self)@, n@, nodes_view(l@), head@.name, f as nat, out.1@ + rest) == (
                    rv(out.0),
                    final(self)@,
                    rest,
                ),
        decreases f, 0nat,
    {
        proof {
            lemma_nodes_view_len(l@);
        }
        let ghost st0 = self@;
        let ghost lv = nodes_view(l@);
        if f == 0 || l.len() != 2 {
            let e = if f == 0 {
                EvalError::DepthLimitExceeded
            } else {
                EvalError::IncorrectNumberOfArgumentsError(n.clone())
            };
            proof {
                assert forall|rest: Seq<Answer>|
                    #[trigger] expand_unquote_s(st0, n@, lv, head@.name, f as nat, Seq::<Answer>::empty() + rest)
                        == (Err::<NodeView, EvalErrorView>(e@), st0, rest) by {
                    assert(Seq::<Answer>::empty() + rest == rest);
                }
            }
            return (Err(e), Ghost(Seq::empty()));
        }
        let g = f - 1;
        assert(g as nat == (f - 1) as nat);
        let (r, Ghost(c1)) = self.expand_node(host, &l[1], g);
        let ghost st1 = self@;
        let res = match r {
            Err(e) => Err(e),
            Ok(e) => {
                let mut args: Vec<Node> = Vec::new();
                proof {
                    assert(nodes_view(args@) =~= Seq::<NodeView>::empty());
                    lemma_nodes_view_push(args@, e);
                }
                args.push(e);
                assert(nodes_view(args@) =~= seq![e@]);
                Ok(Node::Call(nodes::Call { symbol: Symbol { ns: None, name: head.name.clone() }, args }))
            },
        };
        proof {
            assert forall|rest: Seq<Answer>|
                #[trigger] expand_unquote_s(st0, n@, lv, head@.name, f as nat, c1 + rest)
                    == (rv(res), st1, rest) by {
                assert(expand_s(st0, lv[1], g as nat, c1 + rest) == (rv(r), st1, rest));
            }
        }
        (res, Ghost(c1))
    }

    /// Expands `(let [bindings] body...)`.
    fn expand_let<H: Host>(&mut self, host: &H, n: &Node, l: &Vec<Node>, f: usize) -> (out: (
        EvalResult,
        Ghost<Seq<Answer>>,
    ))
        ensures
            answered(host, out.1@),
            forall|rest: Seq<Answer>| #[trigger]
                expand_let_s(old(self)@, n@, nodes_view(l@), f as nat, out.1@ + rest) == (
                    rv(out.0),
                    final(self)@,
                    rest,
                ),
        decreases f, 0nat,
    {
        proof {
            lemma_nodes_view_len(l@);
        }
        let ghost st0 = self@;
        let ghost lv = nodes_view(l@);
        if f == 0 || l.len() < 3 {
            let e = if f == 0 {
                EvalError::DepthLimitExceeded
            } else {
                EvalError::IncorrectNumberOfArgumentsError(n.clone())
            };
            proof {
                assert forall|rest: Seq<Answer>|
                    #[trigger] expand_let_s(st0, n@, lv, f as nat, Seq::<Answer>::empty() + rest)
                        == (Err::<NodeView, EvalErrorView>(e@), st0, rest) by {
                    assert(Seq::<Answer>::empty() + rest == rest);
                }
            }
            return (Err(e), Ghost(Seq::empty()));
        }
        let g = f - 1;
        assert(g as nat == (f - 1) as nat);
        match &l[1] {
            Node::Vec(v) => {
                proof {
                    lemma_nodes_view_len(v@);
                }
                if v.len() % 2 != 0 {
                    let e = EvalError::IncorrectNumberOfArgumentsError(n.clone());
                    proof {
                        assert forall|rest: Seq<Answer>|
                            #[trigger] expand_let_s(st0, n@, lv, f as nat, Seq::<Answer>::empty() + rest)
                                == (Err::<NodeView, EvalErrorView>(e@), st0, rest) by {
                            assert(Seq::<Answer>::empty() + rest == rest);
                        }
                    }
                    return (Err(e), Ghost(Seq::empty()));
                }
                let (r, Ghost(c1)) = self.expand_pairs(host, n, v, 0, Vec::new(), g);
                let ghost st1 = self@;
                assert(nodes_view(Seq::<Node>::empty()) =~= Seq::<NodeView>::empty());
                let bs = match r {
                    Err(e) => {
                        proof {
                            assert forall|rest: Seq<Answer>|
                                #[trigger] expand_let_s(st0, n@, lv, f as nat, c1 + rest)
                                    == (Err::<NodeView, EvalErrorView>(e@), st1, rest) by {
                                assert(expand_pairs_s(st0, n@, nodes_view(v@), 0, Seq::<NodeView>::empty(), g as nat, c1 + rest)
                                    == (Err::<Seq<NodeView>, EvalErrorView>(e@), st1, rest));
                            }
                        }
                        return (Err(e), Ghost(c1));
                    },
                    Ok(bs) => bs,
                };
                let ghost bsv = nodes_view(bs@);
                let (r2, Ghost(c2)) = self.expand_all(host, l, 2, Vec::new(), g);
                let ghost st2 = self@;
                let res = match r2 {
                    Err(e) => Err(e),
                    Ok(body) => Ok(Node::Let(nodes::Let { bindings: bs, body })),
                };
                proof {
                    assert forall|rest: Seq<Answer>|
                        #[trigger] expand_let_s(st0, n@, lv, f as nat, (c1 + c2) + rest)
                            == (rv(res), st2, rest) by {
                        assert((c1 + c2) + rest == c1 + (c2 + rest));
                        assert(expand_pairs_s(st0, n@, nodes_view(v@), 0, Seq::<NodeView>::empty(), g as nat, c1 + (c2 + rest))
                            == (Ok::<Seq<NodeView>, EvalErrorView>(bsv), st1, c2 + rest));
                        assert(expand_all_s(st1, lv, 2, Seq::<NodeView>::empty(), g as nat, c2 + rest)
                            == (rvs(r2), st2, rest));
                    }
                }
                (res, Ghost(c1 + c2))
            },
            _ => {
                let e = EvalError::IncorrectTypeOfArgumentError(n.clone());
                proof {
                    assert forall|rest: Seq<Answer>|
                        #[trigger] expand_let_s(st0, n@, lv, f as nat, Seq::<Answer>::empty() + rest)
                            == (Err::<NodeView, EvalErrorView>(e@), st0, rest) by {
                        assert(Seq::<Answer>::empty() + rest == rest);
                    }
                }
                (Err(e), Ghost(Seq::empty()))
            },
        }
    }

    /// Expands a call `(name args...)`; a macro call is evaluated now.
    fn expand_call<H: Host>(&mut self, host: &H, l: &Vec<Node>, head: &Symbol, f: usize) -> (out: (
        EvalResult,
        Ghost<Seq<Answer>>,
    ))
        ensures
            answered(host, out.1@),
            forall|rest: Seq<Answer>| #[trigger]
                expand_call_s(old(self)@, nodes_view(l@), head@, f as nat, out.1@ + rest) == (
                    rv(out.0),
                    final(self)@,
                    rest,
                ),
        decreases f, 0nat,
    {
        proof {
            lemma_nodes_view_len(l@);
        }
        let ghost st0 = self@;
        let ghost lv = nodes_view(l@);
        if f == 0 {
            proof {
                assert forall|rest: Seq<Answer>|
                    #[trigger] expand_call_s(st0, lv, head@, f as nat, Seq::<Answer>::empty() + rest)
                        == (Err::<NodeView, EvalErrorView>(EvalErrorView::DepthLimit), st0, rest) by {
                    assert(Seq::<Answer>::empty() + rest == rest);
                }
            }
            return (Err(EvalError::DepthLimitExceeded), Ghost(Seq::empty()));
        }
        let g = f - 1;
        assert(g as nat == (f - 1) as nat);
        let (r, Ghost(c1)) = self.expand_all(host, l, 1, Vec::new(), g);
        let ghost st1 = self@;
        assert(nodes_view(Seq::<Node>::empty()) =~= Seq::<NodeView>::empty());
        let args = match r {
            Err(e) => {
                proof {
                    assert forall|rest: Seq<Answer>|
                        #[trigger] expand_call_s(st0, lv, head@, f as nat, c1 + rest)
                            == (Err::<NodeView, EvalErrorView>(e@), st1, rest) by {
                        assert(expand_all_s(st0, lv, 1, Seq::<NodeView>::empty(), g as nat, c1 + rest)
                            == (Err::<Seq<NodeView>, EvalErrorView>(e@), st1, rest));
                    }
                }
                return (Err(e), Ghost(c1));
            },
            Ok(args) => args,
        };
        let ghost argsv = nodes_view(args@);
        let call = Node::Call(nodes::Call { symbol: symbol_clone(head), args });
        let is_macro = match self.get(head) {
            Some(x) => x.is_macro(),
            None => false,
        };
        if is_macro {
            let (r2, Ghost(c2)) = self.eval_node(host, &call, g);
            proof {
                assert forall|rest: Seq<Answer>|
                    #[trigger] expand_call_s(st0, lv, head@, f as nat, (c1 + c2) + rest)
                        == (rv(r2), self@, rest) by {
                    assert((c1 + c2) + rest == c1 + (c2 + rest));
                    assert(expand_all_s(st0, lv, 1, Seq::<NodeView>::empty(), g as nat, c1 + (c2 + rest))
                        == (Ok::<Seq<NodeView>, EvalErrorView>(argsv), st1, c2 + rest));
                    assert(eval_s(st1, call@, g as nat, c2 + rest) == (rv(r2), self@, rest));
                }
            }
            (r2, Ghost(c1 + c2))
        } else {
            proof {
                assert forall|rest: Seq<Answer>|
                    #[trigger] expand_call_s(st0, lv, head@, f as nat, c1 + rest)
                        == (Ok::<NodeView, EvalErrorView>(call@), st1, rest) by {
                    assert(expand_all_s(st0, lv, 1, Seq::<NodeView>::empty(), g as nat, c1 + rest)
                        == (Ok::<Seq<NodeView>, EvalErrorView>(argsv), st1, rest));
                }
            }
            (Ok(call), Ghost(c1))
        }
    }

    /// Expands the nodes of `s` from index `i` on, after `acc`.
    fn expand_all<H: Host>(&mut self, host: &H, s: &Vec<Node>, i: usize, acc: Vec<Node>, f: usize) -> (out: (
        Result<Vec<Node>, EvalError>,
        Ghost<Seq<Answer>>,
    ))
        ensures
            answered(host, out.1@),
            forall|rest: Seq<Answer>| #[trigger]
                expand_all_s(old(self)@, nodes_view(s@), i as nat, nodes_view(acc@), f as nat, out.1@ + rest)
                    == (rvs(out.0), final(self)@, rest),
        decreases f, s@.len() + 1 - i,
    {
        proof {
            lemma_nodes_view_len(s@);
        }
        let ghost st0 = self@;
        let ghost sv = nodes_view(s@);
        let ghost acc0 = nodes_view(acc@);
        if i >= s.len() {
            proof {
                assert forall|rest: Seq<Answer>|
                    #[trigger] expand_all_s(st0, sv, i as nat, acc0, f as nat, Seq::<Answer>::empty() + rest)
                        == (Ok::<Seq<NodeView>, EvalErrorView>(acc0), st0, rest) by {
                    assert(Seq::<Answer>::empty() + rest == rest);
                }
            }
            return (Ok(acc), Ghost(Seq::empty()));
        }
        let (r, Ghost(c1)) = self.expand_node(host, &s[i], f);
        let ghost st1 = self@;
        match r {
            Err(e) => {
                proof {
                    assert forall|rest: Seq<Answer>|
                        #[trigger] expand_all_s(st0, sv, i as nat, acc0, f as nat, c1 + rest)
                            == (Err::<Seq<NodeView>, EvalErrorView>(e@), st1, rest) by {
                        assert(expand_s(st0, sv[i as int], f as nat, c1 + rest)
                            == (Err::<NodeView, EvalErrorView>(e@), st1, rest));
                    }
                }
                (Err(e), Ghost(c1))
            },
            Ok(v) => {
                let ghost vv = v@;
                let mut acc = acc;
                proof {
                    lemma_nodes_view_push(acc@, v);
                }
                acc.push(v);
                let ghost acc1 = nodes_view(acc@);
                let (r2, Ghost(c2)) = self.expand_all(host, s, i + 1, acc, f);
                proof {
                    assert forall|rest: Seq<Answer>|
                        #[trigger] expand_all_s(st0, sv, i as nat, acc0, f as nat, (c1 + c2) + rest)
                            == (rvs(r2), self@, rest) by {
                        assert((c1 + c2) + rest == c1 + (c2 + rest));
                        assert(expand_s(st0, sv[i as int], f as nat, c1 + (c2 + rest))
                            == (Ok::<NodeView, EvalErrorView>(vv), st1, c2 + rest));
                        assert(acc1 == acc0.push(vv));
                        assert(expand_all_s(st1, sv, (i + 1) as nat, acc1, f as nat, c2 + rest)
                            == (rvs(r2), self@, rest));
                    }
                }
                (r2, Ghost(c1 + c2))
            },
        }
    }

    /// Expands the `let` binding pairs from pair `k` on, after `acc`.
    fn expand_pairs<H: Host>(&mut self, host: &H, n: &Node, v: &Vec<Node>, k: usize, acc: Vec<Node>, f: usize) -> (out: (
        Result<Vec<Node>, EvalError>,
        Ghost<Seq<Answer>>,
    ))
        requires
            k <= v@.len(),
        ensures
            answered(host, out.1@),
            forall|rest: Seq<Answer>| #[trigger]
                expand_pairs_s(
                    old(self)@,
                    n@,
                    nodes_view(v@),
                    k as nat,
                    nodes_view(acc@),
                    f as nat,
                    out.1@ + rest,
                ) == (rvs(out.0), final(self)@, rest),
        decreases f, v@.len() + 2 - 2 * k,
    {
        proof {
            lemma_nodes_view_len(v@);
        }
        let ghost st0 = self@;
        let ghost vv = nodes_view(v@);
        let ghost acc0 = nodes_view(acc@);
        if k >= v.len() / 2 {
            proof {
                assert(2 * k + 1 >= v.len());
                assert forall|rest: Seq<Answer>|
                    #[trigger] expand_pairs_s(st0, n@, vv, k as nat, acc0, f as nat, Seq::<Answer>::empty() + rest)
                        == (Ok::<Seq<NodeView>, EvalErrorView>(acc0), st0, rest) by {
                    assert(Seq::<Answer>::empty() + rest == rest);
                }
            }
            return (Ok(acc), Ghost(Seq::empty()));
        }
        assert(2 * k + 1 < v.len());
        let j = 2 * k;
        match &v[j] {
            Node::Symbol(_) => {
                let (r, Ghost(c1)) = self.expand_node(host, &v[j + 1], f);
                let ghost st1 = self@;
                match r {
                    Err(e) => {
                        proof {
                            assert forall|rest: Seq<Answer>|
                                #[trigger] expand_pairs_s(st0, n@, vv, k as nat, acc0, f as nat, c1 + rest)
                                    == (Err::<Seq<NodeView>, EvalErrorView>(e@), st1, rest) by {
                                assert(expand_s(st0, vv[(2 * k + 1) as int], f as nat, c1 + rest)
                                    == (Err::<NodeView, EvalErrorView>(e@), st1, rest));
                            }
                        }
                        (Err(e), Ghost(c1))
                    },
                    Ok(e) => {
                        let ghost ev = e@;
                        let mut acc = acc;
                        let name = v[j].clone();
                        proof {
                            lemma_nodes_view_push(acc@, name);
                            lemma_nodes_view_push(acc@.push(name), e);
                        }
                        acc.push(name);
                        acc.push(e);
                        let ghost acc1 = nodes_view(acc@);
                        let (r2, Ghost(c2)) = self.expand_pairs(host, n, v, k + 1, acc, f);
                        proof {
                            assert forall|rest: Seq<Answer>|
                                #[trigger] expand_pairs_s(st0, n@, vv, k as nat, acc0, f as nat, (c1 + c2) + rest)
                                    == (rvs(r2), self@, rest) by {
                                assert((c1 + c2) + rest == c1 + (c2 + rest));
                                assert(expand_s(st0, vv[(2 * k + 1) as int], f as nat, c1 + (c2 + rest))
                                    == (Ok::<NodeView, EvalErrorView>(ev), st1, c2 + rest));
                                assert(acc1 == acc0.push(vv[2 * k as int]).push(ev));
                                assert(expand_pairs_s(st1, n@, vv, (k + 1) as nat, acc1, f as nat, c2 + rest)
                                    == (rvs(r2), self@, rest));
                            }
                        }
                        (r2, Ghost(c1 + c2))
                    },
                }
            },
            _ => {
                let e = EvalError::IncorrectTypeOfArgumentError(n.clone());
                proof {
                    assert forall|rest: Seq<Answer>|
                        #[trigger] expand_pairs_s(st0, n@, vv, k as nat, acc0, f as nat, Seq::<Answer>::empty() + rest)
                            == (Err::<Seq<NodeView>, EvalErrorView>(e@), st0, rest) by {
                        assert(Seq::<Answer>::empty() + rest == rest);
                    }
                }
                (Err(e), Ghost(Seq::empty()))
            },
        }
    }

    /// Expands a quoted form (a syntax-quoted one, if `syntax`).
    fn expand_quoted<H: Host>(&mut self, host: &H, n: &Node, syntax: bool, f: usize) -> (out: (
        EvalResult,
        Ghost<Seq<Answer>>,
    ))
        ensures
            answered(host, out.1@),
            forall|rest: Seq<Answer>| #[trigger]
                expand_quoted_s(old(self)@, n@, syntax, f as nat, out.1@ + rest) == (
                    rv(out.0),
                    final(self)@,
                    rest,
                ),
        decreases f, 0nat,
    {
        let ghost st0 = self@;
        if f == 0 {
            proof {
                assert forall|rest: Seq<Answer>|
                    #[trigger] expand_quoted_s(st0, n@, syntax, f as nat, Seq::<Answer>::empty() + rest)
                        == (Err::<NodeView, EvalErrorView>(EvalErrorView::DepthLimit), st0, rest) by {
                    assert(Seq::<Answer>::empty() + rest == rest);
                }
            }
            return (Err(EvalError::DepthLimitExceeded), Ghost(Seq::empty()));
        }
        let g = f - 1;
        assert(g as nat == (f - 1) as nat);
        match n {
            Node::Symbol(q) => {
                if syntax && q.ns.is_none() {
                    let res = Node::Symbol(Symbol { ns: Some(self.current.clone()), name: q.name.clone() });
                    proof {
                        assert forall|rest: Seq<Answer>|
                            #[trigger] expand_quoted_s(st0, n@, syntax, f as nat, Seq::<Answer>::empty() + rest)
                                == (Ok::<NodeView, EvalErrorView>(res@), st0, rest) by {
                            assert(Seq::<Answer>::empty() + rest == rest);
                        }
                    }
                    (Ok(res), Ghost(Seq::empty()))
                } else {
                    assert forall|log: Seq<Answer>|
                        #[trigger] expand_quoted_s(st0, n@, syntax, f as nat, log)
                            == expand_s(st0, n@, g as nat, log) by {}
                    self.expand_node(host, n, g)
                }
            },
            Node::List(l) => {
                proof {
                    lemma_nodes_view_len(l@);
                    lemma_names();
                }
                if l.len() > 0 && !(l[0].is_symbol("unquote") || l[0].is_symbol("unquote-splicing")) {
                    assert(!is_unquote_symbol(nodes_view(l@)[0]));
                    let (r, Ghost(c1)) = self.expand_quoted_all(host, l, syntax, 0, Vec::new(), g);
                    let ghost st1 = self@;
                    assert(nodes_view(Seq::<Node>::empty()) =~= Seq::<NodeView>::empty());
                    let res = match r {
                        Err(e) => Err(e),
                        Ok(v) => Ok(Node::List(v)),
                    };
                    proof {
                        assert forall|rest: Seq<Answer>|
                            #[trigger] expand_quoted_s(st0, n@, syntax, f as nat, c1 + rest)
                                == (rv(res), st1, rest) by {
                            assert(expand_quoted_all_s(st0, nodes_view(l@), syntax, 0, Seq::<NodeView>::empty(), g as nat, c1 + rest)
                                == (rvs(r), st1, rest));
                        }
                    }
                    (res, Ghost(c1))
                } else {
                    assert forall|log: Seq<Answer>|
                        #[trigger] expand_quoted_s(st0, n@, syntax, f as nat, log)
                            == expand_s(st0, n@, g as nat, log) by {}
                    self.expand_node(host, n, g)
                }
            },
            _ => {
                assert forall|log: Seq<Answer>|
                    #[trigger] expand_quoted_s(st0, n@, syntax, f as nat, log)
                        == expand_s(st0, n@, g as nat, log) by {}
                self.expand_node(host, n, g)
            },
        }
    }

    /// Expands the elements of a quoted list from index `i` on, after `acc`.
    fn expand_quoted_all<H: Host>(
        &mut self,
        host: &H,
        s: &Vec<Node>,
        syntax: bool,
        i: usize,
        acc: Vec<Node>,
        f: usize,
    ) -> (out: (Result<Vec<Node>, EvalError>, Ghost<Seq<Answer>>))
        ensures
            answered(host, out.1@),
            forall|rest: Seq<Answer>| #[trigger]
                expand_quoted_all_s(
                    old(self)@,
                    nodes_view(s@),
                    syntax,
                    i as nat,
                    nodes_view(acc@),
                    f as nat,
                    out.1@ + rest,
                ) == (rvs(out.0), final(self)@, rest),
        decreases f, s@.len() - i,
    {
        proof {
            lemma_nodes_view_len(s@);
        }
        let ghost st0 = self@;
        let ghost sv = nodes_view(s@);
        let ghost acc0 = nodes_view(acc@);
        if i >= s.len() {
            proof {
                assert forall|rest: Seq<Answer>|
                    #[trigger] expand_quoted_all_s(st0, sv, syntax, i as nat, acc0, f as nat, Seq::<Answer>::empty() + rest)
                        == (Ok::<Seq<NodeView>, EvalErrorView>(acc0), st0, rest) by {
                    assert(Seq::<Answer>::empty() + rest == rest);
                }
            }
            return (Ok(acc), Ghost(Seq::empty()));
        }
        let (r, Ghost(c1)) = self.expand_quoted(host, &s[i], syntax, f);
        let ghost st1 = self@;
        match r {
            Err(e) => {
                proof {
                    assert forall|rest: Seq<Answer>|
                        #[trigger] expand_quoted_all_s(st0, sv, syntax, i as nat, acc0, f as nat, c1 + rest)
                            == (Err::<Seq<NodeView>, EvalErrorView>(e@), st1, rest) by {
                        assert(expand_quoted_s(st0, sv[i as int], syntax, f as nat, c1 + rest)
                            == (Err::<NodeView, EvalErrorView>(e@), st1, rest));
                    }
                }
                (Err(e), Ghost(c1))
            },
            Ok(v) => {
                let ghost vv = v@;
                let mut acc = acc;
                proof {
                    lemma_nodes_view_push(acc@, v);
                }
                acc.push(v);
                let ghost acc1 = nodes_view(acc@);
                let (r2, Ghost(c2)) = self.expand_quoted_all(host, s, syntax, i + 1, acc, f);
                proof {
                    assert forall|rest: Seq<Answer>|
                        #[trigger] expand_quoted_all_s(st0, sv, syntax, i as nat, acc0, f as nat, (c1 + c2) + rest)
                            == (rvs(r2), self@, rest) by {
                        assert((c1 + c2) + rest == c1 + (c2 + rest));
                        assert(expand_quoted_s(st0, sv[i as int], syntax, f as nat, c1 + (c2 + rest))
                            == (Ok::<NodeView, EvalErrorView>(vv), st1, c2 + rest));
                        assert(acc1 == acc0.push(vv));
                        assert(expand_quoted_all_s(st1, sv, syntax, (i + 1) as nat, acc1, f as nat, c2 + rest)
                            == (rvs(r2), self@, rest));
                    }
                }
                (r2, Ghost(c1 + c2))
            },
        }
    }
}


/// The nesting bound that `eval` and `expand` pass on: the largest a machine
/// word holds, so that, as for any recursive evaluator, only the machine's
/// stack limits how deeply they nest. `eval_bounded` takes a bound of the
/// caller's choosing and gives `DepthLimitExceeded` when it is reached.
pub const MAX_DEPTH: usize = usize::MAX;

impl<'s> State<'s> {
    /// Evaluates `node` with evaluation steps nested at most `depth` deep:
    /// expands it, then evaluates what the expansion gives. The result and
    /// the state after it are those the definitions give for a log of
    /// answers, in the order the questions were asked, each of which is the
    /// reply of a call of the host method that its question names, on the
    /// numbers (or the path) of that question.
    pub fn eval_bounded<H: Host>(&mut self, host: &H, node: &Node, depth: usize) -> (r: EvalResult)
        ensures
            exists|log: Seq<Answer>| #[trigger]
                eval_s(old(self)@, node@, depth as nat, log) == (rv(r), final(self)@, Seq::<Answer>::empty())
                    && answered(host, log),
    {
        let (r, Ghost(c)) = self.eval_node(host, node, depth);
        proof {
            assert(eval_s(old(self)@, node@, depth as nat, c + Seq::<Answer>::empty()) == (
                rv(r),
                self@,
                Seq::<Answer>::empty(),
            ));
            assert(c + Seq::<Answer>::empty() =~= c);
        }
        r
    }

    /// Evaluates `node`: expands it, then evaluates what the expansion gives,
    /// with no bound on nesting but `MAX_DEPTH`.
    pub fn eval<H: Host>(&mut self, host: &H, node: &Node) -> (r: EvalResult)
        ensures
            exists|log: Seq<Answer>| #[trigger]
                eval_s(old(self)@, node@, MAX_DEPTH as nat, log) == (rv(r), final(self)@, Seq::<Answer>::empty())
                    && answered(host, log),
    {
        self.eval_bounded(host, node, MAX_DEPTH)
    }

    /// Expands `node`: special forms become their nodes, calls become call
    /// nodes, and macro calls are evaluated; anything else stands for itself.
    /// As for `eval_bounded`, every answer in the log comes from the host.
    pub fn expand<H: Host>(&mut self, host: &H, node: &Node) -> (r: EvalResult)
        ensures
            exists|log: Seq<Answer>| #[trigger]
                expand_s(old(self)@, node@, MAX_DEPTH as nat, log) == (rv(r), final(self)@, Seq::<Answer>::empty())
                    && answered(host, log),
    {
        let (r, Ghost(c)) = self.expand_node(host, node, MAX_DEPTH);
        proof {
            assert(expand_s(old(self)@, node@, MAX_DEPTH as nat, c + Seq::<Answer>::empty()) == (
                rv(r),
                self@,
                Seq::<Answer>::empty(),
            ));
            assert(c + Seq::<Answer>::empty() =~= c);
        }
        r
    }
}

} // verus!
