//! What comparison chains and quoted templates promise: `(< a1 ... an)`
//! (and `>`, `=`) compares each argument with the one after it, and quoting
//! a list quotes each of its elements, nested lists included.

use vstd::prelude::*;
use crate::ast::NodeView;
use crate::state::StateView;
use crate::state::eval_laws::law_self_evaluation;
use crate::state::semantics::{
    NumV,
    Reply,
    Answer,
    EvalErrorView,
    Relation,
    relation_query,
    num_node,
    compare_s,
    chain_s,
    eval_quoted_s,
    quoted_elems_s,
    is_splice_call,
};

verus! {

broadcast use crate::state::semantics::group_log;

/// Whether `args` are the number nodes that hold `nums`, in order.
pub open spec fn number_nodes(args: Seq<NodeView>, nums: Seq<NumV>) -> bool {
    &&& args.len() == nums.len()
    &&& forall|k: int| 0 <= k < args.len() ==> #[trigger] args[k] == num_node(nums[k])
}

/// Whether the first `m` answers of `log` say yes to `op` between each
/// number of `nums`, from the `j`-th on, and the number right after it.
pub open spec fn neighbours_hold(log: Seq<Answer>, nums: Seq<NumV>, op: Relation, j: int, m: int) -> bool {
    &&& 0 <= m <= log.len()
    &&& forall|k: int|
        0 <= k < m ==> #[trigger] log[k] == (
            relation_query(op, nums[j + k], nums[j + k + 1]),
            Reply::Truth(true),
        )
}

proof fn lemma_chain_true(
    st: StateView,
    args: Seq<NodeView>,
    nums: Seq<NumV>,
    i: nat,
    op: Relation,
    f: nat,
    log: Seq<Answer>,
)
    requires
        number_nodes(args, nums),
        1 <= i <= nums.len(),
        f >= 2,
        neighbours_hold(log, nums, op, i - 1, nums.len() - i),
    ensures
        chain_s(st, args, i, nums[i - 1], op, f, log) == (
            Ok::<NodeView, EvalErrorView>(NodeView::Bool(true)),
            st,
            log.skip(nums.len() - i),
        ),
    decreases nums.len() - i,
{
    let n = nums.len();
    if i < n {
        law_self_evaluation(st, args[i as int], f, log);
        assert(args[i as int] == num_node(nums[i as int]));
        assert(log[0] == (
            relation_query(op, nums[i - 1], nums[i as int]),
            Reply::Truth(true),
        ));
        let log2 = log.drop_first();
        assert forall|k: int| 0 <= k < n - (i + 1) implies #[trigger] log2[k] == (
            relation_query(op, nums[i + k], nums[i + k + 1]),
            Reply::Truth(true),
        ) by {
            assert(log2[k] == log[k + 1]);
            assert(i - 1 + (k + 1) == i + k);
        }
        lemma_chain_true(st, args, nums, i + 1, op, f, log2);
        assert(log2.skip(n - (i + 1)) =~= log.skip(n - i));
    } else {
        assert(log.skip(0) =~= log);
    }
}

proof fn lemma_chain_false(
    st: StateView,
    args: Seq<NodeView>,
    nums: Seq<NumV>,
    i: nat,
    m: nat,
    op: Relation,
    f: nat,
    log: Seq<Answer>,
)
    requires
        number_nodes(args, nums),
        1 <= i <= m + 1,
        m + 1 < nums.len(),
        f >= 2,
        neighbours_hold(log, nums, op, i - 1, m + 1 - i),
        m + 1 - i < log.len(),
        log[m + 1 - i] == (relation_query(op, nums[m as int], nums[(m + 1) as int]), Reply::Truth(false)),
    ensures
        chain_s(st, args, i, nums[i - 1], op, f, log) == (
            Ok::<NodeView, EvalErrorView>(NodeView::Bool(false)),
            st,
            log.skip(m + 2 - i),
        ),
    decreases m + 1 - i,
{
    law_self_evaluation(st, args[i as int], f, log);
    assert(args[i as int] == num_node(nums[i as int]));
    let log2 = log.drop_first();
    if i == m + 1 {
        assert(log.skip(1) =~= log2);
    } else {
        assert(log[0] == (
            relation_query(op, nums[i - 1], nums[i as int]),
            Reply::Truth(true),
        ));
        assert forall|k: int| 0 <= k < m + 1 - (i + 1) implies #[trigger] log2[k] == (
            relation_query(op, nums[i + k], nums[i + k + 1]),
            Reply::Truth(true),
        ) by {
            assert(log2[k] == log[k + 1]);
            assert(i - 1 + (k + 1) == i + k);
        }
        assert(log2[m + 1 - (i + 1)] == log[m + 1 - i]);
        lemma_chain_false(st, args, nums, i + 1, m, op, f, log2);
        assert(log2.skip(m + 2 - (i + 1)) =~= log.skip(m + 2 - i));
    }
}

/// A comparison chain over numbers holds when the relation holds between
/// each argument and the next: when the host says yes to `a1 op a2`, then to
/// `a2 op a3`, and so on up to `an`, in that order, the chain gives `true`,
/// has used exactly those answers, and leaves the state as it was.
pub proof fn law_compare_neighbours_true(
    st: StateView,
    node: NodeView,
    args: Seq<NodeView>,
    nums: Seq<NumV>,
    op: Relation,
    f: nat,
    log: Seq<Answer>,
)
    requires
        number_nodes(args, nums),
        nums.len() >= 1,
        f >= 2,
        neighbours_hold(log, nums, op, 0, nums.len() - 1),
    ensures
        compare_s(st, node, args, op, f, log) == (
            Ok::<NodeView, EvalErrorView>(NodeView::Bool(true)),
            st,
            log.skip(nums.len() - 1),
        ),
{
    law_self_evaluation(st, args[0], f, log);
    assert(args[0] == num_node(nums[0]));
    lemma_chain_true(st, args, nums, 1, op, f, log);
}

/// A comparison chain over numbers fails at the first pair of neighbours
/// that the relation does not hold between: when the host says yes to
/// `a1 op a2` up to `am op a(m+1)` and then no to `a(m+1) op a(m+2)`, the
/// chain gives `false`, asks nothing more, and leaves the state as it was.
pub proof fn law_compare_neighbours_false(
    st: StateView,
    node: NodeView,
    args: Seq<NodeView>,
    nums: Seq<NumV>,
    m: nat,
    op: Relation,
    f: nat,
    log: Seq<Answer>,
)
    requires
        number_nodes(args, nums),
        m + 1 < nums.len(),
        f >= 2,
        neighbours_hold(log, nums, op, 0, m as int),
        m < log.len(),
        log[m as int] == (relation_query(op, nums[m as int], nums[(m + 1) as int]), Reply::Truth(false)),
    ensures
        compare_s(st, node, args, op, f, log) == (
            Ok::<NodeView, EvalErrorView>(NodeView::Bool(false)),
            st,
            log.skip((m + 1) as int),
        ),
{
    law_self_evaluation(st, args[0], f, log);
    assert(args[0] == num_node(nums[0]));
    lemma_chain_false(st, args, nums, 1, m, op, f, log);
}

/// `out` with `v` put in front of the list it gives, if it gives one.
pub open spec fn prepend_quoted(
    v: NodeView,
    out: (Result<NodeView, EvalErrorView>, StateView, Seq<Answer>),
) -> (Result<NodeView, EvalErrorView>, StateView, Seq<Answer>) {
    match out.0 {
        Ok(NodeView::List(vs)) => (Ok(NodeView::List(seq![v] + vs)), out.1, out.2),
        _ => out,
    }
}

proof fn lemma_quoted_elems_shift(
    st: StateView,
    e: NodeView,
    l: Seq<NodeView>,
    i: nat,
    acc: Seq<NodeView>,
    f: nat,
    log: Seq<Answer>,
)
    ensures
        quoted_elems_s(st, seq![e] + l, i + 1, acc, f, log) == quoted_elems_s(st, l, i, acc, f, log),
    decreases l.len() - i,
{
    let l2 = seq![e] + l;
    if i < l.len() {
        assert(l2[(i + 1) as int] == l[i as int]);
        let x = l[i as int];
        if is_splice_call(x) {
            let (r, st1, log1) = crate::state::semantics::eval_s(st, x, f, log);
            match r {
                Ok(NodeView::List(items)) => {
                    lemma_quoted_elems_shift(st1, e, l, i + 1, acc + items, f, log1);
                },
                _ => {},
            }
        } else {
            let (r, st1, log1) = eval_quoted_s(st, x, f, log);
            match r {
                Ok(v) => {
                    lemma_quoted_elems_shift(st1, e, l, i + 1, acc.push(v), f, log1);
                },
                _ => {},
            }
        }
    }
}

proof fn lemma_quoted_elems_prefix(
    st: StateView,
    v: NodeView,
    l: Seq<NodeView>,
    i: nat,
    acc: Seq<NodeView>,
    f: nat,
    log: Seq<Answer>,
)
    ensures
        ({
            let a = quoted_elems_s(st, l, i, acc, f, log);
            let b = quoted_elems_s(st, l, i, seq![v] + acc, f, log);
            &&& b.1 == a.1
            &&& b.2 == a.2
            &&& (a.0 matches Ok(xs) ==> b.0 == Ok::<Seq<NodeView>, EvalErrorView>(seq![v] + xs))
            &&& (a.0 is Err ==> b.0 == a.0)
        }),
    decreases l.len() - i,
{
    if i < l.len() {
        let x = l[i as int];
        if is_splice_call(x) {
            let (r, st1, log1) = crate::state::semantics::eval_s(st, x, f, log);
            match r {
                Ok(NodeView::List(items)) => {
                    assert((seq![v] + acc) + items =~= seq![v] + (acc + items));
                    lemma_quoted_elems_prefix(st1, v, l, i + 1, acc + items, f, log1);
                },
                _ => {},
            }
        } else {
            let (r, st1, log1) = eval_quoted_s(st, x, f, log);
            match r {
                Ok(w) => {
                    assert((seq![v] + acc).push(w) =~= seq![v] + acc.push(w));
                    lemma_quoted_elems_prefix(st1, v, l, i + 1, acc.push(w), f, log1);
                },
                _ => {},
            }
        }
    }
}

/// Quoting a list quotes its elements one after the other, whatever they
/// are: for a list whose first element `e` is not a splice, the result is
/// the quoted `e` in front of the quoted rest of the list, each quoted in
/// the state and with the answers that the one before left. An element
/// that is itself a list is quoted in turn, so an unquote at any depth is
/// replaced by its value.
pub proof fn law_quote_list_elementwise(
    st: StateView,
    e: NodeView,
    l: Seq<NodeView>,
    f: nat,
    log: Seq<Answer>,
)
    requires
        !is_splice_call(e),
    ensures
        eval_quoted_s(st, e, f, log).0 is Err ==> eval_quoted_s(
            st,
            NodeView::List(seq![e] + l),
            f + 1,
            log,
        ) == eval_quoted_s(st, e, f, log),
        eval_quoted_s(st, e, f, log).0 matches Ok(v) ==> eval_quoted_s(
            st,
            NodeView::List(seq![e] + l),
            f + 1,
            log,
        ) == prepend_quoted(
            v,
            eval_quoted_s(
                eval_quoted_s(st, e, f, log).1,
                NodeView::List(l),
                f + 1,
                eval_quoted_s(st, e, f, log).2,
            ),
        ),
{
    let l2 = seq![e] + l;
    assert(l2[0] == e);
    let (r1, st1, log1) = eval_quoted_s(st, e, f, log);
    match r1 {
        Ok(v) => {
            assert(Seq::<NodeView>::empty().push(v) =~= seq![v] + Seq::<NodeView>::empty());
            lemma_quoted_elems_shift(st1, e, l, 0, seq![v] + Seq::<NodeView>::empty(), f, log1);
            lemma_quoted_elems_prefix(st1, v, l, 0, Seq::<NodeView>::empty(), f, log1);
            let a = quoted_elems_s(st1, l, 0, Seq::<NodeView>::empty(), f, log1);
            match a.0 {
                Ok(xs) => {
                    assert(seq![v] + xs == seq![v] + xs);
                },
                Err(_) => {},
            }
        },
        Err(_) => {},
    }
}

} // verus!
