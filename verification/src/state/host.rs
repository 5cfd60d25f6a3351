//! The host that evaluation asks for arithmetic, comparisons and files, and
//! what it means for a recorded answer to come from it.

use vstd::prelude::*;
use crate::number::Number;
use crate::state::semantics::{NumV, Query, Reply, Answer};

verus! {

/// What evaluation needs from its environment: arithmetic and comparison
/// on numbers, and the text of files. Nothing is assumed of the answers
/// beyond what an implementation's own contract says; the evaluator records
/// each question with the reply it got, and `answered` ties every recorded
/// reply to a call of the matching method with those arguments.
pub trait Host {
    /// `a + b`.
    fn add(&self, a: &Number, b: &Number) -> Number;

    /// `a - b`.
    fn sub(&self, a: &Number, b: &Number) -> Number;

    /// `a * b`.
    fn mul(&self, a: &Number, b: &Number) -> Number;

    /// `a / b`.
    fn div(&self, a: &Number, b: &Number) -> Number;

    /// `-a`.
    fn neg(&self, a: &Number) -> Number;

    /// `1 / a`.
    fn recip(&self, a: &Number) -> Number;

    /// Whether `a < b`.
    fn less(&self, a: &Number, b: &Number) -> bool;

    /// Whether `a > b`.
    fn greater(&self, a: &Number, b: &Number) -> bool;

    /// Whether `a == b`.
    fn equal(&self, a: &Number, b: &Number) -> bool;

    /// The text of the file at `path`: `None` when no file is there, an
    /// error message when it cannot be read.
    fn read_file(&self, path: &str) -> Option<Result<String, String>>;
}

/// The number a host works on, as the definitions see it.
pub open spec fn num_v(n: Number) -> NumV {
    NumV { negative: n.negative(), digits: n.digits(), scale: n.scale() }
}

/// The view of what a host gives for a file.
pub open spec fn file_view(r: Option<Result<String, String>>) -> Option<Result<Seq<char>, Seq<char>>> {
    match r {
        None => None,
        Some(Ok(t)) => Some(Ok(t@)),
        Some(Err(m)) => Some(Err(m@)),
    }
}

/// Whether the answer `x` is one that `host` gives: its reply is what the
/// method that the question names returns, called on the numbers (or the
/// path) of the question.
pub open spec fn backed<H: Host>(host: &H, x: Answer) -> bool {
    match x {
        (Query::Add(a, b), Reply::Number(r)) => exists|p: Number, q: Number, v: Number|
            #![trigger call_ensures(H::add, (host, &p, &q), v)]
            num_v(p) == a && num_v(q) == b && num_v(v) == r && call_ensures(H::add, (host, &p, &q), v),
        (Query::Sub(a, b), Reply::Number(r)) => exists|p: Number, q: Number, v: Number|
            #![trigger call_ensures(H::sub, (host, &p, &q), v)]
            num_v(p) == a && num_v(q) == b && num_v(v) == r && call_ensures(H::sub, (host, &p, &q), v),
        (Query::Mul(a, b), Reply::Number(r)) => exists|p: Number, q: Number, v: Number|
            #![trigger call_ensures(H::mul, (host, &p, &q), v)]
            num_v(p) == a && num_v(q) == b && num_v(v) == r && call_ensures(H::mul, (host, &p, &q), v),
        (Query::Div(a, b), Reply::Number(r)) => exists|p: Number, q: Number, v: Number|
            #![trigger call_ensures(H::div, (host, &p, &q), v)]
            num_v(p) == a && num_v(q) == b && num_v(v) == r && call_ensures(H::div, (host, &p, &q), v),
        (Query::Neg(a), Reply::Number(r)) => exists|p: Number, v: Number|
            #![trigger call_ensures(H::neg, (host, &p), v)]
            num_v(p) == a && num_v(v) == r && call_ensures(H::neg, (host, &p), v),
        (Query::Recip(a), Reply::Number(r)) => exists|p: Number, v: Number|
            #![trigger call_ensures(H::recip, (host, &p), v)]
            num_v(p) == a && num_v(v) == r && call_ensures(H::recip, (host, &p), v),
        (Query::Less(a, b), Reply::Truth(t)) => exists|p: Number, q: Number, v: bool|
            #![trigger call_ensures(H::less, (host, &p, &q), v)]
            num_v(p) == a && num_v(q) == b && v == t && call_ensures(H::less, (host, &p, &q), v),
        (Query::Greater(a, b), Reply::Truth(t)) => exists|p: Number, q: Number, v: bool|
            #![trigger call_ensures(H::greater, (host, &p, &q), v)]
            num_v(p) == a && num_v(q) == b && v == t && call_ensures(H::greater, (host, &p, &q), v),
        (Query::Equal(a, b), Reply::Truth(t)) => exists|p: Number, q: Number, v: bool|
            #![trigger call_ensures(H::equal, (host, &p, &q), v)]
            num_v(p) == a && num_v(q) == b && v == t && call_ensures(H::equal, (host, &p, &q), v),
        (Query::ReadFile(path), Reply::File(f)) => exists|p: &str, v: Option<Result<String, String>>|
            #![trigger call_ensures(H::read_file, (host, p), v)]
            p@ == path && file_view(v) == f && call_ensures(H::read_file, (host, p), v),
        _ => false,
    }
}

/// Whether every answer in `log` is one that `host` gives.
pub closed spec fn answered<H: Host>(host: &H, log: Seq<Answer>) -> bool {
    forall|i: int| 0 <= i < log.len() ==> #[trigger] backed(host, log[i])
}

/// No answers: nothing to back.
pub broadcast proof fn lemma_answered_empty<H: Host>(host: &H)
    ensures
        #[trigger] answered(host, Seq::<Answer>::empty()),
{
}

/// One answer that the host gives.
pub broadcast proof fn lemma_answered_one<H: Host>(host: &H, x: Answer)
    requires
        backed(host, x),
    ensures
        #[trigger] answered(host, seq![x]),
{
}

/// Two logs of answers that the host gives, one after the other.
pub broadcast proof fn lemma_answered_add<H: Host>(host: &H, a: Seq<Answer>, b: Seq<Answer>)
    requires
        answered(host, a),
        answered(host, b),
    ensures
        #[trigger] answered(host, a + b),
{
    assert forall|i: int| 0 <= i < (a + b).len() implies #[trigger] backed(host, (a + b)[i]) by {
        if i < a.len() {
            assert((a + b)[i] == a[i]);
        } else {
            assert((a + b)[i] == b[i - a.len()]);
        }
    }
}

pub broadcast group group_answered {
    lemma_answered_empty,
    lemma_answered_one,
    lemma_answered_add,
}

} // verus!
