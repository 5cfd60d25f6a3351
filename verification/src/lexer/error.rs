//! The error that the lexer reports.

use vstd::prelude::*;
use crate::number::{
    Number,
    number_text,
    normalize_value,
    u64_digits,
    digits_text,
    digit_char,
    lemma_u64_digits,
};
#[allow(unused_imports)]
use crate::text;

verus! {

/// The text of a natural number in decimal.
pub open spec fn nat_text(n: nat) -> Seq<char> {
    let (neg, d, s) = normalize_value(false, n, 0);
    number_text(neg, d, s)
}

/// Distinct naturals are written differently.
pub proof fn lemma_nat_text_injective(a: nat, b: nat)
    requires
        a != b,
    ensures
        nat_text(a) != nat_text(b),
{
    lemma_u64_digits(a);
    lemma_u64_digits(b);
    if nat_text(a) == nat_text(b) {
        let da = u64_digits(a);
        let db = u64_digits(b);
        if a == 0 {
            assert(nat_text(b) == digits_text(db));
            assert(digits_text(db)[0] == digit_char(db[0]));
            assert(nat_text(a)[0] == '0');
        } else if b == 0 {
            assert(nat_text(a) == digits_text(da));
            assert(digits_text(da)[0] == digit_char(da[0]));
            assert(nat_text(b)[0] == '0');
        } else {
            assert(nat_text(a) == digits_text(da));
            assert(nat_text(b) == digits_text(db));
            assert forall|i: int| 0 <= i < da.len() implies da[i] == db[i] by {
                assert(digits_text(da)[i] == digit_char(da[i]));
                assert(digits_text(db)[i] == digit_char(db[i]));
            }
            assert(da =~= db);
        }
    }
}

/// The text of a lexer error at `line:col`.
pub open spec fn lexer_error_text(line: nat, col: nat) -> Seq<char> {
    seq!['I', 'n', 'v', 'a', 'l', 'i', 'd', ' ', 's', 'y', 'n', 't', 'a', 'x', ' ', 'a', 't', ' ']
        + nat_text(line) + seq![':'] + nat_text(col)
}

/// Invalid syntax at a position of the source.
#[derive(Debug, PartialEq, Clone)]
pub struct LexerError {
    line: usize,
    col: usize,
}

impl View for LexerError {
    type V = (nat, nat);

    closed spec fn view(&self) -> (nat, nat) {
        (self.line as nat, self.col as nat)
    }
}

impl LexerError {
    pub fn new(line: usize, col: usize) -> (e: LexerError)
        ensures
            e@ == (line as nat, col as nat),
    {
        LexerError { line, col }
    }

    /// The text that describes the error: `Invalid syntax at line:col`.
    pub fn to_string(&self) -> (s: String)
        ensures
            s@ == lexer_error_text(self@.0, self@.1),
    {
        let mut s = String::new();
        let prefix = "Invalid syntax at ";
        proof {
            reveal_strlit("Invalid syntax at ");
        }
        s.append(prefix);
        let l = Number::from_parts(false, self.line as u64, 0).to_string();
        s.append(l.as_str());
        s.push(':');
        let c = Number::from_parts(false, self.col as u64, 0).to_string();
        s.append(c.as_str());
        assert(s@ =~= lexer_error_text(self@.0, self@.1));
        s
    }
}

} // verus!
