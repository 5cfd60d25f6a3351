//! Classes of characters, and scans over the source text that they drive.

use vstd::prelude::*;
use crate::ast::QName;

verus! {

/// Unicode white space: the characters with the `White_Space` property,
/// which is what `char::is_whitespace` tests.
pub open spec fn is_ws(c: char) -> bool {
    let u = c as u32;
    ||| 9 <= u <= 13
    ||| u == 32
    ||| u == 0x85
    ||| u == 0xA0
    ||| u == 0x1680
    ||| 0x2000 <= u <= 0x200A
    ||| u == 0x2028
    ||| u == 0x2029
    ||| u == 0x202F
    ||| u == 0x205F
    ||| u == 0x3000
}

/// An ASCII decimal digit.
pub open spec fn is_digit(c: char) -> bool {
    '0' <= c <= '9'
}

/// The value of a decimal digit character.
pub open spec fn digit_of(c: char) -> u8 {
    (c as u32 - 48) as u8
}

/// A character that starts a symbol (besides a sign not followed by a digit).
pub open spec fn is_symbol_start(c: char) -> bool {
    ||| 'a' <= c <= 'z'
    ||| 'A' <= c <= 'Z'
    ||| c == '/'
    ||| c == '*'
    ||| c == '%'
    ||| c == '>'
    ||| c == '<'
    ||| c == '='
    ||| c == '&'
}

/// A character that ends a symbol or a keyword.
pub open spec fn is_name_stop(c: char) -> bool {
    c == ')' || c == ']' || is_ws(c)
}

/// A character that may follow a number.
pub open spec fn is_number_stop(c: char) -> bool {
    c == '(' || c == ')' || c == '[' || c == ']' || is_ws(c)
}

/// The first index from `k` on whose character is not white space.
pub open spec fn ws_end(s: Seq<char>, k: int) -> int
    decreases s.len() - k,
{
    if 0 <= k < s.len() && is_ws(s[k]) {
        ws_end(s, k + 1)
    } else {
        k
    }
}

/// The first index from `k` on whose character ends a name.
pub open spec fn name_end(s: Seq<char>, k: int) -> int
    decreases s.len() - k,
{
    if 0 <= k < s.len() && !is_name_stop(s[k]) {
        name_end(s, k + 1)
    } else {
        k
    }
}

/// The first index from `k` on whose character is not a digit.
pub open spec fn digits_end(s: Seq<char>, k: int) -> int
    decreases s.len() - k,
{
    if 0 <= k < s.len() && is_digit(s[k]) {
        digits_end(s, k + 1)
    } else {
        k
    }
}

/// The first index from `k` on whose character is a double quote.
pub open spec fn quote_end(s: Seq<char>, k: int) -> int
    decreases s.len() - k,
{
    if 0 <= k < s.len() && s[k] != '"' {
        quote_end(s, k + 1)
    } else {
        k
    }
}

/// The first index from `k` on whose character is a slash.
pub open spec fn slash_index(t: Seq<char>, k: int) -> int
    decreases t.len() - k,
{
    if 0 <= k < t.len() && t[k] != '/' {
        slash_index(t, k + 1)
    } else {
        k
    }
}

/// A name split at its first slash into namespace and name, where the slash
/// stands neither first nor last; otherwise the whole text is the name.
pub open spec fn split_qname(t: Seq<char>) -> QName {
    let i = slash_index(t, 0);
    if 0 < i < t.len() - 1 {
        QName { ns: Some(t.subrange(0, i)), name: t.subrange(i + 1, t.len() as int) }
    } else {
        QName { ns: None, name: t }
    }
}

/// The values of a sequence of digit characters.
pub open spec fn char_digits(t: Seq<char>) -> Seq<u8> {
    Seq::new(t.len(), |i: int| digit_of(t[i]))
}

/// Line and column after `n` steps through `s`: each step moves to the next
/// character; a newline starts the next line at column 1, any other step
/// (past the end too) moves one column on. Before the first step the
/// position is line 1, column 0.
pub open spec fn lc_after(s: Seq<char>, n: nat) -> (nat, nat)
    decreases n,
{
    if n == 0 {
        (1, 0)
    } else {
        let (l, c) = lc_after(s, (n - 1) as nat);
        let idx = n - 1;
        if idx < s.len() && s[idx] == '\n' {
            (l + 1, 1)
        } else {
            (l, c + 1)
        }
    }
}

/// The line of the character at index `k`.
pub open spec fn line_at(s: Seq<char>, k: int) -> nat {
    lc_after(s, (k + 1) as nat).0
}

/// The column of the character at index `k`.
pub open spec fn col_at(s: Seq<char>, k: int) -> nat {
    lc_after(s, (k + 1) as nat).1
}

pub proof fn lemma_lc_bound(s: Seq<char>, n: nat)
    ensures
        lc_after(s, n).0 <= n + 1,
        lc_after(s, n).1 <= n,
    decreases n,
{
    if n > 0 {
        lemma_lc_bound(s, (n - 1) as nat);
    }
}

pub proof fn lemma_ws_end(s: Seq<char>, k: int)
    requires
        0 <= k <= s.len(),
    ensures
        k <= ws_end(s, k) <= s.len(),
    decreases s.len() - k,
{
    if k < s.len() && is_ws(s[k]) {
        lemma_ws_end(s, k + 1);
    }
}

pub proof fn lemma_name_end(s: Seq<char>, k: int)
    requires
        0 <= k <= s.len(),
    ensures
        k <= name_end(s, k) <= s.len(),
    decreases s.len() - k,
{
    if k < s.len() && !is_name_stop(s[k]) {
        lemma_name_end(s, k + 1);
    }
}

pub proof fn lemma_digits_end(s: Seq<char>, k: int)
    requires
        0 <= k <= s.len(),
    ensures
        k <= digits_end(s, k) <= s.len(),
        forall|i: int| k <= i < digits_end(s, k) ==> is_digit(#[trigger] s[i]),
    decreases s.len() - k,
{
    if k < s.len() && is_digit(s[k]) {
        lemma_digits_end(s, k + 1);
    }
}

pub proof fn lemma_quote_end(s: Seq<char>, k: int)
    requires
        0 <= k <= s.len(),
    ensures
        k <= quote_end(s, k) <= s.len(),
    decreases s.len() - k,
{
    if k < s.len() && s[k] != '"' {
        lemma_quote_end(s, k + 1);
    }
}

pub proof fn lemma_slash_index(t: Seq<char>, k: int)
    requires
        0 <= k <= t.len(),
    ensures
        k <= slash_index(t, k) <= t.len(),
        slash_index(t, k) < t.len() ==> t[slash_index(t, k)] == '/',
    decreases t.len() - k,
{
    if k < t.len() && t[k] != '/' {
        lemma_slash_index(t, k + 1);
    }
}

/// Whether `c` is white space.
pub fn is_whitespace(c: char) -> (r: bool)
    ensures
        r == is_ws(c),
{
    let u = c as u32;
    (9 <= u && u <= 13) || u == 32 || u == 0x85 || u == 0xA0 || u == 0x1680 || (0x2000 <= u && u
        <= 0x200A) || u == 0x2028 || u == 0x2029 || u == 0x202F || u == 0x205F || u == 0x3000
}

} // verus!
