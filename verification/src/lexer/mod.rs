//! The lexer: source text to tokens, each with the span it covers.

pub mod chars;
pub mod error;
pub mod token;

use vstd::prelude::*;
use crate::number::{Number, literal_number, all_digits};
use crate::ast::{QName, opt_text};
use self::chars::{
    is_ws, is_digit, digit_of, is_symbol_start, is_name_stop, is_number_stop, ws_end, name_end,
    digits_end, quote_end, slash_index, split_qname, char_digits, lc_after, line_at, col_at,
    lemma_lc_bound, lemma_ws_end, lemma_name_end, lemma_digits_end, lemma_quote_end,
    lemma_slash_index, is_whitespace,
};
#[allow(unused_imports)]
use crate::text;

pub use self::token::{Token, TokenView, Span, Pos};
pub use self::error::LexerError;

verus! {

/// What the lexer hands out: a token, or the error that ends lexing.
pub type LexerResult = Result<Token, LexerError>;

/// What a lexer result holds: a token, or the line and column of an error.
pub type LexView = Result<TokenView, (nat, nat)>;

/// The view of a lexer result.
pub open spec fn lex_view(r: LexerResult) -> LexView {
    match r {
        Ok(t) => Ok(t@),
        Err(e) => Err(e@),
    }
}

/// The view of an optional lexer result.
pub open spec fn opt_lex_view(r: Option<LexerResult>) -> Option<LexView> {
    match r {
        Some(x) => Some(lex_view(x)),
        None => None,
    }
}

/// The span from the character at `a` to the character at `b`.
pub open spec fn span_between(s: Seq<char>, a: int, b: int) -> Span {
    Span {
        start: Pos { line: line_at(s, a) as usize, col: col_at(s, a) as usize },
        end: Pos { line: line_at(s, b) as usize, col: col_at(s, b) as usize },
    }
}

/// The span of `w` characters on one line from the character at `a`.
pub open spec fn span_width(s: Seq<char>, a: int, w: nat) -> Span {
    Span {
        start: Pos { line: line_at(s, a) as usize, col: col_at(s, a) as usize },
        end: Pos { line: line_at(s, a) as usize, col: (col_at(s, a) + w) as usize },
    }
}

/// The fraction groups of a number from index `i`: each group is a dot
/// followed by digits. The result holds the groups, the index after them,
/// and whether the character there may end a number.
pub open spec fn number_groups(s: Seq<char>, i: int) -> (Seq<Seq<u8>>, int, bool)
    decreases s.len() - i,
{
    if 0 <= i < s.len() && s[i] == '.' {
        let e = digits_end(s, i + 1);
        if i < e <= s.len() {
            let (gs, end, ok) = number_groups(s, e);
            (seq![char_digits(s.subrange(i + 1, e))] + gs, end, ok)
        } else {
            (Seq::empty(), i, false)
        }
    } else if i >= s.len() || (i >= 0 && is_number_stop(s[i])) {
        (Seq::empty(), i, true)
    } else {
        (Seq::empty(), i, false)
    }
}

proof fn lemma_number_groups(s: Seq<char>, i: int)
    requires
        0 <= i <= s.len(),
    ensures
        i <= number_groups(s, i).1 <= s.len(),
    decreases s.len() - i,
{
    if i < s.len() && s[i] == '.' {
        let e = digits_end(s, i + 1);
        lemma_digits_end(s, i + 1);
        lemma_number_groups(s, e);
    }
}

/// A step of the lexer: what it hands out, the index it moves to, and
/// whether it has finished.
pub type Step = (Option<LexView>, int, bool);

/// Reads a number that starts at `k`: an optional sign, digits, then any
/// number of fraction groups. A character that may not end a number is an
/// error at that character.
pub open spec fn read_number_spec(s: Seq<char>, k: int) -> Step {
    let negative = s[k] == '-';
    let st = if s[k] == '-' || s[k] == '+' {
        k + 1
    } else {
        k
    };
    let de = digits_end(s, st);
    let d0 = char_digits(s.subrange(st, de));
    let (gs, end, ok) = number_groups(s, de);
    if ok {
        let (neg, d, sc) = literal_number(negative, d0, gs);
        (
            Some(
                Ok(
                    TokenView::Number {
                        span: span_between(s, k, end),
                        negative: neg,
                        digits: d,
                        scale: sc,
                    },
                ),
            ),
            end,
            false,
        )
    } else {
        (Some(Err((line_at(s, end), col_at(s, end)))), end, true)
    }
}

/// Reads a symbol that starts at `k`: up to a closing bracket or white space.
pub open spec fn read_symbol_spec(s: Seq<char>, k: int) -> Step {
    let e = name_end(s, k);
    (
        Some(
            Ok(
                TokenView::Symbol {
                    span: span_between(s, k, e),
                    name: split_qname(s.subrange(k, e)),
                },
            ),
        ),
        e,
        false,
    )
}

/// Reads a keyword whose colon stands at `k`.
pub open spec fn read_keyword_spec(s: Seq<char>, k: int) -> Step {
    let e = name_end(s, k);
    (
        Some(
            Ok(
                TokenView::Keyword {
                    span: span_between(s, k, e),
                    name: split_qname(s.subrange(k + 1, e)),
                },
            ),
        ),
        e,
        false,
    )
}

/// Reads a string whose opening quote stands at `k`: up to the closing quote
/// or the end of the text, and one character past it.
pub open spec fn read_string_spec(s: Seq<char>, k: int) -> Step {
    let j = quote_end(s, k + 1);
    (
        Some(Ok(TokenView::String { span: span_between(s, k, j + 1), val: s.subrange(k + 1, j) })),
        j + 1,
        false,
    )
}

/// Reads the token that starts at `k`.
pub open spec fn read_next_spec(s: Seq<char>, k: int) -> Step {
    if k >= s.len() {
        (None, k, false)
    } else {
        let c = s[k];
        if c == '-' || c == '+' {
            if k + 1 < s.len() && is_digit(s[k + 1]) {
                read_number_spec(s, k)
            } else {
                read_symbol_spec(s, k)
            }
        } else if is_symbol_start(c) {
            read_symbol_spec(s, k)
        } else if c == ':' {
            read_keyword_spec(s, k)
        } else if is_digit(c) {
            read_number_spec(s, k)
        } else if c == '"' {
            read_string_spec(s, k)
        } else if c == '(' {
            (Some(Ok(TokenView::ListStart { span: span_width(s, k, 1) })), k + 1, false)
        } else if c == ')' {
            (Some(Ok(TokenView::ListEnd { span: span_width(s, k, 1) })), k + 1, false)
        } else if c == '[' {
            (Some(Ok(TokenView::VecStart { span: span_width(s, k, 1) })), k + 1, false)
        } else if c == ']' {
            (Some(Ok(TokenView::VecEnd { span: span_width(s, k, 1) })), k + 1, false)
        } else if c == '\'' {
            (Some(Ok(TokenView::Quote { span: span_width(s, k, 1) })), k + 1, false)
        } else if c == '`' {
            (Some(Ok(TokenView::SyntaxQuote { span: span_width(s, k, 1) })), k + 1, false)
        } else if c == '~' {
            if k + 1 < s.len() && s[k + 1] == '@' {
                (Some(Ok(TokenView::UnquoteSplicing { span: span_width(s, k, 2) })), k + 2, false)
            } else {
                (Some(Ok(TokenView::Unquote { span: span_width(s, k, 1) })), k + 1, false)
            }
        } else {
            (Some(Err((line_at(s, k), col_at(s, k)))), k, true)
        }
    }
}

/// One step of the lexer at index `k`: skip white space, then hand out
/// nothing if lexing has finished, else the next token.
pub open spec fn lex_step(s: Seq<char>, k: int, finished: bool) -> Step {
    let k1 = ws_end(s, k);
    if finished {
        (None, k1, true)
    } else {
        read_next_spec(s, k1)
    }
}

/// The text `v[from..to]`.
fn string_of(v: &Vec<char>, from: usize, to: usize) -> (r: String)
    requires
        from <= to <= v.len(),
    ensures
        r@ == v@.subrange(from as int, to as int),
{
    let mut r = String::new();
    let mut i = from;
    while i < to
        invariant
            from <= i <= to <= v.len(),
            r@ == v@.subrange(from as int, i as int),
        decreases to - i,
    {
        r.push(v[i]);
        assert(v@.subrange(from as int, i + 1) =~= v@.subrange(from as int, i as int).push(v@[i as int]));
        i = i + 1;
    }
    r
}

/// The text `v[from..to]` split at its first slash into namespace and name.
fn split_name(v: &Vec<char>, from: usize, to: usize) -> (r: (Option<String>, String))
    requires
        from <= to <= v.len(),
    ensures
        (QName { ns: opt_text(r.0), name: r.1@ }) == split_qname(v@.subrange(from as int, to as int)),
{
    let ghost t = v@.subrange(from as int, to as int);
    let mut i = from;
    while i < to && v[i] != '/'
        invariant
            from <= i <= to <= v.len(),
            t == v@.subrange(from as int, to as int),
            slash_index(t, (i - from) as int) == slash_index(t, 0),
        decreases to - i,
    {
        i = i + 1;
    }
    proof {
        lemma_slash_index(t, 0);
        assert(slash_index(t, 0) == i - from);
    }
    if from < i && i < to && to - i > 1 {
        let ns = string_of(v, from, i);
        let name = string_of(v, i + 1, to);
        proof {
            assert(t.subrange(0, (i - from) as int) =~= v@.subrange(from as int, i as int));
            assert(t.subrange((i - from) + 1, t.len() as int) =~= v@.subrange(i + 1, to as int));
        }
        (Some(ns), name)
    } else {
        (None, string_of(v, from, to))
    }
}

/// The values of the digit characters `v[from..to]`.
fn digits_of(v: &Vec<char>, from: usize, to: usize) -> (r: Vec<u8>)
    requires
        from <= to <= v.len(),
        forall|i: int| from <= i < to ==> is_digit(#[trigger] v@[i]),
    ensures
        r@ == char_digits(v@.subrange(from as int, to as int)),
        all_digits(r@),
{
    let mut r: Vec<u8> = Vec::new();
    let mut i = from;
    while i < to
        invariant
            from <= i <= to <= v.len(),
            forall|j: int| from <= j < to ==> is_digit(#[trigger] v@[j]),
            r@ == char_digits(v@.subrange(from as int, i as int)),
            all_digits(r@),
        decreases to - i,
    {
        let c = v[i];
        assert(is_digit(v@[i as int]));
        let d = (c as u32 - 48) as u8;
        r.push(d);
        assert(char_digits(v@.subrange(from as int, i + 1)) =~= char_digits(
            v@.subrange(from as int, i as int),
        ).push(digit_of(c)));
        i = i + 1;
    }
    r
}

/// How much lexing is left: zero once finished, else the characters from
/// the current one on, plus two.
pub open spec fn lex_measure(s: Seq<char>, pos: int, finished: bool) -> nat {
    if finished || pos > s.len() + 1 {
        0
    } else {
        (s.len() + 2 - pos) as nat
    }
}

/// Where the lexer stands: index of its current character, line and column.
#[derive(Clone, Copy)]
struct Cursor {
    pos: usize,
    line: usize,
    col: usize,
}

/// A lexer over a source text.
pub struct Lexer {
    chars: Vec<char>,
    cur: Cursor,
    is_finished: bool,
}

impl Lexer {
    #[verifier::type_invariant]
    spec fn valid(self) -> bool {
        &&& self.chars.len() + 4 <= usize::MAX
        &&& self.cur.pos <= self.chars.len() + 1
        &&& (self.cur.line as nat, self.cur.col as nat) == lc_after(
            self.chars@,
            (self.cur.pos + 1) as nat,
        )
    }

    /// The source text.
    pub closed spec fn input(self) -> Seq<char> {
        self.chars@
    }

    /// The index of the current character.
    pub closed spec fn pos(self) -> int {
        self.cur.pos as int
    }

    /// Whether the lexer has stopped after an error.
    pub closed spec fn finished(self) -> bool {
        self.is_finished
    }

    /// A lexer at the start of `src`.
    pub fn new(src: &str) -> (l: Lexer)
        requires
            src@.len() + 4 <= usize::MAX,
        ensures
            l.input() == src@,
            l.pos() == 0,
            !l.finished(),
    {
        let mut chars: Vec<char> = Vec::new();
        proof {
            broadcast use vstd::string::group_string_axioms;
        }
        for c in it: src.chars()
            invariant
                chars@ == it.seq().take(it.index() as int),
        {
            chars.push(c);
        }
        assert(chars@ =~= src@);
        let line: usize = if chars.len() > 0 && chars[0] == '\n' {
            2
        } else {
            1
        };
        assert(lc_after(chars@, 1) == (line as nat, 1nat)) by {
            reveal_with_fuel(lc_after, 2);
        }
        Lexer { chars, cur: Cursor { pos: 0, line, col: 1 }, is_finished: false }
    }

    /// The current character, if the lexer stands on one.
    fn current(&self) -> (r: Option<char>)
        ensures
            r == (if 0 <= self.pos() < self.input().len() {
                Some(self.input()[self.pos()])
            } else {
                None
            }),
    {
        if self.cur.pos < self.chars.len() {
            Some(self.chars[self.cur.pos])
        } else {
            None
        }
    }

    /// The character after the current one, if there is one.
    fn peek(&self) -> (r: Option<char>)
        ensures
            r == (if 0 <= self.pos() + 1 < self.input().len() {
                Some(self.input()[self.pos() + 1])
            } else {
                None
            }),
    {
        if self.cur.pos < self.chars.len() && self.cur.pos + 1 < self.chars.len() {
            Some(self.chars[self.cur.pos + 1])
        } else {
            None
        }
    }

    /// Moves to the next character.
    fn bump(&mut self)
        requires
            old(self).pos() <= old(self).input().len(),
        ensures
            final(self).input() == old(self).input(),
            final(self).pos() == old(self).pos() + 1,
            final(self).finished() == old(self).finished(),
    {
        proof {
            use_type_invariant(&*self);
            lemma_lc_bound(self.chars@, (self.cur.pos + 2) as nat);
        }
        let pos = self.cur.pos + 1;
        let (line, col) = if pos < self.chars.len() && self.chars[pos] == '\n' {
            (self.cur.line + 1, 1)
        } else {
            (self.cur.line, self.cur.col + 1)
        };
        self.cur = Cursor { pos, line, col };
    }

    /// The line and column of the current character.
    fn line_col(&self) -> (r: (usize, usize))
        ensures
            r.0 == line_at(self.input(), self.pos()),
            r.1 == col_at(self.input(), self.pos()),
            r.1 + 2 <= usize::MAX,
            self.pos() <= self.input().len() + 1,
            self.input().len() + 4 <= usize::MAX,
    {
        proof {
            use_type_invariant(self);
            lemma_lc_bound(self.chars@, (self.cur.pos + 1) as nat);
        }
        (self.cur.line, self.cur.col)
    }

    /// Skips white space.
    fn consume_whitespaces(&mut self)
        requires
            0 <= old(self).pos(),
        ensures
            final(self).input() == old(self).input(),
            final(self).pos() == ws_end(old(self).input(), old(self).pos()),
            final(self).finished() == old(self).finished(),
    {
        proof {
            use_type_invariant(&*self);
        }
        let ghost k0 = self.pos();
        let ghost s = self.input();
        loop
            invariant
                self.input() == s,
                self.finished() == old(self).finished(),
                k0 <= self.pos() <= s.len() + 1,
                ws_end(s, self.pos()) == ws_end(s, k0),
            ensures
                self.input() == s,
                self.finished() == old(self).finished(),
                self.pos() == ws_end(s, k0),
            decreases s.len() + 1 - self.pos(),
        {
            match self.current() {
                Some(c) => {
                    if is_whitespace(c) {
                        self.bump();
                    } else {
                        break;
                    }
                },
                None => {
                    break;
                },
            }
        }
    }

    /// Moves past the characters of a name.
    fn scan_name(&mut self)
        requires
            0 <= old(self).pos() <= old(self).input().len(),
        ensures
            final(self).input() == old(self).input(),
            final(self).pos() == name_end(old(self).input(), old(self).pos()),
            old(self).pos() <= final(self).pos() <= old(self).input().len(),
            final(self).finished() == old(self).finished(),
    {
        let ghost k0 = self.pos();
        let ghost s = self.input();
        proof {
            lemma_name_end(s, k0);
        }
        loop
            invariant
                self.input() == s,
                self.finished() == old(self).finished(),
                k0 <= self.pos() <= s.len(),
                name_end(s, self.pos()) == name_end(s, k0),
            ensures
                self.input() == s,
                self.finished() == old(self).finished(),
                self.pos() == name_end(s, k0),
            decreases s.len() - self.pos(),
        {
            match self.current() {
                Some(c) => {
                    if c == ')' || c == ']' || is_whitespace(c) {
                        break;
                    } else {
                        self.bump();
                    }
                },
                None => {
                    break;
                },
            }
        }
    }

    /// Moves past a run of digits, and hands out their values.
    fn scan_digits(&mut self) -> (d: Vec<u8>)
        requires
            0 <= old(self).pos() <= old(self).input().len(),
        ensures
            final(self).input() == old(self).input(),
            final(self).pos() == digits_end(old(self).input(), old(self).pos()),
            old(self).pos() <= final(self).pos() <= old(self).input().len(),
            final(self).finished() == old(self).finished(),
            d@ == char_digits(old(self).input().subrange(old(self).pos(), final(self).pos())),
            all_digits(d@),
    {
        let ghost k0 = self.pos();
        let ghost s = self.input();
        let start = self.cur.pos;
        proof {
            lemma_digits_end(s, k0);
        }
        loop
            invariant
                self.input() == s,
                self.finished() == old(self).finished(),
                k0 <= self.pos() <= s.len(),
                start == k0,
                digits_end(s, self.pos()) == digits_end(s, k0),
            ensures
                self.input() == s,
                self.finished() == old(self).finished(),
                self.pos() == digits_end(s, k0),
            decreases s.len() - self.pos(),
        {
            match self.current() {
                Some(c) => {
                    if '0' <= c && c <= '9' {
                        self.bump();
                    } else {
                        break;
                    }
                },
                None => {
                    break;
                },
            }
        }
        proof {
            use_type_invariant(&*self);
        }
        digits_of(&self.chars, start, self.cur.pos)
    }

    /// Reads a symbol.
    fn read_symbol(&mut self) -> (r: LexerResult)
        requires
            !old(self).finished(),
            0 <= old(self).pos() < old(self).input().len(),
            !is_name_stop(old(self).input()[old(self).pos()]),
        ensures
            old(self).pos() < final(self).pos() <= old(self).input().len() + 1 || final(self).finished(),
            final(self).input() == old(self).input(),
            (Some(lex_view(r)), final(self).pos(), final(self).finished()) == read_symbol_spec(
                old(self).input(),
                old(self).pos(),
            ),
    {
        let (line, col) = self.line_col();
        let start = self.cur.pos;
        proof {
            lemma_name_end(self.input(), start + 1);
        }
        self.scan_name();
        let (end_line, end_col) = self.line_col();
        proof {
            use_type_invariant(&*self);
        }
        let (ns, name) = split_name(&self.chars, start, self.cur.pos);
        Ok(Token::Symbol { span: Span::new(line, col, end_line, end_col), ns, name })
    }

    /// Reads a keyword.
    fn read_keyword(&mut self) -> (r: LexerResult)
        requires
            !old(self).finished(),
            0 <= old(self).pos() < old(self).input().len(),
            old(self).input()[old(self).pos()] == ':',
        ensures
            old(self).pos() < final(self).pos() <= old(self).input().len() + 1 || final(self).finished(),
            final(self).input() == old(self).input(),
            (Some(lex_view(r)), final(self).pos(), final(self).finished()) == read_keyword_spec(
                old(self).input(),
                old(self).pos(),
            ),
    {
        let (line, col) = self.line_col();
        let start = self.cur.pos;
        self.scan_name();
        let (end_line, end_col) = self.line_col();
        proof {
            use_type_invariant(&*self);
            lemma_name_end(self.input(), start + 1);
            assert(name_end(self.input(), start as int) == name_end(self.input(), start + 1));
        }
        let (ns, name) = split_name(&self.chars, start + 1, self.cur.pos);
        Ok(Token::Keyword { span: Span::new(line, col, end_line, end_col), ns, name })
    }

    /// Reads a string.
    fn read_string(&mut self) -> (r: LexerResult)
        requires
            !old(self).finished(),
            0 <= old(self).pos() < old(self).input().len(),
        ensures
            old(self).pos() < final(self).pos() <= old(self).input().len() + 1 || final(self).finished(),
            final(self).input() == old(self).input(),
            (Some(lex_view(r)), final(self).pos(), final(self).finished()) == read_string_spec(
                old(self).input(),
                old(self).pos(),
            ),
    {
        let ghost s = self.input();
        let (line, col) = self.line_col();
        self.bump();
        let content_start = self.cur.pos;
        proof {
            lemma_quote_end(s, content_start as int);
        }
        loop
            invariant
                self.input() == s,
                self.finished() == old(self).finished(),
                content_start <= self.pos() <= s.len(),
                quote_end(s, self.pos()) == quote_end(s, content_start as int),
            ensures
                self.input() == s,
                self.finished() == old(self).finished(),
                self.pos() == quote_end(s, content_start as int),
            decreases s.len() - self.pos(),
        {
            match self.current() {
                Some(c) => {
                    if c == '"' {
                        break;
                    } else {
                        self.bump();
                    }
                },
                None => {
                    break;
                },
            }
        }
        let content_end = self.cur.pos;
        self.bump();
        let (end_line, end_col) = self.line_col();
        proof {
            use_type_invariant(&*self);
        }
        let val = string_of(&self.chars, content_start, content_end);
        Ok(Token::String { span: Span::new(line, col, end_line, end_col), val })
    }

    /// Reads a number.
    fn read_number(&mut self) -> (r: LexerResult)
        requires
            !old(self).finished(),
            0 <= old(self).pos() < old(self).input().len(),
            is_digit(old(self).input()[old(self).pos()]) || ((old(self).input()[old(self).pos()] == '-'
                || old(self).input()[old(self).pos()] == '+') && old(self).pos() + 1
                < old(self).input().len() && is_digit(old(self).input()[old(self).pos() + 1])),
        ensures
            old(self).pos() < final(self).pos() <= old(self).input().len() + 1 || final(self).finished(),
            final(self).input() == old(self).input(),
            (Some(lex_view(r)), final(self).pos(), final(self).finished()) == read_number_spec(
                old(self).input(),
                old(self).pos(),
            ),
    {
        let ghost s = self.input();
        let ghost k = self.pos();
        let (line, col) = self.line_col();
        let mut negative = false;
        match self.current() {
            Some(c) => {
                if c == '-' {
                    negative = true;
                    self.bump();
                } else if c == '+' {
                    self.bump();
                }
            },
            None => {},
        }
        let ghost st = self.pos();
        let d0 = self.scan_digits();
        let ghost de = self.pos();
        proof {
            lemma_digits_end(s, st);
            lemma_digits_end(s, st + 1);
            lemma_number_groups(s, de);
        }
        let mut groups: Vec<Vec<u8>> = Vec::new();
        loop
            invariant
                self.input() == s,
                s == old(self).input(),
                k == old(self).pos(),
                0 <= k < s.len(),
                st == (if s[k] == '-' || s[k] == '+' {
                    k + 1
                } else {
                    k
                }),
                de == digits_end(s, st),
                !self.finished(),
                de <= self.pos() <= s.len(),
                forall|i: int| 0 <= i < groups.len() ==> all_digits(#[trigger] groups@[i]@),
                groups@.map_values(|g: Vec<u8>| g@) + number_groups(s, self.pos()).0
                    == number_groups(s, de).0,
                number_groups(s, self.pos()).1 == number_groups(s, de).1,
                number_groups(s, self.pos()).2 == number_groups(s, de).2,
            ensures
                self.input() == s,
                !self.finished(),
                self.pos() == number_groups(s, de).1,
                number_groups(s, de).2,
                groups@.map_values(|g: Vec<u8>| g@) == number_groups(s, de).0,
                forall|i: int| 0 <= i < groups.len() ==> all_digits(#[trigger] groups@[i]@),
            decreases s.len() - self.pos(),
        {
            match self.current() {
                Some(c) => {
                    if c == '.' {
                        let ghost i = self.pos();
                        self.bump();
                        let g = self.scan_digits();
                        proof {
                            lemma_digits_end(s, i + 1);
                            let e = self.pos();
                            let (gs, end, ok) = number_groups(s, e);
                            assert(number_groups(s, i) == (
                                seq![char_digits(s.subrange(i + 1, e))] + gs,
                                end,
                                ok,
                            ));
                        }
                        let ghost before = groups@;
                        groups.push(g);
                        proof {
                            assert(groups@.map_values(|g: Vec<u8>| g@) =~= before.map_values(
                                |g: Vec<u8>| g@,
                            ).push(g@));
                            let e = self.pos();
                            let (gs, end, ok) = number_groups(s, e);
                            assert(before.map_values(|g: Vec<u8>| g@) + (seq![
                                char_digits(s.subrange(i + 1, e)),
                            ] + gs) =~= groups@.map_values(|g: Vec<u8>| g@) + gs);
                        }
                    } else if c == '(' || c == ')' || c == '[' || c == ']' || is_whitespace(c) {
                        proof {
                            assert(number_groups(s, self.pos()).0 =~= Seq::<Seq<u8>>::empty());
                            assert(groups@.map_values(|g: Vec<u8>| g@) =~= groups@.map_values(
                                |g: Vec<u8>| g@,
                            ) + Seq::<Seq<u8>>::empty());
                        }
                        break;
                    } else {
                        let ghost p = self.pos();
                        let e = self.error();
                        proof {
                            assert(!number_groups(s, p).2);
                        }
                        return e;
                    }
                },
                None => {
                    proof {
                        assert(number_groups(s, self.pos()).0 =~= Seq::<Seq<u8>>::empty());
                        assert(groups@.map_values(|g: Vec<u8>| g@) =~= groups@.map_values(
                            |g: Vec<u8>| g@,
                        ) + Seq::<Seq<u8>>::empty());
                    }
                    break;
                },
            }
        }
        let (end_line, end_col) = self.line_col();
        let val = Number::from_literal(negative, d0, groups);
        Ok(Token::Number { span: Span::new(line, col, end_line, end_col), val })
    }

    /// A token of one or two characters.
    fn punct(&mut self, width: usize) -> (sp: Span)
        requires
            0 <= old(self).pos() < old(self).input().len(),
            1 <= width <= 2,
            old(self).pos() + width <= old(self).input().len(),
        ensures
            final(self).input() == old(self).input(),
            final(self).pos() == old(self).pos() + width,
            final(self).finished() == old(self).finished(),
            sp == span_width(old(self).input(), old(self).pos(), width as nat),
    {
        let (line, col) = self.line_col();
        self.bump();
        if width == 2 {
            self.bump();
        }
        Span::new(line, col, line, col + width)
    }

    /// Reads the token at the current character, if any.
    fn read_next(&mut self) -> (r: Option<LexerResult>)
        requires
            !old(self).finished(),
            0 <= old(self).pos(),
        ensures
            r is Some ==> (old(self).pos() < final(self).pos() <= old(self).input().len() + 1
                || final(self).finished()),
            r is None ==> final(self).pos() == old(self).pos() && !final(self).finished(),
            final(self).input() == old(self).input(),
            (opt_lex_view(r), final(self).pos(), final(self).finished()) == read_next_spec(
                old(self).input(),
                old(self).pos(),
            ),
    {
        match self.current() {
            None => None,
            Some(c) => {
                if c == '-' || c == '+' {
                    let is_digit = match self.peek() {
                        Some(nc) => '0' <= nc && nc <= '9',
                        None => false,
                    };
                    if is_digit {
                        Some(self.read_number())
                    } else {
                        Some(self.read_symbol())
                    }
                } else if ('a' <= c && c <= 'z') || ('A' <= c && c <= 'Z') || c == '/' || c == '*'
                    || c == '%' || c == '>' || c == '<' || c == '=' || c == '&' {
                    Some(self.read_symbol())
                } else if c == ':' {
                    Some(self.read_keyword())
                } else if '0' <= c && c <= '9' {
                    Some(self.read_number())
                } else if c == '"' {
                    Some(self.read_string())
                } else if c == '(' {
                    let span = self.punct(1);
                    Some(Ok(Token::ListStart { span }))
                } else if c == ')' {
                    let span = self.punct(1);
                    Some(Ok(Token::ListEnd { span }))
                } else if c == '[' {
                    let span = self.punct(1);
                    Some(Ok(Token::VecStart { span }))
                } else if c == ']' {
                    let span = self.punct(1);
                    Some(Ok(Token::VecEnd { span }))
                } else if c == '\'' {
                    let span = self.punct(1);
                    Some(Ok(Token::Quote { span }))
                } else if c == '`' {
                    let span = self.punct(1);
                    Some(Ok(Token::SyntaxQuote { span }))
                } else if c == '~' {
                    if self.peek() == Some('@') {
                        let span = self.punct(2);
                        Some(Ok(Token::UnquoteSplicing { span }))
                    } else {
                        let span = self.punct(1);
                        Some(Ok(Token::Unquote { span }))
                    }
                } else {
                    Some(self.error())
                }
            },
        }
    }

    /// The next token: white space is skipped; after an error, or at the end
    /// of the text, there is none.
    pub fn next(&mut self) -> (r: Option<LexerResult>)
        ensures
            final(self).input() == old(self).input(),
            lex_measure(final(self).input(), final(self).pos(), final(self).finished()) <= lex_measure(
                old(self).input(),
                old(self).pos(),
                old(self).finished(),
            ),
            r is Some ==> lex_measure(final(self).input(), final(self).pos(), final(self).finished())
                < lex_measure(old(self).input(), old(self).pos(), old(self).finished()),
            (opt_lex_view(r), final(self).pos(), final(self).finished()) == lex_step(
                old(self).input(),
                old(self).pos(),
                old(self).finished(),
            ),
    {
        proof {
            use_type_invariant(&*self);
            if self.pos() <= self.input().len() {
                lemma_ws_end(self.input(), self.pos());
            }
        }
        self.consume_whitespaces();
        proof {
            use_type_invariant(&*self);
        }
        if self.is_finished {
            None
        } else {
            self.read_next()
        }
    }

    /// Stops lexing with an error at the current character.
    fn error(&mut self) -> (r: LexerResult)
        ensures
            final(self).input() == old(self).input(),
            final(self).pos() == old(self).pos(),
            final(self).finished(),
            lex_view(r) == Err::<TokenView, (nat, nat)>(
                (line_at(old(self).input(), old(self).pos()), col_at(old(self).input(), old(self).pos())),
            ),
    {
        proof {
            use_type_invariant(&*self);
        }
        let (line, col) = self.line_col();
        self.is_finished = true;
        Err(LexerError::new(line, col))
    }
}

/// The characters with the Unicode `White_Space` property, which is what
/// `char::is_whitespace` tests, written out one by one.
pub open spec fn white_space_char(c: char) -> bool {
    ||| c == '\t'
    ||| c == '\n'
    ||| c == '\u{0B}'
    ||| c == '\u{0C}'
    ||| c == '\r'
    ||| c == ' '
    ||| c == '\u{85}'
    ||| c == '\u{A0}'
    ||| c == '\u{1680}'
    ||| '\u{2000}' <= c <= '\u{200A}'
    ||| c == '\u{2028}'
    ||| c == '\u{2029}'
    ||| c == '\u{202F}'
    ||| c == '\u{205F}'
    ||| c == '\u{3000}'
}

/// Every character that the lexer skips is listed as white space.
proof fn lemma_ws_listed(c: char)
    ensures
        is_ws(c) ==> white_space_char(c),
{
}

/// White space before a token is skipped: a step of the lexer at a white
/// space character gives what the step at the character after it gives.
pub proof fn law_white_space_skipped(s: Seq<char>, k: int, finished: bool)
    requires
        0 <= k < s.len(),
        white_space_char(s[k]),
    ensures
        lex_step(s, k, finished) == lex_step(s, k + 1, finished),
{
}

/// Only white space is skipped: at any other character, the lexer that has
/// not finished reads the next token from that very character.
pub proof fn law_token_starts_at_non_white(s: Seq<char>, k: int)
    requires
        0 <= k < s.len(),
        !white_space_char(s[k]),
    ensures
        lex_step(s, k, false) == read_next_spec(s, k),
{
    lemma_ws_listed(s[k]);
}

} // verus!
