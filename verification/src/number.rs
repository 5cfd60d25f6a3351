//! Decimal numbers as they are written in source text.

use vstd::prelude::*;
#[allow(unused_imports)]
use crate::text;

verus! {

/// The character that shows decimal digit `d`.
pub open spec fn digit_char(d: u8) -> char {
    (48 + d) as char
}

/// The characters that show a sequence of decimal digits.
pub open spec fn digits_text(d: Seq<u8>) -> Seq<char> {
    Seq::new(d.len(), |i: int| digit_char(d[i]))
}

/// `n` zero characters.
pub open spec fn zeros_text(n: nat) -> Seq<char> {
    Seq::new(n, |i: int| '0')
}

/// All elements are decimal digits.
pub open spec fn all_digits(d: Seq<u8>) -> bool {
    forall|i: int| 0 <= i < d.len() ==> d[i] < 10
}

/// The canonical form of a decimal `±d / 10^scale`: no leading zero digit, no
/// trailing zero digit after the point, and zero carries no sign.
pub open spec fn canonical_parts(negative: bool, d: Seq<u8>, scale: nat) -> bool {
    &&& all_digits(d)
    &&& d.len() > 0 ==> d[0] != 0
    &&& scale > 0 ==> d.len() > 0 && d.last() != 0
    &&& d.len() == 0 ==> !negative
}

/// The text of a canonical decimal: the shortest plain decimal notation, with
/// a leading `-` for negative values and no exponent.
pub open spec fn number_text(negative: bool, d: Seq<u8>, scale: nat) -> Seq<char> {
    let body = if scale == 0 {
        if d.len() == 0 {
            seq!['0']
        } else {
            digits_text(d)
        }
    } else if d.len() > scale {
        digits_text(d.subrange(0, d.len() - scale)) + seq!['.'] + digits_text(
            d.subrange(d.len() - scale, d.len() as int),
        )
    } else {
        seq!['0', '.'] + zeros_text((scale - d.len()) as nat) + digits_text(d)
    };
    if negative {
        seq!['-'] + body
    } else {
        body
    }
}

/// The decimal digits of `m`, most significant first, with no leading zero.
pub open spec fn u64_digits(m: nat) -> Seq<u8>
    decreases m,
{
    if m == 0 {
        Seq::empty()
    } else {
        u64_digits(m / 10).push((m % 10) as u8)
    }
}

/// `10^e`.
pub open spec fn pow10(e: nat) -> nat
    decreases e,
{
    if e == 0 {
        1
    } else {
        10 * pow10((e - 1) as nat)
    }
}

/// The canonical form of `±v / 10^scale`: trailing zeros after the point
/// removed, and zero without sign.
pub open spec fn normalize_value(negative: bool, v: nat, scale: nat) -> (bool, Seq<u8>, nat)
    decreases scale,
{
    if v == 0 {
        (false, Seq::empty(), 0)
    } else if scale > 0 && v % 10 == 0 {
        normalize_value(negative, v / 10, (scale - 1) as nat)
    } else {
        (negative, u64_digits(v), scale)
    }
}

/// The value and scale of a literal `d0.g1.g2...`: the integer digits `d0`
/// plus each fraction group `gi` read as `0.gi`, over the largest scale.
pub open spec fn literal_sum(d0: Seq<u8>, groups: Seq<Seq<u8>>) -> (nat, nat)
    decreases groups.len(),
{
    if groups.len() == 0 {
        (digits_value(d0), 0)
    } else {
        let (v, s) = literal_sum(d0, groups.drop_last());
        let g = groups.last();
        let big = if s >= g.len() { s } else { g.len() };
        (v * pow10((big - s) as nat) + digits_value(g) * pow10((big - g.len()) as nat), big)
    }
}

/// The canonical number that a literal `±d0.g1.g2...` denotes.
pub open spec fn literal_number(negative: bool, d0: Seq<u8>, groups: Seq<Seq<u8>>) -> (
    bool,
    Seq<u8>,
    nat,
) {
    let (v, s) = literal_sum(d0, groups);
    normalize_value(negative, v, s)
}

/// The natural number that a digit sequence denotes.
pub open spec fn digits_value(d: Seq<u8>) -> nat
    decreases d.len(),
{
    if d.len() == 0 {
        0
    } else {
        digits_value(d.drop_last()) * 10 + d.last() as nat
    }
}

/// The character that shows digit `d`.
pub fn digit_to_char(d: u8) -> (c: char)
    requires
        d < 10,
    ensures
        c == digit_char(d),
{
    (48u8 + d) as char
}

/// Appends the characters of `d[from..to]` to `s`.
fn push_digits(s: &mut String, d: &Vec<u8>, from: usize, to: usize)
    requires
        from <= to <= d.len(),
        all_digits(d@),
    ensures
        final(s)@ == old(s)@ + digits_text(d@.subrange(from as int, to as int)),
{
    let ghost start = s@;
    let mut i = from;
    while i < to
        invariant
            from <= i <= to <= d.len(),
            all_digits(d@),
            s@ == start + digits_text(d@.subrange(from as int, i as int)),
        decreases to - i,
    {
        let c = digit_to_char(d[i]);
        s.push(c);
        assert(digits_text(d@.subrange(from as int, i + 1)) =~= digits_text(
            d@.subrange(from as int, i as int),
        ).push(c));
        i = i + 1;
    }
}

/// A decimal number `±digits / 10^scale`, always in canonical form.
#[derive(Debug, PartialEq)]
pub struct Number {
    negative: bool,
    digits: Vec<u8>,
    scale: usize,
}

impl Number {
    #[verifier::type_invariant]
    spec fn is_canonical(self) -> bool {
        canonical_parts(self.negative, self.digits@, self.scale as nat)
    }

    /// Whether the number is below zero.
    pub closed spec fn negative(self) -> bool {
        self.negative
    }

    /// The digits of the mantissa, most significant first.
    pub closed spec fn digits(self) -> Seq<u8> {
        self.digits@
    }

    /// How many of the mantissa's digits stand after the point.
    pub closed spec fn scale(self) -> nat {
        self.scale as nat
    }

    /// The text that shows the number.
    pub open spec fn text(self) -> Seq<char> {
        number_text(self.negative(), self.digits(), self.scale())
    }

    /// The canonical number that the literal `±int_digits.g1.g2...` denotes,
    /// where `groups` holds `g1, g2, ...`.
    pub fn from_literal(negative: bool, int_digits: Vec<u8>, groups: Vec<Vec<u8>>) -> (n: Number)
        requires
            all_digits(int_digits@),
            forall|i: int| 0 <= i < groups.len() ==> all_digits(#[trigger] groups@[i]@),
        ensures
            (n.negative(), n.digits(), n.scale()) == literal_number(
                negative,
                int_digits@,
                groups@.map_values(|g: Vec<u8>| g@),
            ),
    {
        let ghost gs = groups@.map_values(|g: Vec<u8>| g@);
        let mut acc = int_digits;
        let mut s: usize = 0;
        let mut j: usize = 0;
        assert(gs.take(0) =~= Seq::<Seq<u8>>::empty());
        while j < groups.len()
            invariant
                j <= groups.len(),
                gs == groups@.map_values(|g: Vec<u8>| g@),
                forall|i: int| 0 <= i < groups.len() ==> all_digits(#[trigger] groups@[i]@),
                all_digits(acc@),
                (digits_value(acc@), s as nat) == literal_sum(int_digits@, gs.take(j as int)),
            decreases groups.len() - j,
        {
            let g = &groups[j];
            assert(all_digits(groups@[j as int]@));
            let big = if s >= g.len() {
                s
            } else {
                g.len()
            };
            let a = append_zeros(acc, big - s);
            let mut b: Vec<u8> = Vec::new();
            let mut k: usize = 0;
            while k < g.len()
                invariant
                    k <= g.len(),
                    all_digits(g@),
                    b@ == g@.take(k as int),
                decreases g.len() - k,
            {
                b.push(g[k]);
                assert(g@.take(k + 1) =~= g@.take(k as int).push(g@[k as int]));
                k = k + 1;
            }
            assert(g@.take(k as int) =~= g@);
            let b = append_zeros(b, big - g.len());
            acc = big_add(&a, &b);
            proof {
                assert(gs.take(j + 1).drop_last() =~= gs.take(j as int));
                assert(gs.take(j + 1).last() == g@);
            }
            s = big;
            j = j + 1;
        }
        assert(gs.take(j as int) =~= gs);
        Number::from_digits(negative, acc, s)
    }

    /// The canonical number `±digits / 10^scale`.
    pub fn from_digits(negative: bool, digits: Vec<u8>, scale: usize) -> (n: Number)
        requires
            all_digits(digits@),
        ensures
            (n.negative(), n.digits(), n.scale()) == normalize_value(
                negative,
                digits_value(digits@),
                scale as nat,
            ),
    {
        let ghost target = normalize_value(negative, digits_value(digits@), scale as nat);
        let mut d = digits;
        let mut s = scale;
        while s > 0 && d.len() > 0 && d[d.len() - 1] == 0
            invariant
                all_digits(d@),
                normalize_value(negative, digits_value(d@), s as nat) == target,
            decreases s,
        {
            let ghost before = d@;
            d.pop();
            proof {
                assert(before.drop_last() =~= d@);
                if digits_value(before) == 0 {
                    assert(digits_value(d@) == 0);
                }
            }
            s = s - 1;
        }
        let ghost t = d@;
        assert(t.subrange(0, t.len() as int) =~= t);
        let mut k: usize = 0;
        while k < d.len() && d[k] == 0
            invariant
                0 <= k <= d.len(),
                d@ == t,
                all_digits(t),
                digits_value(t) == digits_value(t.subrange(k as int, t.len() as int)),
            decreases d.len() - k,
        {
            proof {
                lemma_value_drop_leading_zero(t.subrange(k as int, t.len() as int));
                assert(t.subrange(k as int, t.len() as int).drop_first() =~= t.subrange(
                    k + 1,
                    t.len() as int,
                ));
            }
            k = k + 1;
        }
        let mut out: Vec<u8> = Vec::new();
        let mut i = k;
        while i < d.len()
            invariant
                k <= i <= d.len(),
                d@ == t,
                out@ == t.subrange(k as int, i as int),
            decreases d.len() - i,
        {
            out.push(d[i]);
            i = i + 1;
        }
        proof {
            assert(out@ =~= t.subrange(k as int, t.len() as int));
            assert(t.subrange(0, t.len() as int) =~= t);
            if out@.len() > 0 {
                lemma_value_positive(out@);
                lemma_digits_of_value(out@);
                if s > 0 {
                    assert(out@.last() == t.last());
                    assert(digits_value(out@) % 10 == out@.last() as nat);
                }
            } else {
                assert(digits_value(out@) == 0);
            }
        }
        if out.len() == 0 {
            Number { negative: false, digits: out, scale: 0 }
        } else {
            Number { negative, digits: out, scale: s }
        }
    }

    /// The canonical number `±mantissa / 10^scale`.
    pub fn from_parts(negative: bool, mantissa: u64, scale: usize) -> (n: Number)
        ensures
            (n.negative(), n.digits(), n.scale()) == normalize_value(
                negative,
                mantissa as nat,
                scale as nat,
            ),
    {
        let mut rev: Vec<u8> = Vec::new();
        let mut m = mantissa;
        while m > 0
            invariant
                all_digits(rev@),
                u64_digits(mantissa as nat) == u64_digits(m as nat) + rev@.reverse(),
            decreases m,
        {
            let d = (m % 10) as u8;
            proof {
                assert(u64_digits(m as nat) == u64_digits((m / 10) as nat).push(d));
                assert(rev@.push(d).reverse() =~= seq![d] + rev@.reverse());
            }
            rev.push(d);
            m = m / 10;
        }
        assert(u64_digits(0) =~= Seq::<u8>::empty());
        let mut digits: Vec<u8> = Vec::new();
        let mut i = rev.len();
        while i > 0
            invariant
                i <= rev.len(),
                all_digits(rev@),
                digits@ == rev@.subrange(i as int, rev.len() as int).reverse(),
            decreases i,
        {
            i = i - 1;
            digits.push(rev[i]);
            assert(rev@.subrange(i as int, rev.len() as int).reverse() =~= rev@.subrange(
                i + 1,
                rev.len() as int,
            ).reverse().push(rev@[i as int]));
        }
        assert(rev@.subrange(0, rev.len() as int) =~= rev@);
        proof {
            lemma_u64_digits(mantissa as nat);
        }
        Number::from_digits(negative, digits, scale)
    }

    /// The number zero.
    pub fn zero() -> (n: Number)
        ensures
            !n.negative(),
            n.digits() == Seq::<u8>::empty(),
            n.scale() == 0,
    {
        Number { negative: false, digits: Vec::new(), scale: 0 }
    }

    /// The number one.
    pub fn one() -> (n: Number)
        ensures
            !n.negative(),
            n.digits() == seq![1u8],
            n.scale() == 0,
    {
        let mut digits: Vec<u8> = Vec::new();
        digits.push(1);
        Number { negative: false, digits, scale: 0 }
    }

    /// A number equal to this one.
    pub fn duplicate(&self) -> (r: Number)
        ensures
            r.negative() == self.negative(),
            r.digits() == self.digits(),
            r.scale() == self.scale(),
    {
        proof {
            use_type_invariant(self);
        }
        let mut digits: Vec<u8> = Vec::new();
        let mut i: usize = 0;
        while i < self.digits.len()
            invariant
                i <= self.digits.len(),
                digits@ == self.digits@.take(i as int),
            decreases self.digits.len() - i,
        {
            digits.push(self.digits[i]);
            assert(self.digits@.take(i + 1) =~= self.digits@.take(i as int).push(self.digits@[i as int]));
            i = i + 1;
        }
        assert(self.digits@.take(i as int) =~= self.digits@);
        Number { negative: self.negative, digits, scale: self.scale }
    }

    /// The text that shows the number.
    pub fn to_string(&self) -> (s: String)
        ensures
            s@ == self.text(),
    {
        proof {
            use_type_invariant(self);
        }
        let mut s = String::new();
        if self.negative {
            s.push('-');
        }
        let ghost start = s@;
        let len = self.digits.len();
        if self.scale == 0 {
            if len == 0 {
                s.push('0');
            } else {
                push_digits(&mut s, &self.digits, 0, len);
                assert(self.digits@.subrange(0, len as int) =~= self.digits@);
            }
        } else if len > self.scale {
            let split = len - self.scale;
            push_digits(&mut s, &self.digits, 0, split);
            s.push('.');
            push_digits(&mut s, &self.digits, split, len);
        } else {
            s.push('0');
            s.push('.');
            let mut k = self.scale - len;
            while k > 0
                invariant
                    s@ == start + seq!['0', '.'] + zeros_text((self.scale - len - k) as nat),
                    k <= self.scale - len,
                decreases k,
            {
                s.push('0');
                assert(zeros_text((self.scale - len - k + 1) as nat) =~= zeros_text(
                    (self.scale - len - k) as nat,
                ).push('0'));
                k = k - 1;
            }
            push_digits(&mut s, &self.digits, 0, len);
            assert(self.digits@.subrange(0, len as int) =~= self.digits@);
        }
        assert(s@ =~= self.text());
        s
    }
}

/// `d` followed by `k` zeros.
fn append_zeros(d: Vec<u8>, k: usize) -> (r: Vec<u8>)
    requires
        all_digits(d@),
    ensures
        all_digits(r@),
        digits_value(r@) == digits_value(d@) * pow10(k as nat),
{
    let mut r = d;
    let mut i: usize = 0;
    assert(pow10(0) == 1);
    assert(digits_value(d@) * 1 == digits_value(d@));
    while i < k
        invariant
            i <= k,
            all_digits(r@),
            digits_value(r@) == digits_value(d@) * pow10(i as nat),
        decreases k - i,
    {
        let ghost before = r@;
        r.push(0);
        proof {
            assert(r@.drop_last() =~= before);
            assert(digits_value(r@) == digits_value(before) * 10);
            assert(digits_value(d@) * pow10(i as nat) * 10 == digits_value(d@) * pow10(
                (i + 1) as nat,
            )) by (nonlinear_arith)
                requires
                    pow10((i + 1) as nat) == 10 * pow10(i as nat),
            ;
        }
        i = i + 1;
    }
    r
}

/// The digits of `value(a) + value(b)`.
fn big_add(a: &Vec<u8>, b: &Vec<u8>) -> (r: Vec<u8>)
    requires
        all_digits(a@),
        all_digits(b@),
    ensures
        all_digits(r@),
        digits_value(r@) == digits_value(a@) + digits_value(b@),
{
    let la = a.len();
    let lb = b.len();
    let n = if la >= lb {
        la
    } else {
        lb
    };
    let mut r: Vec<u8> = Vec::new();
    let mut carry: u8 = 0;
    let mut i: usize = 0;
    while i < n
        invariant
            la == a.len(),
            lb == b.len(),
            i <= n,
            n == if la >= lb {
                la
            } else {
                lb
            },
            all_digits(a@),
            all_digits(b@),
            all_digits(r@),
            r@.len() == i,
            carry <= 1,
            digits_value(r@) + carry * pow10(i as nat) == digits_value(suffix(a@, i as nat))
                + digits_value(suffix(b@, i as nat)),
        decreases n - i,
    {
        let da: u8 = if i < la {
            a[la - 1 - i]
        } else {
            0
        };
        let db: u8 = if i < lb {
            b[lb - 1 - i]
        } else {
            0
        };
        let sum: u8 = da + db + carry;
        let ghost before = r@;
        r.insert(0, sum % 10);
        proof {
            assert(r@ =~= seq![sum % 10] + before);
            lemma_value_prepend(sum % 10, before);
            lemma_suffix_step(a@, i as nat);
            lemma_suffix_step(b@, i as nat);
            let p = pow10(i as nat);
            assert(pow10((i + 1) as nat) == 10 * p);
            assert((sum % 10) as nat * p + (sum / 10) as nat * (10 * p) == sum as nat * p)
                by (nonlinear_arith)
                requires
                    sum as nat == (sum % 10) as nat + 10 * (sum / 10) as nat,
            ;
            assert(sum as nat * p == da as nat * p + db as nat * p + carry as nat * p)
                by (nonlinear_arith)
                requires
                    sum as nat == da as nat + db as nat + carry as nat,
            ;
        }
        carry = sum / 10;
        i = i + 1;
    }
    proof {
        lemma_suffix_whole(a@, n as nat);
        lemma_suffix_whole(b@, n as nat);
    }
    assert(digits_value(r@) + carry * pow10(n as nat) == digits_value(a@) + digits_value(b@));
    if carry > 0 {
        let ghost before = r@;
        r.insert(0, carry);
        proof {
            assert(r@ =~= seq![carry] + before);
            lemma_value_prepend(carry, before);
        }
    } else {
        assert(carry * pow10(n as nat) == 0) by (nonlinear_arith)
            requires
                carry == 0,
        ;
    }
    r
}

/// The last `min(i, d.len())` digits of `d`.
pub open spec fn suffix(d: Seq<u8>, i: nat) -> Seq<u8> {
    if i >= d.len() {
        d
    } else {
        d.subrange(d.len() - i, d.len() as int)
    }
}

proof fn lemma_suffix_whole(d: Seq<u8>, n: nat)
    requires
        n >= d.len(),
    ensures
        suffix(d, n) == d,
{
}

proof fn lemma_suffix_step(d: Seq<u8>, i: nat)
    ensures
        digits_value(suffix(d, i + 1)) == (if i < d.len() {
            d[d.len() - 1 - i] as nat
        } else {
            0
        }) * pow10(i) + digits_value(suffix(d, i)),
{
    if i < d.len() {
        let s1 = suffix(d, i + 1);
        let s0 = suffix(d, i);
        assert(s1 =~= seq![d[d.len() - 1 - i]] + s0);
        lemma_value_prepend(d[d.len() - 1 - i], s0);
    }
}

/// The value of a digit followed by `t`.
proof fn lemma_value_prepend(x: u8, t: Seq<u8>)
    ensures
        digits_value(seq![x] + t) == x as nat * pow10(t.len()) + digits_value(t),
    decreases t.len(),
{
    if t.len() == 0 {
        assert(seq![x] + t =~= seq![x]);
        assert(seq![x].drop_last() =~= Seq::<u8>::empty());
        assert(digits_value(seq![x]) == digits_value(Seq::<u8>::empty()) * 10 + x as nat);
        assert(pow10(0) == 1);
    } else {
        let u = seq![x] + t;
        assert(u.drop_last() =~= seq![x] + t.drop_last());
        assert(u.last() == t.last());
        assert(digits_value(u) == digits_value(u.drop_last()) * 10 + u.last() as nat);
        assert(digits_value(t) == digits_value(t.drop_last()) * 10 + t.last() as nat);
        lemma_value_prepend(x, t.drop_last());
        let p = pow10((t.len() - 1) as nat);
        assert(pow10(t.len()) == 10 * p);
        assert((x as nat * p + digits_value(t.drop_last())) * 10 + t.last() as nat == x as nat * (
        10 * p) + (digits_value(t.drop_last()) * 10 + t.last() as nat)) by (nonlinear_arith);
    }
}

/// A leading zero does not change the value.
proof fn lemma_value_drop_leading_zero(d: Seq<u8>)
    requires
        d.len() > 0,
        d[0] == 0,
    ensures
        digits_value(d) == digits_value(d.drop_first()),
{
    assert(d =~= seq![0u8] + d.drop_first());
    lemma_value_prepend(0, d.drop_first());
}

/// A digit sequence without leading zero has a positive value.
proof fn lemma_value_positive(d: Seq<u8>)
    requires
        d.len() > 0,
        d[0] != 0,
        all_digits(d),
    ensures
        digits_value(d) > 0,
    decreases d.len(),
{
    if d.len() > 1 {
        lemma_value_positive(d.drop_last());
    } else {
        assert(d.drop_last() =~= Seq::<u8>::empty());
    }
}

/// A digit sequence without leading zero is the decimal form of its value.
proof fn lemma_digits_of_value(d: Seq<u8>)
    requires
        d.len() == 0 || d[0] != 0,
        all_digits(d),
    ensures
        u64_digits(digits_value(d)) == d,
    decreases d.len(),
{
    if d.len() > 0 {
        let p = d.drop_last();
        lemma_digits_of_value(p);
        lemma_value_positive(d);
        let v = digits_value(d);
        assert(v / 10 == digits_value(p));
        assert(v % 10 == d.last() as nat);
        assert(p.push(d.last()) =~= d);
    }
}

/// The decimal digits of `m` denote `m` and have no leading zero.
pub proof fn lemma_u64_digits(m: nat)
    ensures
        all_digits(u64_digits(m)),
        digits_value(u64_digits(m)) == m,
        u64_digits(m).len() == 0 <==> m == 0,
        u64_digits(m).len() > 0 ==> u64_digits(m)[0] != 0,
    decreases m,
{
    if m > 0 {
        lemma_u64_digits(m / 10);
        let d = u64_digits(m);
        assert(d.drop_last() =~= u64_digits(m / 10));
        if m / 10 == 0 {
            assert(d =~= seq![(m % 10) as u8]);
        }
    }
}

/// `10^(a + b)` is `10^a * 10^b`.
proof fn lemma_pow10_add(a: nat, b: nat)
    ensures
        pow10(a + b) == pow10(a) * pow10(b),
        pow10(a) > 0,
    decreases a,
{
    if a == 0 {
        assert(pow10(0) == 1);
        assert(a + b == b);
        lemma_pow10_add_base(b);
    } else {
        let a1 = (a - 1) as nat;
        lemma_pow10_add(a1, b);
        assert(a + b == (a1 + b) + 1);
        assert(pow10(a + b) == 10 * pow10(a1 + b));
        assert(pow10(a) == 10 * pow10(a1));
        let x = pow10(a1);
        let y = pow10(b);
        assert(10 * (x * y) == (10 * x) * y) by (nonlinear_arith);
    }
}

proof fn lemma_pow10_add_base(b: nat)
    ensures
        pow10(b) > 0,
    decreases b,
{
    if b > 0 {
        lemma_pow10_add_base((b - 1) as nat);
    }
}

/// Normalizing keeps the value: `d / 10^scale` of the result is `v / 10^s`.
proof fn lemma_normalize_value(negative: bool, v: nat, s: nat)
    ensures
        digits_value(normalize_value(negative, v, s).1) * pow10(s) == v * pow10(
            normalize_value(negative, v, s).2,
        ),
    decreases s,
{
    let r = normalize_value(negative, v, s);
    if v == 0 {
        assert(r.1 == Seq::<u8>::empty());
        assert(digits_value(r.1) == 0);
        assert(0 * pow10(s) == 0) by (nonlinear_arith);
    } else if s > 0 && v % 10 == 0 {
        let s1 = (s - 1) as nat;
        lemma_normalize_value(negative, v / 10, s1);
        let r1 = normalize_value(negative, v / 10, s1);
        assert(r == r1);
        let x = digits_value(r1.1);
        let p = pow10(s1);
        let q = pow10(r1.2);
        let u = v / 10;
        assert(x * p == u * q);
        assert(pow10(s) == 10 * p);
        assert(v == 10 * u);
        assert(x * (10 * p) == (10 * u) * q) by (nonlinear_arith)
            requires
                x * p == u * q,
        ;
    } else {
        assert(r == (negative, u64_digits(v), s));
        lemma_u64_digits(v);
    }
}

/// The text of a negative number is a minus sign before the text of the
/// number with the same digits and scale: the sign never changes how the
/// digits are shown.
pub proof fn law_negative_text(d: Seq<u8>, scale: nat)
    ensures
        number_text(true, d, scale) == seq!['-'] + number_text(false, d, scale),
{
}

/// A literal with no fraction group denotes its integer digits.
pub proof fn law_literal_integer(negative: bool, d0: Seq<u8>)
    ensures
        digits_value(literal_number(negative, d0, Seq::empty()).1) == digits_value(d0),
        literal_number(negative, d0, Seq::empty()).2 == 0,
{
    let v = digits_value(d0);
    assert(literal_sum(d0, Seq::<Seq<u8>>::empty()) == (v, 0nat));
    if v != 0 {
        lemma_u64_digits(v);
    }
}

/// Each fraction group `g` of a literal adds `g / 10^|g|`, where `|g|`
/// counts every digit written after the point, leading zeros included: the
/// value `d2 / 10^s2` of the literal with `g` appended is the value
/// `d1 / 10^s1` of the literal without it plus `g / 10^|g|` (stated with the
/// denominators multiplied out).
pub proof fn law_literal_group_value(negative: bool, d0: Seq<u8>, groups: Seq<Seq<u8>>, g: Seq<u8>)
    ensures
        ({
            let (n1, d1, s1) = literal_number(negative, d0, groups);
            let (n2, d2, s2) = literal_number(negative, d0, groups.push(g));
            digits_value(d2) * pow10(s1 + g.len()) == (digits_value(d1) * pow10(g.len())
                + digits_value(g) * pow10(s1)) * pow10(s2)
        }),
{
    let gs2 = groups.push(g);
    assert(gs2.drop_last() =~= groups);
    assert(gs2.last() == g);
    let (v, s) = literal_sum(d0, groups);
    let big: nat = if s >= g.len() { s } else { g.len() };
    let a = pow10((big - s) as nat);
    let b = pow10((big - g.len()) as nat);
    let w = digits_value(g);
    let v2 = v * a + w * b;
    assert(literal_sum(d0, gs2) == (v2, big));
    let (n1, d1, s1) = literal_number(negative, d0, groups);
    let (n2, d2, s2) = literal_number(negative, d0, gs2);
    lemma_normalize_value(negative, v, s);
    lemma_normalize_value(negative, v2, big);
    let x = digits_value(d2);
    let y = digits_value(d1);
    let ps = pow10(s);
    let pg = pow10(g.len());
    let t1 = pow10(s1);
    let t2 = pow10(s2);
    let pb = pow10(big);
    lemma_pow10_add((big - s) as nat, s);
    lemma_pow10_add((big - g.len()) as nat, g.len());
    lemma_pow10_add(s1, g.len());
    lemma_pow10_add(s, 0);
    lemma_pow10_add(s1, 0);
    lemma_pow10_add(s2, 0);
    lemma_pow10_add(big, 0);
    lemma_pow10_add(g.len(), 0);
    assert(((big - s) as nat + s) == big);
    assert(((big - g.len()) as nat + g.len()) == big);
    assert(pb == a * ps);
    assert(pb == b * pg);
    assert(y * ps == v * t1);
    assert(x * pb == v2 * t2);
    // Both sides times 10^big agree.
    let lhs = x * (t1 * pg);
    let rhs = (y * pg + w * t1) * t2;
    assert(lhs * pb == (t1 * pg * t2) * (v * a) + (t1 * pg * t2) * (w * b)) by (nonlinear_arith)
        requires
            lhs == x * (t1 * pg),
            x * pb == (v * a + w * b) * t2,
    ;
    assert(rhs * pb == (pg * t2) * (y * pb) + (w * t1 * t2) * pb) by (nonlinear_arith)
        requires
            rhs == (y * pg + w * t1) * t2,
    ;
    assert(y * pb == (v * t1) * a) by (nonlinear_arith)
        requires
            pb == a * ps,
            y * ps == v * t1,
    ;
    assert((t1 * pg * t2) * (w * b) == (w * t1 * t2) * pb) by (nonlinear_arith)
        requires
            pb == b * pg,
    ;
    assert((pg * t2) * ((v * t1) * a) == (t1 * pg * t2) * (v * a)) by (nonlinear_arith);
    assert(lhs * pb == rhs * pb);
    assert(lhs == rhs) by (nonlinear_arith)
        requires
            lhs * pb == rhs * pb,
            pb > 0,
    ;
}

} // verus!
