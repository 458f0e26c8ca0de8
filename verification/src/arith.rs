//! Residue arithmetic: the mathematical model of the scalar field.
//!
//! A field element is modelled by an integer in `[0, p)`. The predicate
//! `is(p, x, e)` says that the residue `x` represents the integer expression
//! `e`; the lemmas below carry it through the field operations.
use vstd::prelude::*;
use vstd::arithmetic::div_mod::{
    lemma_add_mod_noop, lemma_mod_bound, lemma_mod_twice, lemma_mul_mod_noop, lemma_small_mod,
    lemma_sub_mod_noop,
};

verus! {

/// The sum of two residues modulo `p`.
pub open spec fn fadd(p: int, x: int, y: int) -> int {
    (x + y) % p
}

/// The difference of two residues modulo `p`.
pub open spec fn fsub(p: int, x: int, y: int) -> int {
    (x - y) % p
}

/// The product of two residues modulo `p`.
pub open spec fn fmul(p: int, x: int, y: int) -> int {
    (x * y) % p
}

/// A product vanishes modulo `p` only if a factor does.
pub open spec fn no_zero_divisors(p: int) -> bool {
    forall|x: int, y: int| #[trigger] fmul(p, x, y) == 0 ==> x % p == 0 || y % p == 0
}

/// The residue whose product with the residue `b` is the residue `a`.
pub open spec fn quotient(p: int, a: int, b: int) -> int {
    choose|x: int| 0 <= x < p && #[trigger] fmul(p, x, b) == a
}

/// The quotient of the integers `a` and `b` modulo `p`.
pub open spec fn fdiv(p: int, a: int, b: int) -> int {
    quotient(p, a % p, b % p)
}

/// `x` has an inverse modulo `p`.
pub open spec fn invertible(p: int, x: int) -> bool {
    exists|v: int| #[trigger] fmul(p, x, v) == 1
}

/// The residue `x` represents the integer `e` modulo `p`.
pub open spec fn is(p: int, x: int, e: int) -> bool {
    x == e % p
}

/// Linear interpolation: the line through `a` at 0 and `b` at 1, at the point `t`.
pub open spec fn lerp(a: int, b: int, t: int) -> int {
    a + t * (b - a)
}

/// Entrywise linear interpolation of two vectors.
pub open spec fn lerp_seq(a: Seq<int>, b: Seq<int>, t: int) -> Seq<int> {
    Seq::new(a.len(), |i: int| lerp(a[i], b[i], t))
}

/// The vectors are congruent modulo `p`, entry by entry.
pub open spec fn cong_seq(p: int, a: Seq<int>, b: Seq<int>) -> bool {
    &&& a.len() == b.len()
    &&& forall|i: int| 0 <= i < a.len() ==> #[trigger] a[i] % p == b[i] % p
}

/// The sum of `f` over `[lo, hi)`.
pub open spec fn sum(f: spec_fn(int) -> int, lo: int, hi: int) -> int
    decreases hi - lo,
{
    if hi <= lo {
        0
    } else {
        sum(f, lo, hi - 1) + f(hi - 1)
    }
}

/// The `k`-th power of `x`.
pub open spec fn power(x: int, k: nat) -> int
    decreases k,
{
    if k == 0 {
        1
    } else {
        power(x, (k - 1) as nat) * x
    }
}

/// Representation is preserved by addition.
pub broadcast proof fn lemma_is_add(p: int, x: int, y: int, a: int, b: int)
    requires
        p > 0,
        #[trigger] is(p, x, a),
        #[trigger] is(p, y, b),
    ensures
        is(p, #[trigger] fadd(p, x, y), a + b),
{
    lemma_add_mod_noop(a, b, p);
}

/// Representation is preserved by subtraction.
pub broadcast proof fn lemma_is_sub(p: int, x: int, y: int, a: int, b: int)
    requires
        p > 0,
        #[trigger] is(p, x, a),
        #[trigger] is(p, y, b),
    ensures
        is(p, #[trigger] fsub(p, x, y), a - b),
{
    lemma_sub_mod_noop(a, b, p);
}

/// Representation is preserved by multiplication.
pub broadcast proof fn lemma_is_mul(p: int, x: int, y: int, a: int, b: int)
    requires
        p > 0,
        #[trigger] is(p, x, a),
        #[trigger] is(p, y, b),
    ensures
        is(p, #[trigger] fmul(p, x, y), a * b),
{
    lemma_mul_mod_noop(a, b, p);
}

pub broadcast group group_is {
    lemma_is_add,
    lemma_is_sub,
    lemma_is_mul,
}

/// Every residue in range represents itself.
pub proof fn lemma_is_self(p: int, x: int)
    requires
        0 <= x < p,
    ensures
        is(p, x, x),
{
    lemma_small_mod(x as nat, p as nat);
}

/// Congruence modulo `p` is compatible with addition.
pub proof fn lemma_cong_add(p: int, a: int, b: int, c: int, d: int)
    requires
        p > 0,
        a % p == c % p,
        b % p == d % p,
    ensures
        (a + b) % p == (c + d) % p,
{
    lemma_add_mod_noop(a, b, p);
    lemma_add_mod_noop(c, d, p);
}

/// Congruence modulo `p` is compatible with subtraction.
pub proof fn lemma_cong_sub(p: int, a: int, b: int, c: int, d: int)
    requires
        p > 0,
        a % p == c % p,
        b % p == d % p,
    ensures
        (a - b) % p == (c - d) % p,
{
    lemma_sub_mod_noop(a, b, p);
    lemma_sub_mod_noop(c, d, p);
}

/// Congruence modulo `p` is compatible with multiplication.
pub proof fn lemma_cong_mul(p: int, a: int, b: int, c: int, d: int)
    requires
        p > 0,
        a % p == c % p,
        b % p == d % p,
    ensures
        (a * b) % p == (c * d) % p,
{
    lemma_mul_mod_noop(a, b, p);
    lemma_mul_mod_noop(c, d, p);
}

/// Reduction modulo `p` is idempotent and lands in `[0, p)`.
pub proof fn lemma_mod(p: int, a: int)
    requires
        p > 0,
    ensures
        0 <= a % p < p,
        (a % p) % p == a % p,
{
    lemma_mod_bound(a, p);
    lemma_mod_twice(a, p);
}

/// Congruence modulo `p` is compatible with linear interpolation.
pub proof fn lemma_cong_lerp(p: int, a: int, b: int, t: int, c: int, d: int, u: int)
    requires
        p > 0,
        a % p == c % p,
        b % p == d % p,
        t % p == u % p,
    ensures
        lerp(a, b, t) % p == lerp(c, d, u) % p,
{
    lemma_cong_sub(p, b, a, d, c);
    lemma_cong_mul(p, t, b - a, u, d - c);
    lemma_cong_add(p, a, t * (b - a), c, u * (d - c));
}

/// A divisor with an inverse has exactly one quotient.
pub proof fn lemma_fdiv(p: int, a: int, b: int, inv: int, x: int)
    requires
        p > 1,
        (b * inv) % p == 1,
        0 <= x < p,
        (x * b) % p == a % p,
    ensures
        x == fdiv(p, a, b),
{
    let y = fdiv(p, a, b);
    lemma_mod(p, b);
    lemma_cong_mul(p, x, b, x, b % p);
    lemma_cong_mul(p, y, b, y, b % p);
    assert(fmul(p, x, b % p) == a % p);
    assert(0 <= y < p && fmul(p, y, b % p) == a % p);
    lemma_small_mod(1, p as nat);
    lemma_cong_mul(p, x * b, inv, y * b, inv);
    assert((x * b) * inv == x * (b * inv)) by (nonlinear_arith);
    assert((y * b) * inv == y * (b * inv)) by (nonlinear_arith);
    lemma_cong_mul(p, x, b * inv, x, 1);
    lemma_cong_mul(p, y, b * inv, y, 1);
    lemma_small_mod(x as nat, p as nat);
    lemma_small_mod(y as nat, p as nat);
}

/// Multiplying by the inverse of the divisor computes the quotient.
pub proof fn lemma_fdiv_by_inverse(p: int, a: int, b: int, inv: int)
    requires
        p > 1,
        (b * inv) % p == 1,
    ensures
        (a * inv) % p == fdiv(p, a, b),
        (fdiv(p, a, b) * b) % p == a % p,
        0 <= fdiv(p, a, b) < p,
{
    let x = (a * inv) % p;
    lemma_mod(p, a * inv);
    lemma_small_mod(1, p as nat);
    lemma_cong_mul(p, x, b, a * inv, b);
    assert((a * inv) * b == a * (b * inv)) by (nonlinear_arith);
    lemma_cong_mul(p, a, b * inv, a, 1);
    lemma_fdiv(p, a, b, inv, x);
}

/// Sums of pointwise equal terms are equal.
pub proof fn lemma_sum_ext(f: spec_fn(int) -> int, g: spec_fn(int) -> int, lo: int, hi: int)
    requires
        forall|i: int| lo <= i < hi ==> #[trigger] f(i) == g(i),
    ensures
        sum(f, lo, hi) == sum(g, lo, hi),
    decreases hi - lo,
{
    if lo < hi {
        lemma_sum_ext(f, g, lo, hi - 1);
    }
}

/// Sums of pointwise congruent terms are congruent.
pub proof fn lemma_sum_cong(p: int, f: spec_fn(int) -> int, g: spec_fn(int) -> int, lo: int, hi: int)
    requires
        p > 0,
        forall|i: int| lo <= i < hi ==> #[trigger] f(i) % p == g(i) % p,
    ensures
        sum(f, lo, hi) % p == sum(g, lo, hi) % p,
    decreases hi - lo,
{
    if lo < hi {
        lemma_sum_cong(p, f, g, lo, hi - 1);
        assert(f(hi - 1) % p == g(hi - 1) % p);
        lemma_cong_add(p, sum(f, lo, hi - 1), f(hi - 1), sum(g, lo, hi - 1), g(hi - 1));
    }
}

/// A sum splits at every point of its range.
pub proof fn lemma_sum_split(f: spec_fn(int) -> int, lo: int, mid: int, hi: int)
    requires
        lo <= mid <= hi,
    ensures
        sum(f, lo, hi) == sum(f, lo, mid) + sum(f, mid, hi),
    decreases hi - mid,
{
    if mid < hi {
        lemma_sum_split(f, lo, mid, hi - 1);
    }
}

/// Summation is linear.
pub proof fn lemma_sum_linear(
    f: spec_fn(int) -> int,
    g: spec_fn(int) -> int,
    a: int,
    b: int,
    lo: int,
    hi: int,
)
    ensures
        sum(|i: int| a * f(i) + b * g(i), lo, hi) == a * sum(f, lo, hi) + b * sum(g, lo, hi),
    decreases hi - lo,
{
    let h = |i: int| a * f(i) + b * g(i);
    if lo < hi {
        lemma_sum_linear(f, g, a, b, lo, hi - 1);
        assert(h(hi - 1) == a * f(hi - 1) + b * g(hi - 1));
        let s = sum(f, lo, hi - 1);
        let t = sum(g, lo, hi - 1);
        let u = f(hi - 1);
        let v = g(hi - 1);
        assert(a * (s + u) + b * (t + v) == (a * s + b * t) + (a * u + b * v)) by (nonlinear_arith);
    } else {
        assert(a * 0 + b * 0 == 0) by (nonlinear_arith);
    }
}

/// A sum whose terms all vanish modulo `p` vanishes modulo `p`.
pub proof fn lemma_sum_zero(p: int, f: spec_fn(int) -> int, lo: int, hi: int)
    requires
        p > 0,
        forall|i: int| lo <= i < hi ==> #[trigger] f(i) % p == 0,
    ensures
        sum(f, lo, hi) % p == 0,
    decreases hi - lo,
{
    lemma_small_mod(0, p as nat);
    if lo < hi {
        lemma_sum_zero(p, f, lo, hi - 1);
        assert(f(hi - 1) % p == 0);
        lemma_cong_add(p, sum(f, lo, hi - 1), f(hi - 1), 0, 0);
    }
}

/// Reindexing a sum by a constant offset.
pub proof fn lemma_sum_shift(f: spec_fn(int) -> int, g: spec_fn(int) -> int, d: int, lo: int, hi: int)
    requires
        forall|i: int| lo <= i < hi ==> #[trigger] f(i) == g(i + d),
    ensures
        sum(f, lo, hi) == sum(g, lo + d, hi + d),
    decreases hi - lo,
{
    if lo < hi {
        lemma_sum_shift(f, g, d, lo, hi - 1);
        assert(f(hi - 1) == g(hi - 1 + d));
        assert(hi - 1 + d == hi + d - 1);
    }
}

/// Powers multiply by adding exponents.
pub proof fn lemma_power_add(x: int, a: nat, b: nat)
    ensures
        power(x, a + b) == power(x, a) * power(x, b),
    decreases b,
{
    if b == 0 {
        assert(power(x, a) * 1 == power(x, a));
    } else {
        lemma_power_add(x, a, (b - 1) as nat);
        assert((a + b - 1) as nat == a + (b - 1) as nat);
        let u = power(x, a);
        let v = power(x, (b - 1) as nat);
        assert((u * v) * x == u * (v * x)) by (nonlinear_arith);
    }
}

/// Congruence modulo `p` is compatible with powers.
pub proof fn lemma_cong_power(p: int, x: int, y: int, k: nat)
    requires
        p > 0,
        x % p == y % p,
    ensures
        power(x, k) % p == power(y, k) % p,
    decreases k,
{
    if k > 0 {
        lemma_cong_power(p, x, y, (k - 1) as nat);
        lemma_cong_mul(p, power(x, (k - 1) as nat), x, power(y, (k - 1) as nat), y);
    }
}

/// The index of column `j` in row `i` stays below the size of the domain.
pub proof fn lemma_index(left: int, right: int, i: int, j: int)
    requires
        0 <= i < right,
        0 <= j < left,
    ensures
        0 <= i * left + j < left * right,
        0 <= i * left,
{
    assert(0 <= i * left + j < left * right && 0 <= i * left) by (nonlinear_arith)
        requires
            0 <= i < right,
            0 <= j < left,
    ;
}

/// A sum with one term that is not zero is that term.
pub proof fn lemma_sum_single(f: spec_fn(int) -> int, lo: int, hi: int, k: int)
    requires
        lo <= k < hi,
        forall|i: int| lo <= i < hi && i != k ==> #[trigger] f(i) == 0,
    ensures
        sum(f, lo, hi) == f(k),
    decreases hi - lo,
{
    if k == hi - 1 {
        lemma_sum_null(f, lo, hi - 1);
    } else {
        lemma_sum_single(f, lo, hi - 1, k);
    }
}

/// A sum of zeros is zero.
pub proof fn lemma_sum_null(f: spec_fn(int) -> int, lo: int, hi: int)
    requires
        forall|i: int| lo <= i < hi ==> #[trigger] f(i) == 0,
    ensures
        sum(f, lo, hi) == 0,
    decreases hi - lo,
{
    if lo < hi {
        lemma_sum_null(f, lo, hi - 1);
    }
}

} // verus!
