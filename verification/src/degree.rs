//! Functions that are polynomials of bounded degree, and how few values determine them.
use vstd::prelude::*;
use crate::arith::{lemma_cong_add, lemma_cong_mul, lemma_cong_sub, lerp, sum};
use crate::univariate::{
    combine, lemma_peval_combine, lemma_peval_push_zero, lemma_peval_shift, peval,
};

verus! {

/// `f` takes the values of the polynomial with coefficients `c`.
pub open spec fn has_coeffs(f: spec_fn(int) -> int, c: Seq<int>) -> bool {
    forall|t: int| #[trigger] f(t) == peval(c, t)
}

/// `f` is a polynomial with `n` coefficients.
pub open spec fn is_poly(f: spec_fn(int) -> int, n: nat) -> bool {
    exists|c: Seq<int>| c.len() == n && #[trigger] has_coeffs(f, c)
}

/// A line is a polynomial with two coefficients.
pub proof fn lemma_poly_line(f: spec_fn(int) -> int, a: int, b: int)
    requires
        forall|t: int| #[trigger] f(t) == lerp(a, b, t),
    ensures
        is_poly(f, 2),
{
    let c = seq![a, b - a];
    assert forall|t: int| #[trigger] f(t) == peval(c, t) by {
        reveal_with_fuel(peval, 3);
        assert(c.drop_first()[0] == b - a);
        assert(c.drop_first().drop_first().len() == 0);
        assert(peval(c.drop_first().drop_first(), t) == 0);
        assert(t * 0 == 0) by (nonlinear_arith);
    }
    assert(has_coeffs(f, c));
}

/// A polynomial has as many coefficients more as one likes.
pub proof fn lemma_poly_extend(f: spec_fn(int) -> int, n: nat)
    requires
        is_poly(f, n),
    ensures
        is_poly(f, n + 1),
{
    let c = choose|c: Seq<int>| c.len() == n && #[trigger] has_coeffs(f, c);
    let e = c.push(0);
    assert forall|t: int| #[trigger] f(t) == peval(e, t) by {
        lemma_peval_push_zero(c, t);
    }
    assert(has_coeffs(f, e));
}

/// Linear combinations of polynomials are polynomials.
pub proof fn lemma_poly_combine(
    f: spec_fn(int) -> int,
    g: spec_fn(int) -> int,
    h: spec_fn(int) -> int,
    a: int,
    b: int,
    n: nat,
)
    requires
        is_poly(f, n),
        is_poly(g, n),
        forall|t: int| #[trigger] h(t) == a * f(t) + b * g(t),
    ensures
        is_poly(h, n),
{
    let c = choose|c: Seq<int>| c.len() == n && #[trigger] has_coeffs(f, c);
    let d = choose|c: Seq<int>| c.len() == n && #[trigger] has_coeffs(g, c);
    let e = combine(a, c, b, d);
    assert forall|t: int| #[trigger] h(t) == peval(e, t) by {
        lemma_peval_combine(a, c, b, d, t);
        assert(f(t) == peval(c, t));
        assert(g(t) == peval(d, t));
    }
    assert(has_coeffs(h, e));
}

/// A line times a polynomial is a polynomial with one coefficient more.
pub proof fn lemma_poly_times_line(
    f: spec_fn(int) -> int,
    h: spec_fn(int) -> int,
    a: int,
    b: int,
    n: nat,
)
    requires
        is_poly(f, n),
        forall|t: int| #[trigger] h(t) == lerp(a, b, t) * f(t),
    ensures
        is_poly(h, n + 1),
{
    let c = choose|c: Seq<int>| c.len() == n && #[trigger] has_coeffs(f, c);
    let (s, u) = (c.push(0), seq![0int] + c);
    let e = combine(a, s, b - a, u);
    assert forall|t: int| #[trigger] h(t) == peval(e, t) by {
        lemma_peval_combine(a, s, b - a, u, t);
        lemma_peval_push_zero(c, t);
        lemma_peval_shift(c, t);
        assert(f(t) == peval(c, t));
        let v = f(t);
        assert((a + t * (b - a)) * v == a * v + (b - a) * (t * v)) by (nonlinear_arith);
    }
    assert(has_coeffs(h, e));
}

/// The function of `t` in a family indexed by `i`.
pub open spec fn member(f: spec_fn(int, int) -> int, i: int) -> spec_fn(int) -> int {
    |t: int| f(i, t)
}

/// Sums of polynomials are polynomials.
pub proof fn lemma_poly_sum(
    f: spec_fn(int, int) -> int,
    h: spec_fn(int) -> int,
    lo: int,
    hi: int,
    n: nat,
)
    requires
        forall|i: int| lo <= i < hi ==> #[trigger] is_poly(member(f, i), n),
        forall|t: int| #[trigger] h(t) == sum(|i: int| f(i, t), lo, hi),
    ensures
        is_poly(h, n),
    decreases hi - lo,
{
    if hi <= lo {
        let c = Seq::new(n, |i: int| 0int);
        assert forall|t: int| #[trigger] h(t) == peval(c, t) by {
            lemma_peval_zeros(n, t);
        }
        assert(has_coeffs(h, c));
    } else {
        let h0 = |t: int| sum(|i: int| f(i, t), lo, hi - 1);
        lemma_poly_sum(f, h0, lo, hi - 1, n);
        let g = member(f, hi - 1);
        assert(is_poly(g, n));
        lemma_poly_combine(h0, g, h, 1, 1, n);
    }
}

/// The polynomial without coefficients but zeros is zero.
proof fn lemma_peval_zeros(n: nat, t: int)
    ensures
        peval(Seq::new(n, |i: int| 0int), t) == 0,
    decreases n,
{
    let c = Seq::new(n, |i: int| 0int);
    if n > 0 {
        lemma_peval_zeros((n - 1) as nat, t);
        assert(c.drop_first() =~= Seq::new((n - 1) as nat, |i: int| 0int));
        assert(t * 0 == 0) by (nonlinear_arith);
    }
}

/// The value at `t` of a polynomial with six coefficients, spelled out.
proof fn lemma_peval_six(c: Seq<int>, t: int)
    requires
        c.len() == 6,
    ensures
        peval(c, t) == c[0] + t * (c[1] + t * (c[2] + t * (c[3] + t * (c[4] + t * c[5])))),
{
    let (c1, c2) = (c.drop_first(), c.drop_first().drop_first());
    let (c3, c4) = (c2.drop_first(), c2.drop_first().drop_first());
    let (c5, c6) = (c4.drop_first(), c4.drop_first().drop_first());
    assert(peval(c6, t) == 0);
    assert(t * 0 == 0) by (nonlinear_arith);
    assert(peval(c5, t) == c[5]);
    assert(peval(c4, t) == c[4] + t * c[5]);
    assert(peval(c3, t) == c[3] + t * peval(c4, t));
    assert(peval(c2, t) == c[2] + t * peval(c3, t));
    assert(peval(c1, t) == c[1] + t * peval(c2, t));
}

/// Forward differences of a quintic at the points 0 to 5, by Newton's formula: five falling
/// factorials of `t` with integer coefficients, over 120.
proof fn lemma_newton(c: Seq<int>, t: int)
    requires
        c.len() == 6,
    ensures
        ({
            let (v0, v1, v2, v3, v4, v5) = (
                peval(c, 0),
                peval(c, 1),
                peval(c, 2),
                peval(c, 3),
                peval(c, 4),
                peval(c, 5),
            );
            let d1 = v1 - v0;
            let d2 = v2 - 2 * v1 + v0;
            let d3 = v3 - 3 * v2 + 3 * v1 - v0;
            let d4 = v4 - 4 * v3 + 6 * v2 - 4 * v1 + v0;
            let d5 = v5 - 5 * v4 + 10 * v3 - 10 * v2 + 5 * v1 - v0;
            let n1 = t;
            let n2 = n1 * (t - 1);
            let n3 = n2 * (t - 2);
            let n4 = n3 * (t - 3);
            let n5 = n4 * (t - 4);
            120 * peval(c, t) == 120 * v0 + 120 * (n1 * d1) + 60 * (n2 * d2) + 20 * (n3 * d3) + 5 * (
            n4 * d4) + n5 * d5
        }),
{
    lemma_peval_six(c, 0);
    lemma_peval_six(c, 1);
    lemma_peval_six(c, 2);
    lemma_peval_six(c, 3);
    lemma_peval_six(c, 4);
    lemma_peval_six(c, 5);
    lemma_peval_six(c, t);
    let (c0, c1, c2, c3, c4, c5) = (c[0], c[1], c[2], c[3], c[4], c[5]);
    // the differences, in terms of the coefficients
    let d1 = c1 + c2 + c3 + c4 + c5;
    let d2 = 2 * c2 + 6 * c3 + 14 * c4 + 30 * c5;
    let d3 = 6 * c3 + 36 * c4 + 150 * c5;
    let d4 = 24 * c4 + 240 * c5;
    let d5 = 120 * c5;
    let t2 = t * t;
    let t3 = t2 * t;
    let t4 = t3 * t;
    let t5 = t4 * t;
    // the falling factorials, in terms of the powers
    let n2 = t * (t - 1);
    let n3 = n2 * (t - 2);
    let n4 = n3 * (t - 3);
    let n5 = n4 * (t - 4);
    assert(n2 == t2 - t) by (nonlinear_arith)
        requires
            n2 == t * (t - 1),
            t2 == t * t,
    ;
    assert(n3 == t3 - 3 * t2 + 2 * t) by (nonlinear_arith)
        requires
            n3 == n2 * (t - 2),
            n2 == t2 - t,
            t2 == t * t,
            t3 == t2 * t,
    ;
    assert(n4 == t4 - 6 * t3 + 11 * t2 - 6 * t) by (nonlinear_arith)
        requires
            n4 == n3 * (t - 3),
            n3 == t3 - 3 * t2 + 2 * t,
            t2 == t * t,
            t3 == t2 * t,
            t4 == t3 * t,
    ;
    assert(n5 == t5 - 10 * t4 + 35 * t3 - 50 * t2 + 24 * t) by (nonlinear_arith)
        requires
            n5 == n4 * (t - 4),
            n4 == t4 - 6 * t3 + 11 * t2 - 6 * t,
            t2 == t * t,
            t3 == t2 * t,
            t4 == t3 * t,
            t5 == t4 * t,
    ;
    assert(peval(c, t) == c0 + t * c1 + t2 * c2 + t3 * c3 + t4 * c4 + t5 * c5) by {
        let u4 = c4 + t * c5;
        let u3 = c3 + t * u4;
        let u2 = c2 + t * u3;
        let u1 = c1 + t * u2;
        assert(t * u4 == t * c4 + t2 * c5) by (nonlinear_arith)
            requires
                u4 == c4 + t * c5,
                t2 == t * t,
        ;
        assert(t * u3 == t * c3 + t2 * c4 + t3 * c5) by (nonlinear_arith)
            requires
                u3 == c3 + (t * c4 + t2 * c5),
                t2 == t * t,
                t3 == t2 * t,
        ;
        assert(t * u2 == t * c2 + t2 * c3 + t3 * c4 + t4 * c5) by (nonlinear_arith)
            requires
                u2 == c2 + (t * c3 + t2 * c4 + t3 * c5),
                t2 == t * t,
                t3 == t2 * t,
                t4 == t3 * t,
        ;
        assert(t * u1 == t * c1 + t2 * c2 + t3 * c3 + t4 * c4 + t5 * c5) by (nonlinear_arith)
            requires
                u1 == c1 + (t * c2 + t2 * c3 + t3 * c4 + t4 * c5),
                t2 == t * t,
                t3 == t2 * t,
                t4 == t3 * t,
                t5 == t4 * t,
        ;
    }
    assert(t * d1 == t * c1 + t * c2 + t * c3 + t * c4 + t * c5) by (nonlinear_arith)
        requires
            d1 == c1 + c2 + c3 + c4 + c5,
    ;
    assert(n2 * d2 == 2 * (n2 * c2) + 6 * (n2 * c3) + 14 * (n2 * c4) + 30 * (n2 * c5))
        by (nonlinear_arith)
        requires
            d2 == 2 * c2 + 6 * c3 + 14 * c4 + 30 * c5,
    ;
    assert(n3 * d3 == 6 * (n3 * c3) + 36 * (n3 * c4) + 150 * (n3 * c5)) by (nonlinear_arith)
        requires
            d3 == 6 * c3 + 36 * c4 + 150 * c5,
    ;
    assert(n4 * d4 == 24 * (n4 * c4) + 240 * (n4 * c5)) by (nonlinear_arith)
        requires
            d4 == 24 * c4 + 240 * c5,
    ;
    assert(n5 * d5 == 120 * (n5 * c5)) by (nonlinear_arith)
        requires
            d5 == 120 * c5,
    ;
    assert(n2 * c2 == t2 * c2 - t * c2) by (nonlinear_arith)
        requires
            n2 == t2 - t,
    ;
    assert(n2 * c3 == t2 * c3 - t * c3) by (nonlinear_arith)
        requires
            n2 == t2 - t,
    ;
    assert(n2 * c4 == t2 * c4 - t * c4) by (nonlinear_arith)
        requires
            n2 == t2 - t,
    ;
    assert(n2 * c5 == t2 * c5 - t * c5) by (nonlinear_arith)
        requires
            n2 == t2 - t,
    ;
    assert(n3 * c3 == t3 * c3 - 3 * (t2 * c3) + 2 * (t * c3)) by (nonlinear_arith)
        requires
            n3 == t3 - 3 * t2 + 2 * t,
    ;
    assert(n3 * c4 == t3 * c4 - 3 * (t2 * c4) + 2 * (t * c4)) by (nonlinear_arith)
        requires
            n3 == t3 - 3 * t2 + 2 * t,
    ;
    assert(n3 * c5 == t3 * c5 - 3 * (t2 * c5) + 2 * (t * c5)) by (nonlinear_arith)
        requires
            n3 == t3 - 3 * t2 + 2 * t,
    ;
    assert(n4 * c4 == t4 * c4 - 6 * (t3 * c4) + 11 * (t2 * c4) - 6 * (t * c4)) by (nonlinear_arith)
        requires
            n4 == t4 - 6 * t3 + 11 * t2 - 6 * t,
    ;
    assert(n4 * c5 == t4 * c5 - 6 * (t3 * c5) + 11 * (t2 * c5) - 6 * (t * c5)) by (nonlinear_arith)
        requires
            n4 == t4 - 6 * t3 + 11 * t2 - 6 * t,
    ;
    assert(n5 * c5 == t5 * c5 - 10 * (t4 * c5) + 35 * (t3 * c5) - 50 * (t2 * c5) + 24 * (t * c5))
        by (nonlinear_arith)
        requires
            n5 == t5 - 10 * t4 + 35 * t3 - 50 * t2 + 24 * t,
    ;
}

/// A polynomial with six coefficients whose values at 0 to 5 vanish modulo `p` vanishes
/// everywhere, if 120 is invertible.
pub proof fn lemma_vanishes(p: int, c: Seq<int>, inv: int, t: int)
    requires
        p > 1,
        (120 * inv) % p == 1,
        c.len() == 6,
        forall|j: int| 0 <= j <= 5 ==> #[trigger] peval(c, j) % p == 0,
    ensures
        peval(c, t) % p == 0,
{
    vstd::arithmetic::div_mod::lemma_small_mod(0, p as nat);
    vstd::arithmetic::div_mod::lemma_small_mod(1, p as nat);
    lemma_newton(c, t);
    let (v0, v1, v2, v3, v4, v5) = (
        peval(c, 0),
        peval(c, 1),
        peval(c, 2),
        peval(c, 3),
        peval(c, 4),
        peval(c, 5),
    );
    let k = |v: int| v / p;
    assert(v0 == p * k(v0) && v1 == p * k(v1) && v2 == p * k(v2) && v3 == p * k(v3) && v4 == p * k(
        v4,
    ) && v5 == p * k(v5)) by {
        vstd::arithmetic::div_mod::lemma_fundamental_div_mod(v0, p);
        vstd::arithmetic::div_mod::lemma_fundamental_div_mod(v1, p);
        vstd::arithmetic::div_mod::lemma_fundamental_div_mod(v2, p);
        vstd::arithmetic::div_mod::lemma_fundamental_div_mod(v3, p);
        vstd::arithmetic::div_mod::lemma_fundamental_div_mod(v4, p);
        vstd::arithmetic::div_mod::lemma_fundamental_div_mod(v5, p);
    }
    let (q0, q1, q2, q3, q4, q5) = (k(v0), k(v1), k(v2), k(v3), k(v4), k(v5));
    let n1 = t;
    let n2 = n1 * (t - 1);
    let n3 = n2 * (t - 2);
    let n4 = n3 * (t - 3);
    let n5 = n4 * (t - 4);
    let e1 = q1 - q0;
    let e2 = q2 - 2 * q1 + q0;
    let e3 = q3 - 3 * q2 + 3 * q1 - q0;
    let e4 = q4 - 4 * q3 + 6 * q2 - 4 * q1 + q0;
    let e5 = q5 - 5 * q4 + 10 * q3 - 10 * q2 + 5 * q1 - q0;
    let d1 = v1 - v0;
    let d2 = v2 - 2 * v1 + v0;
    let d3 = v3 - 3 * v2 + 3 * v1 - v0;
    let d4 = v4 - 4 * v3 + 6 * v2 - 4 * v1 + v0;
    let d5 = v5 - 5 * v4 + 10 * v3 - 10 * v2 + 5 * v1 - v0;
    assert(d1 == p * e1) by (nonlinear_arith)
        requires
            d1 == p * q1 - p * q0,
            e1 == q1 - q0,
    ;
    assert(d2 == p * e2) by (nonlinear_arith)
        requires
            d2 == p * q2 - 2 * (p * q1) + p * q0,
            e2 == q2 - 2 * q1 + q0,
    ;
    assert(d3 == p * e3) by (nonlinear_arith)
        requires
            d3 == p * q3 - 3 * (p * q2) + 3 * (p * q1) - p * q0,
            e3 == q3 - 3 * q2 + 3 * q1 - q0,
    ;
    assert(d4 == p * e4) by (nonlinear_arith)
        requires
            d4 == p * q4 - 4 * (p * q3) + 6 * (p * q2) - 4 * (p * q1) + p * q0,
            e4 == q4 - 4 * q3 + 6 * q2 - 4 * q1 + q0,
    ;
    assert(d5 == p * e5) by (nonlinear_arith)
        requires
            d5 == p * q5 - 5 * (p * q4) + 10 * (p * q3) - 10 * (p * q2) + 5 * (p * q1) - p * q0,
            e5 == q5 - 5 * q4 + 10 * q3 - 10 * q2 + 5 * q1 - q0,
    ;
    assert(n1 * d1 == p * (n1 * e1)) by (nonlinear_arith)
        requires
            d1 == p * e1,
    ;
    assert(n2 * d2 == p * (n2 * e2)) by (nonlinear_arith)
        requires
            d2 == p * e2,
    ;
    assert(n3 * d3 == p * (n3 * e3)) by (nonlinear_arith)
        requires
            d3 == p * e3,
    ;
    assert(n4 * d4 == p * (n4 * e4)) by (nonlinear_arith)
        requires
            d4 == p * e4,
    ;
    assert(n5 * d5 == p * (n5 * e5)) by (nonlinear_arith)
        requires
            d5 == p * e5,
    ;
    let s = 120 * q0 + 120 * (n1 * e1) + 60 * (n2 * e2) + 20 * (n3 * e3) + 5 * (n4 * e4) + n5 * e5;
    let x = peval(c, t);
    assert(120 * x == p * s) by (nonlinear_arith)
        requires
            120 * x == 120 * (p * q0) + 120 * (p * (n1 * e1)) + 60 * (p * (n2 * e2)) + 20 * (p * (n3
                * e3)) + 5 * (p * (n4 * e4)) + p * (n5 * e5),
            s == 120 * q0 + 120 * (n1 * e1) + 60 * (n2 * e2) + 20 * (n3 * e3) + 5 * (n4 * e4) + n5
                * e5,
    ;
    vstd::arithmetic::div_mod::lemma_mod_multiples_basic(s, p);
    assert(s * p == p * s) by (nonlinear_arith);
    lemma_cong_mul(p, 120 * x, inv, 0, inv);
    assert((120 * x) * inv == x * (120 * inv)) by (nonlinear_arith);
    lemma_cong_mul(p, x, 120 * inv, x, 1);
    assert(0 * inv == 0) by (nonlinear_arith);
}

/// A polynomial function with six coefficients is determined modulo `p` by its values at 0 to 5.
pub proof fn lemma_determined(p: int, c: Seq<int>, g: spec_fn(int) -> int, inv: int, t: int)
    requires
        p > 1,
        (120 * inv) % p == 1,
        c.len() == 6,
        is_poly(g, 6),
        forall|j: int| 0 <= j <= 5 ==> #[trigger] peval(c, j) % p == g(j) % p,
    ensures
        peval(c, t) % p == g(t) % p,
{
    vstd::arithmetic::div_mod::lemma_small_mod(0, p as nat);
    let b = choose|b: Seq<int>| b.len() == 6 && #[trigger] has_coeffs(g, b);
    let d = combine(1, c, -1, b);
    assert forall|j: int| 0 <= j <= 5 implies #[trigger] peval(d, j) % p == 0 by {
        lemma_peval_combine(1, c, -1, b, j);
        assert(g(j) == peval(b, j));
        assert(peval(c, j) % p == g(j) % p);
        lemma_cong_sub(p, peval(c, j), g(j), g(j), g(j));
    }
    lemma_vanishes(p, d, inv, t);
    lemma_peval_combine(1, c, -1, b, t);
    assert(g(t) == peval(b, t));
    lemma_cong_add(p, peval(c, t) - g(t), g(t), 0, g(t));
}

} // verus!
