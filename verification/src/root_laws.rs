//! Laws of roots: how rarely weights that are powers of a challenge hide a constraint that fails.
use vstd::prelude::*;
use vstd::arithmetic::div_mod::lemma_small_mod;
use crate::arith::{
    fmul, lemma_cong_mul, lemma_cong_sub, lemma_index, lemma_power_add, lemma_sum_linear,
    lemma_sum_shift, lemma_sum_split, no_zero_divisors, power, sum,
};
use crate::fold_laws::{constraints_hold, lemma_mod_seq_cong};
use crate::relation::{claim_data, NscInstance, NscWitness, StructureModel};
use crate::soundness_laws::lemma_same;
use crate::sumcheck::{lemma_nsc_sum_cong, nsc_rows, nsc_term, NscData};
use crate::univariate::peval;
use crate::weight_table::{mod_seq, power_table};

verus! {

/// The coefficients of the quotient of a polynomial by `x - a`.
pub open spec fn divided(c: Seq<int>, a: int) -> Seq<int> {
    Seq::new((c.len() - 1) as nat, |i: int| peval(c.skip(i + 1), a))
}

/// Division by `x - a` leaves the value at `a`.
proof fn lemma_divided(c: Seq<int>, a: int, x: int)
    requires
        c.len() > 0,
    ensures
        peval(c, x) - peval(c, a) == (x - a) * peval(divided(c, a), x),
    decreases c.len(),
{
    let d = c.drop_first();
    let q = divided(c, a);
    if c.len() == 1 {
        assert(peval(d, x) == 0 && peval(d, a) == 0 && peval(q, x) == 0);
        assert(x * 0 == 0 && a * 0 == 0 && (x - a) * 0 == 0) by (nonlinear_arith);
    } else {
        lemma_divided(d, a, x);
        assert(c.skip(1) =~= d);
        assert(q.drop_first() =~= divided(d, a)) by {
            assert forall|i: int| 0 <= i < d.len() - 1 implies #[trigger] q.drop_first()[i]
                == divided(d, a)[i] by {
                assert(c.skip(i + 2) =~= d.skip(i + 1));
            }
        }
        let (u, v, w) = (peval(d, x), peval(d, a), peval(divided(d, a), x));
        assert(q[0] == v);
        assert(peval(q, x) == v + x * w);
        assert(x * u - a * v == (x - a) * (v + x * w)) by (nonlinear_arith)
            requires
                u - v == (x - a) * w,
        ;
    }
}

/// Residues that differ from each other.
pub open spec fn distinct(p: int, s: Seq<int>) -> bool {
    forall|i: int, j: int| 0 <= i < j < s.len() ==> #[trigger] s[i] % p != #[trigger] s[j] % p
}

/// A polynomial with as many roots as coefficients vanishes.
pub proof fn law_few_roots(p: int, c: Seq<int>, roots: Seq<int>)
    requires
        p > 1,
        no_zero_divisors(p),
        distinct(p, roots),
        roots.len() >= c.len(),
        forall|i: int| 0 <= i < roots.len() ==> peval(c, #[trigger] roots[i]) % p == 0,
    ensures
        forall|i: int| 0 <= i < c.len() ==> #[trigger] c[i] % p == 0,
    decreases c.len(),
{
    lemma_small_mod(0, p as nat);
    if c.len() > 0 {
        let a = roots.last();
        let q = divided(c, a);
        let rest = roots.drop_last();
        assert forall|i: int| 0 <= i < rest.len() implies peval(q, #[trigger] rest[i]) % p == 0 by {
            let b = rest[i];
            assert(b == roots[i]);
            lemma_divided(c, a, b);
            assert(peval(c, roots[i]) % p == 0 && peval(c, roots[roots.len() - 1]) % p == 0);
            lemma_cong_sub(p, peval(c, b), peval(c, a), 0, 0);
            assert(fmul(p, b - a, peval(q, b)) == 0);
            lemma_same(p, b, a);
            assert(roots[i] % p != roots[roots.len() - 1] % p);
        }
        assert(distinct(p, rest)) by {
            assert forall|i: int, j: int| 0 <= i < j < rest.len() implies #[trigger] rest[i] % p
                != #[trigger] rest[j] % p by {
                assert(roots[i] % p != roots[j] % p);
            }
        }
        law_few_roots(p, q, rest);
        assert forall|i: int| 0 <= i < c.len() implies #[trigger] c[i] % p == 0 by {
            let (s, t) = (c.skip(i), c.skip(i + 1));
            assert(s.drop_first() =~= t);
            assert(s[0] == c[i]);
            assert(peval(s, a) == c[i] + a * peval(t, a));
            assert(peval(s, a) % p == 0) by {
                if i == 0 {
                    assert(s =~= c);
                    assert(peval(c, roots[roots.len() - 1]) % p == 0);
                } else {
                    assert(q[i - 1] % p == 0);
                }
            }
            assert(peval(t, a) % p == 0) by {
                if i < c.len() - 1 {
                    assert(q[i] % p == 0);
                }
            }
            lemma_cong_mul(p, a, peval(t, a), a, 0);
            assert(a * 0 == 0) by (nonlinear_arith);
            lemma_cong_sub(p, peval(s, a), a * peval(t, a), 0, 0);
        }
    }
}

/// The last coefficient comes with the highest power.
proof fn lemma_peval_last(c: Seq<int>, x: int)
    requires
        c.len() > 0,
    ensures
        peval(c, x) == peval(c.drop_last(), x) + c.last() * power(x, (c.len() - 1) as nat),
    decreases c.len(),
{
    let d = c.drop_first();
    if c.len() == 1 {
        assert(peval(d, x) == 0 && peval(c.drop_last(), x) == 0);
        assert(x * 0 == 0) by (nonlinear_arith);
    } else {
        lemma_peval_last(d, x);
        assert(c.drop_last().drop_first() =~= d.drop_last());
        let (u, l, m) = (peval(d.drop_last(), x), c.last(), power(x, (d.len() - 1) as nat));
        assert(power(x, (c.len() - 1) as nat) == m * x);
        assert(peval(c.drop_last(), x) == c[0] + x * u);
        assert(d.last() == l);
        assert(x * (u + l * m) == x * u + l * (m * x)) by (nonlinear_arith);
    }
}

/// The value of a polynomial as a sum over its coefficients.
proof fn lemma_peval_sum(c: Seq<int>, x: int, f: spec_fn(int) -> int, n: nat)
    requires
        n <= c.len(),
        forall|k: int| 0 <= k < n ==> #[trigger] f(k) == c[k] * power(x, k as nat),
    ensures
        peval(c.take(n as int), x) == sum(f, 0, n as int),
    decreases n,
{
    let d = c.take(n as int);
    if n > 0 {
        lemma_peval_last(d, x);
        assert(d.drop_last() =~= c.take(n - 1));
        lemma_peval_sum(c, x, f, (n - 1) as nat);
        assert(f(n - 1) == c[n - 1] * power(x, (n - 1) as nat));
    }
}

/// What each constraint is off by.
pub open spec fn residuals(d: NscData) -> Seq<int> {
    Seq::new(d.az.len(), |k: int| d.az[k] * d.bz[k] - d.cz[k])
}

/// Under the powers of a challenge, the first `n` rows hold the first `n left` terms of a
/// polynomial in the challenge.
proof fn lemma_rows_are_polynomial(
    left: nat,
    right: nat,
    d: NscData,
    tau: int,
    f: spec_fn(int) -> int,
    n: nat,
)
    requires
        left >= 1,
        n <= right,
        d.e == power_table(tau, left, right),
        d.az.len() == left * right,
        forall|k: int|
            0 <= k < left * right ==> #[trigger] f(k) == residuals(d)[k] * power(tau, k as nat),
    ensures
        nsc_rows(left as int, d, 0, n as int) == sum(f, 0, (n * left) as int),
    decreases n,
{
    if n == 0 {
        assert(0 * left == 0) by (nonlinear_arith);
    } else {
        let row = (n - 1) as nat;
        lemma_rows_are_polynomial(left, right, d, tau, f, row);
        assert(n * left == row * left + left) by (nonlinear_arith)
            requires
                row == n - 1,
        ;
        lemma_sum_split(f, 0, (row * left) as int, (n * left) as int);
        let w = power(tau, row * left);
        assert(d.e[left + row as int] == w);
        let g = |j: int| nsc_term(left as int, d, row as int, j);
        let zero = |j: int| 0int;
        let h = |j: int| w * g(j) + 0 * zero(j);
        lemma_sum_linear(g, zero, w, 0, 0, left as int);
        assert forall|j: int| 0 <= j < left implies #[trigger] h(j) == f(j + row * left) by {
            lemma_index(left as int, right as int, row as int, j);
            let k = row * left + j;
            let (e, r) = (power(tau, j as nat), residuals(d)[k]);
            assert(d.e[j] == e);
            lemma_power_add(tau, row * left, j as nat);
            assert(w * (e * r) == r * (w * e)) by (nonlinear_arith);
            assert(f(k) == r * power(tau, k as nat));
        }
        lemma_sum_shift(h, f, (row * left) as int, 0, left as int);
        let s = sum(zero, 0, left as int);
        assert(0 * s == 0) by (nonlinear_arith);
    }
}

/// The witness with the powers of `tau` for weights.
pub open spec fn under_powers(p: int, s: StructureModel, w: NscWitness, tau: int) -> NscWitness {
    NscWitness { e: mod_seq(p, power_table(tau, s.left as nat, s.right as nat)), ..w }
}

/// The claim of a pair under the powers of a challenge is the polynomial whose coefficients are
/// what the constraints are off by, at the challenge.
pub proof fn law_claim_is_polynomial(
    p: int,
    s: StructureModel,
    u: NscInstance,
    w: NscWitness,
    tau: int,
)
    requires
        p > 1,
        s.wf(),
    ensures
        s.claim(u, under_powers(p, s, w, tau)) % p == peval(
            residuals(claim_data(s.shape, u, w)),
            tau,
        ) % p,
{
    let (left, right) = (s.left as nat, s.right as nat);
    let d = claim_data(s.shape, u, under_powers(p, s, w, tau));
    let plain = NscData { e: power_table(tau, left, right), ..d };
    lemma_mod_seq_cong(p, plain.e);
    lemma_nsc_sum_cong(p, s.left, s.right, d, plain);
    let c = residuals(plain);
    let f = |k: int| c[k] * power(tau, k as nat);
    lemma_rows_are_polynomial(left, right, plain, tau, f, right);
    assert(right * left == left * right) by (nonlinear_arith);
    lemma_peval_sum(c, tau, f, c.len());
    assert(c.take(c.len() as int) =~= c);
    assert(residuals(claim_data(s.shape, u, w)) =~= c);
}

/// A claim of zero under the powers of as many challenges as there are constraints means that every
/// constraint holds: fewer challenges than constraints hide that one fails.
pub proof fn law_weights_catch(
    p: int,
    s: StructureModel,
    u: NscInstance,
    w: NscWitness,
    challenges: Seq<int>,
)
    requires
        p > 1,
        no_zero_divisors(p),
        s.wf(),
        u.u == 1,
        distinct(p, challenges),
        challenges.len() >= s.shape.num_cons,
        forall|i: int|
            0 <= i < challenges.len() ==> s.claim(u, under_powers(p, s, w, #[trigger] challenges[i]))
                % p == 0,
    ensures
        constraints_hold(p, s.shape, w.w, u.x),
{
    let d = claim_data(s.shape, u, w);
    let c = residuals(d);
    assert forall|i: int| 0 <= i < challenges.len() implies peval(c, #[trigger] challenges[i]) % p
        == 0 by {
        law_claim_is_polynomial(p, s, u, w, challenges[i]);
    }
    law_few_roots(p, c, challenges);
    assert forall|i: int| 0 <= i < s.shape.num_cons implies (#[trigger] d.az[i] * d.bz[i]
        - d.cz[i]) % p == 0 by {
        assert(c[i] % p == 0);
    }
}

} // verus!
