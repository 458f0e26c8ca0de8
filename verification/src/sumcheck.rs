//! Sum-check utilities: the evaluations of the round polynomials at 0, 2, 3, 4 and 5.
use vstd::prelude::*;
use crate::arith::{
    cong_seq, fadd, fdiv, fmul, group_is, invertible, is, lemma_cong_add, lemma_cong_lerp,
    lemma_cong_mul, lemma_cong_sub, lemma_fdiv_by_inverse, lemma_index, lemma_mod,
    lemma_sum_cong, lemma_sum_split, lerp, lerp_seq, sum,
};
use crate::errors::NovaError;
use crate::field::{lemma_seed, lemma_seed_const, vals, Field};
use crate::power_check_relation::{pc_g, pc_g_at, pc_residual, PowerCheckStructure};
use crate::traits::Engine;
use crate::univariate::{peval, UniPoly};

verus! {

/// Accumulator of evaluations at the points 0, 2, 3, 4 and 5.
pub type EvalAcc<F> = (F, F, F, F, F);

/// The accumulator holds the values of `g` at 0, 2, 3, 4 and 5, modulo the characteristic.
pub open spec fn acc_is<F: Field>(acc: EvalAcc<F>, g: spec_fn(int) -> int) -> bool {
    let p = F::modulus();
    &&& is(p, acc.0.val(), g(0))
    &&& is(p, acc.1.val(), g(2))
    &&& is(p, acc.2.val(), g(3))
    &&& is(p, acc.3.val(), g(4))
    &&& is(p, acc.4.val(), g(5))
}

/// The multilinear equality polynomial in one variable: `(1 - rho)(1 - t) + rho t`.
pub open spec fn eq_poly(rho: int, t: int) -> int {
    (1 - rho) * (1 - t) + rho * t
}

/// The data of a nested sum-check claim: the weight table and the three matrix-vector products.
pub struct NscData {
    pub e: Seq<int>,
    pub az: Seq<int>,
    pub bz: Seq<int>,
    pub cz: Seq<int>,
}

/// The data on the line through `d1` at 0 and `d2` at 1.
pub open spec fn lerp_nsc(d1: NscData, d2: NscData, t: int) -> NscData {
    NscData {
        e: lerp_seq(d1.e, d2.e, t),
        az: lerp_seq(d1.az, d2.az, t),
        bz: lerp_seq(d1.bz, d2.bz, t),
        cz: lerp_seq(d1.cz, d2.cz, t),
    }
}

/// The term of column `j` in row `i`: `e[j] (az bz - cz)`.
pub open spec fn nsc_term(left: int, d: NscData, i: int, j: int) -> int {
    d.e[j] * (d.az[i * left + j] * d.bz[i * left + j] - d.cz[i * left + j])
}

/// The weighted sum over the columns of row `i`, up to column `n`.
pub open spec fn nsc_row(left: int, d: NscData, i: int, n: int) -> int {
    sum(|j: int| nsc_term(left, d, i, j), 0, n)
}

/// The weighted sum over the rows in `[lo, hi)`.
pub open spec fn nsc_rows(left: int, d: NscData, lo: int, hi: int) -> int {
    sum(|i: int| d.e[left + i] * nsc_row(left, d, i, left), lo, hi)
}

/// The nested sum `sum_i e[left + i] sum_j e[j] (az bz - cz)[i left + j]`.
pub open spec fn nsc_sum(left: int, right: int, d: NscData) -> int {
    nsc_rows(left, d, 0, right)
}

/// The data of a power-check claim: the weights, the table and the scalar.
pub struct PcData {
    pub wl: Seq<int>,
    pub wr: Seq<int>,
    pub e1: Seq<int>,
    pub e2: Seq<int>,
    pub tau: int,
}

/// The power-check data that a pair of weights, a table and a scalar hold.
pub open spec fn pc_data<F: Field>(
    weights: (&[F], &[F]),
    table: (&[F], &[F]),
    tau: F,
) -> PcData {
    PcData {
        wl: vals(weights.0@),
        wr: vals(weights.1@),
        e1: vals(table.0@),
        e2: vals(table.1@),
        tau: tau.val(),
    }
}

/// The data on the line through `d1` at 0 and `d2` at 1.
pub open spec fn lerp_pc(d1: PcData, d2: PcData, t: int) -> PcData {
    PcData {
        wl: lerp_seq(d1.wl, d2.wl, t),
        wr: lerp_seq(d1.wr, d2.wr, t),
        e1: lerp_seq(d1.e1, d2.e1, t),
        e2: lerp_seq(d1.e2, d2.e2, t),
        tau: lerp(d1.tau, d2.tau, t),
    }
}

/// The term of column `j` in row `i`: the weighted residual, and nothing past the last constraint.
pub open spec fn pc_term(left: int, num_cons: int, d: PcData, i: int, j: int) -> int {
    if i * left + j < num_cons {
        d.wl[j] * pc_residual(i * left + j, left, d.e1, d.e2, d.tau)
    } else {
        0
    }
}

/// The weighted sum over the columns of row `i`, up to column `n`.
pub open spec fn pc_row(left: int, num_cons: int, d: PcData, i: int, n: int) -> int {
    sum(|j: int| pc_term(left, num_cons, d, i, j), 0, n)
}

/// The weighted sum over the rows in `[lo, hi)`.
pub open spec fn pc_rows(left: int, num_cons: int, d: PcData, lo: int, hi: int) -> int {
    sum(|i: int| d.wr[i] * pc_row(left, num_cons, d, i, left), lo, hi)
}

/// The weighted sum of the residuals over the `left x right` domain.
pub open spec fn pc_sum(left: int, right: int, num_cons: int, d: PcData) -> int {
    pc_rows(left, num_cons, d, 0, right)
}

/// The slices hold data for a `left x right` domain.
pub open spec fn nsc_shape(left: int, right: int, d: NscData) -> bool {
    &&& d.e.len() == left + right
    &&& d.az.len() == left * right
    &&& d.bz.len() == left * right
    &&& d.cz.len() == left * right
}

/// The slices hold weights and a table for a `left x right` domain.
pub open spec fn pc_shape(left: int, right: int, d: PcData) -> bool {
    &&& d.wl.len() == left
    &&& d.wr.len() == right
    &&& d.e1.len() == left
    &&& d.e2.len() == right
}

/// `rayon::join` runs both operations, in parallel where it can, and returns both results.
pub assume_specification<A, B, RA, RB>[ rayon::join::<A, B, RA, RB> ](oper_a: A, oper_b: B) -> (r: (
    RA,
    RB,
)) where A: FnOnce() -> RA + Send, B: FnOnce() -> RB + Send, RA: Send, RB: Send
    requires
        oper_a.requires(()),
        oper_b.requires(()),
    ensures
        oper_a.ensures((), r.0),
        oper_b.ensures((), r.1),
;

/// The accumulator of an empty sum.
pub fn zero_acc<F: Field>() -> (r: EvalAcc<F>)
    ensures
        r.0.val() == 0,
        r.1.val() == 0,
        r.2.val() == 0,
        r.3.val() == 0,
        r.4.val() == 0,
{
    (F::zero(), F::zero(), F::zero(), F::zero(), F::zero())
}

/// The sum of two accumulators.
pub fn add_acc<F: Field>(a: EvalAcc<F>, b: EvalAcc<F>) -> (r: EvalAcc<F>)
    ensures
        r.0.val() == fadd(F::modulus(), a.0.val(), b.0.val()),
        r.1.val() == fadd(F::modulus(), a.1.val(), b.1.val()),
        r.2.val() == fadd(F::modulus(), a.2.val(), b.2.val()),
        r.3.val() == fadd(F::modulus(), a.3.val(), b.3.val()),
        r.4.val() == fadd(F::modulus(), a.4.val(), b.4.val()),
{
    (a.0.add(b.0), a.1.add(b.1), a.2.add(b.2), a.3.add(b.3), a.4.add(b.4))
}

/// The combiner of the constraint system: `e (az bz - cz)`.
pub fn comb_r1cs<F: Field>(e: F, az: F, bz: F, cz: F) -> (r: F)
    ensures
        r.val() == (e.val() * (az.val() * bz.val() - cz.val())) % F::modulus(),
{
    proof {
        broadcast use group_is;

        lemma_seed(e);
        lemma_seed(az);
        lemma_seed(bz);
        lemma_seed(cz);
    }
    e.mul(az.mul(bz).sub(cz))
}

/// The combiner of the power check: `w (g1 - g2 g3)`.
pub fn comb_powercheck<F: Field>(w: F, g1: F, g2: F, g3: F) -> (r: F)
    ensures
        r.val() == (w.val() * (g1.val() - g2.val() * g3.val())) % F::modulus(),
{
    proof {
        broadcast use group_is;

        lemma_seed(w);
        lemma_seed(g1);
        lemma_seed(g2);
        lemma_seed(g3);
    }
    w.mul(g1.sub(g2.mul(g3)))
}

/// `out` is `acc` plus what the combiner returns on the point `t` of the line from `low` to `high`.
pub open spec fn contributes<F: Field, Comb: Fn(F, F, F, F) -> F>(
    comb: Comb,
    low: (F, F, F, F),
    high: (F, F, F, F),
    t: int,
    acc: F,
    out: F,
) -> bool {
    let p = F::modulus();
    exists|c: (F, F, F, F), e: F| #[trigger]
        comb.ensures(c, e) && is(p, c.0.val(), lerp(low.0.val(), high.0.val(), t)) && is(
            p,
            c.1.val(),
            lerp(low.1.val(), high.1.val(), t),
        ) && is(p, c.2.val(), lerp(low.2.val(), high.2.val(), t)) && is(
            p,
            c.3.val(),
            lerp(low.3.val(), high.3.val(), t),
        ) && out.val() == fadd(p, acc.val(), e.val())
}

/// One value of the line `low + t delta` at the points 2, 3, 4 and 5, step by step.
fn points<F: Field>(low: F, high: F) -> (r: (F, F, F, F))
    ensures
        is(F::modulus(), r.0.val(), lerp(low.val(), high.val(), 2)),
        is(F::modulus(), r.1.val(), lerp(low.val(), high.val(), 3)),
        is(F::modulus(), r.2.val(), lerp(low.val(), high.val(), 4)),
        is(F::modulus(), r.3.val(), lerp(low.val(), high.val(), 5)),
{
    let d = high.sub(low);
    let c2 = low.add(d).add(d);
    let c3 = c2.add(d);
    let c4 = c3.add(d);
    let c5 = c4.add(d);
    proof {
        broadcast use group_is;

        lemma_seed(low);
        lemma_seed(high);
    }
    (c2, c3, c4, c5)
}

/// Adds to the accumulator what the combiner returns at the points 0, 2, 3, 4 and 5 of the line
/// that goes through the low values at 0 and the high values at 1.
pub fn accum_contribution<F: Field, Comb>(
    acc: EvalAcc<F>,
    comb_func: Comb,
    c1_low: F,
    c2_low: F,
    c3_low: F,
    c4_low: F,
    c1_high: F,
    c2_high: F,
    c3_high: F,
    c4_high: F,
) -> (r: EvalAcc<F>) where Comb: Fn(F, F, F, F) -> F
    requires
        forall|c: (F, F, F, F)| #[trigger] comb_func.requires(c),
    ensures
        ({
            let low = (c1_low, c2_low, c3_low, c4_low);
            let high = (c1_high, c2_high, c3_high, c4_high);
            &&& contributes(comb_func, low, high, 0, acc.0, r.0)
            &&& contributes(comb_func, low, high, 2, acc.1, r.1)
            &&& contributes(comb_func, low, high, 3, acc.2, r.2)
            &&& contributes(comb_func, low, high, 4, acc.3, r.3)
            &&& contributes(comb_func, low, high, 5, acc.4, r.4)
        }),
{
    let p1 = points(c1_low, c1_high);
    let p2 = points(c2_low, c2_high);
    let p3 = points(c3_low, c3_high);
    let p4 = points(c4_low, c4_high);
    let e0 = comb_func(c1_low, c2_low, c3_low, c4_low);
    let e2 = comb_func(p1.0, p2.0, p3.0, p4.0);
    let e3 = comb_func(p1.1, p2.1, p3.1, p4.1);
    let e4 = comb_func(p1.2, p2.2, p3.2, p4.2);
    let e5 = comb_func(p1.3, p2.3, p3.3, p4.3);
    proof {
        lemma_seed(c1_low);
        lemma_seed(c2_low);
        lemma_seed(c3_low);
        lemma_seed(c4_low);
        assert(comb_func.ensures((c1_low, c2_low, c3_low, c4_low), e0));
        assert(comb_func.ensures((p1.0, p2.0, p3.0, p4.0), e2));
        assert(comb_func.ensures((p1.1, p2.1, p3.1, p4.1), e3));
        assert(comb_func.ensures((p1.2, p2.2, p3.2, p4.2), e4));
        assert(comb_func.ensures((p1.3, p2.3, p3.3, p4.3), e5));
    }
    (acc.0.add(e0), acc.1.add(e2), acc.2.add(e3), acc.3.add(e4), acc.4.add(e5))
}

/// Scales the accumulator by the values of the equality polynomial at its points:
/// `1 - rho`, `3 rho - 1`, `5 rho - 2`, `7 rho - 3` and `9 rho - 4`.
pub fn apply_rho_scaling<F: Field>(acc: EvalAcc<F>, rho: &F) -> (r: EvalAcc<F>)
    ensures
        r.0.val() == (acc.0.val() * (1 - rho.val())) % F::modulus(),
        r.1.val() == (acc.1.val() * (3 * rho.val() - 1)) % F::modulus(),
        r.2.val() == (acc.2.val() * (5 * rho.val() - 2)) % F::modulus(),
        r.3.val() == (acc.3.val() * (7 * rho.val() - 3)) % F::modulus(),
        r.4.val() == (acc.4.val() * (9 * rho.val() - 4)) % F::modulus(),
{
    proof {
        broadcast use group_is;

        lemma_seed(*rho);
        lemma_seed(acc.0);
        lemma_seed(acc.1);
        lemma_seed(acc.2);
        lemma_seed(acc.3);
        lemma_seed(acc.4);
        lemma_seed_const::<F>(1);
        lemma_seed_const::<F>(2);
        lemma_seed_const::<F>(3);
        lemma_seed_const::<F>(4);
        lemma_seed_const::<F>(5);
        lemma_seed_const::<F>(7);
        lemma_seed_const::<F>(9);
    }
    let one_minus_rho = F::one().sub(*rho);
    let three_rho_minus_one = F::from_u64(3).mul(*rho).sub(F::one());
    let five_rho_minus_two = F::from_u64(5).mul(*rho).sub(F::from_u64(2));
    let seven_rho_minus_three = F::from_u64(7).mul(*rho).sub(F::from_u64(3));
    let nine_rho_minus_four = F::from_u64(9).mul(*rho).sub(F::from_u64(4));
    (
        acc.0.mul(one_minus_rho),
        acc.1.mul(three_rho_minus_one),
        acc.2.mul(five_rho_minus_two),
        acc.3.mul(seven_rho_minus_three),
        acc.4.mul(nine_rho_minus_four),
    )
}

/// What one contribution adds, when the combiner computes `c0 (c1 c2 - c3)`.
proof fn lemma_contributes_r1cs<F: Field>(
    low: (F, F, F, F),
    high: (F, F, F, F),
    t: int,
    acc: F,
    out: F,
    s: int,
)
    requires
        contributes(comb_r1cs::<F>, low, high, t, acc, out),
        is(F::modulus(), acc.val(), s),
    ensures
        is(
            F::modulus(),
            out.val(),
            s + lerp(low.0.val(), high.0.val(), t) * (lerp(low.1.val(), high.1.val(), t) * lerp(
                low.2.val(),
                high.2.val(),
                t,
            ) - lerp(low.3.val(), high.3.val(), t)),
        ),
{
    let p = F::modulus();
    F::lemma_modulus();
    let (c, e) = choose|c: (F, F, F, F), e: F| #[trigger]
        call_ensures(comb_r1cs::<F>, c, e) && is(
            p,
            c.0.val(),
            lerp(low.0.val(), high.0.val(), t),
        ) && is(p, c.1.val(), lerp(low.1.val(), high.1.val(), t)) && is(
            p,
            c.2.val(),
            lerp(low.2.val(), high.2.val(), t),
        ) && is(p, c.3.val(), lerp(low.3.val(), high.3.val(), t)) && out.val() == fadd(
            p,
            acc.val(),
            e.val(),
        );
    lemma_mod(p, lerp(low.0.val(), high.0.val(), t));
    lemma_mod(p, lerp(low.1.val(), high.1.val(), t));
    lemma_mod(p, lerp(low.2.val(), high.2.val(), t));
    lemma_mod(p, lerp(low.3.val(), high.3.val(), t));
    let (l0, l1, l2, l3) = (
        lerp(low.0.val(), high.0.val(), t),
        lerp(low.1.val(), high.1.val(), t),
        lerp(low.2.val(), high.2.val(), t),
        lerp(low.3.val(), high.3.val(), t),
    );
    lemma_cong_mul(p, c.1.val(), c.2.val(), l1, l2);
    lemma_cong_sub(p, c.1.val() * c.2.val(), c.3.val(), l1 * l2, l3);
    lemma_cong_mul(p, c.0.val(), c.1.val() * c.2.val() - c.3.val(), l0, l1 * l2 - l3);
    assert(is(p, e.val(), l0 * (l1 * l2 - l3)));
    broadcast use group_is;

    assert(is(p, fadd(p, acc.val(), e.val()), s + l0 * (l1 * l2 - l3)));
}

/// The evaluations of the inner sum over the columns of row `i`.
fn r1cs_inner<F: Field>(
    i: usize,
    left: usize,
    e1: &[F],
    Az1: &[F],
    Bz1: &[F],
    Cz1: &[F],
    e2: &[F],
    Az2: &[F],
    Bz2: &[F],
    Cz2: &[F],
    Ghost(right): Ghost<int>,
    Ghost(d1): Ghost<NscData>,
    Ghost(d2): Ghost<NscData>,
) -> (r: EvalAcc<F>)
    requires
        i < right,
        left * right <= usize::MAX,
        d1 == (NscData { e: vals(e1@), az: vals(Az1@), bz: vals(Bz1@), cz: vals(Cz1@) }),
        d2 == (NscData { e: vals(e2@), az: vals(Az2@), bz: vals(Bz2@), cz: vals(Cz2@) }),
        nsc_shape(left as int, right, d1),
        nsc_shape(left as int, right, d2),
    ensures
        acc_is(r, |t: int| nsc_row(left as int, lerp_nsc(d1, d2, t), i as int, left as int)),
{
    let mut acc = zero_acc::<F>();
    proof {
        lemma_seed_const::<F>(0);
    }
    let mut j: usize = 0;
    while j < left
        invariant
            j <= left,
            i < right,
            left * right <= usize::MAX,
            d1 == (NscData { e: vals(e1@), az: vals(Az1@), bz: vals(Bz1@), cz: vals(Cz1@) }),
            d2 == (NscData { e: vals(e2@), az: vals(Az2@), bz: vals(Bz2@), cz: vals(Cz2@) }),
            nsc_shape(left as int, right, d1),
            nsc_shape(left as int, right, d2),
            acc_is(acc, |t: int| nsc_row(left as int, lerp_nsc(d1, d2, t), i as int, j as int)),
        decreases left - j,
    {
        proof {
            lemma_index(left as int, right, i as int, j as int);
            assert(0 <= i * left) by (nonlinear_arith);
        }
        let k: usize = i * left + j;
        let low = (e1[j], Az1[k], Bz1[k], Cz1[k]);
        let high = (e2[j], Az2[k], Bz2[k], Cz2[k]);
        let next = accum_contribution(
            acc,
            comb_r1cs,
            low.0,
            low.1,
            low.2,
            low.3,
            high.0,
            high.1,
            high.2,
            high.3,
        );
        proof {
            let s = |t: int| nsc_row(left as int, lerp_nsc(d1, d2, t), i as int, j as int);
            lemma_contributes_r1cs(low, high, 0, acc.0, next.0, s(0));
            lemma_contributes_r1cs(low, high, 2, acc.1, next.1, s(2));
            lemma_contributes_r1cs(low, high, 3, acc.2, next.2, s(3));
            lemma_contributes_r1cs(low, high, 4, acc.3, next.3, s(4));
            lemma_contributes_r1cs(low, high, 5, acc.4, next.4, s(5));
        }
        acc = next;
        j += 1;
    }
    acc
}

/// `x` times the accumulator, where `x` moves on the line from `f1` to `f2`.
fn scale_acc<F: Field>(f1: F, f2: F, acc: EvalAcc<F>, Ghost(g): Ghost<spec_fn(int) -> int>) -> (r:
    EvalAcc<F>)
    requires
        acc_is(acc, g),
    ensures
        acc_is(r, |t: int| lerp(f1.val(), f2.val(), t) * g(t)),
{
    let f = points(f1, f2);
    proof {
        broadcast use group_is;

        lemma_seed(f1);
    }
    (f1.mul(acc.0), f.0.mul(acc.1), f.1.mul(acc.2), f.2.mul(acc.3), f.3.mul(acc.4))
}

/// The accumulator holds the evaluations of the sum over the rows in `[lo, hi)`.
spec fn nsc_rows_acc<F: Field>(
    acc: EvalAcc<F>,
    left: int,
    d1: NscData,
    d2: NscData,
    lo: int,
    hi: int,
) -> bool {
    acc_is(acc, |t: int| nsc_rows(left, lerp_nsc(d1, d2, t), lo, hi))
}

/// The evaluations of the sum over the rows in `[lo, hi)`, halved until single rows are left.
fn r1cs_rows<F: Field>(
    lo: usize,
    hi: usize,
    left: usize,
    e1: &[F],
    Az1: &[F],
    Bz1: &[F],
    Cz1: &[F],
    e2: &[F],
    Az2: &[F],
    Bz2: &[F],
    Cz2: &[F],
    Ghost(right): Ghost<int>,
    Ghost(d1): Ghost<NscData>,
    Ghost(d2): Ghost<NscData>,
) -> (r: EvalAcc<F>)
    requires
        lo <= hi <= right,
        left + right <= usize::MAX,
        left * right <= usize::MAX,
        d1 == (NscData { e: vals(e1@), az: vals(Az1@), bz: vals(Bz1@), cz: vals(Cz1@) }),
        d2 == (NscData { e: vals(e2@), az: vals(Az2@), bz: vals(Bz2@), cz: vals(Cz2@) }),
        nsc_shape(left as int, right, d1),
        nsc_shape(left as int, right, d2),
    ensures
        nsc_rows_acc(r, left as int, d1, d2, lo as int, hi as int),
    decreases hi - lo,
{
    if lo == hi {
        proof {
            lemma_seed_const::<F>(0);
        }
        return zero_acc::<F>();
    }
    if lo + 1 == hi {
        let ghost g = |t: int|
            nsc_row(left as int, lerp_nsc(d1, d2, t), lo as int, left as int);
        let inner = r1cs_inner(
            lo,
            left,
            e1,
            Az1,
            Bz1,
            Cz1,
            e2,
            Az2,
            Bz2,
            Cz2,
            Ghost(right),
            Ghost(d1),
            Ghost(d2),
        );
        let r = scale_acc(e1[left + lo], e2[left + lo], inner, Ghost(g));
        proof {
            reveal_with_fuel(sum, 2);
        }
        return r;
    }
    let mid: usize = lo + (hi - lo) / 2;
    let (a, b) = rayon::join(
        || -> (r: EvalAcc<F>)
            ensures
                nsc_rows_acc(r, left as int, d1, d2, lo as int, mid as int)
            {
                r1cs_rows(
                    lo,
                    mid,
                    left,
                    e1,
                    Az1,
                    Bz1,
                    Cz1,
                    e2,
                    Az2,
                    Bz2,
                    Cz2,
                    Ghost(right),
                    Ghost(d1),
                    Ghost(d2),
                )
            },
        || -> (r: EvalAcc<F>)
            ensures
                nsc_rows_acc(r, left as int, d1, d2, mid as int, hi as int)
            {
                r1cs_rows(
                    mid,
                    hi,
                    left,
                    e1,
                    Az1,
                    Bz1,
                    Cz1,
                    e2,
                    Az2,
                    Bz2,
                    Cz2,
                    Ghost(right),
                    Ghost(d1),
                    Ghost(d2),
                )
            },
    );
    proof {
        broadcast use group_is;

        F::lemma_modulus();
        assert forall|t: int|
            #![trigger lerp_nsc(d1, d2, t)]
            nsc_rows(left as int, lerp_nsc(d1, d2, t), lo as int, hi as int) == nsc_rows(
                left as int,
                lerp_nsc(d1, d2, t),
                lo as int,
                mid as int,
            ) + nsc_rows(left as int, lerp_nsc(d1, d2, t), mid as int, hi as int) by {
            let d = lerp_nsc(d1, d2, t);
            lemma_sum_split(
                |i: int| d.e[left + i] * nsc_row(left as int, d, i, left as int),
                lo as int,
                mid as int,
                hi as int,
            );
        }
    }
    add_acc(a, b)
}

/// The values of the equality polynomial at the points of an accumulator.
proof fn lemma_eq_points(rho: int)
    ensures
        eq_poly(rho, 0) == 1 - rho,
        eq_poly(rho, 2) == 3 * rho - 1,
        eq_poly(rho, 3) == 5 * rho - 2,
        eq_poly(rho, 4) == 7 * rho - 3,
        eq_poly(rho, 5) == 9 * rho - 4,
{
    assert((1 - rho) * (1 - 0) + rho * 0 == 1 - rho) by (nonlinear_arith);
    assert((1 - rho) * (1 - 2) + rho * 2 == 3 * rho - 1) by (nonlinear_arith);
    assert((1 - rho) * (1 - 3) + rho * 3 == 5 * rho - 2) by (nonlinear_arith);
    assert((1 - rho) * (1 - 4) + rho * 4 == 7 * rho - 3) by (nonlinear_arith);
    assert((1 - rho) * (1 - 5) + rho * 5 == 9 * rho - 4) by (nonlinear_arith);
}

/// Scaling turns the values of `g` into those of `eq(rho, t) g(t)`.
proof fn lemma_scaled<F: Field>(
    acc: EvalAcc<F>,
    rho: F,
    r: EvalAcc<F>,
    g: spec_fn(int) -> int,
)
    requires
        acc_is(acc, g),
        r.0.val() == (acc.0.val() * (1 - rho.val())) % F::modulus(),
        r.1.val() == (acc.1.val() * (3 * rho.val() - 1)) % F::modulus(),
        r.2.val() == (acc.2.val() * (5 * rho.val() - 2)) % F::modulus(),
        r.3.val() == (acc.3.val() * (7 * rho.val() - 3)) % F::modulus(),
        r.4.val() == (acc.4.val() * (9 * rho.val() - 4)) % F::modulus(),
    ensures
        acc_is(r, |t: int| eq_poly(rho.val(), t) * g(t)),
{
    let p = F::modulus();
    F::lemma_modulus();
    lemma_eq_points(rho.val());
    let h = |t: int| eq_poly(rho.val(), t) * g(t);
    let step = |a: int, t: int| (a * eq_poly(rho.val(), t)) % p == h(t) % p;
    assert forall|a: int, t: int| is(p, a, g(t)) implies #[trigger] step(a, t) by {
        lemma_mod(p, g(t));
        lemma_cong_mul(p, a, eq_poly(rho.val(), t), g(t), eq_poly(rho.val(), t));
        let e = eq_poly(rho.val(), t);
        let u = g(t);
        assert(u * e == e * u) by (nonlinear_arith);
    }
    assert(step(acc.0.val(), 0));
    assert(step(acc.1.val(), 2));
    assert(step(acc.2.val(), 3));
    assert(step(acc.3.val(), 4));
    assert(step(acc.4.val(), 5));
}

/// The evaluations at 0, 2, 3, 4 and 5 of the round polynomial
/// `eq(rho, t) sum_i f(t)[i] sum_j e(t)[j] (Az(t) Bz(t) - Cz(t))`, in which every vector moves on
/// the line from the first to the second instance. The weight table is `[e || f]`, split at `left`.
pub fn prove_helper<E: Engine>(
    rho: &E::Scalar,
    dims: (usize, usize),
    e1: &[E::Scalar],
    Az1: &[E::Scalar],
    Bz1: &[E::Scalar],
    Cz1: &[E::Scalar],
    e2: &[E::Scalar],
    Az2: &[E::Scalar],
    Bz2: &[E::Scalar],
    Cz2: &[E::Scalar],
) -> (r: EvalAcc<E::Scalar>)
    requires
        nsc_shape(
            dims.0 as int,
            dims.1 as int,
            (NscData { e: vals(e1@), az: vals(Az1@), bz: vals(Bz1@), cz: vals(Cz1@) }),
        ),
        nsc_shape(
            dims.0 as int,
            dims.1 as int,
            (NscData { e: vals(e2@), az: vals(Az2@), bz: vals(Bz2@), cz: vals(Cz2@) }),
        ),
    ensures
        ({
            let d1 = NscData { e: vals(e1@), az: vals(Az1@), bz: vals(Bz1@), cz: vals(Cz1@) };
            let d2 = NscData { e: vals(e2@), az: vals(Az2@), bz: vals(Bz2@), cz: vals(Cz2@) };
            acc_is(
                r,
                |t: int|
                    eq_poly(rho.val(), t) * nsc_sum(
                        dims.0 as int,
                        dims.1 as int,
                        lerp_nsc(d1, d2, t),
                    ),
            )
        }),
{
    let (left, right) = dims;
    let ghost d1 = NscData { e: vals(e1@), az: vals(Az1@), bz: vals(Bz1@), cz: vals(Cz1@) };
    let ghost d2 = NscData { e: vals(e2@), az: vals(Az2@), bz: vals(Bz2@), cz: vals(Cz2@) };
    assert(e1.len() == e1@.len() && Az1.len() == Az1@.len());
    let acc = r1cs_rows(
        0,
        right,
        left,
        e1,
        Az1,
        Bz1,
        Cz1,
        e2,
        Az2,
        Bz2,
        Cz2,
        Ghost(right as int),
        Ghost(d1),
        Ghost(d2),
    );
    let r = apply_rho_scaling(acc, rho);
    proof {
        let g = |t: int| nsc_rows(left as int, lerp_nsc(d1, d2, t), 0, right as int);
        lemma_scaled(acc, *rho, r, g);
    }
    r
}

/// The selected values of an interpolated table are the interpolated selected values.
pub proof fn lemma_pc_g_lerp(
    i: int,
    left: int,
    right: int,
    a1: Seq<int>,
    a2: Seq<int>,
    ta: int,
    b1: Seq<int>,
    b2: Seq<int>,
    tb: int,
    t: int,
)
    requires
        a1.len() == left,
        b1.len() == left,
        a2.len() == right,
        b2.len() == right,
        0 < left,
        0 <= i < left + right,
    ensures
        ({
            let g = pc_g(i, left, lerp_seq(a1, b1, t), lerp_seq(a2, b2, t), lerp(ta, tb, t));
            let ga = pc_g(i, left, a1, a2, ta);
            let gb = pc_g(i, left, b1, b2, tb);
            g == (lerp(ga.0, gb.0, t), lerp(ga.1, gb.1, t), lerp(ga.2, gb.2, t))
        }),
{
    assert(lerp(1, 1, t) == 1) by {
        assert(t * 0 == 0) by (nonlinear_arith);
    }
}

/// What one contribution adds, when the combiner computes `c0 (c1 - c2 c3)`.
proof fn lemma_contributes_pc<F: Field>(
    low: (F, F, F, F),
    high: (F, F, F, F),
    t: int,
    acc: F,
    out: F,
    s: int,
)
    requires
        contributes(comb_powercheck::<F>, low, high, t, acc, out),
        is(F::modulus(), acc.val(), s),
    ensures
        is(
            F::modulus(),
            out.val(),
            s + lerp(low.0.val(), high.0.val(), t) * (lerp(low.1.val(), high.1.val(), t) - lerp(
                low.2.val(),
                high.2.val(),
                t,
            ) * lerp(low.3.val(), high.3.val(), t)),
        ),
{
    let p = F::modulus();
    F::lemma_modulus();
    let (l0, l1, l2, l3) = (
        lerp(low.0.val(), high.0.val(), t),
        lerp(low.1.val(), high.1.val(), t),
        lerp(low.2.val(), high.2.val(), t),
        lerp(low.3.val(), high.3.val(), t),
    );
    let (c, e) = choose|c: (F, F, F, F), e: F| #[trigger]
        call_ensures(comb_powercheck::<F>, c, e) && is(p, c.0.val(), l0) && is(p, c.1.val(), l1)
            && is(p, c.2.val(), l2) && is(p, c.3.val(), l3) && out.val() == fadd(
            p,
            acc.val(),
            e.val(),
        );
    lemma_mod(p, l0);
    lemma_mod(p, l1);
    lemma_mod(p, l2);
    lemma_mod(p, l3);
    lemma_cong_mul(p, c.2.val(), c.3.val(), l2, l3);
    lemma_cong_sub(p, c.1.val(), c.2.val() * c.3.val(), l1, l2 * l3);
    lemma_cong_mul(p, c.0.val(), c.1.val() - c.2.val() * c.3.val(), l0, l1 - l2 * l3);
    assert(is(p, e.val(), l0 * (l1 - l2 * l3)));
    broadcast use group_is;

    assert(is(p, fadd(p, acc.val(), e.val()), s + l0 * (l1 - l2 * l3)));
}

/// The weights, the table and the scalar of one power-check instance.
struct PcSlices<'a, F> {
    wl: &'a [F],
    wr: &'a [F],
    e1: &'a [F],
    e2: &'a [F],
    tau: F,
}

impl<'a, F: Field> PcSlices<'a, F> {
    spec fn data(&self) -> PcData {
        PcData {
            wl: vals(self.wl@),
            wr: vals(self.wr@),
            e1: vals(self.e1@),
            e2: vals(self.e2@),
            tau: self.tau.val(),
        }
    }
}

/// The accumulator holds the evaluations of the power-check sum over the rows in `[lo, hi)`.
spec fn pc_rows_acc<F: Field>(
    acc: EvalAcc<F>,
    left: int,
    num_cons: int,
    d1: PcData,
    d2: PcData,
    lo: int,
    hi: int,
) -> bool {
    acc_is(acc, |t: int| pc_rows(left, num_cons, lerp_pc(d1, d2, t), lo, hi))
}

/// The evaluations of the inner power-check sum over the columns of row `i`.
fn pc_inner<F: Field>(
    i: usize,
    S_pc: &PowerCheckStructure,
    a: &PcSlices<F>,
    b: &PcSlices<F>,
) -> (r: EvalAcc<F>)
    requires
        i < S_pc.right,
        S_pc.num_cons == S_pc.left + S_pc.right,
        S_pc.left * S_pc.right <= usize::MAX,
        pc_shape(S_pc.left as int, S_pc.right as int, a.data()),
        pc_shape(S_pc.left as int, S_pc.right as int, b.data()),
    ensures
        acc_is(
            r,
            |t: int|
                pc_row(
                    S_pc.left as int,
                    S_pc.num_cons as int,
                    lerp_pc(a.data(), b.data(), t),
                    i as int,
                    S_pc.left as int,
                ),
        ),
{
    let left = S_pc.left;
    let num_cons = S_pc.num_cons;
    let mut acc = zero_acc::<F>();
    proof {
        lemma_seed_const::<F>(0);
    }
    let mut j: usize = 0;
    while j < left
        invariant
            j <= left,
            left == S_pc.left,
            num_cons == S_pc.num_cons,
            i < S_pc.right,
            S_pc.num_cons == S_pc.left + S_pc.right,
            S_pc.left * S_pc.right <= usize::MAX,
            pc_shape(S_pc.left as int, S_pc.right as int, a.data()),
            pc_shape(S_pc.left as int, S_pc.right as int, b.data()),
            acc_is(
                acc,
                |t: int|
                    pc_row(
                        left as int,
                        num_cons as int,
                        lerp_pc(a.data(), b.data(), t),
                        i as int,
                        j as int,
                    ),
            ),
        decreases left - j,
    {
        proof {
            lemma_index(left as int, S_pc.right as int, i as int, j as int);
            assert(0 <= i * left) by (nonlinear_arith);
        }
        let k: usize = i * left + j;
        if k < num_cons {
            let ga = pc_g_at(k, left, a.e1, a.e2, a.tau);
            let gb = pc_g_at(k, left, b.e1, b.e2, b.tau);
            let low = (a.wl[j], ga.0, ga.1, ga.2);
            let high = (b.wl[j], gb.0, gb.1, gb.2);
            let next = accum_contribution(
                acc,
                comb_powercheck,
                low.0,
                low.1,
                low.2,
                low.3,
                high.0,
                high.1,
                high.2,
                high.3,
            );
            proof {
                let d = |t: int| lerp_pc(a.data(), b.data(), t);
                let s = |t: int|
                    pc_row(left as int, num_cons as int, d(t), i as int, j as int);
                assert forall|t: int| #[trigger]
                    pc_term(left as int, num_cons as int, d(t), i as int, j as int) == lerp(
                        low.0.val(),
                        high.0.val(),
                        t,
                    ) * (lerp(low.1.val(), high.1.val(), t) - lerp(low.2.val(), high.2.val(), t)
                        * lerp(low.3.val(), high.3.val(), t)) by {
                    lemma_pc_g_lerp(
                        k as int,
                        left as int,
                        S_pc.right as int,
                        a.data().e1,
                        a.data().e2,
                        a.data().tau,
                        b.data().e1,
                        b.data().e2,
                        b.data().tau,
                        t,
                    );
                }
                lemma_contributes_pc(low, high, 0, acc.0, next.0, s(0));
                lemma_contributes_pc(low, high, 2, acc.1, next.1, s(2));
                lemma_contributes_pc(low, high, 3, acc.2, next.2, s(3));
                lemma_contributes_pc(low, high, 4, acc.3, next.3, s(4));
                lemma_contributes_pc(low, high, 5, acc.4, next.4, s(5));
                assert(pc_term(left as int, num_cons as int, d(0), i as int, j as int) == pc_term(
                    left as int,
                    num_cons as int,
                    lerp_pc(a.data(), b.data(), 0),
                    i as int,
                    j as int,
                ));
                assert(pc_term(left as int, num_cons as int, d(2), i as int, j as int) == pc_term(
                    left as int,
                    num_cons as int,
                    lerp_pc(a.data(), b.data(), 2),
                    i as int,
                    j as int,
                ));
                assert(pc_term(left as int, num_cons as int, d(3), i as int, j as int) == pc_term(
                    left as int,
                    num_cons as int,
                    lerp_pc(a.data(), b.data(), 3),
                    i as int,
                    j as int,
                ));
                assert(pc_term(left as int, num_cons as int, d(4), i as int, j as int) == pc_term(
                    left as int,
                    num_cons as int,
                    lerp_pc(a.data(), b.data(), 4),
                    i as int,
                    j as int,
                ));
                assert(pc_term(left as int, num_cons as int, d(5), i as int, j as int) == pc_term(
                    left as int,
                    num_cons as int,
                    lerp_pc(a.data(), b.data(), 5),
                    i as int,
                    j as int,
                ));
            }
            acc = next;
        }
        j += 1;
    }
    acc
}

/// The evaluations of the power-check sum over the rows in `[lo, hi)`, halved until single rows
/// are left.
fn pc_rows_par<F: Field>(
    lo: usize,
    hi: usize,
    S_pc: &PowerCheckStructure,
    a: &PcSlices<F>,
    b: &PcSlices<F>,
) -> (r: EvalAcc<F>)
    requires
        lo <= hi <= S_pc.right,
        S_pc.num_cons == S_pc.left + S_pc.right,
        S_pc.left * S_pc.right <= usize::MAX,
        pc_shape(S_pc.left as int, S_pc.right as int, a.data()),
        pc_shape(S_pc.left as int, S_pc.right as int, b.data()),
    ensures
        pc_rows_acc(
            r,
            S_pc.left as int,
            S_pc.num_cons as int,
            a.data(),
            b.data(),
            lo as int,
            hi as int,
        ),
    decreases hi - lo,
{
    let ghost left = S_pc.left as int;
    let ghost num_cons = S_pc.num_cons as int;
    if lo == hi {
        proof {
            lemma_seed_const::<F>(0);
        }
        return zero_acc::<F>();
    }
    if lo + 1 == hi {
        let ghost g = |t: int|
            pc_row(left, num_cons, lerp_pc(a.data(), b.data(), t), lo as int, left);
        let inner = pc_inner(lo, S_pc, a, b);
        let r = scale_acc(a.wr[lo], b.wr[lo], inner, Ghost(g));
        proof {
            reveal_with_fuel(sum, 2);
        }
        return r;
    }
    let mid: usize = lo + (hi - lo) / 2;
    let (x, y) = rayon::join(
        || -> (r: EvalAcc<F>)
            ensures
                pc_rows_acc(r, left, num_cons, a.data(), b.data(), lo as int, mid as int)
            { pc_rows_par(lo, mid, S_pc, a, b) },
        || -> (r: EvalAcc<F>)
            ensures
                pc_rows_acc(r, left, num_cons, a.data(), b.data(), mid as int, hi as int)
            { pc_rows_par(mid, hi, S_pc, a, b) },
    );
    proof {
        broadcast use group_is;

        F::lemma_modulus();
        assert forall|t: int|
            #![trigger lerp_pc(a.data(), b.data(), t)]
            pc_rows(left, num_cons, lerp_pc(a.data(), b.data(), t), lo as int, hi as int)
                == pc_rows(left, num_cons, lerp_pc(a.data(), b.data(), t), lo as int, mid as int)
                + pc_rows(
                left,
                num_cons,
                lerp_pc(a.data(), b.data(), t),
                mid as int,
                hi as int,
            ) by {
            let d = lerp_pc(a.data(), b.data(), t);
            lemma_sum_split(
                |i: int| d.wr[i] * pc_row(left, num_cons, d, i, left),
                lo as int,
                mid as int,
                hi as int,
            );
        }
    }
    add_acc(x, y)
}

/// The evaluations at 0, 2, 3, 4 and 5 of the power-check round polynomial
/// `eq(rho, t) sum_row w_right(t)[row] sum_col w_left(t)[col] (g1(t) - g2(t) g3(t))`, in which the
/// weights, the table and the scalar move on the line from the first to the second instance.
pub fn prove_helper_pc<E: Engine>(
    rho: &E::Scalar,
    S_pc: &PowerCheckStructure,
    weights_1: (&[E::Scalar], &[E::Scalar]),
    weights_2: (&[E::Scalar], &[E::Scalar]),
    w1: (&[E::Scalar], &[E::Scalar]),
    w2: (&[E::Scalar], &[E::Scalar]),
    tau_1: &E::Scalar,
    tau_2: &E::Scalar,
) -> (r: EvalAcc<E::Scalar>)
    requires
        S_pc.num_cons == S_pc.left + S_pc.right,
        S_pc.left * S_pc.right <= usize::MAX,
        pc_shape(
            S_pc.left as int,
            S_pc.right as int,
            pc_data(weights_1, w1, *tau_1),
        ),
        pc_shape(
            S_pc.left as int,
            S_pc.right as int,
            pc_data(weights_2, w2, *tau_2),
        ),
    ensures
        acc_is(
            r,
            |t: int|
                eq_poly(rho.val(), t) * pc_sum(
                    S_pc.left as int,
                    S_pc.right as int,
                    S_pc.num_cons as int,
                    lerp_pc(
                        pc_data(weights_1, w1, *tau_1),
                        pc_data(weights_2, w2, *tau_2),
                        t,
                    ),
                ),
        ),
{
    let a = PcSlices { wl: weights_1.0, wr: weights_1.1, e1: w1.0, e2: w1.1, tau: *tau_1 };
    let b = PcSlices { wl: weights_2.0, wr: weights_2.1, e1: w2.0, e2: w2.1, tau: *tau_2 };
    let acc = pc_rows_par(0, S_pc.right, S_pc, &a, &b);
    let r = apply_rho_scaling(acc, rho);
    proof {
        let g = |t: int|
            pc_rows(
                S_pc.left as int,
                S_pc.num_cons as int,
                lerp_pc(a.data(), b.data(), t),
                0,
                S_pc.right as int,
            );
        lemma_scaled(acc, *rho, r, g);
    }
    r
}

/// The polynomial takes the values of `g` at 0, 2, 3, 4 and 5, and its values at 0 and 1 add up to
/// the claim.
pub open spec fn is_round_poly(
    p: int,
    poly: Seq<int>,
    claim: int,
    g: spec_fn(int) -> int,
) -> bool {
    &&& poly.len() == 6
    &&& peval(poly, 0) % p == g(0) % p
    &&& (peval(poly, 0) + peval(poly, 1)) % p == claim % p
    &&& peval(poly, 2) % p == g(2) % p
    &&& peval(poly, 3) % p == g(3) % p
    &&& peval(poly, 4) % p == g(4) % p
    &&& peval(poly, 5) % p == g(5) % p
}

/// The round polynomial of a claim from its evaluations.
pub(crate) fn round_poly<F: Field>(
    acc: EvalAcc<F>,
    claim: F,
    Ghost(g): Ghost<spec_fn(int) -> int>,
) -> (r: UniPoly<F>)
    requires
        acc_is(acc, g),
    ensures
        is_round_poly(F::modulus(), r@, claim.val(), g),
{
    let evals = vec![acc.0, claim.sub(acc.0), acc.1, acc.2, acc.3, acc.4];
    let r = UniPoly::from_evals(evals.as_slice());
    proof {
        let p = F::modulus();
        F::lemma_modulus();
        let e = evals@;
        assert(is(p, e[0].val(), peval(r@, 0)));
        assert(is(p, e[1].val(), peval(r@, 1)));
        assert(is(p, e[2].val(), peval(r@, 2)));
        assert(is(p, e[3].val(), peval(r@, 3)));
        assert(is(p, e[4].val(), peval(r@, 4)));
        assert(is(p, e[5].val(), peval(r@, 5)));
        lemma_seed(claim);
        lemma_seed(acc.0);
        lemma_mod(p, peval(r@, 0));
        lemma_mod(p, peval(r@, 1));
        lemma_mod(p, claim.val() - acc.0.val());
        lemma_cong_add(
            p,
            peval(r@, 0),
            peval(r@, 1),
            acc.0.val(),
            claim.val() - acc.0.val(),
        );
    }
    r
}

/// The claim that is left after the challenge `r_b`: the value of the polynomial there, divided by
/// that of the equality polynomial, which must not be zero.
pub fn output_claim<F: Field>(poly: &UniPoly<F>, rho: &F, r_b: &F) -> (r: Result<F, NovaError>)
    ensures
        r is Ok <==> eq_poly(rho.val(), r_b.val()) % F::modulus() != 0,
        r matches Err(e) ==> e == NovaError::DivideByZero,
        r matches Ok(t) ==> t.val() == fdiv(
            F::modulus(),
            peval(poly@, r_b.val()),
            eq_poly(rho.val(), r_b.val()),
        ) && invertible(F::modulus(), eq_poly(rho.val(), r_b.val())),
{
    let ghost p = F::modulus();
    let one = F::one();
    let eq_rho_r_b = one.sub(*rho).mul(one.sub(*r_b)).add(rho.mul(*r_b));
    let ghost e = eq_poly(rho.val(), r_b.val());
    proof {
        broadcast use group_is;

        lemma_seed(*rho);
        lemma_seed(*r_b);
        lemma_seed_const::<F>(1);
        assert(is(p, eq_rho_r_b.val(), e));
    }
    match eq_rho_r_b.invert() {
        Some(inv) => {
            let v = poly.evaluate(r_b);
            let t = v.mul(inv);
            proof {
                lemma_mod(p, e);
                lemma_cong_mul(p, eq_rho_r_b.val(), inv.val(), e, inv.val());
                lemma_mod(p, peval(poly@, r_b.val()));
                lemma_cong_mul(p, v.val(), inv.val(), peval(poly@, r_b.val()), inv.val());
                lemma_fdiv_by_inverse(p, peval(poly@, r_b.val()), e, inv.val());
                assert(fmul(p, e, inv.val()) == 1);
            }
            Ok(t)
        },
        None => Err(NovaError::DivideByZero),
    }
}

/// The nested sum depends only on the residues of its data.
pub proof fn lemma_nsc_sum_cong(p: int, left: int, right: int, d1: NscData, d2: NscData)
    requires
        p > 0,
        left >= 0,
        right >= 0,
        nsc_shape(left, right, d1),
        cong_seq(p, d1.e, d2.e),
        cong_seq(p, d1.az, d2.az),
        cong_seq(p, d1.bz, d2.bz),
        cong_seq(p, d1.cz, d2.cz),
    ensures
        nsc_sum(left, right, d1) % p == nsc_sum(left, right, d2) % p,
{
    let f = |i: int| d1.e[left + i] * nsc_row(left, d1, i, left);
    let g = |i: int| d2.e[left + i] * nsc_row(left, d2, i, left);
    assert forall|i: int| 0 <= i < right implies #[trigger] f(i) % p == g(i) % p by {
        let a = |j: int| nsc_term(left, d1, i, j);
        let b = |j: int| nsc_term(left, d2, i, j);
        assert forall|j: int| 0 <= j < left implies #[trigger] a(j) % p == b(j) % p by {
            lemma_index(left, right, i, j);
            let k = i * left + j;
            assert(d1.e[j] % p == d2.e[j] % p);
            assert(d1.az[k] % p == d2.az[k] % p);
            assert(d1.bz[k] % p == d2.bz[k] % p);
            assert(d1.cz[k] % p == d2.cz[k] % p);
            lemma_cong_mul(p, d1.az[k], d1.bz[k], d2.az[k], d2.bz[k]);
            lemma_cong_sub(p, d1.az[k] * d1.bz[k], d1.cz[k], d2.az[k] * d2.bz[k], d2.cz[k]);
            lemma_cong_mul(
                p,
                d1.e[j],
                d1.az[k] * d1.bz[k] - d1.cz[k],
                d2.e[j],
                d2.az[k] * d2.bz[k] - d2.cz[k],
            );
        }
        lemma_sum_cong(p, a, b, 0, left);
        assert(d1.e[left + i] % p == d2.e[left + i] % p);
        lemma_cong_mul(
            p,
            d1.e[left + i],
            nsc_row(left, d1, i, left),
            d2.e[left + i],
            nsc_row(left, d2, i, left),
        );
    }
    lemma_sum_cong(p, f, g, 0, right);
}

/// Interpolated vectors of congruent vectors are congruent.
pub proof fn lemma_lerp_seq_cong(
    p: int,
    a1: Seq<int>,
    a2: Seq<int>,
    b1: Seq<int>,
    b2: Seq<int>,
    t: int,
)
    requires
        p > 0,
        cong_seq(p, a1, b1),
        cong_seq(p, a2, b2),
        a1.len() == a2.len(),
    ensures
        cong_seq(p, lerp_seq(a1, a2, t), lerp_seq(b1, b2, t)),
{
    assert forall|i: int| 0 <= i < a1.len() implies #[trigger] lerp_seq(a1, a2, t)[i] % p
        == lerp_seq(b1, b2, t)[i] % p by {
        assert(a1[i] % p == b1[i] % p);
        assert(a2[i] % p == b2[i] % p);
        lemma_cong_lerp(p, a1[i], a2[i], t, b1[i], b2[i], t);
    }
}

/// The nested sum of interpolated data depends only on the residues of the endpoints.
pub proof fn lemma_nsc_lerp_cong(
    p: int,
    left: int,
    right: int,
    a1: NscData,
    a2: NscData,
    b1: NscData,
    b2: NscData,
    t: int,
)
    requires
        p > 0,
        left >= 0,
        right >= 0,
        nsc_shape(left, right, a1),
        nsc_shape(left, right, a2),
        cong_seq(p, a1.e, b1.e),
        cong_seq(p, a1.az, b1.az),
        cong_seq(p, a1.bz, b1.bz),
        cong_seq(p, a1.cz, b1.cz),
        cong_seq(p, a2.e, b2.e),
        cong_seq(p, a2.az, b2.az),
        cong_seq(p, a2.bz, b2.bz),
        cong_seq(p, a2.cz, b2.cz),
    ensures
        nsc_sum(left, right, lerp_nsc(a1, a2, t)) % p == nsc_sum(left, right, lerp_nsc(b1, b2, t))
            % p,
{
    lemma_lerp_seq_cong(p, a1.e, a2.e, b1.e, b2.e, t);
    lemma_lerp_seq_cong(p, a1.az, a2.az, b1.az, b2.az, t);
    lemma_lerp_seq_cong(p, a1.bz, a2.bz, b1.bz, b2.bz, t);
    lemma_lerp_seq_cong(p, a1.cz, a2.cz, b1.cz, b2.cz, t);
    lemma_nsc_sum_cong(p, left, right, lerp_nsc(a1, a2, t), lerp_nsc(b1, b2, t));
}

} // verus!
