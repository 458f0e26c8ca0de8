//! Laws of soundness: what a fold that comes out satisfied says of what was folded.
//!
//! A fold of an unsatisfied pair can come out satisfied by coincidence alone. The laws say exactly
//! when it does: where a challenge hits one of five points, or where two defects cancel out, which
//! a challenge brings about for one value at most.
use vstd::prelude::*;
use vstd::arithmetic::div_mod::lemma_small_mod;
use crate::arith::{
    fdiv, fmul, invertible, is, lemma_cong_add, lemma_cong_lerp, lemma_cong_mul, lemma_cong_sub,
    lemma_fdiv_by_inverse, lemma_mod, lerp, lerp_seq, no_zero_divisors,
};
use crate::commitment::{commit_log, lemma_commit_homomorphic, CommitmentKey};
use crate::degree::{
    is_poly, lemma_determined, lemma_poly_combine, lemma_poly_line, lemma_poly_times_line,
};
use crate::errors::NovaError;
use crate::field::{vals, Field};
use crate::fold_laws::{
    constraints_hold, law_folded_claim, law_fresh_claim_is_zero, lemma_commit_cong, lemma_fold_seq,
};
use crate::nifs::{fold_challenges, honest_message, prover_returns, weighted_witness, NIFS};
use crate::power_check_laws::{
    law_folded_pc_claim, law_weighted_sum_zero, lemma_folded_halves, pc_claim_data, pc_satisfied,
    table_valid,
};
use crate::power_check_relation::{
    fold_pc_instance, fold_pc_witness, fresh_pc_instance, PcInstance, PcWitness,
    PowerCheckInstance, PowerCheckWitness,
};
use crate::r1cs::{R1CSInstance, R1CSWitness};
use crate::relation::{
    claim_data, fold_instance, fold_witness, fresh_instance, FoldedInstance, FoldedWitness,
    NscInstance, NscWitness, StructureModel,
};
use crate::ro::PoseidonModel;
use crate::round_laws::{
    law_nsc_claim_is_rlc, law_output_claim, law_pc_claim_is_rlc, lemma_nsc_round_is_poly,
    lemma_pc_round_is_poly, nsc_round, pc_round,
};
use crate::sumcheck::{eq_poly, is_round_poly, lerp_nsc, lerp_pc, nsc_sum, pc_sum};
use crate::traits::{Engine, Group};
use crate::univariate::{combine, lemma_peval_combine, peval};
use crate::weight_table::fold_seq;
use crate::zerofold_laws::{
    lemma_cached_products, lemma_cached_round, lemma_weights_valid, power_check_satisfied,
    products_cached, state_satisfied,
};
use crate::zerofold_nifs::{
    honest_proof, zerofold_challenges, zerofold_pc_witness, zerofold_returns, zerofold_witness,
    ProofModel, ZeroFoldOutput, ZeroFoldState,
};

verus! {

/// The distances from the points 0, 2, 3, 4 and 5, multiplied. It vanishes where a round polynomial
/// is right whatever the claim.
pub open spec fn missed(t: int) -> int {
    t * ((t - 2) * ((t - 3) * ((t - 4) * (t - 5))))
}

/// Two integers are congruent if and only if their difference vanishes.
pub proof fn lemma_same(p: int, a: int, b: int)
    requires
        p > 1,
    ensures
        a % p == b % p <==> (a - b) % p == 0,
{
    lemma_small_mod(0, p as nat);
    if a % p == b % p {
        lemma_cong_sub(p, a, b, b, b);
    }
    if (a - b) % p == 0 {
        lemma_cong_add(p, a - b, b, 0, b);
    }
}

/// The product of the distances is a polynomial with six coefficients.
proof fn lemma_missed_is_poly()
    ensures
        is_poly(|t: int| missed(t), 6),
{
    let f5 = |t: int| t - 5;
    let f4 = |t: int| (t - 4) * (t - 5);
    let f3 = |t: int| (t - 3) * ((t - 4) * (t - 5));
    let f2 = |t: int| (t - 2) * ((t - 3) * ((t - 4) * (t - 5)));
    let f0 = |t: int| missed(t);
    assert forall|t: int| #[trigger] f5(t) == lerp(-5, -4, t) by {}
    lemma_poly_line(f5, -5, -4);
    assert forall|t: int| #[trigger] f4(t) == lerp(-4, -3, t) * f5(t) by {}
    lemma_poly_times_line(f5, f4, -4, -3, 2);
    assert forall|t: int| #[trigger] f3(t) == lerp(-3, -2, t) * f4(t) by {}
    lemma_poly_times_line(f4, f3, -3, -2, 3);
    assert forall|t: int| #[trigger] f2(t) == lerp(-2, -1, t) * f3(t) by {}
    lemma_poly_times_line(f3, f2, -2, -1, 4);
    assert forall|t: int| #[trigger] f0(t) == lerp(0, 1, t) * f2(t) by {}
    lemma_poly_times_line(f2, f0, 0, 1, 5);
}

/// A round polynomial for any claim, true or false, differs from the round function by a multiple
/// of the defect of the claim.
pub proof fn law_round_poly_defect(
    p: int,
    inv: int,
    poly: Seq<int>,
    claim: int,
    g: spec_fn(int) -> int,
    t: int,
)
    requires
        p > 1,
        (120 * inv) % p == 1,
        is_poly(g, 6),
        is_round_poly(p, poly, claim, g),
    ensures
        (24 * (peval(poly, t) - g(t))) % p == ((claim - (g(0) + g(1))) * missed(t)) % p,
{
    let delta = claim - (g(0) + g(1));
    let m = |t: int| missed(t);
    let h = |t: int| 24 * g(t) + delta * m(t);
    let c = combine(24, poly, 0, poly);
    lemma_missed_is_poly();
    lemma_poly_combine(g, m, h, 24, delta, 6);
    assert(missed(0) == 0 && missed(2) == 0 && missed(3) == 0 && missed(4) == 0 && missed(5) == 0)
        by {
        assert(2 * 0 == 0 && 3 * (1 * 0) == 0);
    }
    assert(missed(1) == 24);
    assert forall|j: int| 0 <= j <= 5 implies #[trigger] peval(c, j) % p == h(j) % p by {
        assert(j == 0 || j == 1 || j == 2 || j == 3 || j == 4 || j == 5);
        lemma_peval_combine(24, poly, 0, poly, j);
        let v = peval(poly, j);
        assert(0 * v == 0) by (nonlinear_arith);
        if j == 1 {
            let a = peval(poly, 0);
            lemma_cong_sub(p, a + v, a, claim, g(0));
            assert(h(1) == 24 * (claim - g(0))) by {
                assert(delta * 24 == 24 * delta);
            }
            lemma_cong_mul(p, 24, v, 24, claim - g(0));
        } else {
            assert(delta * 0 == 0) by (nonlinear_arith);
            assert(m(j) == 0);
            lemma_cong_mul(p, 24, v, 24, g(j));
        }
    }
    lemma_determined(p, c, h, inv, t);
    lemma_peval_combine(24, poly, 0, poly, t);
    let v = peval(poly, t);
    assert(0 * v == 0) by (nonlinear_arith);
    lemma_cong_sub(p, 24 * v, 24 * g(t), h(t), 24 * g(t));
}

/// A round polynomial is right at a point if and only if the defect of its claim vanishes there.
pub proof fn law_round_poly_right(
    p: int,
    inv: int,
    poly: Seq<int>,
    claim: int,
    g: spec_fn(int) -> int,
    t: int,
)
    requires
        p > 1,
        (120 * inv) % p == 1,
        is_poly(g, 6),
        is_round_poly(p, poly, claim, g),
    ensures
        peval(poly, t) % p == g(t) % p <==> ((claim - (g(0) + g(1))) * missed(t)) % p == 0,
{
    law_round_poly_defect(p, inv, poly, claim, g, t);
    lemma_small_mod(0, p as nat);
    lemma_small_mod(1, p as nat);
    let d = peval(poly, t) - g(t);
    lemma_same(p, peval(poly, t), g(t));
    if d % p == 0 {
        lemma_cong_mul(p, 24, d, 24, 0);
    }
    if (24 * d) % p == 0 {
        lemma_cong_mul(p, 5 * inv, 24 * d, 5 * inv, 0);
        assert((5 * inv) * 0 == 0) by (nonlinear_arith);
        assert((5 * inv) * (24 * d) == (120 * inv) * d) by (nonlinear_arith);
        lemma_cong_mul(p, 120 * inv, d, 1, d);
    }
}

/// A folded commitment opens to the folded vector if and only if what the two commitments are off
/// by folds to zero.
pub proof fn law_commitment_folds_iff(
    p: int,
    ck: Seq<int>,
    h: int,
    c1: int,
    v1: Seq<int>,
    r1: int,
    c2: int,
    v2: Seq<int>,
    r2: int,
    t: int,
)
    requires
        p > 1,
        v1.len() == v2.len(),
    ensures
        is(
            p,
            lerp(c1, c2, t) % p,
            commit_log(ck, h, fold_seq(p, v1, v2, t), lerp(r1, r2, t) % p),
        ) <==> lerp(c1 - commit_log(ck, h, v1, r1), c2 - commit_log(ck, h, v2, r2), t) % p == 0,
{
    let (a, b) = (commit_log(ck, h, v1, r1), commit_log(ck, h, v2, r2));
    lemma_commit_homomorphic(p, ck, h, v1, r1, v2, r2, t);
    lemma_fold_seq(p, v1, v2, t);
    lemma_mod(p, lerp(r1, r2, t));
    lemma_commit_cong(
        p,
        ck,
        h,
        fold_seq(p, v1, v2, t),
        lerp(r1, r2, t) % p,
        lerp_seq(v1, v2, t),
        lerp(r1, r2, t),
    );
    assert((1 - t) * a + t * b == a + t * (b - a)) by (nonlinear_arith);
    lemma_same(p, lerp(c1, c2, t), lerp(a, b, t));
    assert(lerp(c1, c2, t) - lerp(a, b, t) == lerp(c1 - a, c2 - b, t)) by {
        assert((c1 + t * (c2 - c1)) - (a + t * (b - a)) == (c1 - a) + t * ((c2 - b) - (c1 - a)))
            by (nonlinear_arith);
    }
}

/// The claim that a round leaves is the sum at the challenge if and only if the value of the
/// polynomial is the equality polynomial times the sum.
proof fn lemma_output_claim_iff(p: int, value: int, eq: int, total: int)
    requires
        p > 1,
        invertible(p, eq),
    ensures
        fdiv(p, value, eq) == total % p <==> value % p == (eq * total) % p,
{
    let v = choose|v: int| #[trigger] fmul(p, eq, v) == 1;
    lemma_fdiv_by_inverse(p, value, eq, v);
    if value % p == (eq * total) % p {
        law_output_claim(p, value, eq, total);
    }
    if fdiv(p, value, eq) == total % p {
        lemma_mod(p, total);
        lemma_cong_mul(p, total % p, eq, total, eq);
        assert(total * eq == eq * total) by (nonlinear_arith);
    }
}

/// A folded pair is satisfied if and only if the defects of the claims and of the commitments of
/// the two pairs vanish when they are combined.
pub proof fn law_fold_satisfied_iff(
    p: int,
    inv: int,
    s: StructureModel,
    ck: Seq<int>,
    h: int,
    u1: NscInstance,
    w1: NscWitness,
    u2: NscInstance,
    w2: NscWitness,
    rho: int,
    r: int,
    claim: int,
    poly: Seq<int>,
)
    requires
        p > 1,
        (120 * inv) % p == 1,
        s.wf(),
        s.fits(u1, w1),
        s.fits(u2, w2),
        claim == (1 - rho) * u1.t + rho * u2.t,
        is_round_poly(
            p,
            poly,
            claim,
            nsc_round(
                s.left,
                s.right,
                rho,
                claim_data(s.shape, u1, w1),
                claim_data(s.shape, u2, w2),
            ),
        ),
        invertible(p, eq_poly(rho, r)),
    ensures
        s.satisfied(
            p,
            ck,
            h,
            fold_instance(p, u1, u2, r, fdiv(p, peval(poly, r), eq_poly(rho, r))),
            fold_witness(p, w1, w2, r),
        ) <==> {
            &&& (((1 - rho) * (u1.t - s.claim(u1, w1)) + rho * (u2.t - s.claim(u2, w2))) * missed(
                r,
            )) % p == 0
            &&& lerp(
                u1.comm_w - commit_log(ck, h, w1.w, w1.r_w),
                u2.comm_w - commit_log(ck, h, w2.w, w2.r_w),
                r,
            ) % p == 0
            &&& lerp(
                u1.comm_e - commit_log(ck, h, w1.e, w1.r_e),
                u2.comm_e - commit_log(ck, h, w2.e, w2.r_e),
                r,
            ) % p == 0
        },
{
    let (d1, d2) = (claim_data(s.shape, u1, w1), claim_data(s.shape, u2, w2));
    let g = nsc_round(s.left, s.right, rho, d1, d2);
    let (t1, t2) = (s.claim(u1, w1), s.claim(u2, w2));
    let t_out = fdiv(p, peval(poly, r), eq_poly(rho, r));
    let total = nsc_sum(s.left, s.right, lerp_nsc(d1, d2, r));
    law_nsc_claim_is_rlc(s.left, s.right, rho, d1, d2);
    lemma_nsc_round_is_poly(s.left, s.right, rho, d1, d2);
    law_round_poly_right(p, inv, poly, claim, g, r);
    lemma_output_claim_iff(p, peval(poly, r), eq_poly(rho, r), total);
    law_folded_claim(p, s, u1, w1, u2, w2, r, t_out);
    let (x1, x2) = (u1.t, u2.t);
    assert((1 - rho) * (x1 - t1) + rho * (x2 - t2) == ((1 - rho) * x1 + rho * x2) - ((1 - rho) * t1
        + rho * t2)) by (nonlinear_arith);
    law_commitment_folds_iff(p, ck, h, u1.comm_w, w1.w, w1.r_w, u2.comm_w, w2.w, w2.r_w, r);
    law_commitment_folds_iff(p, ck, h, u1.comm_e, w1.e, w1.r_e, u2.comm_e, w2.e, w2.r_e, r);
    assert(s.fits(
        fold_instance(p, u1, u2, r, t_out),
        fold_witness(p, w1, w2, r),
    ));
}

/// A folded pair of the power check is satisfied if and only if the defects of the claims and of
/// the commitments of the two pairs vanish when they are combined.
pub proof fn law_pc_fold_satisfied_iff(
    p: int,
    inv: int,
    left: int,
    right: int,
    ck: Seq<int>,
    h: int,
    u1: PcInstance,
    w1: PcWitness,
    u2: PcInstance,
    w2: PcWitness,
    rho: int,
    r: int,
    claim: int,
    poly: Seq<int>,
)
    requires
        p > 1,
        (120 * inv) % p == 1,
        left >= 1,
        right >= 0,
        w1.witness.splits(left, right),
        w1.weights.splits(left, right),
        w2.witness.splits(left, right),
        w2.weights.splits(left, right),
        claim == (1 - rho) * u1.claim + rho * u2.claim,
        is_round_poly(
            p,
            poly,
            claim,
            pc_round(
                left,
                right,
                left + right,
                rho,
                pc_claim_data(w1, u1.tau),
                pc_claim_data(w2, u2.tau),
            ),
        ),
        invertible(p, eq_poly(rho, r)),
    ensures
        pc_satisfied(
            p,
            left,
            right,
            ck,
            h,
            fold_pc_instance(p, u1, u2, r, fdiv(p, peval(poly, r), eq_poly(rho, r))),
            fold_pc_witness(p, w1, w2, r),
        ) <==> {
            let t1 = pc_sum(left, right, left + right, pc_claim_data(w1, u1.tau));
            let t2 = pc_sum(left, right, left + right, pc_claim_data(w2, u2.tau));
            &&& (((1 - rho) * (u1.claim - t1) + rho * (u2.claim - t2)) * missed(r)) % p == 0
            &&& lerp(
                u1.comm_witness - commit_log(ck, h, w1.witness.data, w1.witness.rand),
                u2.comm_witness - commit_log(ck, h, w2.witness.data, w2.witness.rand),
                r,
            ) % p == 0
            &&& lerp(
                u1.comm_weights - commit_log(ck, h, w1.weights.data, w1.weights.rand),
                u2.comm_weights - commit_log(ck, h, w2.weights.data, w2.weights.rand),
                r,
            ) % p == 0
        },
{
    let n = left + right;
    let (d1, d2) = (pc_claim_data(w1, u1.tau), pc_claim_data(w2, u2.tau));
    let g = pc_round(left, right, n, rho, d1, d2);
    let (t1, t2) = (pc_sum(left, right, n, d1), pc_sum(left, right, n, d2));
    let t_out = fdiv(p, peval(poly, r), eq_poly(rho, r));
    let total = pc_sum(left, right, n, lerp_pc(d1, d2, r));
    law_pc_claim_is_rlc(left, right, n, rho, d1, d2);
    lemma_pc_round_is_poly(left, right, n, rho, d1, d2);
    law_round_poly_right(p, inv, poly, claim, g, r);
    lemma_output_claim_iff(p, peval(poly, r), eq_poly(rho, r), total);
    law_folded_pc_claim(p, left, right, u1, w1, u2, w2, r, t_out);
    lemma_folded_halves(p, w1.witness, w2.witness, left, right, r);
    lemma_folded_halves(p, w1.weights, w2.weights, left, right, r);
    let (x1, x2) = (u1.claim, u2.claim);
    assert((1 - rho) * (x1 - t1) + rho * (x2 - t2) == ((1 - rho) * x1 + rho * x2) - ((1 - rho) * t1
        + rho * t2)) by (nonlinear_arith);
    law_commitment_folds_iff(
        p,
        ck,
        h,
        u1.comm_witness,
        w1.witness.data,
        w1.witness.rand,
        u2.comm_witness,
        w2.witness.data,
        w2.witness.rand,
        r,
    );
    law_commitment_folds_iff(
        p,
        ck,
        h,
        u1.comm_weights,
        w1.weights.data,
        w1.weights.rand,
        u2.comm_weights,
        w2.weights.data,
        w2.weights.rand,
        r,
    );
}

/// Two defects cancel out on the line through them: they vanish together at the point `t`, but not
/// each by itself.
pub open spec fn cancel(p: int, x: int, y: int, t: int) -> bool {
    lerp(x, y, t) % p == 0 && !(x % p == 0 && y % p == 0)
}

/// Two defects cancel out at one challenge at most.
pub proof fn law_defects_cancel_once(p: int, x: int, y: int, t: int, t2: int)
    requires
        p > 1,
        no_zero_divisors(p),
        cancel(p, x, y, t),
        cancel(p, x, y, t2),
    ensures
        t % p == t2 % p,
{
    lemma_small_mod(0, p as nat);
    lemma_cong_sub(p, lerp(x, y, t), lerp(x, y, t2), 0, 0);
    assert((x + t * (y - x)) - (x + t2 * (y - x)) == (t - t2) * (y - x)) by (nonlinear_arith);
    assert(fmul(p, t - t2, y - x) == 0);
    lemma_same(p, t, t2);
    if (y - x) % p == 0 {
        lemma_cong_mul(p, t, y - x, t, 0);
        assert(t * 0 == 0) by (nonlinear_arith);
        lemma_cong_sub(p, lerp(x, y, t), t * (y - x), 0, 0);
        assert(x % p == 0);
        lemma_cong_add(p, y - x, x, 0, 0);
        assert(y % p == 0);
    }
}

/// The product of the distances vanishes at the five points alone.
pub proof fn law_five_points(p: int, t: int)
    requires
        p > 5,
        no_zero_divisors(p),
    ensures
        missed(t) % p == 0 <==> (t % p == 0 || t % p == 2 || t % p == 3 || t % p == 4 || t % p
            == 5),
{
    lemma_small_mod(0, p as nat);
    lemma_small_mod(2, p as nat);
    lemma_small_mod(3, p as nat);
    lemma_small_mod(4, p as nat);
    lemma_small_mod(5, p as nat);
    lemma_same(p, t, 0);
    lemma_same(p, t, 2);
    lemma_same(p, t, 3);
    lemma_same(p, t, 4);
    lemma_same(p, t, 5);
    let f4 = (t - 4) * (t - 5);
    let f3 = (t - 3) * f4;
    let f2 = (t - 2) * f3;
    lemma_vanish(p, t - 4, t - 5);
    lemma_vanish(p, t - 3, f4);
    lemma_vanish(p, t - 2, f3);
    lemma_vanish(p, t, f2);
}

/// A product vanishes if and only if a factor does.
proof fn lemma_vanish(p: int, x: int, y: int)
    requires
        p > 1,
        no_zero_divisors(p),
    ensures
        (x * y) % p == 0 <==> x % p == 0 || y % p == 0,
{
    lemma_small_mod(0, p as nat);
    if (x * y) % p == 0 {
        assert(fmul(p, x, y) == 0);
    }
    if x % p == 0 {
        lemma_cong_mul(p, x, y, 0, y);
        assert(0 * y == 0) by (nonlinear_arith);
    }
    if y % p == 0 {
        lemma_cong_mul(p, x, y, x, 0);
        assert(x * 0 == 0) by (nonlinear_arith);
    }
}

/// What an honest message comes to is a coincidence: the folding challenge is one of five points,
/// or defects of the two pairs cancel out, or the weighted sum of the fresh constraints vanishes
/// though not all of them hold.
pub open spec fn coincidence<E: Engine>(
    m: PoseidonModel,
    pp_digest: int,
    ck: CommitmentKey<E>,
    s: StructureModel,
    u1: NscInstance,
    w1: NscWitness,
    u2: R1CSInstance<E>,
    w2: R1CSWitness<E>,
    r_e: int,
    nifs: NIFS<E>,
) -> bool {
    let p = E::Scalar::modulus();
    let ch = fold_challenges(m, pp_digest, u2, nifs);
    let inst2 = fresh_instance(u2, nifs.comm_E.log());
    let wit2 = weighted_witness(s, w2, ch.tau, r_e);
    let open1 = commit_log(ck.bases(), ck.blind(), w1.w, w1.r_w);
    let open2 = commit_log(ck.bases(), ck.blind(), wit2.w, wit2.r_w);
    let weights1 = commit_log(ck.bases(), ck.blind(), w1.e, w1.r_e);
    ||| missed(ch.r_b) % p == 0
    ||| cancel(p, u1.t - s.claim(u1, w1), 0 - s.claim(inst2, wit2), ch.rho)
    ||| cancel(p, u1.comm_w - open1, inst2.comm_w - open2, ch.r_b)
    ||| cancel(p, u1.comm_e - weights1, 0, ch.r_b)
    ||| s.claim(inst2, wit2) % p == 0 && !constraints_hold(p, s.shape, wit2.w, inst2.x)
}

/// The guarantee of a fold: but for a coincidence, the folded witness satisfies the folded instance
/// if and only if the running witness satisfies the running instance, and the constraints of the
/// fresh pair hold and its commitment opens to its witness.
pub proof fn law_nifs_iff<E: Engine>(
    m: PoseidonModel,
    pp_digest: int,
    ck: CommitmentKey<E>,
    s: StructureModel,
    u1: FoldedInstance<E>,
    w1: NscWitness,
    u2: R1CSInstance<E>,
    w2: R1CSWitness<E>,
    r_e: int,
    nifs: NIFS<E>,
    u: FoldedInstance<E>,
    w: FoldedWitness<E>,
)
    requires
        s.wf(),
        s.fits(u1@, w1),
        w2.W@.len() == s.shape.num_vars,
        u2.X@.len() == s.shape.num_io,
        honest_message(m, pp_digest, ck, s, u1@, w1, u2, w2, r_e, nifs),
        prover_returns(
            m,
            pp_digest,
            s,
            u1@,
            w1,
            u2,
            w2,
            r_e,
            nifs,
            Ok::<_, NovaError>((nifs, (u, w))),
        ),
        !coincidence(m, pp_digest, ck, s, u1@, w1, u2, w2, r_e, nifs),
    ensures
        s.satisfied(E::Scalar::modulus(), ck.bases(), ck.blind(), u@, w@) <==> {
            &&& s.satisfied(E::Scalar::modulus(), ck.bases(), ck.blind(), u1@, w1)
            &&& constraints_hold(E::Scalar::modulus(), s.shape, vals(w2.W@), vals(u2.X@))
            &&& is(
                E::Scalar::modulus(),
                u2.comm_W.log(),
                commit_log(ck.bases(), ck.blind(), vals(w2.W@), w2.r_W.val()),
            )
        },
{
    let p = E::Scalar::modulus();
    let inv = E::Scalar::lemma_modulus();
    E::Scalar::lemma_no_zero_divisors();
    let ch = fold_challenges(m, pp_digest, u2, nifs);
    let (rho, r) = (ch.rho, ch.r_b);
    let inst2 = fresh_instance(u2, nifs.comm_E.log());
    let wit2 = weighted_witness(s, w2, ch.tau, r_e);
    let (t1, t2) = (s.claim(u1@, w1), s.claim(inst2, wit2));
    let open1 = commit_log(ck.bases(), ck.blind(), w1.w, w1.r_w);
    let open2 = commit_log(ck.bases(), ck.blind(), wit2.w, wit2.r_w);
    let weights1 = commit_log(ck.bases(), ck.blind(), w1.e, w1.r_e);
    let weights2 = commit_log(ck.bases(), ck.blind(), wit2.e, wit2.r_e);
    lemma_small_mod(0, p as nat);
    assert(rho * 0 == 0) by (nonlinear_arith);
    law_fold_satisfied_iff(
        p,
        inv,
        s,
        ck.bases(),
        ck.blind(),
        u1@,
        w1,
        inst2,
        wit2,
        rho,
        r,
        (1 - rho) * u1@.t,
        nifs.poly@,
    );
    u1.T.lemma_val();
    u1.comm_W.lemma_log();
    u1.comm_E.lemma_log();
    u2.comm_W.lemma_log();
    // The claims.
    lemma_combined_claims(p, u1@.t, t1, t2, rho, missed(r));
    lemma_residue(p, u1@.t, t1);
    // The commitments.
    lemma_defects(p, u1@.comm_w - open1, inst2.comm_w - open2, r);
    lemma_residue(p, u1@.comm_w, open1);
    lemma_residue(p, inst2.comm_w, open2);
    lemma_lone_defect(p, u1@.comm_e - weights1, nifs.comm_E.log(), weights2, r);
    lemma_residue(p, u1@.comm_e, weights1);
    if constraints_hold(p, s.shape, wit2.w, inst2.x) {
        law_fresh_claim_is_zero(p, s, inst2, wit2);
    }
}

/// Defects that do not cancel out vanish together if and only if each vanishes.
proof fn lemma_defects(p: int, x: int, y: int, t: int)
    requires
        p > 1,
        !cancel(p, x, y, t),
    ensures
        lerp(x, y, t) % p == 0 <==> x % p == 0 && y % p == 0,
{
    lemma_small_mod(0, p as nat);
    if x % p == 0 && y % p == 0 {
        lemma_cong_lerp(p, x, y, t, 0, 0, t);
        assert(t * 0 == 0) by (nonlinear_arith);
    }
}

/// The scalars and the commitments of a state are residues.
pub open spec fn canonical_state(p: int, st: ZeroFoldState) -> bool {
    &&& 0 <= st.u.t < p
    &&& 0 <= st.u.comm_w < p
    &&& 0 <= st.u.comm_e < p
    &&& 0 <= st.u_pc.claim < p
    &&& 0 <= st.u_pc.comm_witness < p
    &&& 0 <= st.u_pc.comm_weights < p
}

/// What an honest proof comes to is a coincidence: the folding challenge is one of five points, or
/// defects of the accumulated state and of the fresh pairs cancel out, or a weighted sum vanishes
/// though not all of its terms do.
pub open spec fn zerofold_coincidence<E: Engine>(
    m: PoseidonModel,
    pp_digest: int,
    ck: CommitmentKey<E>,
    s: StructureModel,
    st: ZeroFoldState,
    r1cs: (&R1CSInstance<E>, &R1CSWitness<E>),
    zc_pc: (&PowerCheckInstance<E>, &PowerCheckWitness<E>),
    r_e: int,
    nifs: ProofModel,
) -> bool {
    let p = E::Scalar::modulus();
    let (bases, blind) = (ck.bases(), ck.blind());
    let ch = zerofold_challenges(m, pp_digest, *r1cs.0, *zc_pc.0, nifs);
    let inst2 = fresh_instance(*r1cs.0, nifs.comm);
    let wit2 = zerofold_witness(s, *r1cs.1, ch.tau, r_e);
    let table = zc_pc.1.powers.model();
    let tau = zc_pc.0.tau.val();
    let data1 = pc_claim_data(st.w_pc, st.u_pc.tau);
    let data2 = pc_claim_data(zerofold_pc_witness(s, *zc_pc.1, ch.tau, r_e), tau);
    let sum1 = pc_sum(s.left, s.right, s.left + s.right, data1);
    let sum2 = pc_sum(s.left, s.right, s.left + s.right, data2);
    let (t1, t2) = (st.w_pc.witness, st.w_pc.weights);
    ||| missed(ch.r_b) % p == 0
    ||| cancel(p, st.u.t - s.claim(st.u, st.w), 0 - s.claim(inst2, wit2), ch.rho)
    ||| cancel(
        p,
        st.u.comm_w - commit_log(bases, blind, st.w.w, st.w.r_w),
        inst2.comm_w - commit_log(bases, blind, wit2.w, wit2.r_w),
        ch.r_b,
    )
    ||| cancel(p, st.u.comm_e - commit_log(bases, blind, st.w.e, st.w.r_e), 0, ch.r_b)
    ||| s.claim(inst2, wit2) % p == 0 && !constraints_hold(p, s.shape, wit2.w, inst2.x)
    ||| cancel(p, st.u_pc.claim - sum1, 0 - sum2, ch.rho)
    ||| cancel(
        p,
        st.u_pc.comm_witness - commit_log(bases, blind, t1.data, t1.rand),
        zc_pc.0.comm_powers.log() - commit_log(bases, blind, table.data, table.rand),
        ch.r_b,
    )
    ||| cancel(p, st.u_pc.comm_weights - commit_log(bases, blind, t2.data, t2.rand), 0, ch.r_b)
    ||| sum2 % p == 0 && !table_valid(p, table.first(), table.second(), tau)
}

/// A defect that is folded with none vanishes if and only if it is none, unless it cancels out.
proof fn lemma_lone_defect(p: int, x: int, c: int, open: int, t: int)
    requires
        p > 1,
        !cancel(p, x, 0, t),
        is(p, c, open),
    ensures
        lerp(x, c - open, t) % p == 0 <==> x % p == 0,
{
    lemma_small_mod(0, p as nat);
    lemma_mod(p, open);
    lemma_same(p, c, open);
    lemma_cong_lerp(p, x, c - open, t, x, 0, t);
    lemma_defects(p, x, 0, t);
}

/// A residue represents an integer if and only if their difference vanishes.
proof fn lemma_residue(p: int, x: int, e: int)
    requires
        p > 1,
        0 <= x < p,
    ensures
        is(p, x, e) <==> (x - e) % p == 0,
{
    lemma_small_mod(x as nat, p as nat);
    lemma_same(p, x, e);
}

/// The guarantee of a combined fold: but for a coincidence, the folded state is sound if and only
/// if the accumulated state is, the constraints of the fresh pair hold and its commitment opens to
/// its witness, and the fresh power check passes.
pub proof fn law_zerofold_iff<E: Engine>(
    m: PoseidonModel,
    pp_digest: int,
    ck: CommitmentKey<E>,
    s: StructureModel,
    st: ZeroFoldState,
    r1cs: (&R1CSInstance<E>, &R1CSWitness<E>),
    zc_pc: (&PowerCheckInstance<E>, &PowerCheckWitness<E>),
    r_e: int,
    nifs: ProofModel,
    out: ZeroFoldOutput<E>,
)
    requires
        s.wf(),
        s.fits(st.u, st.w),
        products_cached(E::Scalar::modulus(), s, st),
        st.shaped(s),
        canonical_state(E::Scalar::modulus(), st),
        r1cs.1.W@.len() == s.shape.num_vars,
        r1cs.0.X@.len() == s.shape.num_io,
        zc_pc.1.powers.model().splits(s.left, s.right),
        honest_proof(m, pp_digest, ck, s, st, r1cs, zc_pc, r_e, nifs),
        zerofold_returns(
            m,
            pp_digest,
            s,
            st,
            r1cs,
            zc_pc,
            r_e,
            nifs,
            Ok::<_, NovaError>(out),
        ),
        !zerofold_coincidence(m, pp_digest, ck, s, st, r1cs, zc_pc, r_e, nifs),
    ensures
        state_satisfied(E::Scalar::modulus(), s, ck.bases(), ck.blind(), out.folded@) <==> {
            &&& state_satisfied(E::Scalar::modulus(), s, ck.bases(), ck.blind(), st)
            &&& constraints_hold(E::Scalar::modulus(), s.shape, vals(r1cs.1.W@), vals(r1cs.0.X@))
            &&& is(
                E::Scalar::modulus(),
                r1cs.0.comm_W.log(),
                commit_log(ck.bases(), ck.blind(), vals(r1cs.1.W@), r1cs.1.r_W.val()),
            )
            &&& power_check_satisfied(
                E::Scalar::modulus(),
                s,
                ck.bases(),
                ck.blind(),
                zc_pc.0.comm_powers.log(),
                zc_pc.0.tau.val(),
                zc_pc.1.powers.model(),
            )
        },
{
    let p = E::Scalar::modulus();
    let inv = E::Scalar::lemma_modulus();
    E::Scalar::lemma_no_zero_divisors();
    let (bases, blind) = (ck.bases(), ck.blind());
    let ch = zerofold_challenges(m, pp_digest, *r1cs.0, *zc_pc.0, nifs);
    let (rho, r) = (ch.rho, ch.r_b);
    let inst2 = fresh_instance(*r1cs.0, nifs.comm);
    let wit2 = zerofold_witness(s, *r1cs.1, ch.tau, r_e);
    let inst2_pc = fresh_pc_instance(*zc_pc.0, nifs.comm);
    let wit2_pc = zerofold_pc_witness(s, *zc_pc.1, ch.tau, r_e);
    lemma_small_mod(0, p as nat);
    assert(rho * 0 == 0) by (nonlinear_arith);
    lemma_weights_valid::<E>(s, ch.tau, r_e);
    lemma_cached_round(p, s, st, inst2, wit2, rho, (1 - rho) * st.u.t, nifs.nsc);
    law_fold_satisfied_iff(
        p,
        inv,
        s,
        bases,
        blind,
        st.u,
        st.w,
        inst2,
        wit2,
        rho,
        r,
        (1 - rho) * st.u.t,
        nifs.nsc,
    );
    law_pc_fold_satisfied_iff(
        p,
        inv,
        s.left,
        s.right,
        bases,
        blind,
        st.u_pc,
        st.w_pc,
        inst2_pc,
        wit2_pc,
        rho,
        r,
        (1 - rho) * st.u_pc.claim,
        nifs.pc,
    );
    lemma_cached_products(p, s, st, inst2, wit2, r, fdiv(p, peval(nifs.nsc, r), eq_poly(rho, r)));
    // The main relation.
    lemma_combined_claims(p, st.u.t, s.claim(st.u, st.w), s.claim(inst2, wit2), rho, missed(r));
    let (open1, open2) = (
        commit_log(bases, blind, st.w.w, st.w.r_w),
        commit_log(bases, blind, wit2.w, wit2.r_w),
    );
    lemma_defects(p, st.u.comm_w - open1, inst2.comm_w - open2, r);
    lemma_residue(p, st.u.comm_w, open1);
    r1cs.0.comm_W.lemma_log();
    lemma_residue(p, inst2.comm_w, open2);
    let weights1 = commit_log(bases, blind, st.w.e, st.w.r_e);
    lemma_lone_defect(
        p,
        st.u.comm_e - weights1,
        nifs.comm,
        commit_log(bases, blind, wit2.e, wit2.r_e),
        r,
    );
    lemma_residue(p, st.u.comm_e, weights1);
    lemma_residue(p, st.u.t, s.claim(st.u, st.w));
    if constraints_hold(p, s.shape, wit2.w, inst2.x) {
        law_fresh_claim_is_zero(p, s, inst2, wit2);
    }
    // The power check.
    let n = s.left + s.right;
    let sum1 = pc_sum(s.left, s.right, n, pc_claim_data(st.w_pc, st.u_pc.tau));
    let data2 = pc_claim_data(wit2_pc, inst2_pc.tau);
    let sum2 = pc_sum(s.left, s.right, n, data2);
    lemma_combined_claims(p, st.u_pc.claim, sum1, sum2, rho, missed(r));
    let (t1, t2, table) = (st.w_pc.witness, st.w_pc.weights, wit2_pc.witness);
    let (open1, open2) = (
        commit_log(bases, blind, t1.data, t1.rand),
        commit_log(bases, blind, table.data, table.rand),
    );
    lemma_defects(p, st.u_pc.comm_witness - open1, inst2_pc.comm_witness - open2, r);
    lemma_residue(p, st.u_pc.comm_witness, open1);
    zc_pc.0.comm_powers.lemma_log();
    lemma_residue(p, inst2_pc.comm_witness, open2);
    let weights1 = commit_log(bases, blind, t2.data, t2.rand);
    lemma_lone_defect(
        p,
        st.u_pc.comm_weights - weights1,
        nifs.comm,
        commit_log(bases, blind, wit2_pc.weights.data, wit2_pc.weights.rand),
        r,
    );
    lemma_residue(p, st.u_pc.comm_weights, weights1);
    lemma_residue(p, st.u_pc.claim, sum1);
    if table_valid(p, table.first(), table.second(), inst2_pc.tau) {
        law_weighted_sum_zero(p, s.left, s.right, data2);
    }
}

/// The combined defect of a running claim and a fresh claim of zero vanishes if and only if both
/// sums are what is claimed, unless the defects cancel out.
proof fn lemma_combined_claims(p: int, t: int, sum1: int, sum2: int, rho: int, off: int)
    requires
        p > 1,
        no_zero_divisors(p),
        off % p != 0,
        !cancel(p, t - sum1, 0 - sum2, rho),
    ensures
        (((1 - rho) * (t - sum1) + rho * (0 - sum2)) * off) % p == 0 <==> (t - sum1) % p == 0
            && sum2 % p == 0,
{
    let (x, y) = (t - sum1, 0 - sum2);
    lemma_small_mod(0, p as nat);
    assert((1 - rho) * x + rho * y == x + rho * (y - x)) by (nonlinear_arith);
    lemma_vanish(p, lerp(x, y, rho), off);
    lemma_defects(p, x, y, rho);
    lemma_same(p, 0, sum2);
}

} // verus!
