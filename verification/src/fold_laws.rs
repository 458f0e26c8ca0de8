//! Laws of folding: satisfied pairs fold to satisfied pairs, and the verifier follows the prover.
use vstd::prelude::*;
use crate::arith::{
    cong_seq, fdiv, invertible, is, lemma_cong_add, lemma_cong_lerp, lemma_cong_mul,
    lemma_index, lemma_mod, lemma_sum_cong, lemma_sum_zero, lerp, lerp_seq, sum,
};
use crate::commitment::{commit_log, lemma_commit_homomorphic, CommitmentKey};
use crate::errors::NovaError;
use crate::field::{vals, Field};
use crate::nifs::{
    fold_challenges, folded_instance, honest_message, prover_returns, sums_to_claim,
    weighted_witness, NIFS,
};
use crate::r1cs::{
    lemma_mat_vec_cong, lemma_mat_vec_linear, mat_vec, R1CSInstance, R1CSWitness, ShapeModel,
};
use crate::relation::{
    claim_data, fold_instance, fold_witness, fresh_instance, z_vec, FoldedInstance,
    FoldedWitness, NscInstance, NscWitness, StructureModel,
};
use crate::ro::PoseidonModel;
use crate::round_laws::{
    law_nsc_claim_is_rlc, law_output_claim, law_round_poly_everywhere, lemma_nsc_round_is_poly,
    nsc_round,
};
use crate::sumcheck::{
    eq_poly, is_round_poly, lemma_nsc_sum_cong, lerp_nsc, nsc_row, nsc_sum, nsc_term,
};
use crate::traits::{Engine, Group};
use crate::univariate::peval;
use crate::weight_table::{fold_seq, mod_seq};

verus! {

/// Every constraint holds for the witness `w` and the public input `x`, modulo `p`.
pub open spec fn constraints_hold(p: int, s: ShapeModel, w: Seq<int>, x: Seq<int>) -> bool {
    let z = z_vec(w, 1, x);
    forall|i: int|
        0 <= i < s.num_cons ==> (#[trigger] mat_vec(s.a, s.num_cons, z)[i] * mat_vec(
            s.b,
            s.num_cons,
            z,
        )[i] - mat_vec(s.c, s.num_cons, z)[i]) % p == 0
}

/// A reduced vector is congruent to the vector.
pub proof fn lemma_mod_seq_cong(p: int, s: Seq<int>)
    requires
        p > 0,
    ensures
        cong_seq(p, mod_seq(p, s), s),
{
    assert forall|i: int| 0 <= i < s.len() implies #[trigger] mod_seq(p, s)[i] % p == s[i] % p by {
        lemma_mod(p, s[i]);
    }
}

/// Vectors of equal length fold to the reduced interpolated vector.
pub proof fn lemma_fold_seq(p: int, a: Seq<int>, b: Seq<int>, r: int)
    requires
        p > 0,
        a.len() == b.len(),
    ensures
        fold_seq(p, a, b, r) == mod_seq(p, lerp_seq(a, b, r)),
        cong_seq(p, fold_seq(p, a, b, r), lerp_seq(a, b, r)),
{
    assert(fold_seq(p, a, b, r) =~= mod_seq(p, lerp_seq(a, b, r)));
    lemma_mod_seq_cong(p, lerp_seq(a, b, r));
}

/// A fresh instance whose constraints hold makes a zero claim, whatever the weights.
pub proof fn law_fresh_claim_is_zero(
    p: int,
    s: StructureModel,
    u: NscInstance,
    w: NscWitness,
)
    requires
        p > 0,
        s.wf(),
        u.u == 1,
        constraints_hold(p, s.shape, w.w, u.x),
    ensures
        s.claim(u, w) % p == 0,
{
    let d = claim_data(s.shape, u, w);
    let f = |i: int| d.e[s.left + i] * nsc_row(s.left, d, i, s.left);
    vstd::arithmetic::div_mod::lemma_small_mod(0, p as nat);
    assert forall|i: int| 0 <= i < s.right implies #[trigger] f(i) % p == 0 by {
        let g = |j: int| nsc_term(s.left, d, i, j);
        assert forall|j: int| 0 <= j < s.left implies #[trigger] g(j) % p == 0 by {
            lemma_index(s.left, s.right, i, j);
            let k = i * s.left + j;
            assert((d.az[k] * d.bz[k] - d.cz[k]) % p == 0);
            lemma_cong_mul(p, d.e[j], d.az[k] * d.bz[k] - d.cz[k], d.e[j], 0);
            let e = d.e[j];
            assert(e * 0 == 0) by (nonlinear_arith);
        }
        lemma_sum_zero(p, g, 0, s.left);
        let (e, r) = (d.e[s.left + i], nsc_row(s.left, d, i, s.left));
        lemma_cong_mul(p, e, r, e, 0);
        assert(e * 0 == 0) by (nonlinear_arith);
    }
    lemma_sum_zero(p, f, 0, s.right);
}

/// The vector of a folded pair is the interpolated vector.
proof fn lemma_folded_z(
    p: int,
    u1: NscInstance,
    w1: NscWitness,
    u2: NscInstance,
    w2: NscWitness,
    r: int,
    t_out: int,
)
    requires
        p > 0,
        w1.w.len() == w2.w.len(),
        u1.x.len() == u2.x.len(),
    ensures
        ({
            let u = fold_instance(p, u1, u2, r, t_out);
            let w = fold_witness(p, w1, w2, r);
            cong_seq(
                p,
                z_vec(w.w, u.u, u.x),
                lerp_seq(z_vec(w1.w, u1.u, u1.x), z_vec(w2.w, u2.u, u2.x), r),
            )
        }),
{
    let u = fold_instance(p, u1, u2, r, t_out);
    let w = fold_witness(p, w1, w2, r);
    let z = z_vec(w.w, u.u, u.x);
    let (z1, z2) = (z_vec(w1.w, u1.u, u1.x), z_vec(w2.w, u2.u, u2.x));
    let l = lerp_seq(z1, z2, r);
    let n = w1.w.len() as int;
    assert forall|i: int| 0 <= i < z.len() implies #[trigger] z[i] % p == l[i] % p by {
        if i < n {
            assert(z[i] == lerp(w1.w[i], w2.w[i], r) % p);
            lemma_mod(p, lerp(w1.w[i], w2.w[i], r));
        } else if i == n {
            assert(z[i] == lerp(u1.u, u2.u, r) % p);
            lemma_mod(p, lerp(u1.u, u2.u, r));
        } else {
            let k = i - n - 1;
            assert(z[i] == lerp(u1.x[k], u2.x[k], r) % p);
            lemma_mod(p, lerp(u1.x[k], u2.x[k], r));
        }
    }
}

/// The data of a folded pair are the interpolated data: the matrix products of the folded vector
/// are the folded products.
pub proof fn law_folded_products(
    p: int,
    s: StructureModel,
    u1: NscInstance,
    w1: NscWitness,
    u2: NscInstance,
    w2: NscWitness,
    r: int,
    t_out: int,
)
    requires
        p > 0,
        s.wf(),
        s.fits(u1, w1),
        s.fits(u2, w2),
    ensures
        ({
            let d = claim_data(
                s.shape,
                fold_instance(p, u1, u2, r, t_out),
                fold_witness(p, w1, w2, r),
            );
            let l = lerp_nsc(claim_data(s.shape, u1, w1), claim_data(s.shape, u2, w2), r);
            &&& cong_seq(p, d.e, l.e)
            &&& cong_seq(p, d.az, l.az)
            &&& cong_seq(p, d.bz, l.bz)
            &&& cong_seq(p, d.cz, l.cz)
        }),
{
    let (n, cols) = (s.shape.num_cons, s.shape.cols());
    let u = fold_instance(p, u1, u2, r, t_out);
    let w = fold_witness(p, w1, w2, r);
    let z = z_vec(w.w, u.u, u.x);
    let (z1, z2) = (z_vec(w1.w, u1.u, u1.x), z_vec(w2.w, u2.u, u2.x));
    let l = lerp_seq(z1, z2, r);
    lemma_folded_z(p, u1, w1, u2, w2, r, t_out);
    lemma_mat_vec_linear(s.shape.a, n, cols, z1, z2, r);
    lemma_mat_vec_linear(s.shape.b, n, cols, z1, z2, r);
    lemma_mat_vec_linear(s.shape.c, n, cols, z1, z2, r);
    lemma_mat_vec_cong(p, s.shape.a, n, cols, z, l);
    lemma_mat_vec_cong(p, s.shape.b, n, cols, z, l);
    lemma_mat_vec_cong(p, s.shape.c, n, cols, z, l);
    lemma_fold_seq(p, w1.e, w2.e, r);
}

/// The claim of a folded pair is the nested sum of the interpolated data.
pub proof fn law_folded_claim(
    p: int,
    s: StructureModel,
    u1: NscInstance,
    w1: NscWitness,
    u2: NscInstance,
    w2: NscWitness,
    r: int,
    t_out: int,
)
    requires
        p > 0,
        s.wf(),
        s.fits(u1, w1),
        s.fits(u2, w2),
    ensures
        s.claim(fold_instance(p, u1, u2, r, t_out), fold_witness(p, w1, w2, r)) % p == nsc_sum(
            s.left,
            s.right,
            lerp_nsc(claim_data(s.shape, u1, w1), claim_data(s.shape, u2, w2), r),
        ) % p,
{
    law_folded_products(p, s, u1, w1, u2, w2, r, t_out);
    lemma_nsc_sum_cong(
        p,
        s.left,
        s.right,
        claim_data(s.shape, fold_instance(p, u1, u2, r, t_out), fold_witness(p, w1, w2, r)),
        lerp_nsc(claim_data(s.shape, u1, w1), claim_data(s.shape, u2, w2), r),
    );
}

/// Commitments depend only on the residues of what is committed to.
pub proof fn lemma_commit_cong(
    p: int,
    ck: Seq<int>,
    h: int,
    v1: Seq<int>,
    r1: int,
    v2: Seq<int>,
    r2: int,
)
    requires
        p > 0,
        cong_seq(p, v1, v2),
        r1 % p == r2 % p,
    ensures
        commit_log(ck, h, v1, r1) % p == commit_log(ck, h, v2, r2) % p,
{
    let n = v1.len() as int;
    let f = |i: int| v1[i] * ck[i];
    let g = |i: int| v2[i] * ck[i];
    assert forall|i: int| 0 <= i < n implies #[trigger] f(i) % p == g(i) % p by {
        assert(v1[i] % p == v2[i] % p);
        lemma_cong_mul(p, v1[i], ck[i], v2[i], ck[i]);
    }
    lemma_sum_cong(p, f, g, 0, n);
    lemma_cong_mul(p, r1, h, r2, h);
    lemma_cong_add(p, r1 * h, sum(f, 0, n), r2 * h, sum(g, 0, n));
}

/// The folded commitment opens to the folded vector: if two commitments open to two vectors, their
/// combination opens to the combined vector under the combined randomness.
pub proof fn law_commitment_folds(
    p: int,
    ck: Seq<int>,
    h: int,
    c1: int,
    v1: Seq<int>,
    r1: int,
    c2: int,
    v2: Seq<int>,
    r2: int,
    t: int,
)
    requires
        p > 0,
        v1.len() == v2.len(),
        is(p, c1, commit_log(ck, h, v1, r1)),
        is(p, c2, commit_log(ck, h, v2, r2)),
    ensures
        is(
            p,
            lerp(c1, c2, t) % p,
            commit_log(ck, h, fold_seq(p, v1, v2, t), lerp(r1, r2, t) % p),
        ),
{
    let (a, b) = (commit_log(ck, h, v1, r1), commit_log(ck, h, v2, r2));
    lemma_mod(p, a);
    lemma_mod(p, b);
    lemma_cong_lerp(p, c1, c2, t, a, b, t);
    lemma_commit_homomorphic(p, ck, h, v1, r1, v2, r2, t);
    assert((1 - t) * a + t * b == a + t * (b - a)) by (nonlinear_arith);
    lemma_fold_seq(p, v1, v2, t);
    lemma_mod(p, lerp(r1, r2, t));
    lemma_commit_cong(
        p,
        ck,
        h,
        fold_seq(p, v1, v2, t),
        lerp(r1, r2, t) % p,
        lerp_seq(v1, v2, t),
        lerp(r1, r2, t),
    );
}

/// Folding preserves satisfaction: two satisfied pairs, folded with the claim that an honest round
/// polynomial leaves, give a satisfied pair.
pub proof fn law_fold_satisfied(
    p: int,
    inv: int,
    s: StructureModel,
    ck: Seq<int>,
    h: int,
    u1: NscInstance,
    w1: NscWitness,
    u2: NscInstance,
    w2: NscWitness,
    rho: int,
    r: int,
    claim: int,
    poly: Seq<int>,
)
    requires
        p > 1,
        (120 * inv) % p == 1,
        s.wf(),
        s.satisfied(p, ck, h, u1, w1),
        s.satisfied(p, ck, h, u2, w2),
        claim % p == ((1 - rho) * u1.t + rho * u2.t) % p,
        is_round_poly(
            p,
            poly,
            claim,
            nsc_round(
                s.left,
                s.right,
                rho,
                claim_data(s.shape, u1, w1),
                claim_data(s.shape, u2, w2),
            ),
        ),
        invertible(p, eq_poly(rho, r)),
    ensures
        s.satisfied(
            p,
            ck,
            h,
            fold_instance(p, u1, u2, r, fdiv(p, peval(poly, r), eq_poly(rho, r))),
            fold_witness(p, w1, w2, r),
        ),
{
    let (d1, d2) = (claim_data(s.shape, u1, w1), claim_data(s.shape, u2, w2));
    let g = nsc_round(s.left, s.right, rho, d1, d2);
    let (t1, t2) = (s.claim(u1, w1), s.claim(u2, w2));
    let t_out = fdiv(p, peval(poly, r), eq_poly(rho, r));
    // the claim is the one that the round polynomial of these data has
    law_nsc_claim_is_rlc(s.left, s.right, rho, d1, d2);
    lemma_mod(p, t1);
    lemma_mod(p, t2);
    lemma_cong_mul(p, 1 - rho, u1.t, 1 - rho, t1);
    lemma_cong_mul(p, rho, u2.t, rho, t2);
    lemma_cong_add(p, (1 - rho) * u1.t, rho * u2.t, (1 - rho) * t1, rho * t2);
    lemma_nsc_round_is_poly(s.left, s.right, rho, d1, d2);
    law_round_poly_everywhere(p, inv, poly, claim, g, r);
    // what is left at the challenge is the interpolated sum, which is the claim of the folded pair
    let total = nsc_sum(s.left, s.right, lerp_nsc(d1, d2, r));
    law_output_claim(p, peval(poly, r), eq_poly(rho, r), total);
    law_folded_claim(p, s, u1, w1, u2, w2, r, t_out);
    // the commitments
    law_commitment_folds(p, ck, h, u1.comm_w, w1.w, w1.r_w, u2.comm_w, w2.w, w2.r_w, r);
    law_commitment_folds(p, ck, h, u1.comm_e, w1.e, w1.r_e, u2.comm_e, w2.e, w2.r_e, r);
}

/// A fold of honest parties succeeds: if the running pair is satisfied and the constraints of the
/// fresh pair hold, then an honest message passes the verifier's check, the verifier's instance is
/// the prover's, and the folded witness satisfies it.
pub proof fn law_nifs_complete<E: Engine>(
    m: PoseidonModel,
    pp_digest: int,
    ck: CommitmentKey<E>,
    s: StructureModel,
    u1: NscInstance,
    w1: NscWitness,
    u2: R1CSInstance<E>,
    w2: R1CSWitness<E>,
    r_e: int,
    nifs: NIFS<E>,
    u: FoldedInstance<E>,
    w: FoldedWitness<E>,
)
    requires
        s.wf(),
        s.satisfied(E::Scalar::modulus(), ck.bases(), ck.blind(), u1, w1),
        w2.W@.len() == s.shape.num_vars,
        u2.X@.len() == s.shape.num_io,
        constraints_hold(E::Scalar::modulus(), s.shape, vals(w2.W@), vals(u2.X@)),
        is(
            E::Scalar::modulus(),
            u2.comm_W.log(),
            commit_log(ck.bases(), ck.blind(), vals(w2.W@), w2.r_W.val()),
        ),
        honest_message(m, pp_digest, ck, s, u1, w1, u2, w2, r_e, nifs),
        prover_returns(
            m,
            pp_digest,
            s,
            u1,
            w1,
            u2,
            w2,
            r_e,
            nifs,
            Ok::<_, NovaError>((nifs, (u, w))),
        ),
    ensures
        sums_to_claim(
            E::Scalar::modulus(),
            nifs.poly@,
            fold_challenges(m, pp_digest, u2, nifs).rho,
            u1.t,
        ),
        u@ == folded_instance(m, pp_digest, u1, u2, nifs),
        s.satisfied(E::Scalar::modulus(), ck.bases(), ck.blind(), u@, w@),
{
    let p = E::Scalar::modulus();
    let inv = E::Scalar::lemma_modulus();
    let ch = fold_challenges(m, pp_digest, u2, nifs);
    let inst2 = fresh_instance(u2, nifs.comm_E.log());
    let wit2 = weighted_witness(s, w2, ch.tau, r_e);
    vstd::arithmetic::div_mod::lemma_small_mod(0, p as nat);
    law_fresh_claim_is_zero(p, s, inst2, wit2);
    assert(s.satisfied(p, ck.bases(), ck.blind(), inst2, wit2));
    let rho = ch.rho;
    assert(rho * 0 == 0) by (nonlinear_arith);
    law_fold_satisfied(
        p,
        inv,
        s,
        ck.bases(),
        ck.blind(),
        u1,
        w1,
        inst2,
        wit2,
        ch.rho,
        ch.r_b,
        (1 - ch.rho) * u1.t,
        nifs.poly@,
    );
}

/// The zero pair that a fold starts from is satisfied.
pub proof fn law_default_satisfied(
    p: int,
    s: StructureModel,
    ck: Seq<int>,
    h: int,
    u: NscInstance,
    w: NscWitness,
)
    requires
        p > 0,
        s.wf(),
        u == (NscInstance {
            comm_w: 0,
            comm_e: 0,
            t: 0,
            u: 0,
            x: Seq::new(s.shape.num_io, |i: int| 0int),
        }),
        w == (NscWitness {
            w: Seq::new(s.shape.num_vars, |i: int| 0int),
            r_w: 0,
            e: Seq::new((s.left + s.right) as nat, |i: int| 0int),
            r_e: 0,
            split: s.left as nat,
        }),
    ensures
        s.satisfied(p, ck, h, u, w),
{
    vstd::arithmetic::div_mod::lemma_small_mod(0, p as nat);
    let d = claim_data(s.shape, u, w);
    let f = |i: int| d.e[s.left + i] * nsc_row(s.left, d, i, s.left);
    assert forall|i: int| 0 <= i < s.right implies #[trigger] f(i) % p == 0 by {
        let r = nsc_row(s.left, d, i, s.left);
        assert(0 * r == 0) by (nonlinear_arith);
    }
    lemma_sum_zero(p, f, 0, s.right);
    lemma_commit_zero(p, ck, h, w.w.len());
    lemma_commit_zero(p, ck, h, w.e.len());
}

/// The commitment to zeros under zero randomness is the identity.
pub proof fn lemma_commit_zero(p: int, ck: Seq<int>, h: int, n: nat)
    requires
        p > 0,
    ensures
        is(p, 0, commit_log(ck, h, Seq::new(n, |i: int| 0int), 0)),
{
    vstd::arithmetic::div_mod::lemma_small_mod(0, p as nat);
    let v = Seq::new(n, |i: int| 0int);
    let f = |i: int| v[i] * ck[i];
    assert forall|i: int| 0 <= i < n implies #[trigger] f(i) % p == 0 by {
        let c = ck[i];
        assert(0 * c == 0) by (nonlinear_arith);
    }
    lemma_sum_zero(p, f, 0, n as int);
    assert(0 * h == 0) by (nonlinear_arith);
}

} // verus!
