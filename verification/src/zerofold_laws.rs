//! Laws of the combined folding scheme: what every fold preserves.
use vstd::prelude::*;
use crate::arith::{cong_seq, fdiv, is, lemma_cong_mul, lemma_sum_ext, lerp_seq, sum};
use crate::commitment::{commit_log, CommitmentKey};
use crate::errors::NovaError;
use crate::field::{vals, Field};
use crate::fold_laws::{
    constraints_hold, law_default_satisfied, law_fold_satisfied, law_folded_products,
    law_fresh_claim_is_zero, lemma_fold_seq, lemma_mod_seq_cong,
};
use crate::nested_sumcheck::{conversion_weights, converted, NSCConversionOutput};
use crate::nifs::sums_to_claim;
use crate::power_check_laws::{
    law_pc_fold_satisfied, law_power_table_valid, law_unit_table_is_powers_of_zero,
    law_weighted_sum_zero, pc_claim_data, pc_satisfied, table_valid,
};
use crate::power_check_relation::{
    fold_pc_instance, fresh_pc_instance, unit_table, PcInstance, PcWitness, PowerCheckInstance,
    PowerCheckWitness,
};
use crate::r1cs::{entry_term, in_bounds, mat_vec, MatrixModel, R1CSInstance, R1CSWitness};
use crate::relation::{
    claim_data, fold_instance, fold_witness, fresh_instance, z_vec, NscInstance, NscWitness,
    StructureModel,
};
use crate::ro::PoseidonModel;
use crate::round_laws::nsc_round;
use crate::sumcheck::{
    eq_poly, is_round_poly, lemma_lerp_seq_cong, lemma_nsc_lerp_cong, lerp_nsc, nsc_sum,
};
use crate::traits::{Engine, Group};
use crate::univariate::peval;
use crate::weight_table::{fold_seq, mod_seq, power_table, TableModel};
use crate::zerofold_nifs::{
    honest_proof, zerofold_challenges, zerofold_pc_witness, zerofold_returns, zerofold_witness,
    ProofModel, ZeroFoldOutput, ZeroFoldState,
};

verus! {

/// The cached products are those of the pair, modulo `p`.
pub open spec fn products_cached(p: int, s: StructureModel, st: ZeroFoldState) -> bool {
    let d = claim_data(s.shape, st.u, st.w);
    &&& cong_seq(p, st.az, d.az)
    &&& cong_seq(p, st.bz, d.bz)
    &&& cong_seq(p, st.cz, d.cz)
}

/// The accumulated state is sound: both relations are satisfied, and the cached products are those
/// of the pair.
pub open spec fn state_satisfied(
    p: int,
    s: StructureModel,
    ck: Seq<int>,
    h: int,
    st: ZeroFoldState,
) -> bool {
    &&& s.satisfied(p, ck, h, st.u, st.w)
    &&& products_cached(p, s, st)
    &&& pc_satisfied(p, s.left, s.right, ck, h, st.u_pc, st.w_pc)
}

/// A fresh power check is sound: the table has the dimensions of the main relation, it holds the
/// powers of the scalar, and the commitment opens to it.
pub open spec fn power_check_satisfied(
    p: int,
    s: StructureModel,
    ck: Seq<int>,
    h: int,
    comm: int,
    tau: int,
    t: TableModel,
) -> bool {
    &&& t.splits(s.left, s.right)
    &&& table_valid(p, t.first(), t.second(), tau)
    &&& is(p, comm, commit_log(ck, h, t.data, t.rand))
}

/// A power check that passes makes a zero claim, whatever the weights, so that it is satisfied as a
/// nested sum-check.
pub proof fn law_fresh_power_check_satisfied(
    p: int,
    s: StructureModel,
    ck: Seq<int>,
    h: int,
    u: PcInstance,
    w: PcWitness,
)
    requires
        p > 0,
        s.wf(),
        u.claim == 0,
        power_check_satisfied(p, s, ck, h, u.comm_witness, u.tau, w.witness),
        w.weights.splits(s.left, s.right),
        is(p, u.comm_weights, commit_log(ck, h, w.weights.data, w.weights.rand)),
    ensures
        pc_satisfied(p, s.left, s.right, ck, h, u, w),
{
    vstd::arithmetic::div_mod::lemma_small_mod(0, p as nat);
    law_weighted_sum_zero(p, s.left, s.right, pc_claim_data(w, u.tau));
}

/// The weights of a conversion pass the power check of their challenge.
pub proof fn lemma_weights_valid<E: Engine>(s: StructureModel, tau: int, r_e: int)
    requires
        s.wf(),
    ensures
        ({
            let t = conversion_weights::<E>(s, tau, r_e);
            &&& t.splits(s.left, s.right)
            &&& table_valid(E::Scalar::modulus(), t.first(), t.second(), tau)
        }),
{
    E::Scalar::lemma_modulus();
    law_power_table_valid(
        E::Scalar::modulus(),
        tau,
        s.left as nat,
        s.right as nat,
        conversion_weights::<E>(s, tau, r_e),
    );
}

/// A conversion yields satisfied claims of zero: if the constraints hold and the power check
/// passes, then both converted pairs are satisfied, and so is the power check that is left.
pub proof fn law_conversion_claims_are_zero<E: Engine>(
    ck: CommitmentKey<E>,
    s: StructureModel,
    zc: (&R1CSInstance<E>, &R1CSWitness<E>),
    zc_pc: (&PowerCheckInstance<E>, &PowerCheckWitness<E>),
    tau: int,
    r_e: int,
    out: NSCConversionOutput<E>,
)
    requires
        s.wf(),
        converted(ck, s, zc, zc_pc, tau, r_e, out),
        zc.1.W@.len() == s.shape.num_vars,
        zc.0.X@.len() == s.shape.num_io,
        constraints_hold(E::Scalar::modulus(), s.shape, vals(zc.1.W@), vals(zc.0.X@)),
        is(
            E::Scalar::modulus(),
            zc.0.comm_W.log(),
            commit_log(ck.bases(), ck.blind(), vals(zc.1.W@), zc.1.r_W.val()),
        ),
        power_check_satisfied(
            E::Scalar::modulus(),
            s,
            ck.bases(),
            ck.blind(),
            zc_pc.0.comm_powers.log(),
            zc_pc.0.tau.val(),
            zc_pc.1.powers.model(),
        ),
    ensures
        out.nsc.0@.t == 0,
        out.nsc_pc.0@.claim == 0,
        s.satisfied(
            E::Scalar::modulus(),
            ck.bases(),
            ck.blind(),
            out.nsc.0@,
            out.nsc.1@,
        ),
        pc_satisfied(
            E::Scalar::modulus(),
            s.left,
            s.right,
            ck.bases(),
            ck.blind(),
            out.nsc_pc.0@,
            out.nsc_pc.1@,
        ),
        power_check_satisfied(
            E::Scalar::modulus(),
            s,
            ck.bases(),
            ck.blind(),
            out.zc_pc.0.comm_powers.log(),
            out.zc_pc.0.tau.val(),
            out.zc_pc.1.powers.model(),
        ),
{
    let p = E::Scalar::modulus();
    E::Scalar::lemma_modulus();
    vstd::arithmetic::div_mod::lemma_small_mod(0, p as nat);
    lemma_weights_valid::<E>(s, tau, r_e);
    law_fresh_claim_is_zero(p, s, out.nsc.0@, out.nsc.1@);
    law_fresh_power_check_satisfied(
        p,
        s,
        ck.bases(),
        ck.blind(),
        out.nsc_pc.0@,
        out.nsc_pc.1@,
    );
}

/// The state that folding starts from is sound: the zero pair of the main relation with zero
/// products, and the table of powers of zero with zero weights.
pub proof fn law_setup_satisfied(
    p: int,
    s: StructureModel,
    ck: Seq<int>,
    h: int,
    st: ZeroFoldState,
)
    requires
        p > 1,
        s.wf(),
        st.u == (NscInstance {
            comm_w: 0,
            comm_e: 0,
            t: 0,
            u: 0,
            x: Seq::new(s.shape.num_io, |i: int| 0int),
        }),
        st.w == (NscWitness {
            w: Seq::new(s.shape.num_vars, |i: int| 0int),
            r_w: 0,
            e: Seq::new((s.left + s.right) as nat, |i: int| 0int),
            r_e: 0,
            split: s.left as nat,
        }),
        st.az == Seq::new((s.left * s.right) as nat, |i: int| 0int),
        st.bz == Seq::new((s.left * s.right) as nat, |i: int| 0int),
        st.cz == Seq::new((s.left * s.right) as nat, |i: int| 0int),
        st.u_pc.claim == 0,
        st.u_pc.tau == 0,
        st.w_pc == (PcWitness {
            witness: TableModel {
                data: unit_table(s.left, s.right),
                rand: 0,
                split: s.left as nat,
            },
            weights: TableModel {
                data: Seq::new((s.left + s.right) as nat, |i: int| 0int),
                rand: 0,
                split: s.left as nat,
            },
        }),
        is(p, st.u_pc.comm_witness, commit_log(ck, h, st.w_pc.witness.data, 0)),
        is(p, st.u_pc.comm_weights, commit_log(ck, h, st.w_pc.weights.data, 0)),
    ensures
        state_satisfied(p, s, ck, h, st),
        table_valid(p, st.w_pc.witness.first(), st.w_pc.witness.second(), 0),
{
    law_default_satisfied(p, s, ck, h, st.u, st.w);
    let n = s.shape.num_cons;
    let z = z_vec(st.w.w, st.u.u, st.u.x);
    assert forall|i: int| 0 <= i < z.len() implies #[trigger] z[i] == 0 by {
        let k = st.w.w.len();
        if i < k {
        } else if i == k {
        } else {
            assert(z[i] == st.u.x[i - k - 1]);
        }
    }
    lemma_zero_product(s.shape.a, n, s.shape.cols(), z);
    lemma_zero_product(s.shape.b, n, s.shape.cols(), z);
    lemma_zero_product(s.shape.c, n, s.shape.cols(), z);
    law_unit_table_valid(p, s.left as nat, s.right as nat, st.w_pc.witness);
    law_fresh_power_check_satisfied(p, s, ck, h, st.u_pc, st.w_pc);
}

/// The table that is one at the start of both halves and zero elsewhere passes the power check of
/// the scalar zero.
pub proof fn law_unit_table_valid(p: int, left: nat, right: nat, t: TableModel)
    requires
        p > 1,
        left >= 1,
        t.data == unit_table(left as int, right as int),
        t.split == left,
    ensures
        table_valid(p, t.first(), t.second(), 0),
{
    law_unit_table_is_powers_of_zero(left, right);
    let reduced = TableModel { data: mod_seq(p, power_table(0, left, right)), ..t };
    assert(reduced.data =~= t.data) by {
        assert forall|i: int| 0 <= i < t.data.len() implies reduced.data[i] == t.data[i] by {
            vstd::arithmetic::div_mod::lemma_small_mod(0, p as nat);
            vstd::arithmetic::div_mod::lemma_small_mod(1, p as nat);
            assert(t.data[i] == power_table(0, left, right)[i]);
        }
    }
    law_power_table_valid(p, 0, left, right, t);
}

/// The product of a matrix with the zero vector is zero.
proof fn lemma_zero_product(m: MatrixModel, rows: nat, cols: int, z: Seq<int>)
    requires
        in_bounds(m, rows as int, cols),
        z.len() == cols,
        forall|i: int| 0 <= i < z.len() ==> #[trigger] z[i] == 0,
    ensures
        mat_vec(m, rows, z) == Seq::new(rows, |i: int| 0int),
{
    assert forall|i: int| 0 <= i < rows implies mat_vec(m, rows, z)[i] == 0 by {
        let f = |k: int| entry_term(m, z, i, k);
        let zero = |k: int| 0int;
        assert forall|k: int| 0 <= k < m.len() implies #[trigger] f(k) == zero(k) by {
            assert(0 <= m[k].0 < rows && 0 <= m[k].1 < cols);
            let v = m[k].2;
            assert(z[m[k].1] == 0);
            assert(v * 0 == 0) by (nonlinear_arith);
        }
        lemma_sum_ext(f, zero, 0, m.len() as int);
        lemma_sum_of_zeros(m.len() as int);
    }
    assert(mat_vec(m, rows, z) =~= Seq::new(rows, |i: int| 0int));
}

/// A sum of zeros is zero.
proof fn lemma_sum_of_zeros(n: int)
    requires
        n >= 0,
    ensures
        sum(|k: int| 0int, 0, n) == 0,
    decreases n,
{
    if n > 0 {
        lemma_sum_of_zeros(n - 1);
    }
}

/// A fold of honest parties succeeds and keeps the state sound: if the accumulated state is sound,
/// the constraints of the fresh pair hold and the fresh power check passes, then an honest proof
/// passes both of the verifier's checks, the verifier arrives at the prover's instances, the
/// folded state is sound, and the power check that is left passes.
pub proof fn law_zerofold_complete<E: Engine>(
    m: PoseidonModel,
    pp_digest: int,
    ck: CommitmentKey<E>,
    s: StructureModel,
    st: ZeroFoldState,
    r1cs: (&R1CSInstance<E>, &R1CSWitness<E>),
    zc_pc: (&PowerCheckInstance<E>, &PowerCheckWitness<E>),
    r_e: int,
    nifs: ProofModel,
    out: ZeroFoldOutput<E>,
)
    requires
        s.wf(),
        state_satisfied(E::Scalar::modulus(), s, ck.bases(), ck.blind(), st),
        r1cs.1.W@.len() == s.shape.num_vars,
        r1cs.0.X@.len() == s.shape.num_io,
        constraints_hold(E::Scalar::modulus(), s.shape, vals(r1cs.1.W@), vals(r1cs.0.X@)),
        is(
            E::Scalar::modulus(),
            r1cs.0.comm_W.log(),
            commit_log(ck.bases(), ck.blind(), vals(r1cs.1.W@), r1cs.1.r_W.val()),
        ),
        power_check_satisfied(
            E::Scalar::modulus(),
            s,
            ck.bases(),
            ck.blind(),
            zc_pc.0.comm_powers.log(),
            zc_pc.0.tau.val(),
            zc_pc.1.powers.model(),
        ),
        honest_proof(m, pp_digest, ck, s, st, r1cs, zc_pc, r_e, nifs),
        zerofold_returns(
            m,
            pp_digest,
            s,
            st,
            r1cs,
            zc_pc,
            r_e,
            nifs,
            Ok::<_, NovaError>(out),
        ),
    ensures
        ({
            let p = E::Scalar::modulus();
            let ch = zerofold_challenges(m, pp_digest, *r1cs.0, *zc_pc.0, out.nifs@);
            let eq = eq_poly(ch.rho, ch.r_b);
            // the verifier's checks
            &&& sums_to_claim(p, out.nifs@.nsc, ch.rho, st.u.t)
            &&& sums_to_claim(p, out.nifs@.pc, ch.rho, st.u_pc.claim)
            &&& eq % p != 0
            // the verifier's instances
            &&& out.folded.nsc_instance@ == fold_instance(
                p,
                st.u,
                fresh_instance(*r1cs.0, out.nifs.comm_E.log()),
                ch.r_b,
                fdiv(p, peval(out.nifs@.nsc, ch.r_b), eq),
            )
            &&& out.folded.pc_instance@ == fold_pc_instance(
                p,
                st.u_pc,
                fresh_pc_instance(*zc_pc.0, out.nifs.comm_E.log()),
                ch.r_b,
                fdiv(p, peval(out.nifs@.pc, ch.r_b), eq),
            )
            &&& out.new_zc_pc.0.comm_powers == out.nifs.comm_E
            &&& out.new_zc_pc.0.tau.val() == ch.tau
        }),
        // the next state
        state_satisfied(
            E::Scalar::modulus(),
            s,
            ck.bases(),
            ck.blind(),
            out.folded@,
        ),
        power_check_satisfied(
            E::Scalar::modulus(),
            s,
            ck.bases(),
            ck.blind(),
            out.new_zc_pc.0.comm_powers.log(),
            out.new_zc_pc.0.tau.val(),
            out.new_zc_pc.1.powers.model(),
        ),
{
    let p = E::Scalar::modulus();
    let inv = E::Scalar::lemma_modulus();
    let (bases, blind) = (ck.bases(), ck.blind());
    vstd::arithmetic::div_mod::lemma_small_mod(0, p as nat);
    let ch = zerofold_challenges(m, pp_digest, *r1cs.0, *zc_pc.0, nifs);
    let (rho, r) = (ch.rho, ch.r_b);
    let inst2 = fresh_instance(*r1cs.0, nifs.comm);
    let wit2 = zerofold_witness(s, *r1cs.1, ch.tau, r_e);
    let inst2_pc = fresh_pc_instance(*zc_pc.0, nifs.comm);
    let wit2_pc = zerofold_pc_witness(s, *zc_pc.1, ch.tau, r_e);
    lemma_weights_valid::<E>(s, ch.tau, r_e);

    // both fresh pairs are satisfied
    law_fresh_claim_is_zero(p, s, inst2, wit2);
    assert(s.satisfied(p, bases, blind, inst2, wit2));
    law_fresh_power_check_satisfied(p, s, bases, blind, inst2_pc, wit2_pc);
    assert(rho * 0 == 0) by (nonlinear_arith);

    lemma_cached_round(p, s, st, inst2, wit2, rho, (1 - rho) * st.u.t, nifs.nsc);
    law_fold_satisfied(
        p,
        inv,
        s,
        bases,
        blind,
        st.u,
        st.w,
        inst2,
        wit2,
        rho,
        r,
        (1 - rho) * st.u.t,
        nifs.nsc,
    );
    law_pc_fold_satisfied(
        p,
        inv,
        s.left,
        s.right,
        bases,
        blind,
        st.u_pc,
        st.w_pc,
        inst2_pc,
        wit2_pc,
        rho,
        r,
        (1 - rho) * st.u_pc.claim,
        nifs.pc,
    );

    lemma_cached_products(p, s, st, inst2, wit2, r, fdiv(p, peval(nifs.nsc, r), eq_poly(rho, r)));
}

/// The round polynomial over the cached products is that over the products of the pair.
pub proof fn lemma_cached_round(
    p: int,
    s: StructureModel,
    st: ZeroFoldState,
    u2: NscInstance,
    w2: NscWitness,
    rho: int,
    claim: int,
    poly: Seq<int>,
)
    requires
        p > 1,
        s.wf(),
        s.fits(st.u, st.w),
        products_cached(p, s, st),
        s.fits(u2, w2),
        is_round_poly(
            p,
            poly,
            claim,
            nsc_round(s.left, s.right, rho, st.data(), claim_data(s.shape, u2, w2)),
        ),
    ensures
        is_round_poly(
            p,
            poly,
            claim,
            nsc_round(
                s.left,
                s.right,
                rho,
                claim_data(s.shape, st.u, st.w),
                claim_data(s.shape, u2, w2),
            ),
        ),
{
    let d1 = claim_data(s.shape, st.u, st.w);
    let d2 = claim_data(s.shape, u2, w2);
    let g = nsc_round(s.left, s.right, rho, st.data(), d2);
    let f = nsc_round(s.left, s.right, rho, d1, d2);
    assert forall|t: int| #[trigger] g(t) % p == f(t) % p by {
        lemma_nsc_lerp_cong(p, s.left, s.right, st.data(), d2, d1, d2, t);
        lemma_cong_mul(
            p,
            eq_poly(rho, t),
            nsc_sum(s.left, s.right, lerp_nsc(st.data(), d2, t)),
            eq_poly(rho, t),
            nsc_sum(s.left, s.right, lerp_nsc(d1, d2, t)),
        );
    }
    assert(g(0) % p == f(0) % p && g(2) % p == f(2) % p && g(3) % p == f(3) % p && g(4) % p == f(4)
        % p && g(5) % p == f(5) % p);
}

/// The folded products are those of the folded pair.
pub proof fn lemma_cached_products(
    p: int,
    s: StructureModel,
    st: ZeroFoldState,
    u2: NscInstance,
    w2: NscWitness,
    r: int,
    t_out: int,
)
    requires
        p > 0,
        s.wf(),
        s.fits(st.u, st.w),
        products_cached(p, s, st),
        s.fits(u2, w2),
    ensures
        ({
            let d2 = claim_data(s.shape, u2, w2);
            let df = claim_data(
                s.shape,
                fold_instance(p, st.u, u2, r, t_out),
                fold_witness(p, st.w, w2, r),
            );
            &&& cong_seq(p, fold_seq(p, st.az, mod_seq(p, d2.az), r), df.az)
            &&& cong_seq(p, fold_seq(p, st.bz, mod_seq(p, d2.bz), r), df.bz)
            &&& cong_seq(p, fold_seq(p, st.cz, mod_seq(p, d2.cz), r), df.cz)
        }),
{
    let d1 = claim_data(s.shape, st.u, st.w);
    let d2 = claim_data(s.shape, u2, w2);
    let df = claim_data(
        s.shape,
        fold_instance(p, st.u, u2, r, t_out),
        fold_witness(p, st.w, w2, r),
    );
    law_folded_products(p, s, st.u, st.w, u2, w2, r, t_out);
    lemma_cached(p, st.az, d1.az, d2.az, df.az, r);
    lemma_cached(p, st.bz, d1.bz, d2.bz, df.bz, r);
    lemma_cached(p, st.cz, d1.cz, d2.cz, df.cz, r);
}

/// Folding a cached product gives the product of the folded vector.
proof fn lemma_cached(
    p: int,
    cached: Seq<int>,
    a: Seq<int>,
    b: Seq<int>,
    folded: Seq<int>,
    r: int,
)
    requires
        p > 0,
        cong_seq(p, cached, a),
        a.len() == b.len(),
        cong_seq(p, folded, lerp_seq(a, b, r)),
    ensures
        cong_seq(p, fold_seq(p, cached, mod_seq(p, b), r), folded),
{
    let c = fold_seq(p, cached, mod_seq(p, b), r);
    lemma_mod_seq_cong(p, b);
    lemma_fold_seq(p, cached, mod_seq(p, b), r);
    lemma_lerp_seq_cong(p, cached, mod_seq(p, b), a, b, r);
    assert forall|i: int| 0 <= i < c.len() implies #[trigger] c[i] % p == folded[i] % p by {
        assert(c[i] % p == lerp_seq(cached, mod_seq(p, b), r)[i] % p);
        assert(lerp_seq(cached, mod_seq(p, b), r)[i] % p == lerp_seq(a, b, r)[i] % p);
        assert(folded[i] % p == lerp_seq(a, b, r)[i] % p);
    }
}

} // verus!
