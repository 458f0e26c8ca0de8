//! What the polynomials are that provers send.
use vstd::prelude::*;
use crate::arith::{cong_seq, is, lemma_cong_mul, lemma_mod};
use crate::commitment::CommitmentKey;
use crate::conversion_laws::{in_a_row, lemma_in_a_row, lemma_weights};
use crate::errors::NovaError;
use crate::field::{vals, Field};
use crate::nifs::{honest_message, prover_returns, weighted_witness, NIFS};
use crate::nifs_laws::{is_table_of_powers, lemma_left_of, nifs_reads};
use crate::power_check_laws::pc_claim_data;
use crate::power_check_relation::{
    FoldedPowerCheckInstance, FoldedPowerCheckWitness, PowerCheckInstance, PowerCheckStructure,
    PowerCheckWitness,
};
use crate::r1cs::{mat_vec, R1CSInstance, R1CSShape, R1CSWitness};
use crate::relation::{claim_data, fresh_instance, FoldedInstance, FoldedWitness, Structure};
use crate::ro::{poseidon, PoseidonConstants, PoseidonRO};
use crate::round_value_laws::{is_point, value_at};
use crate::sumcheck::{
    eq_poly, lemma_nsc_lerp_cong, lerp_nsc, nsc_sum, pc_data, prove_helper, prove_helper_pc,
    EvalAcc, NscData,
};
use crate::traits::{Engine, Group};
use crate::transcript_laws::{
    drawn, left_of, lemma_behind_commitment, lemma_behind_polynomial, lemma_starts,
};
use crate::univariate::peval;
use crate::zerofold_nifs::{
    honest_proof, nsc_data, run_combined_sumfold, state_of, zerofold_pc_witness, zerofold_returns,
    zerofold_witness, CombinedSumfoldOutput, ProofModel, ZeroFoldNIFS, ZeroFoldOutput,
};
use crate::zerofold_transcript::{
    adds_up, holds_combination, lemma_behind_combination, lemma_zerofold_reads, zerofold_reads,
};

verus! {

/// The polynomial has six coefficients and takes the values of a round at its points.
pub open spec fn takes<F: Field>(poly: Seq<int>, acc: EvalAcc<F>) -> bool {
    &&& poly.len() == 6
    &&& forall|t: int| #[trigger]
        is_point(t) ==> peval(poly, t) % F::modulus() == value_at(acc, t).val()
}

/// Products of matrices with a vector are congruent to those that the contracts speak of.
proof fn lemma_products<E: Engine>(
    shape: &R1CSShape<E>,
    z: &[E::Scalar],
    abc: (Vec<E::Scalar>, Vec<E::Scalar>, Vec<E::Scalar>),
)
    requires
        call_ensures(R1CSShape::<E>::multiply_vec, (shape, z), Ok(abc)),
    ensures
        ({
            let (p, n) = (E::Scalar::modulus(), shape@.num_cons);
            &&& cong_seq(p, mat_vec(shape@.a, n, vals(z@)), vals(abc.0@))
            &&& cong_seq(p, mat_vec(shape@.b, n, vals(z@)), vals(abc.1@))
            &&& cong_seq(p, mat_vec(shape@.c, n, vals(z@)), vals(abc.2@))
        }),
{
    let (p, n) = (E::Scalar::modulus(), shape@.num_cons);
    E::Scalar::lemma_modulus();
    assert forall|i: int| 0 <= i < n implies #[trigger] mat_vec(shape@.a, n, vals(z@))[i] % p
        == vals(abc.0@)[i] % p by {
        assert(is(p, abc.0@[i].val(), mat_vec(shape@.a, n, vals(z@))[i]));
        lemma_mod(p, mat_vec(shape@.a, n, vals(z@))[i]);
    }
    assert forall|i: int| 0 <= i < n implies #[trigger] mat_vec(shape@.b, n, vals(z@))[i] % p
        == vals(abc.1@)[i] % p by {
        assert(is(p, abc.1@[i].val(), mat_vec(shape@.b, n, vals(z@))[i]));
        lemma_mod(p, mat_vec(shape@.b, n, vals(z@))[i]);
    }
    assert forall|i: int| 0 <= i < n implies #[trigger] mat_vec(shape@.c, n, vals(z@))[i] % p
        == vals(abc.2@)[i] % p by {
        assert(is(p, abc.2@[i].val(), mat_vec(shape@.c, n, vals(z@))[i]));
        lemma_mod(p, mat_vec(shape@.c, n, vals(z@))[i]);
    }
}

/// The value of a round at a point depends only on the residues of its data.
proof fn lemma_round_cong(
    p: int,
    left: int,
    right: int,
    rho: int,
    a1: NscData,
    a2: NscData,
    b1: NscData,
    b2: NscData,
    t: int,
)
    requires
        p > 0,
        left >= 0,
        right >= 0,
        crate::sumcheck::nsc_shape(left, right, a1),
        crate::sumcheck::nsc_shape(left, right, a2),
        cong_seq(p, a1.e, b1.e),
        cong_seq(p, a1.az, b1.az),
        cong_seq(p, a1.bz, b1.bz),
        cong_seq(p, a1.cz, b1.cz),
        cong_seq(p, a2.e, b2.e),
        cong_seq(p, a2.az, b2.az),
        cong_seq(p, a2.bz, b2.bz),
        cong_seq(p, a2.cz, b2.cz),
    ensures
        (eq_poly(rho, t) * nsc_sum(left, right, lerp_nsc(a1, a2, t))) % p == (eq_poly(rho, t)
            * nsc_sum(left, right, lerp_nsc(b1, b2, t))) % p,
{
    lemma_nsc_lerp_cong(p, left, right, a1, a2, b1, b2, t);
    lemma_cong_mul(
        p,
        eq_poly(rho, t),
        nsc_sum(left, right, lerp_nsc(a1, a2, t)),
        eq_poly(rho, t),
        nsc_sum(left, right, lerp_nsc(b1, b2, t)),
    );
}

/// The polynomial that a prover of the main relation sends takes the values of the round over the
/// running weights, the powers of the first challenge, and the products of the matrices with both
/// vectors, under the second challenge.
pub proof fn law_nifs_polynomial<E: Engine>(
    ck: &CommitmentKey<E>,
    ro: &PoseidonConstants<E::Scalar>,
    digest: &E::Scalar,
    s: &Structure<E>,
    u1: &FoldedInstance<E>,
    w1: &FoldedWitness<E>,
    u2: &R1CSInstance<E>,
    w2: &R1CSWitness<E>,
    r_e: E::Scalar,
    out: (NIFS<E>, (FoldedInstance<E>, FoldedWitness<E>)),
    t: (Seq<int>, Seq<int>, Seq<int>),
    shape: &R1CSShape<E>,
    z: (&[E::Scalar], &[E::Scalar]),
    abc: (
        (Vec<E::Scalar>, Vec<E::Scalar>, Vec<E::Scalar>),
        (Vec<E::Scalar>, Vec<E::Scalar>, Vec<E::Scalar>),
    ),
    products: (
        (&[E::Scalar], &[E::Scalar], &[E::Scalar]),
        (&[E::Scalar], &[E::Scalar], &[E::Scalar]),
    ),
    weights: (&[E::Scalar], &[E::Scalar]),
    rho: &E::Scalar,
    dims: (usize, usize),
    acc: EvalAcc<E::Scalar>,
)
    requires
        call_ensures(
            NIFS::<E>::prove_with_randomness,
            (ck, ro, digest, s, u1, w1, u2, w2, r_e),
            Ok(out),
        ),
        s@.wf(),
        w1@.e.len() == s@.left + s@.right,
        nifs_reads(ro@, digest.val(), *u2, out.0, t),
        rho.val() == drawn(E::Scalar::modulus(), ro@, t.1),
        dims.0 == s@.left,
        dims.1 == s@.right,
        shape@ == s@.shape,
        in_a_row(z.0@, w1.W@, u1.u.val(), u1.X@),
        in_a_row(z.1@, w2.W@, 1, u2.X@),
        call_ensures(R1CSShape::<E>::multiply_vec, (shape, z.0), Ok(abc.0)),
        call_ensures(R1CSShape::<E>::multiply_vec, (shape, z.1), Ok(abc.1)),
        products.0.0@ == abc.0.0@,
        products.0.1@ == abc.0.1@,
        products.0.2@ == abc.0.2@,
        products.1.0@ == abc.1.0@,
        products.1.1@ == abc.1.1@,
        products.1.2@ == abc.1.2@,
        vals(weights.0@) == w1.E@,
        is_table_of_powers(
            weights.1@,
            drawn(E::Scalar::modulus(), ro@, t.0),
            s@.left as nat,
            s@.right as nat,
        ),
        call_ensures(
            prove_helper::<E>,
            (
                rho,
                dims,
                weights.0,
                products.0.0,
                products.0.1,
                products.0.2,
                weights.1,
                products.1.0,
                products.1.1,
                products.1.2,
            ),
            acc,
        ),
    ensures
        takes(out.0.poly@, acc),
{
    let p = E::Scalar::modulus();
    E::Scalar::lemma_modulus();
    let m = ro@;
    lemma_starts(t.0, digest.val(), *u2);
    lemma_behind_commitment::<E>(t.1, poseidon(p, m, t.0), out.0.comm_E);
    lemma_behind_polynomial(t.2, poseidon(p, m, t.1), out.0.poly@);
    assert(t.0.take(t.0.len() as int) =~= t.0);
    let nifs = choose|nifs: NIFS<E>| #[trigger]
        honest_message(m, digest.val(), *ck, s@, u1@, w1@, *u2, *w2, r_e.val(), nifs)
            && prover_returns(
            m,
            digest.val(),
            s@,
            u1@,
            w1@,
            *u2,
            *w2,
            r_e.val(),
            nifs,
            Ok(out),
        );
    assert(nifs == out.0);
    let wit2 = weighted_witness(s@, *w2, drawn(p, m, t.0), r_e.val());
    assert(wit2.e =~= vals(weights.1@)) by {
        assert forall|i: int| 0 <= i < wit2.e.len() implies wit2.e[i] == vals(weights.1@)[i] by {
            assert(vals(weights.1@)[i] == weights.1@[i].val());
        }
    }
    lemma_in_a_row(z.0@, w1.W@, u1.u.val(), u1.X@);
    lemma_in_a_row(z.1@, w2.W@, 1, u2.X@);
    lemma_products(shape, z.0, abc.0);
    lemma_products(shape, z.1, abc.1);
    let d1 = claim_data(s@.shape, u1@, w1@);
    let d2 = claim_data(s@.shape, fresh_instance(*u2, nifs.comm_E.log()), wit2);
    let f1 = nsc_data(weights.0, products.0);
    let f2 = nsc_data(weights.1, products.1);
    assert forall|x: int| #[trigger] is_point(x) implies peval(out.0.poly@, x) % p == value_at(
        acc,
        x,
    ).val() by {
        lemma_round_cong(p, s@.left, s@.right, rho.val(), d1, d2, f1, f2, x);
        assert(is(
            p,
            value_at(acc, x).val(),
            eq_poly(rho.val(), x) * nsc_sum(s@.left, s@.right, lerp_nsc(f1, f2, x)),
        ));
    }
}

/// The polynomials that a prover of both relations sends take the values of the rounds: that of the
/// main relation over the running weights, the powers of the first challenge, the running products
/// and those of the fresh vector; that of the power check over the running weights and table, the
/// powers of the first challenge and the fresh table, with the scalars of both power checks.
pub proof fn law_zerofold_polynomials<E: Engine>(
    ck: &CommitmentKey<E>,
    ro: &PoseidonConstants<E::Scalar>,
    digest: &E::Scalar,
    s: &Structure<E>,
    s_pc: &PowerCheckStructure,
    nsc: (&FoldedInstance<E>, &FoldedWitness<E>),
    abc: (&[E::Scalar], &[E::Scalar], &[E::Scalar]),
    nsc_pc: (&FoldedPowerCheckInstance<E>, &FoldedPowerCheckWitness<E>),
    r1cs: (&R1CSInstance<E>, &R1CSWitness<E>),
    zc_pc: (&PowerCheckInstance<E>, &PowerCheckWitness<E>),
    r_e: E::Scalar,
    out: ZeroFoldOutput<E>,
    t: (Seq<int>, Seq<int>, Seq<int>, Seq<int>),
    shape: &R1CSShape<E>,
    z: &[E::Scalar],
    fresh: (Vec<E::Scalar>, Vec<E::Scalar>, Vec<E::Scalar>),
    products: (&[E::Scalar], &[E::Scalar], &[E::Scalar]),
    weights: (&[E::Scalar], &[E::Scalar]),
    halves: ((&[E::Scalar], &[E::Scalar]), (&[E::Scalar], &[E::Scalar])),
    tables: ((&[E::Scalar], &[E::Scalar]), (&[E::Scalar], &[E::Scalar])),
    rho: &E::Scalar,
    dims: (usize, usize),
    tau: (&E::Scalar, &E::Scalar),
    acc: EvalAcc<E::Scalar>,
    acc_pc: EvalAcc<E::Scalar>,
)
    requires
        call_ensures(
            ZeroFoldNIFS::<E>::prove_with_randomness,
            (ck, ro, digest, s, s_pc, nsc, abc, nsc_pc, r1cs, zc_pc, r_e),
            Ok(out),
        ),
        s@.wf(),
        state_of(nsc, abc, nsc_pc).shaped(s@),
        zc_pc.1.powers.model().splits(s@.left, s@.right),
        zerofold_reads(ro@, digest.val(), *r1cs.0, *zc_pc.0, out.nifs, t),
        rho.val() == drawn(E::Scalar::modulus(), ro@, t.1),
        dims.0 == s@.left,
        dims.1 == s@.right,
        shape@ == s@.shape,
        in_a_row(z@, r1cs.1.W@, 1, r1cs.0.X@),
        call_ensures(R1CSShape::<E>::multiply_vec, (shape, z), Ok(fresh)),
        products.0@ == fresh.0@,
        products.1@ == fresh.1@,
        products.2@ == fresh.2@,
        vals(weights.0@) == nsc.1.E@,
        is_table_of_powers(
            weights.1@,
            drawn(E::Scalar::modulus(), ro@, t.0),
            s@.left as nat,
            s@.right as nat,
        ),
        call_ensures(
            prove_helper::<E>,
            (
                rho,
                dims,
                weights.0,
                abc.0,
                abc.1,
                abc.2,
                weights.1,
                products.0,
                products.1,
                products.2,
            ),
            acc,
        ),
        s_pc.left == s@.left,
        s_pc.right == s@.right,
        s_pc.num_cons == s@.left + s@.right,
        halves.0.0@.len() == s@.left,
        halves.1.0@.len() == s@.left,
        tables.0.0@.len() == s@.left,
        tables.1.0@.len() == s@.left,
        vals(halves.0.0@) + vals(halves.0.1@) == nsc_pc.1.weights@,
        vals(halves.1.0@) + vals(halves.1.1@) == vals(weights.1@),
        vals(tables.0.0@) + vals(tables.0.1@) == nsc_pc.1.witness@,
        vals(tables.1.0@) + vals(tables.1.1@) == zc_pc.1.powers@,
        tau.0.val() == nsc_pc.0.tau.val(),
        tau.1.val() == zc_pc.0.tau.val(),
        call_ensures(
            prove_helper_pc::<E>,
            (rho, s_pc, halves.0, halves.1, tables.0, tables.1, tau.0, tau.1),
            acc_pc,
        ),
    ensures
        takes(out.nifs.poly_nsc@, acc),
        takes(out.nifs.poly_pc@, acc_pc),
{
    let p = E::Scalar::modulus();
    E::Scalar::lemma_modulus();
    let m = ro@;
    lemma_zerofold_reads(m, digest.val(), *r1cs.0, *zc_pc.0, out.nifs, t);
    let st = state_of(nsc, abc, nsc_pc);
    let nifs = choose|nifs: ProofModel| #[trigger]
        honest_proof(m, digest.val(), *ck, s@, st, r1cs, zc_pc, r_e.val(), nifs)
            && zerofold_returns(
            m,
            digest.val(),
            s@,
            st,
            r1cs,
            zc_pc,
            r_e.val(),
            nifs,
            Ok(out),
        );
    assert(nifs == out.nifs@);
    let fold_tau = drawn(p, m, t.0);
    lemma_weights::<E>(s@, fold_tau, r_e.val(), weights.1@);
    lemma_in_a_row(z@, r1cs.1.W@, 1, r1cs.0.X@);
    lemma_products(shape, z, fresh);
    let wit2 = zerofold_witness(s@, *r1cs.1, fold_tau, r_e.val());
    let wit2_pc = zerofold_pc_witness(s@, *zc_pc.1, fold_tau, r_e.val());
    let d2 = claim_data(s@.shape, fresh_instance(*r1cs.0, nifs.comm), wit2);
    let f1 = nsc_data(weights.0, abc);
    let f2 = nsc_data(weights.1, products);
    assert(st.data() == f1);
    assert forall|x: int| #[trigger] is_point(x) implies peval(out.nifs.poly_nsc@, x) % p
        == value_at(acc, x).val() by {
        lemma_round_cong(p, s@.left, s@.right, rho.val(), f1, d2, f1, f2, x);
        assert(is(
            p,
            value_at(acc, x).val(),
            eq_poly(rho.val(), x) * nsc_sum(s@.left, s@.right, lerp_nsc(f1, f2, x)),
        ));
    }
    let e1 = pc_claim_data(st.w_pc, st.u_pc.tau);
    let e2 = pc_claim_data(wit2_pc, zc_pc.0.tau.val());
    let g1 = pc_data(halves.0, tables.0, *tau.0);
    let g2 = pc_data(halves.1, tables.1, *tau.1);
    assert(e1.wl =~= g1.wl && e1.wr =~= g1.wr && e1.e1 =~= g1.e1 && e1.e2 =~= g1.e2);
    assert(e2.wl =~= g2.wl && e2.wr =~= g2.wr && e2.e1 =~= g2.e1 && e2.e2 =~= g2.e2);
    assert(e1 == g1 && e2 == g2);
    assert forall|x: int| #[trigger] is_point(x) implies peval(out.nifs.poly_pc@, x) % p
        == value_at(acc_pc, x).val() by {
        assert(is(
            p,
            value_at(acc_pc, x).val(),
            eq_poly(rho.val(), x) * crate::sumcheck::pc_sum(
                s@.left,
                s@.right,
                s@.left + s@.right,
                crate::sumcheck::lerp_pc(e1, e2, x),
            ),
        ));
    }
}

/// A combined round draws the first challenge from what the oracle remembers, and the second from
/// the hash of that and the polynomials, combined under the first challenge. The polynomials take
/// the values of the rounds and add up to the claims, and each leaves its own claim. The oracle
/// remembers the hash that the second challenge was drawn from.
pub proof fn law_combined_round<E: Engine>(
    rho: &E::Scalar,
    claims: (E::Scalar, E::Scalar),
    dims: (usize, usize),
    e: (&[E::Scalar], &[E::Scalar]),
    abc1: (&[E::Scalar], &[E::Scalar], &[E::Scalar]),
    abc2: (&[E::Scalar], &[E::Scalar], &[E::Scalar]),
    s_pc: &PowerCheckStructure,
    weights: ((&[E::Scalar], &[E::Scalar]), (&[E::Scalar], &[E::Scalar])),
    tables: ((&[E::Scalar], &[E::Scalar]), (&[E::Scalar], &[E::Scalar])),
    tau: (&E::Scalar, &E::Scalar),
    ro: &mut PoseidonRO<E::Scalar>,
    out: CombinedSumfoldOutput<E::Scalar>,
    t: Seq<int>,
    acc: EvalAcc<E::Scalar>,
    acc_pc: EvalAcc<E::Scalar>,
)
    requires
        call_ensures(
            run_combined_sumfold::<E>,
            (
                rho,
                claims.0,
                dims,
                e.0,
                abc1,
                e.1,
                abc2,
                claims.1,
                s_pc,
                weights.0,
                weights.1,
                tables.0,
                tables.1,
                tau.0,
                tau.1,
                ro,
            ),
            Ok::<CombinedSumfoldOutput<E::Scalar>, NovaError>(out),
        ),
        holds_combination(
            E::Scalar::modulus(),
            t,
            poseidon(E::Scalar::modulus(), old(ro).params(), old(ro)@),
            out.poly_nsc@,
            out.poly_pc@,
            drawn(E::Scalar::modulus(), old(ro).params(), old(ro)@),
        ),
        call_ensures(
            prove_helper::<E>,
            (rho, dims, e.0, abc1.0, abc1.1, abc1.2, e.1, abc2.0, abc2.1, abc2.2),
            acc,
        ),
        call_ensures(
            prove_helper_pc::<E>,
            (rho, s_pc, weights.0, weights.1, tables.0, tables.1, tau.0, tau.1),
            acc_pc,
        ),
    ensures
        ({
            let p = E::Scalar::modulus();
            let m = old(ro).params();
            let r_b = drawn(p, m, t);
            &&& out.gamma.val() == drawn(p, m, old(ro)@)
            &&& out.r_b.val() == r_b
            &&& takes(out.poly_nsc@, acc)
            &&& takes(out.poly_pc@, acc_pc)
            &&& adds_up(p, out.poly_nsc@, rho.val(), claims.0.val())
            &&& adds_up(p, out.poly_pc@, rho.val(), claims.1.val())
            &&& left_of(p, out.poly_nsc@, rho.val(), r_b, out.sumcheck_claim_out_nsc.val())
            &&& left_of(p, out.poly_pc@, rho.val(), r_b, out.sumcheck_claim_out_pc.val())
            &&& final(ro)@.len() == 1
            &&& final(ro)@[0] == poseidon(p, m, t)
            &&& final(ro).params() == m
        }),
{
    let p = E::Scalar::modulus();
    E::Scalar::lemma_modulus();
    let m = old(ro).params();
    lemma_behind_combination(
        p,
        t,
        poseidon(p, m, old(ro)@),
        out.poly_nsc@,
        out.poly_pc@,
        drawn(p, m, old(ro)@),
    );
    let r_b = drawn(p, m, t);
    lemma_left_of(p, out.poly_nsc@, rho.val(), r_b);
    lemma_left_of(p, out.poly_pc@, rho.val(), r_b);
}

/// What a prover of the main relation returns is accepted, and the verifier folds to the instance
/// that the prover holds. This is so whichever randomness the prover draws.
pub proof fn law_nifs_proofs_are_accepted<E: Engine>(
    ck: &CommitmentKey<E>,
    ro: &PoseidonConstants<E::Scalar>,
    digest: &E::Scalar,
    s: &Structure<E>,
    u1: &FoldedInstance<E>,
    w1: &FoldedWitness<E>,
    u2: &R1CSInstance<E>,
    w2: &R1CSWitness<E>,
    out: (NIFS<E>, (FoldedInstance<E>, FoldedWitness<E>)),
    r: Result<FoldedInstance<E>, NovaError>,
)
    requires
        call_ensures(NIFS::<E>::prove, (ck, ro, digest, s, u1, w1, u2, w2), Ok(out)),
        call_ensures(NIFS::<E>::verify, (&out.0, ro, digest, u1, u2), r),
    ensures
        r is Ok,
        r->Ok_0@ == out.1.0@,
{
    let (r_e, nifs) = choose|r_e: int, nifs: NIFS<E>| #[trigger]
        honest_message(ro@, digest.val(), *ck, s@, u1@, w1@, *u2, *w2, r_e, nifs)
            && prover_returns(
            ro@,
            digest.val(),
            s@,
            u1@,
            w1@,
            *u2,
            *w2,
            r_e,
            nifs,
            Ok(out),
        );
    assert(nifs == out.0);
}

/// What a prover of both relations returns is accepted, and the verifier folds to the instances
/// that the prover holds, and goes on with the same power check. This is so whichever randomness
/// the prover draws.
pub proof fn law_zerofold_proofs_are_accepted<E: Engine>(
    ck: &CommitmentKey<E>,
    ro: &PoseidonConstants<E::Scalar>,
    digest: &E::Scalar,
    s: &Structure<E>,
    s_pc: &PowerCheckStructure,
    nsc: (&FoldedInstance<E>, &FoldedWitness<E>),
    abc: (&[E::Scalar], &[E::Scalar], &[E::Scalar]),
    nsc_pc: (&FoldedPowerCheckInstance<E>, &FoldedPowerCheckWitness<E>),
    r1cs: (&R1CSInstance<E>, &R1CSWitness<E>),
    zc_pc: (&PowerCheckInstance<E>, &PowerCheckWitness<E>),
    out: ZeroFoldOutput<E>,
    r: Result<
        (FoldedInstance<E>, FoldedPowerCheckInstance<E>, PowerCheckInstance<E>),
        NovaError,
    >,
)
    requires
        call_ensures(
            ZeroFoldNIFS::<E>::prove,
            (ck, ro, digest, s, s_pc, nsc, abc, nsc_pc, r1cs, zc_pc),
            Ok(out),
        ),
        call_ensures(
            ZeroFoldNIFS::<E>::verify,
            (&out.nifs, ro, digest, nsc.0, nsc_pc.0, r1cs.0, zc_pc.0),
            r,
        ),
    ensures
        r is Ok,
        r->Ok_0.0@ == out.folded.nsc_instance@,
        r->Ok_0.1@ == out.folded.pc_instance@,
        r->Ok_0.2.comm_powers == out.new_zc_pc.0.comm_powers,
        r->Ok_0.2.tau.val() == out.new_zc_pc.0.tau.val(),
{
    let st = state_of(nsc, abc, nsc_pc);
    let (r_e, nifs) = choose|r_e: int, nifs: ProofModel| #[trigger]
        honest_proof(ro@, digest.val(), *ck, s@, st, r1cs, zc_pc, r_e, nifs)
            && zerofold_returns(
            ro@,
            digest.val(),
            s@,
            st,
            r1cs,
            zc_pc,
            r_e,
            nifs,
            Ok(out),
        );
    assert(nifs == out.nifs@);
}

} // verus!
