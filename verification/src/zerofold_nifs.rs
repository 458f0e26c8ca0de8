//! The folding scheme for the main relation and the power check together.
use vstd::prelude::*;
use crate::arith::{fdiv, group_is, invertible, is, lemma_cong_mul, lemma_mod};
use crate::commitment::{commit_log, CommitmentKey};
use crate::errors::NovaError;
use crate::field::{lemma_seed, lemma_seed_const, vals, Field};
use crate::nested_sumcheck::{conversion_transcript, conversion_weights, convert_with_randomness};
use crate::fold_laws::lemma_mod_seq_cong;
use crate::nifs::sums_to_claim;
use crate::power_check_laws::pc_claim_data;
use crate::power_check_relation::{
    fold_pc_instance, fold_pc_witness, fresh_pc_instance, unit_table, unit_vec,
    FoldedPowerCheckInstance, FoldedPowerCheckWitness, PcInstance, PcWitness,
    PowerCheckInstance, PowerCheckStructure, PowerCheckWitness,
};
use crate::r1cs::{R1CSInstance, R1CSWitness};
use crate::relation::{
    claim_data, fold_instance, fold_witness, fresh_instance, zeros, FoldedInstance,
    FoldedWitness, NscInstance, NscWitness, Structure, StructureModel,
};
use crate::ro::{
    challenge, poseidon, PoseidonConstants, PoseidonModel, PoseidonRO, NUM_CHALLENGE_BITS,
};
use crate::round_laws::{nsc_round, pc_round};
use crate::sumcheck::{
    eq_poly, is_round_poly, lemma_nsc_lerp_cong, lerp_nsc, nsc_shape, nsc_sum, output_claim,
    pc_data, pc_shape, prove_helper, prove_helper_pc, round_poly, NscData,
};
use crate::traits::{Engine, Group};
use crate::transcript::{absorb_commitment, point_elements, AbsorbInRO2Trait};
use crate::univariate::{padd, peval, pscale, UniPoly};
use crate::weight_table::{fold_seq, fold_slices, mod_seq, TableModel, WeightTable};

verus! {

/// The proof of one fold: a commitment to the fresh weights, and one round polynomial for each
/// relation.
#[derive(Clone, Debug, PartialEq, Eq)]
pub struct ZeroFoldNIFS<E: Engine> {
    /// Commitment to the weights.
    pub comm_E: E::GE,
    /// Round polynomial of the main relation.
    pub poly_nsc: UniPoly<E::Scalar>,
    /// Round polynomial of the power check.
    pub poly_pc: UniPoly<E::Scalar>,
}

/// A proof: the logarithm and the coordinates of its commitment, and its polynomials.
pub struct ProofModel {
    pub comm: int,
    pub coords: (Seq<u64>, Seq<u64>),
    pub nsc: Seq<int>,
    pub pc: Seq<int>,
}

impl<E: Engine> ZeroFoldNIFS<E> {
    /// The mathematical proof.
    pub open spec fn view(self) -> ProofModel {
        ProofModel {
            comm: self.comm_E.log(),
            coords: self.comm_E.coords(),
            nsc: self.poly_nsc@,
            pc: self.poly_pc@,
        }
    }
}

/// The folded state: both relations, with the matrix products cached for the next fold.
pub struct FoldedState<E: Engine> {
    /// Folded instance of the main relation.
    pub nsc_instance: FoldedInstance<E>,
    /// Folded witness of the main relation.
    pub nsc_witness: FoldedWitness<E>,
    /// Folded product of the first matrix.
    pub Az: Vec<E::Scalar>,
    /// Folded product of the second matrix.
    pub Bz: Vec<E::Scalar>,
    /// Folded product of the third matrix.
    pub Cz: Vec<E::Scalar>,
    /// Folded instance of the power check.
    pub pc_instance: FoldedPowerCheckInstance<E>,
    /// Folded witness of the power check.
    pub pc_witness: FoldedPowerCheckWitness<E>,
}

/// What the prover returns.
pub struct ZeroFoldOutput<E: Engine> {
    /// The proof.
    pub nifs: ZeroFoldNIFS<E>,
    /// The challenge that combines the polynomials in the transcript.
    pub gamma: E::Scalar,
    /// The folded state.
    pub folded: FoldedState<E>,
    /// The power check of the fresh weights, for the next fold.
    pub new_zc_pc: (PowerCheckInstance<E>, PowerCheckWitness<E>),
    /// The challenge that the fresh weights are the powers of.
    pub tau: E::Scalar,
    /// The challenge that combines the claims.
    pub rho: E::Scalar,
    /// The folding challenge.
    pub r_b: E::Scalar,
}

/// The polynomial `a + gamma b` over the residues modulo `p`.
pub open spec fn combined_poly(p: int, a: Seq<int>, b: Seq<int>, gamma: int) -> Seq<int> {
    padd(p, a, pscale(p, b, gamma))
}

/// What one round of sum-check over both relations yields.
pub struct CombinedSumfoldOutput<F> {
    /// The challenge that combines the polynomials.
    pub gamma: F,
    /// The folding challenge.
    pub r_b: F,
    /// Round polynomial of the main relation.
    pub poly_nsc: UniPoly<F>,
    /// Round polynomial of the power check.
    pub poly_pc: UniPoly<F>,
    /// The claim that is left for the main relation.
    pub sumcheck_claim_out_nsc: F,
    /// The claim that is left for the power check.
    pub sumcheck_claim_out_pc: F,
}

/// What the oracle has absorbed when the folding challenge is drawn: the hash of what came before,
/// and the combined polynomial.
pub open spec fn sumfold_transcript(
    p: int,
    m: PoseidonModel,
    before: Seq<int>,
    poly_nsc: Seq<int>,
    poly_pc: Seq<int>,
) -> Seq<int> {
    let gamma = challenge(p, m, before, NUM_CHALLENGE_BITS as nat);
    seq![poseidon(p, m, before)] + combined_poly(p, poly_nsc, poly_pc, gamma)
}

/// The challenges of the combined round: the one that combines the polynomials, drawn first, and
/// the folding challenge, drawn after the combined polynomial is absorbed.
pub open spec fn sumfold_challenges(
    p: int,
    m: PoseidonModel,
    before: Seq<int>,
    poly_nsc: Seq<int>,
    poly_pc: Seq<int>,
) -> (int, int) {
    let after = sumfold_transcript(p, m, before, poly_nsc, poly_pc);
    (
        challenge(p, m, before, NUM_CHALLENGE_BITS as nat),
        challenge(p, m, after, NUM_CHALLENGE_BITS as nat),
    )
}

/// What the combined round returns for its two polynomials: an error if the equality polynomial
/// vanishes at the challenges, else both polynomials with the claims that they leave.
pub open spec fn sumfold_returns<F: Field>(
    m: PoseidonModel,
    before: Seq<int>,
    rho: int,
    poly_nsc: Seq<int>,
    poly_pc: Seq<int>,
    r: Result<CombinedSumfoldOutput<F>, NovaError>,
) -> bool {
    let p = F::modulus();
    let ch = sumfold_challenges(p, m, before, poly_nsc, poly_pc);
    let eq = eq_poly(rho, ch.1);
    match r {
        Ok(out) => {
            &&& eq % p != 0
            &&& invertible(p, eq)
            &&& out.gamma.val() == ch.0
            &&& out.r_b.val() == ch.1
            &&& out.poly_nsc@ == poly_nsc
            &&& out.poly_pc@ == poly_pc
            &&& out.sumcheck_claim_out_nsc.val() == fdiv(p, peval(poly_nsc, ch.1), eq)
            &&& out.sumcheck_claim_out_pc.val() == fdiv(p, peval(poly_pc, ch.1), eq)
        },
        Err(NovaError::DivideByZero) => eq % p == 0,
        Err(_) => false,
    }
}

/// The data of the main relation that slices hold.
pub open spec fn nsc_data<F: Field>(e: &[F], abc: (&[F], &[F], &[F])) -> NscData {
    NscData { e: vals(e@), az: vals(abc.0@), bz: vals(abc.1@), cz: vals(abc.2@) }
}

/// One round of sum-check over both relations, with a common folding challenge. All that the oracle
/// remembers after is the hash that the challenge was drawn from.
pub fn run_combined_sumfold<E: Engine>(
    rho: &E::Scalar,
    T_nsc: E::Scalar,
    dims: (usize, usize),
    e1: &[E::Scalar],
    abc1: (&[E::Scalar], &[E::Scalar], &[E::Scalar]),
    e2: &[E::Scalar],
    abc2: (&[E::Scalar], &[E::Scalar], &[E::Scalar]),
    T_pc: E::Scalar,
    S_pc: &PowerCheckStructure,
    weights_1: (&[E::Scalar], &[E::Scalar]),
    weights_2: (&[E::Scalar], &[E::Scalar]),
    w1: (&[E::Scalar], &[E::Scalar]),
    w2: (&[E::Scalar], &[E::Scalar]),
    tau_1: &E::Scalar,
    tau_2: &E::Scalar,
    ro: &mut PoseidonRO<E::Scalar>,
) -> (r: Result<CombinedSumfoldOutput<E::Scalar>, NovaError>)
    requires
        old(ro).wf(),
        nsc_shape(dims.0 as int, dims.1 as int, nsc_data(e1, abc1)),
        nsc_shape(dims.0 as int, dims.1 as int, nsc_data(e2, abc2)),
        S_pc.num_cons == S_pc.left + S_pc.right,
        S_pc.left * S_pc.right <= usize::MAX,
        pc_shape(S_pc.left as int, S_pc.right as int, pc_data(weights_1, w1, *tau_1)),
        pc_shape(S_pc.left as int, S_pc.right as int, pc_data(weights_2, w2, *tau_2)),
    ensures
        final(ro).wf(),
        final(ro).params() == old(ro).params(),
        exists|poly_nsc: Seq<int>, poly_pc: Seq<int>| #[trigger]
            sumfold_returns(
                old(ro).params(),
                old(ro)@,
                rho.val(),
                poly_nsc,
                poly_pc,
                r,
            ) && final(ro)@ == seq![
                poseidon(
                    E::Scalar::modulus(),
                    old(ro).params(),
                    sumfold_transcript(
                        E::Scalar::modulus(),
                        old(ro).params(),
                        old(ro)@,
                        poly_nsc,
                        poly_pc,
                    ),
                ),
            ] && is_round_poly(
                E::Scalar::modulus(),
                poly_nsc,
                (1 - rho.val()) * T_nsc.val(),
                nsc_round(
                    dims.0 as int,
                    dims.1 as int,
                    rho.val(),
                    nsc_data(e1, abc1),
                    nsc_data(e2, abc2),
                ),
            ) && is_round_poly(
                E::Scalar::modulus(),
                poly_pc,
                (1 - rho.val()) * T_pc.val(),
                pc_round(
                    S_pc.left as int,
                    S_pc.right as int,
                    S_pc.num_cons as int,
                    rho.val(),
                    pc_data(weights_1, w1, *tau_1),
                    pc_data(weights_2, w2, *tau_2),
                ),
            ),
{
    let ghost p = E::Scalar::modulus();
    let gamma = ro.squeeze(NUM_CHALLENGE_BITS);
    let one_minus_rho = E::Scalar::one().sub(*rho);
    let claim_nsc = one_minus_rho.mul(T_nsc);
    let claim_pc = one_minus_rho.mul(T_pc);
    proof {
        broadcast use group_is;

        lemma_seed(*rho);
        lemma_seed(T_nsc);
        lemma_seed(T_pc);
        lemma_seed_const::<E::Scalar>(1);
        assert(is(p, claim_nsc.val(), (1 - rho.val()) * T_nsc.val()));
        assert(is(p, claim_pc.val(), (1 - rho.val()) * T_pc.val()));
        lemma_mod(p, (1 - rho.val()) * T_nsc.val());
        lemma_mod(p, (1 - rho.val()) * T_pc.val());
    }
    let evals_nsc = prove_helper::<E>(
        rho,
        dims,
        e1,
        abc1.0,
        abc1.1,
        abc1.2,
        e2,
        abc2.0,
        abc2.1,
        abc2.2,
    );
    let evals_pc = prove_helper_pc::<E>(rho, S_pc, weights_1, weights_2, w1, w2, tau_1, tau_2);
    let ghost g_nsc = nsc_round(
        dims.0 as int,
        dims.1 as int,
        rho.val(),
        nsc_data(e1, abc1),
        nsc_data(e2, abc2),
    );
    let ghost g_pc = pc_round(
        S_pc.left as int,
        S_pc.right as int,
        S_pc.num_cons as int,
        rho.val(),
        pc_data(weights_1, w1, *tau_1),
        pc_data(weights_2, w2, *tau_2),
    );
    let poly_nsc = round_poly(evals_nsc, claim_nsc, Ghost(g_nsc));
    let poly_pc = round_poly(evals_pc, claim_pc, Ghost(g_pc));
    let combined = poly_nsc.add(&poly_pc.scaled(&gamma));
    <UniPoly<E::Scalar> as AbsorbInRO2Trait<E>>::absorb_in_ro2(&combined, ro);
    let r_b = ro.squeeze(NUM_CHALLENGE_BITS);
    let ghost (pn, pp) = (poly_nsc@, poly_pc@);
    let claim_out_nsc = match output_claim(&poly_nsc, rho, &r_b) {
        Ok(t) => t,
        Err(e) => {
            assert(sumfold_returns::<E::Scalar>(
                old(ro).params(),
                old(ro)@,
                rho.val(),
                pn,
                pp,
                Err(e),
            ));
            return Err(e);
        },
    };
    let claim_out_pc = match output_claim(&poly_pc, rho, &r_b) {
        Ok(t) => t,
        Err(e) => {
            assert(sumfold_returns::<E::Scalar>(
                old(ro).params(),
                old(ro)@,
                rho.val(),
                pn,
                pp,
                Err(e),
            ));
            return Err(e);
        },
    };
    let out = CombinedSumfoldOutput {
        gamma,
        r_b,
        poly_nsc,
        poly_pc,
        sumcheck_claim_out_nsc: claim_out_nsc,
        sumcheck_claim_out_pc: claim_out_pc,
    };
    assert(sumfold_returns(
        old(ro).params(),
        old(ro)@,
        rho.val(),
        pn,
        pp,
        Ok::<_, NovaError>(out),
    ));
    Ok(out)
}

/// Folds both relations: every vector, scalar and commitment moves on the line through the first
/// pair at 0 and the second at 1, to the point `r_b`. The weights of the main relation are folded
/// once, and the matrix products are folded rather than recomputed.
pub fn fold<E: Engine>(
    nsc1: (&FoldedInstance<E>, &FoldedWitness<E>),
    nsc2: (&FoldedInstance<E>, &FoldedWitness<E>),
    abc1: (&[E::Scalar], &[E::Scalar], &[E::Scalar]),
    abc2: (&[E::Scalar], &[E::Scalar], &[E::Scalar]),
    pc1: (&FoldedPowerCheckInstance<E>, &FoldedPowerCheckWitness<E>),
    pc2: (&FoldedPowerCheckInstance<E>, &FoldedPowerCheckWitness<E>),
    r_b: &E::Scalar,
    sumcheck_claim_out_nsc: &E::Scalar,
    sumcheck_claim_out_pc: &E::Scalar,
) -> (r: FoldedState<E>)
    requires
        nsc1.1.E.split() == nsc2.1.E.split(),
        pc1.1.witness.split() == pc2.1.witness.split(),
        pc1.1.weights.split() == pc2.1.weights.split(),
    ensures
        ({
            let p = E::Scalar::modulus();
            &&& r.nsc_instance@ == fold_instance(
                p,
                nsc1.0@,
                nsc2.0@,
                r_b.val(),
                sumcheck_claim_out_nsc.val(),
            )
            &&& r.nsc_witness@ == fold_witness(p, nsc1.1@, nsc2.1@, r_b.val())
            &&& vals(r.Az@) == fold_seq(p, vals(abc1.0@), vals(abc2.0@), r_b.val())
            &&& vals(r.Bz@) == fold_seq(p, vals(abc1.1@), vals(abc2.1@), r_b.val())
            &&& vals(r.Cz@) == fold_seq(p, vals(abc1.2@), vals(abc2.2@), r_b.val())
            &&& r.pc_instance@ == fold_pc_instance(
                p,
                pc1.0@,
                pc2.0@,
                r_b.val(),
                sumcheck_claim_out_pc.val(),
            )
            &&& r.pc_witness@ == fold_pc_witness(p, pc1.1@, pc2.1@, r_b.val())
            &&& r.nsc_instance.placed()
            &&& r.pc_instance.placed()
        }),
{
    let ghost p = E::Scalar::modulus();
    let (U1, W1) = nsc1;
    let (U2, W2) = nsc2;
    let (Az1, Bz1, Cz1) = abc1;
    let (Az2, Bz2, Cz2) = abc2;
    let (U1_pc, W1_pc) = pc1;
    let (U2_pc, W2_pc) = pc2;
    let E = W1.E.fold(&W2.E, r_b);
    let nsc_instance = U1.fold_with(U2, r_b, sumcheck_claim_out_nsc);
    let nsc_witness = W1.fold_with(W2, E.clone(), r_b);
    assert(E.model() == crate::weight_table::fold_table(p, W1.E.model(), W2.E.model(), r_b.val()));
    let ((Az, Bz), Cz) = rayon::join(
        || -> (ab: (Vec<E::Scalar>, Vec<E::Scalar>))
            ensures
                vals(ab.0@) == fold_seq(p, vals(Az1@), vals(Az2@), r_b.val()) && vals(ab.1@)
                    == fold_seq(p, vals(Bz1@), vals(Bz2@), r_b.val())
            {
                rayon::join(
                    || -> (a: Vec<E::Scalar>)
                        ensures
                            vals(a@) == fold_seq(p, vals(Az1@), vals(Az2@), r_b.val())
                        { fold_slices(Az1, Az2, r_b) },
                    || -> (b: Vec<E::Scalar>)
                        ensures
                            vals(b@) == fold_seq(p, vals(Bz1@), vals(Bz2@), r_b.val())
                        { fold_slices(Bz1, Bz2, r_b) },
                )
            },
        || -> (c: Vec<E::Scalar>)
            ensures
                vals(c@) == fold_seq(p, vals(Cz1@), vals(Cz2@), r_b.val())
            { fold_slices(Cz1, Cz2, r_b) },
    );
    let pc_instance = U1_pc.fold_with(U2_pc, r_b, sumcheck_claim_out_pc);
    let pc_witness = W1_pc.fold_with(W2_pc, r_b);
    FoldedState { nsc_instance, nsc_witness, Az, Bz, Cz, pc_instance, pc_witness }
}

/// The pair of the main relation that folding starts from: zero throughout, with zero products.
pub fn setup_nsc<E: Engine>(S: &Structure<E>) -> (r: (
    FoldedInstance<E>,
    FoldedWitness<E>,
    (Vec<E::Scalar>, Vec<E::Scalar>, Vec<E::Scalar>),
))
    ensures
        r.0.placed(),
        r.0@ == (NscInstance {
            comm_w: 0,
            comm_e: 0,
            t: 0,
            u: 0,
            x: Seq::new(S@.shape.num_io, |i: int| 0int),
        }),
        r.1@ == (NscWitness {
            w: Seq::new(S@.shape.num_vars, |i: int| 0int),
            r_w: 0,
            e: Seq::new((S@.left + S@.right) as nat, |i: int| 0int),
            r_e: 0,
            split: S@.left as nat,
        }),
        vals(r.2.0@) == Seq::new((S@.left * S@.right) as nat, |i: int| 0int),
        vals(r.2.1@) == Seq::new((S@.left * S@.right) as nat, |i: int| 0int),
        vals(r.2.2@) == Seq::new((S@.left * S@.right) as nat, |i: int| 0int),
{
    proof {
        use_type_invariant(S);
    }
    let instance = FoldedInstance::default(S);
    let witness = FoldedWitness::default(S);
    let num_cons: usize = S.left() * S.right();
    let (Az, Bz, Cz) = (zeros(num_cons), zeros(num_cons), zeros(num_cons));
    (instance, witness, (Az, Bz, Cz))
}

/// The pair of the power check that folding starts from: the table of powers of zero and zero
/// weights, both of the dimensions of the main relation, with commitments that open to them.
pub fn setup_nsc_pc<E: Engine>(ck: &CommitmentKey<E>, S_pc: &PowerCheckStructure) -> (r: (
    FoldedPowerCheckInstance<E>,
    FoldedPowerCheckWitness<E>,
))
    requires
        1 <= S_pc.left,
        1 <= S_pc.right,
        S_pc.left + S_pc.right <= usize::MAX,
        S_pc.left + S_pc.right <= ck.bases().len(),
    ensures
        r.0.placed(),
        r.0@.claim == 0,
        r.0@.tau == 0,
        r.1@ == (PcWitness {
            witness: TableModel {
                data: unit_table(S_pc.left as int, S_pc.right as int),
                rand: 0,
                split: S_pc.left as nat,
            },
            weights: TableModel {
                data: Seq::new((S_pc.left + S_pc.right) as nat, |i: int| 0int),
                rand: 0,
                split: S_pc.left as nat,
            },
        }),
        is(
            E::Scalar::modulus(),
            r.0@.comm_witness,
            commit_log(ck.bases(), ck.blind(), r.1@.witness.data, 0),
        ),
        is(
            E::Scalar::modulus(),
            r.0@.comm_weights,
            commit_log(ck.bases(), ck.blind(), r.1@.weights.data, 0),
        ),
{
    let (left, right) = (S_pc.left, S_pc.right);
    let table: Vec<E::Scalar> = unit_vec(left, right);
    let zero: Vec<E::Scalar> = zeros(left + right);
    let witness = FoldedPowerCheckWitness {
        witness: WeightTable::new(table, E::Scalar::zero(), left),
        weights: WeightTable::new(zero, E::Scalar::zero(), left),
    };
    let instance = FoldedPowerCheckInstance::from_witness(ck, &witness);
    (instance, witness)
}

/// The power check that folding starts from: the table of powers of zero.
pub fn setup_zc_pc<E: Engine>(ck: &CommitmentKey<E>, S_pc: &PowerCheckStructure) -> (r: (
    PowerCheckInstance<E>,
    PowerCheckWitness<E>,
))
    requires
        1 <= S_pc.left,
        1 <= S_pc.right,
        S_pc.left + S_pc.right <= usize::MAX,
        S_pc.left + S_pc.right <= ck.bases().len(),
    ensures
        r.0.tau.val() == 0,
        r.1.powers.model() == (TableModel {
            data: unit_table(S_pc.left as int, S_pc.right as int),
            rand: 0,
            split: S_pc.left as nat,
        }),
        is(
            E::Scalar::modulus(),
            r.0.comm_powers.log(),
            commit_log(ck.bases(), ck.blind(), r.1.powers@, 0),
        ),
        r.0.comm_powers.coords() == E::GE::point(r.0.comm_powers.log()),
{
    let table: Vec<E::Scalar> = unit_vec(S_pc.left, S_pc.right);
    let powers = WeightTable::new(table, E::Scalar::zero(), S_pc.left);
    let comm_powers = powers.commit(ck);
    (PowerCheckInstance { comm_powers, tau: E::Scalar::zero() }, PowerCheckWitness { powers })
}

/// The challenges of one fold.
pub struct ZeroFoldChallenges {
    pub tau: int,
    pub rho: int,
    pub gamma: int,
    pub r_b: int,
}

/// The challenges that the transcript of a fold yields: the digest and both fresh instances come
/// first, then the commitment to the weights, then the combined polynomial.
pub open spec fn zerofold_challenges<E: Engine>(
    m: PoseidonModel,
    pp_digest: int,
    u2: R1CSInstance<E>,
    u2_pc: PowerCheckInstance<E>,
    nifs: ProofModel,
) -> ZeroFoldChallenges {
    let p = E::Scalar::modulus();
    let t0 = conversion_transcript(seq![pp_digest], u2, u2_pc);
    let t1 = seq![poseidon(p, m, t0)] + point_elements(nifs.coords);
    let t2 = seq![poseidon(p, m, t1)];
    let ch = sumfold_challenges(p, m, t2, nifs.nsc, nifs.pc);
    ZeroFoldChallenges {
        tau: challenge(p, m, t0, NUM_CHALLENGE_BITS as nat),
        rho: challenge(p, m, t1, NUM_CHALLENGE_BITS as nat),
        gamma: ch.0,
        r_b: ch.1,
    }
}

/// The fresh witness of the main relation under the challenge `tau`.
pub open spec fn zerofold_witness<E: Engine>(
    s: StructureModel,
    w2: R1CSWitness<E>,
    tau: int,
    r_e: int,
) -> NscWitness {
    let weights = conversion_weights::<E>(s, tau, r_e);
    NscWitness {
        w: vals(w2.W@),
        r_w: w2.r_W.val(),
        e: weights.data,
        r_e: weights.rand,
        split: weights.split,
    }
}

/// The fresh witness of the power check under the challenge `tau`.
pub open spec fn zerofold_pc_witness<E: Engine>(
    s: StructureModel,
    w2_pc: PowerCheckWitness<E>,
    tau: int,
    r_e: int,
) -> PcWitness {
    PcWitness {
        witness: w2_pc.powers.model(),
        weights: conversion_weights::<E>(s, tau, r_e),
    }
}

/// The accumulated state that a fold starts from, as the prover holds it.
pub struct ZeroFoldState {
    pub u: NscInstance,
    pub w: NscWitness,
    pub az: Seq<int>,
    pub bz: Seq<int>,
    pub cz: Seq<int>,
    pub u_pc: PcInstance,
    pub w_pc: PcWitness,
}

impl ZeroFoldState {
    /// The data of the main relation, with the cached products.
    pub open spec fn data(self) -> NscData {
        NscData { e: self.w.e, az: self.az, bz: self.bz, cz: self.cz }
    }

    /// The vectors have the lengths that the structure demands.
    pub open spec fn shaped(self, s: StructureModel) -> bool {
        &&& nsc_shape(s.left, s.right, self.data())
        &&& self.w.split == s.left
        &&& self.w_pc.witness.splits(s.left, s.right)
        &&& self.w_pc.weights.splits(s.left, s.right)
    }
}

/// The proof that an honest prover sends when the fresh weights are committed to under `r_e`.
pub open spec fn honest_proof<E: Engine>(
    m: PoseidonModel,
    pp_digest: int,
    ck: CommitmentKey<E>,
    s: StructureModel,
    st: ZeroFoldState,
    r1cs: (&R1CSInstance<E>, &R1CSWitness<E>),
    zc_pc: (&PowerCheckInstance<E>, &PowerCheckWitness<E>),
    r_e: int,
    nifs: ProofModel,
) -> bool {
    let p = E::Scalar::modulus();
    let ch = zerofold_challenges(m, pp_digest, *r1cs.0, *zc_pc.0, nifs);
    let weights = conversion_weights::<E>(s, ch.tau, r_e);
    let inst2 = fresh_instance(*r1cs.0, nifs.comm);
    let wit2 = zerofold_witness(s, *r1cs.1, ch.tau, r_e);
    let wit2_pc = zerofold_pc_witness(s, *zc_pc.1, ch.tau, r_e);
    &&& is(p, nifs.comm, commit_log(ck.bases(), ck.blind(), weights.data, r_e))
    &&& nifs.coords == E::GE::point(nifs.comm)
    &&& is_round_poly(
        p,
        nifs.nsc,
        (1 - ch.rho) * st.u.t,
        nsc_round(s.left, s.right, ch.rho, st.data(), claim_data(s.shape, inst2, wit2)),
    )
    &&& is_round_poly(
        p,
        nifs.pc,
        (1 - ch.rho) * st.u_pc.claim,
        pc_round(
            s.left,
            s.right,
            s.left + s.right,
            ch.rho,
            pc_claim_data(st.w_pc, st.u_pc.tau),
            pc_claim_data(wit2_pc, zc_pc.0.tau.val()),
        ),
    )
}

/// The state that an honest fold leads to.
pub open spec fn folded_state<E: Engine>(
    m: PoseidonModel,
    pp_digest: int,
    s: StructureModel,
    st: ZeroFoldState,
    r1cs: (&R1CSInstance<E>, &R1CSWitness<E>),
    zc_pc: (&PowerCheckInstance<E>, &PowerCheckWitness<E>),
    r_e: int,
    nifs: ProofModel,
) -> ZeroFoldState {
    let p = E::Scalar::modulus();
    let ch = zerofold_challenges(m, pp_digest, *r1cs.0, *zc_pc.0, nifs);
    let eq = eq_poly(ch.rho, ch.r_b);
    let inst2 = fresh_instance(*r1cs.0, nifs.comm);
    let wit2 = zerofold_witness(s, *r1cs.1, ch.tau, r_e);
    let wit2_pc = zerofold_pc_witness(s, *zc_pc.1, ch.tau, r_e);
    let d2 = claim_data(s.shape, inst2, wit2);
    ZeroFoldState {
        u: fold_instance(p, st.u, inst2, ch.r_b, fdiv(p, peval(nifs.nsc, ch.r_b), eq)),
        w: fold_witness(p, st.w, wit2, ch.r_b),
        az: fold_seq(p, st.az, mod_seq(p, d2.az), ch.r_b),
        bz: fold_seq(p, st.bz, mod_seq(p, d2.bz), ch.r_b),
        cz: fold_seq(p, st.cz, mod_seq(p, d2.cz), ch.r_b),
        u_pc: fold_pc_instance(
            p,
            st.u_pc,
            fresh_pc_instance(*zc_pc.0, nifs.comm),
            ch.r_b,
            fdiv(p, peval(nifs.pc, ch.r_b), eq),
        ),
        w_pc: fold_pc_witness(p, st.w_pc, wit2_pc, ch.r_b),
    }
}

impl<E: Engine> FoldedState<E> {
    /// The mathematical state.
    pub open spec fn view(self) -> ZeroFoldState {
        ZeroFoldState {
            u: self.nsc_instance@,
            w: self.nsc_witness@,
            az: vals(self.Az@),
            bz: vals(self.Bz@),
            cz: vals(self.Cz@),
            u_pc: self.pc_instance@,
            w_pc: self.pc_witness@,
        }
    }
}

/// What the prover returns for an honest proof: the proof, its challenges and the folded state, or
/// an error if the equality polynomial vanishes at the challenges or the public inputs or the
/// witnesses differ in length.
pub open spec fn zerofold_returns<E: Engine>(
    m: PoseidonModel,
    pp_digest: int,
    s: StructureModel,
    st: ZeroFoldState,
    r1cs: (&R1CSInstance<E>, &R1CSWitness<E>),
    zc_pc: (&PowerCheckInstance<E>, &PowerCheckWitness<E>),
    r_e: int,
    nifs: ProofModel,
    r: Result<ZeroFoldOutput<E>, NovaError>,
) -> bool {
    let p = E::Scalar::modulus();
    let ch = zerofold_challenges(m, pp_digest, *r1cs.0, *zc_pc.0, nifs);
    let eq = eq_poly(ch.rho, ch.r_b);
    match r {
        Ok(out) => {
            &&& eq % p != 0
            &&& invertible(p, eq)
            &&& st.u.x.len() == r1cs.0.X@.len()
            &&& st.w.w.len() == r1cs.1.W@.len()
            &&& out.nifs@ == nifs
            &&& out.tau.val() == ch.tau
            &&& out.rho.val() == ch.rho
            &&& out.gamma.val() == ch.gamma
            &&& out.r_b.val() == ch.r_b
            &&& out.folded@ == folded_state(m, pp_digest, s, st, r1cs, zc_pc, r_e, nifs)
            &&& out.folded.nsc_instance.placed()
            &&& out.folded.pc_instance.placed()
            &&& out.new_zc_pc.0.comm_powers == out.nifs.comm_E
            &&& out.new_zc_pc.0.tau == out.tau
            &&& out.new_zc_pc.1.powers.model() == conversion_weights::<E>(s, ch.tau, r_e)
        },
        Err(NovaError::DivideByZero) => eq % p == 0,
        Err(NovaError::InvalidInputLength) => eq % p != 0 && st.u.x.len() != r1cs.0.X@.len(),
        Err(NovaError::InvalidWitnessLength) => eq % p != 0 && st.u.x.len() == r1cs.0.X@.len()
            && st.w.w.len() != r1cs.1.W@.len(),
        Err(_) => false,
    }
}

/// The state that the prover's arguments hold.
pub open spec fn state_of<E: Engine>(
    nsc: (&FoldedInstance<E>, &FoldedWitness<E>),
    abc: (&[E::Scalar], &[E::Scalar], &[E::Scalar]),
    nsc_pc: (&FoldedPowerCheckInstance<E>, &FoldedPowerCheckWitness<E>),
) -> ZeroFoldState {
    ZeroFoldState {
        u: nsc.0@,
        w: nsc.1@,
        az: vals(abc.0@),
        bz: vals(abc.1@),
        cz: vals(abc.2@),
        u_pc: nsc_pc.0@,
        w_pc: nsc_pc.1@,
    }
}

impl<E: Engine> ZeroFoldNIFS<E> {
    /// Folds a fresh constraint system and a fresh power check into the accumulated state, with
    /// weights under the given randomness. Only the fresh instances are absorbed: the accumulated
    /// ones are bound by the transcripts of the folds before.
    pub fn prove_with_randomness(
        ck: &CommitmentKey<E>,
        ro_consts: &PoseidonConstants<E::Scalar>,
        pp_digest: &E::Scalar,
        S: &Structure<E>,
        S_pc: &PowerCheckStructure,
        nsc: (&FoldedInstance<E>, &FoldedWitness<E>),
        abc: (&[E::Scalar], &[E::Scalar], &[E::Scalar]),
        nsc_pc: (&FoldedPowerCheckInstance<E>, &FoldedPowerCheckWitness<E>),
        r1cs: (&R1CSInstance<E>, &R1CSWitness<E>),
        zc_pc: (&PowerCheckInstance<E>, &PowerCheckWitness<E>),
        r_E: E::Scalar,
    ) -> (r: Result<ZeroFoldOutput<E>, NovaError>)
        requires
            ro_consts.wf(),
            S@.left + S@.right <= ck.bases().len(),
            S_pc.left == S@.left,
            S_pc.right == S@.right,
            S_pc.num_cons == S_pc.left + S_pc.right,
            state_of(nsc, abc, nsc_pc).shaped(S@),
            zc_pc.1.powers.model().splits(S@.left, S@.right),
            r1cs.1.W@.len() + 1 + r1cs.0.X@.len() <= usize::MAX,
        ensures
            ({
                let st = state_of(nsc, abc, nsc_pc);
                let fit = r1cs.1.W@.len() + 1 + r1cs.0.X@.len() == S@.shape.cols();
                &&& !fit ==> r is Err && r->Err_0 == NovaError::InvalidWitnessLength
                &&& fit ==> exists|nifs: ProofModel| #[trigger]
                    honest_proof(
                        ro_consts@,
                        pp_digest.val(),
                        *ck,
                        S@,
                        st,
                        r1cs,
                        zc_pc,
                        r_E.val(),
                        nifs,
                    ) && zerofold_returns(
                        ro_consts@,
                        pp_digest.val(),
                        S@,
                        st,
                        r1cs,
                        zc_pc,
                        r_E.val(),
                        nifs,
                        r,
                    )
            }),
    {
        let ghost p = E::Scalar::modulus();
        let ghost st = state_of(nsc, abc, nsc_pc);
        proof {
            use_type_invariant(S);
            E::Scalar::lemma_modulus();
        }
        let mut ro = PoseidonRO::new(ro_consts.duplicate());
        ro.absorb(*pp_digest);
        assert(ro@ =~= seq![pp_digest.val()]);
        let conv = match convert_with_randomness(ck, S, r1cs, zc_pc, &mut ro, r_E) {
            Ok(c) => c,
            Err(e) => {
                return Err(e);
            },
        };
        let (U1, W1) = nsc;
        let (U1_pc, W1_pc) = nsc_pc;
        let rho = ro.squeeze(NUM_CHALLENGE_BITS);
        let abc2 = (conv.Az.as_slice(), conv.Bz.as_slice(), conv.Cz.as_slice());
        let weights_1 = (W1_pc.weights.e1(), W1_pc.weights.e2());
        let weights_2 = (conv.nsc_pc.1.weights.e1(), conv.nsc_pc.1.weights.e2());
        let table_1 = (W1_pc.witness.e1(), W1_pc.witness.e2());
        let table_2 = (conv.nsc_pc.1.witness.e1(), conv.nsc_pc.1.witness.e2());
        let ghost before = ro@;
        let ghost inst2 = fresh_instance(*r1cs.0, conv.comm_E.log());
        let ghost wit2 = zerofold_witness(S@, *r1cs.1, conv.tau.val(), r_E.val());
        let ghost d1 = st.data();
        let ghost d2 = claim_data(S@.shape, inst2, wit2);
        let ghost raw2 = NscData {
            e: d2.e,
            az: mod_seq(p, d2.az),
            bz: mod_seq(p, d2.bz),
            cz: mod_seq(p, d2.cz),
        };
        let ghost pc1 = pc_claim_data(st.w_pc, st.u_pc.tau);
        let ghost pc2 = pc_claim_data(
            zerofold_pc_witness(S@, *zc_pc.1, conv.tau.val(), r_E.val()),
            zc_pc.0.tau.val(),
        );
        proof {
            // the products as computed are the reduced products
            assert(vals(conv.Az@) =~= mod_seq(p, d2.az));
            assert(vals(conv.Bz@) =~= mod_seq(p, d2.bz));
            assert(vals(conv.Cz@) =~= mod_seq(p, d2.cz));
            assert(pc_data(weights_1, table_1, U1_pc.tau) == pc1);
            assert(pc_data(weights_2, table_2, conv.nsc_pc.0.tau) == pc2);
        }
        let res = run_combined_sumfold::<E>(
            &rho,
            U1.T,
            (S.left(), S.right()),
            W1.E.as_slice(),
            abc,
            conv.E.as_slice(),
            abc2,
            U1_pc.pc_sumcheck_claim,
            S_pc,
            weights_1,
            weights_2,
            table_1,
            table_2,
            &U1_pc.tau,
            &conv.nsc_pc.0.tau,
            &mut ro,
        );
        let ghost (pn, pp) = choose|pn: Seq<int>, pp: Seq<int>| #[trigger]
            sumfold_returns(ro_consts@, before, rho.val(), pn, pp, res) && is_round_poly(
                p,
                pn,
                (1 - rho.val()) * U1.T.val(),
                nsc_round(S@.left, S@.right, rho.val(), d1, raw2),
            ) && is_round_poly(
                p,
                pp,
                (1 - rho.val()) * U1_pc.pc_sumcheck_claim.val(),
                pc_round(S@.left, S@.right, S@.left + S@.right, rho.val(), pc1, pc2),
            );
        let ghost nifs = ProofModel {
            comm: conv.comm_E.log(),
            coords: conv.comm_E.coords(),
            nsc: pn,
            pc: pp,
        };
        proof {
            lemma_mod_seq_cong(p, d2.az);
            lemma_mod_seq_cong(p, d2.bz);
            lemma_mod_seq_cong(p, d2.cz);
            let g = nsc_round(S@.left, S@.right, rho.val(), d1, raw2);
            let h = nsc_round(S@.left, S@.right, rho.val(), d1, d2);
            assert forall|t: int| #[trigger] g(t) % p == h(t) % p by {
                lemma_nsc_lerp_cong(p, S@.left, S@.right, d1, raw2, d1, d2, t);
                lemma_cong_mul(
                    p,
                    eq_poly(rho.val(), t),
                    nsc_sum(S@.left, S@.right, lerp_nsc(d1, raw2, t)),
                    eq_poly(rho.val(), t),
                    nsc_sum(S@.left, S@.right, lerp_nsc(d1, d2, t)),
                );
            }
            assert(is_round_poly(p, pn, (1 - rho.val()) * U1.T.val(), h)) by {
                assert(g(0) % p == h(0) % p && g(2) % p == h(2) % p && g(3) % p == h(3) % p && g(4)
                    % p == h(4) % p && g(5) % p == h(5) % p);
            }
            assert(honest_proof(
                ro_consts@,
                pp_digest.val(),
                *ck,
                S@,
                st,
                r1cs,
                zc_pc,
                r_E.val(),
                nifs,
            ));
        }
        let out = match res {
            Ok(o) => o,
            Err(e) => {
                return Err(e);
            },
        };
        if U1.X.len() != r1cs.0.X.len() {
            return Err(NovaError::InvalidInputLength);
        }
        if W1.W.len() != r1cs.1.W.len() {
            return Err(NovaError::InvalidWitnessLength);
        }
        let folded = fold::<E>(
            nsc,
            (&conv.nsc.0, &conv.nsc.1),
            abc,
            abc2,
            nsc_pc,
            (&conv.nsc_pc.0, &conv.nsc_pc.1),
            &out.r_b,
            &out.sumcheck_claim_out_nsc,
            &out.sumcheck_claim_out_pc,
        );
        let result = ZeroFoldOutput {
            nifs: ZeroFoldNIFS {
                comm_E: conv.comm_E,
                poly_nsc: out.poly_nsc,
                poly_pc: out.poly_pc,
            },
            gamma: out.gamma,
            folded,
            new_zc_pc: conv.zc_pc,
            tau: conv.tau,
            rho,
            r_b: out.r_b,
        };
        assert(result.folded@ == folded_state(
            ro_consts@,
            pp_digest.val(),
            S@,
            st,
            r1cs,
            zc_pc,
            r_E.val(),
            nifs,
        ));
        Ok(result)
    }

    /// Folds a fresh constraint system and a fresh power check into the accumulated state, with
    /// weights under fresh randomness.
    pub fn prove(
        ck: &CommitmentKey<E>,
        ro_consts: &PoseidonConstants<E::Scalar>,
        pp_digest: &E::Scalar,
        S: &Structure<E>,
        S_pc: &PowerCheckStructure,
        nsc: (&FoldedInstance<E>, &FoldedWitness<E>),
        abc: (&[E::Scalar], &[E::Scalar], &[E::Scalar]),
        nsc_pc: (&FoldedPowerCheckInstance<E>, &FoldedPowerCheckWitness<E>),
        r1cs: (&R1CSInstance<E>, &R1CSWitness<E>),
        zc_pc: (&PowerCheckInstance<E>, &PowerCheckWitness<E>),
    ) -> (r: Result<ZeroFoldOutput<E>, NovaError>)
        requires
            ro_consts.wf(),
            S@.left + S@.right <= ck.bases().len(),
            S_pc.left == S@.left,
            S_pc.right == S@.right,
            S_pc.num_cons == S_pc.left + S_pc.right,
            state_of(nsc, abc, nsc_pc).shaped(S@),
            zc_pc.1.powers.model().splits(S@.left, S@.right),
            r1cs.1.W@.len() + 1 + r1cs.0.X@.len() <= usize::MAX,
        ensures
            ({
                let st = state_of(nsc, abc, nsc_pc);
                let fit = r1cs.1.W@.len() + 1 + r1cs.0.X@.len() == S@.shape.cols();
                &&& !fit ==> r is Err && r->Err_0 == NovaError::InvalidWitnessLength
                &&& fit ==> exists|r_e: int, nifs: ProofModel| #[trigger]
                    honest_proof(
                        ro_consts@,
                        pp_digest.val(),
                        *ck,
                        S@,
                        st,
                        r1cs,
                        zc_pc,
                        r_e,
                        nifs,
                    ) && zerofold_returns(
                        ro_consts@,
                        pp_digest.val(),
                        S@,
                        st,
                        r1cs,
                        zc_pc,
                        r_e,
                        nifs,
                        r,
                    )
            }),
    {
        Self::prove_with_randomness(
            ck,
            ro_consts,
            pp_digest,
            S,
            S_pc,
            nsc,
            abc,
            nsc_pc,
            r1cs,
            zc_pc,
            E::Scalar::random(),
        )
    }

    /// Checks the proof and folds the fresh instances into the accumulated ones.
    ///
    /// The transcript is replayed. Both polynomials are held against their claims, and the claims
    /// that they leave are computed from the polynomials themselves. The power check of the fresh
    /// weights comes back for the next fold.
    pub fn verify(
        &self,
        ro_consts: &PoseidonConstants<E::Scalar>,
        pp_digest: &E::Scalar,
        U1: &FoldedInstance<E>,
        U1_pc: &FoldedPowerCheckInstance<E>,
        U2: &R1CSInstance<E>,
        U2_pc: &PowerCheckInstance<E>,
    ) -> (r: Result<
        (FoldedInstance<E>, FoldedPowerCheckInstance<E>, PowerCheckInstance<E>),
        NovaError,
    >)
        requires
            ro_consts.wf(),
        ensures
            ({
                let p = E::Scalar::modulus();
                let ch = zerofold_challenges(ro_consts@, pp_digest.val(), *U2, *U2_pc, self@);
                let sums = sums_to_claim(p, self.poly_nsc@, ch.rho, U1@.t) && sums_to_claim(
                    p,
                    self.poly_pc@,
                    ch.rho,
                    U1_pc@.claim,
                );
                let eq = eq_poly(ch.rho, ch.r_b);
                match r {
                    Ok((U, U_pc, zc_pc)) => {
                        &&& sums
                        &&& eq % p != 0
                        &&& invertible(p, eq)
                        &&& U1@.x.len() == U2.X@.len()
                        &&& U@ == fold_instance(
                            p,
                            U1@,
                            fresh_instance(*U2, self.comm_E.log()),
                            ch.r_b,
                            fdiv(p, peval(self.poly_nsc@, ch.r_b), eq),
                        )
                        &&& U_pc@ == fold_pc_instance(
                            p,
                            U1_pc@,
                            fresh_pc_instance(*U2_pc, self.comm_E.log()),
                            ch.r_b,
                            fdiv(p, peval(self.poly_pc@, ch.r_b), eq),
                        )
                        &&& U.placed()
                        &&& U_pc.placed()
                        &&& zc_pc.comm_powers == self.comm_E
                        &&& zc_pc.tau.val() == ch.tau
                    },
                    Err(NovaError::InvalidSumcheckProof) => !sums,
                    Err(NovaError::DivideByZero) => sums && eq % p == 0,
                    Err(NovaError::InvalidInputLength) => sums && eq % p != 0 && U1@.x.len()
                        != U2.X@.len(),
                    Err(_) => false,
                }
            }),
    {
        let ghost p = E::Scalar::modulus();
        let mut ro = PoseidonRO::new(ro_consts.duplicate());
        ro.absorb(*pp_digest);
        assert(ro@ =~= seq![pp_digest.val()]);
        U2.absorb_in_ro2(&mut ro);
        U2_pc.absorb_in_ro2(&mut ro);
        assert(ro@ == conversion_transcript(seq![pp_digest.val()], *U2, *U2_pc));
        let tau = ro.squeeze(NUM_CHALLENGE_BITS);
        absorb_commitment::<E>(&self.comm_E, &mut ro);
        let rho = ro.squeeze(NUM_CHALLENGE_BITS);
        let one_minus_rho = E::Scalar::one().sub(rho);
        let gamma = ro.squeeze(NUM_CHALLENGE_BITS);

        // the claims of the fresh instances are zero
        let claim_nsc = one_minus_rho.mul(U1.T);
        let claim_pc = one_minus_rho.mul(U1_pc.pc_sumcheck_claim);
        let sum_nsc = self.poly_nsc.eval_at_zero().add(self.poly_nsc.eval_at_one());
        let sum_pc = self.poly_pc.eval_at_zero().add(self.poly_pc.eval_at_one());
        proof {
            broadcast use group_is;

            lemma_seed(rho);
            lemma_seed(U1.T);
            lemma_seed(U1_pc.pc_sumcheck_claim);
            lemma_seed_const::<E::Scalar>(1);
            assert(is(p, claim_nsc.val(), (1 - rho.val()) * U1.T.val()));
            assert(is(p, claim_pc.val(), (1 - rho.val()) * U1_pc.pc_sumcheck_claim.val()));
            assert(is(p, sum_nsc.val(), peval(self.poly_nsc@, 0) + peval(self.poly_nsc@, 1)));
            assert(is(p, sum_pc.val(), peval(self.poly_pc@, 0) + peval(self.poly_pc@, 1)));
        }
        if !sum_nsc.equals(claim_nsc) {
            return Err(NovaError::InvalidSumcheckProof);
        }
        if !sum_pc.equals(claim_pc) {
            return Err(NovaError::InvalidSumcheckProof);
        }
        let poly_combined = self.poly_nsc.add(&self.poly_pc.scaled(&gamma));
        <UniPoly<E::Scalar> as AbsorbInRO2Trait<E>>::absorb_in_ro2(&poly_combined, &mut ro);
        let r_b = ro.squeeze(NUM_CHALLENGE_BITS);
        let T_out_nsc = match output_claim(&self.poly_nsc, &rho, &r_b) {
            Ok(t) => t,
            Err(e) => {
                return Err(e);
            },
        };
        let T_out_pc = match output_claim(&self.poly_pc, &rho, &r_b) {
            Ok(t) => t,
            Err(e) => {
                return Err(e);
            },
        };
        let folded_nsc = match U1.fold(U2, &self.comm_E, &r_b, &T_out_nsc) {
            Ok(u) => u,
            Err(e) => {
                return Err(e);
            },
        };
        let folded_pc = U1_pc.fold(U2_pc, &r_b, &self.comm_E, &T_out_pc);
        let new_zc_pc = PowerCheckInstance { comm_powers: self.comm_E, tau };
        Ok((folded_nsc, folded_pc, new_zc_pc))
    }
}

} // verus!
