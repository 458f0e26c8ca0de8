//! The folding scheme for the main relation alone.
use vstd::prelude::*;
use crate::arith::{fdiv, group_is, invertible, is, lemma_cong_mul, lemma_mod};
use crate::commitment::{commit_log, CommitmentKey};
use crate::errors::NovaError;
use crate::field::{lemma_seed, lemma_seed_const, vals, Field};
use crate::r1cs::{mat_vec, R1CSInstance, R1CSWitness};
use crate::relation::{
    claim_data, concat_z, fold_instance, fold_witness, fresh_instance, fresh_witness,
    lemma_claim_data, FoldedInstance, FoldedWitness, NscInstance, NscWitness, Structure,
    StructureModel,
};
use crate::ro::{
    challenge, poseidon, PoseidonConstants, PoseidonModel, PoseidonRO, NUM_CHALLENGE_BITS,
};
use crate::round_laws::nsc_round;
use crate::sumcheck::{
    acc_is, eq_poly, is_round_poly, lemma_nsc_lerp_cong, lerp_nsc, nsc_sum, output_claim,
    prove_helper, round_poly, NscData,
};
use crate::traits::{Engine, Group};
use crate::transcript::{absorb_commitment, point_elements, AbsorbInRO2Trait};
use crate::univariate::{peval, UniPoly};
use crate::weight_table::{mod_seq, power_table, WeightTable};

verus! {

/// The message of the folding scheme: a commitment to the fresh weights, and the round polynomial.
#[derive(Clone, Debug, PartialEq, Eq)]
pub struct NIFS<E: Engine> {
    pub comm_E: E::GE,
    pub poly: UniPoly<E::Scalar>,
}

/// The challenges of one fold.
pub struct NifsChallenges {
    pub tau: int,
    pub rho: int,
    pub r_b: int,
}

/// The challenges that the transcript of a fold yields: the digest and the fresh instance come
/// first, then the commitment to the weights, then the round polynomial.
pub open spec fn nifs_challenges(
    p: int,
    m: PoseidonModel,
    pp_digest: int,
    fresh: Seq<int>,
    comm_e: Seq<int>,
    poly: Seq<int>,
) -> NifsChallenges {
    let t0 = seq![pp_digest] + fresh;
    let t1 = seq![poseidon(p, m, t0)] + comm_e;
    let t2 = seq![poseidon(p, m, t1)] + poly;
    NifsChallenges {
        tau: challenge(p, m, t0, NUM_CHALLENGE_BITS as nat),
        rho: challenge(p, m, t1, NUM_CHALLENGE_BITS as nat),
        r_b: challenge(p, m, t2, NUM_CHALLENGE_BITS as nat),
    }
}

/// The challenges of a fold whose message is `nifs`.
pub open spec fn fold_challenges<E: Engine>(
    m: PoseidonModel,
    pp_digest: int,
    u2: R1CSInstance<E>,
    nifs: NIFS<E>,
) -> NifsChallenges {
    nifs_challenges(
        E::Scalar::modulus(),
        m,
        pp_digest,
        <R1CSInstance<E> as AbsorbInRO2Trait<E>>::elements(&u2),
        point_elements(nifs.comm_E.coords()),
        nifs.poly@,
    )
}

/// The fresh witness with the powers of `tau` for weights, under randomness `r_e`.
pub open spec fn weighted_witness<E: Engine>(
    s: StructureModel,
    w2: R1CSWitness<E>,
    tau: int,
    r_e: int,
) -> NscWitness {
    NscWitness {
        w: vals(w2.W@),
        r_w: w2.r_W.val(),
        e: mod_seq(E::Scalar::modulus(), power_table(tau, s.left as nat, s.right as nat)),
        r_e,
        split: s.left as nat,
    }
}

/// The message that an honest prover sends when the fresh weights are committed to under `r_e`.
pub open spec fn honest_message<E: Engine>(
    m: PoseidonModel,
    pp_digest: int,
    ck: CommitmentKey<E>,
    s: StructureModel,
    u1: NscInstance,
    w1: NscWitness,
    u2: R1CSInstance<E>,
    w2: R1CSWitness<E>,
    r_e: int,
    nifs: NIFS<E>,
) -> bool {
    let p = E::Scalar::modulus();
    let ch = fold_challenges(m, pp_digest, u2, nifs);
    let wit2 = weighted_witness(s, w2, ch.tau, r_e);
    let d1 = claim_data(s.shape, u1, w1);
    let d2 = claim_data(s.shape, fresh_instance(u2, nifs.comm_E.log()), wit2);
    &&& is(p, nifs.comm_E.log(), commit_log(ck.bases(), ck.blind(), wit2.e, r_e))
    &&& nifs.comm_E.coords() == E::GE::point(nifs.comm_E.log())
    &&& is_round_poly(
        p,
        nifs.poly@,
        (1 - ch.rho) * u1.t,
        nsc_round(s.left, s.right, ch.rho, d1, d2),
    )
}

/// The values of the polynomial at 0 and 1 add up to the claim `(1 - rho) T`.
pub open spec fn sums_to_claim(p: int, poly: Seq<int>, rho: int, t: int) -> bool {
    (peval(poly, 0) + peval(poly, 1)) % p == ((1 - rho) * t) % p
}

/// The instance that a message folds the fresh instance and the running one to.
pub open spec fn folded_instance<E: Engine>(
    m: PoseidonModel,
    pp_digest: int,
    u1: NscInstance,
    u2: R1CSInstance<E>,
    nifs: NIFS<E>,
) -> NscInstance {
    let p = E::Scalar::modulus();
    let ch = fold_challenges(m, pp_digest, u2, nifs);
    fold_instance(
        p,
        u1,
        fresh_instance(u2, nifs.comm_E.log()),
        ch.r_b,
        fdiv(p, peval(nifs.poly@, ch.r_b), eq_poly(ch.rho, ch.r_b)),
    )
}

/// What the prover returns for an honest message: the message and the folded pair, or an error if
/// the equality polynomial vanishes at the challenges or the public inputs differ in length.
pub open spec fn prover_returns<E: Engine>(
    m: PoseidonModel,
    pp_digest: int,
    s: StructureModel,
    u1: NscInstance,
    w1: NscWitness,
    u2: R1CSInstance<E>,
    w2: R1CSWitness<E>,
    r_e: int,
    nifs: NIFS<E>,
    r: Result<(NIFS<E>, (FoldedInstance<E>, FoldedWitness<E>)), NovaError>,
) -> bool {
    let p = E::Scalar::modulus();
    let ch = fold_challenges(m, pp_digest, u2, nifs);
    let eq = eq_poly(ch.rho, ch.r_b);
    match r {
        Ok((n, (u, w))) => {
            &&& n == nifs
            &&& eq % p != 0
            &&& invertible(p, eq)
            &&& u1.x.len() == u2.X@.len()
            &&& u@ == folded_instance(m, pp_digest, u1, u2, nifs)
            &&& u.placed()
            &&& w@ == fold_witness(p, w1, weighted_witness(s, w2, ch.tau, r_e), ch.r_b)
        },
        Err(NovaError::DivideByZero) => eq % p == 0,
        Err(NovaError::InvalidInputLength) => eq % p != 0 && u1.x.len() != u2.X@.len(),
        Err(_) => false,
    }
}

/// The witness, the constant and the public input fill the columns of the shape.
pub open spec fn fills_columns(s: StructureModel, w: nat, x: nat) -> bool {
    w + 1 + x == s.shape.cols()
}

impl<E: Engine> NIFS<E> {
    /// Folds a fresh instance and witness into a running pair, with weights under the given
    /// randomness.
    ///
    /// The transcript absorbs the digest and the fresh instance. The running instance is not
    /// absorbed: its hash is part of the public input of the fresh one.
    pub fn prove_with_randomness(
        ck: &CommitmentKey<E>,
        ro_consts: &PoseidonConstants<E::Scalar>,
        pp_digest: &E::Scalar,
        S: &Structure<E>,
        U1: &FoldedInstance<E>,
        W1: &FoldedWitness<E>,
        U2: &R1CSInstance<E>,
        W2: &R1CSWitness<E>,
        r_E: E::Scalar,
    ) -> (r: Result<(NIFS<E>, (FoldedInstance<E>, FoldedWitness<E>)), NovaError>)
        requires
            ro_consts.wf(),
            S@.left + S@.right <= ck.bases().len(),
            W1@.e.len() == S@.left + S@.right,
            W1@.split == S@.left,
            W1.W@.len() + 1 + U1.X@.len() <= usize::MAX,
            W2.W@.len() + 1 + U2.X@.len() <= usize::MAX,
        ensures
            ({
                let fit = fills_columns(S@, W1.W@.len(), U1.X@.len()) && fills_columns(
                    S@,
                    W2.W@.len(),
                    U2.X@.len(),
                );
                &&& !fit ==> r is Err && r->Err_0 == NovaError::InvalidWitnessLength
                &&& fit ==> exists|nifs: NIFS<E>| #[trigger]
                    honest_message(
                        ro_consts@,
                        pp_digest.val(),
                        *ck,
                        S@,
                        U1@,
                        W1@,
                        *U2,
                        *W2,
                        r_E.val(),
                        nifs,
                    ) && prover_returns(
                        ro_consts@,
                        pp_digest.val(),
                        S@,
                        U1@,
                        W1@,
                        *U2,
                        *W2,
                        r_E.val(),
                        nifs,
                        r,
                    )
            }),
    {
        let ghost p = E::Scalar::modulus();
        proof {
            use_type_invariant(S);
            lemma_seed_const::<E::Scalar>(1);
        }
        let mut ro = PoseidonRO::new(ro_consts.duplicate());
        ro.absorb(*pp_digest);
        U2.absorb_in_ro2(&mut ro);
        let ghost fresh = <R1CSInstance<E> as AbsorbInRO2Trait<E>>::elements(U2);
        assert(ro@ =~= seq![pp_digest.val()] + fresh);
        let tau = ro.squeeze(NUM_CHALLENGE_BITS);

        // the weights are the powers of the challenge
        let (left, right) = (S.left(), S.right());
        let table = WeightTable::from_powers(&tau, left, right, r_E);
        let comm_E = table.commit(ck);
        absorb_commitment::<E>(&comm_E, &mut ro);
        let rho = ro.squeeze(NUM_CHALLENGE_BITS);

        // one round of sum-check for T = (1 - rho) T1 + rho T2, where T2 = 0
        let T = E::Scalar::one().sub(rho).mul(U1.T);
        let (res1, res2) = rayon::join(
            || -> (res: Result<(Vec<E::Scalar>, Vec<E::Scalar>, Vec<E::Scalar>), NovaError>)
                ensures
                    products(*S, vals(W1.W@), U1.u.val(), vals(U1.X@), res)
                { multiply(S, &W1.W, U1.u, &U1.X) },
            || -> (res: Result<(Vec<E::Scalar>, Vec<E::Scalar>, Vec<E::Scalar>), NovaError>)
                ensures
                    products(*S, vals(W2.W@), 1, vals(U2.X@), res)
                { multiply(S, &W2.W, E::Scalar::one(), &U2.X) },
        );
        let abc1 = match res1 {
            Ok(abc) => abc,
            Err(e) => {
                return Err(e);
            },
        };
        let abc2 = match res2 {
            Ok(abc) => abc,
            Err(e) => {
                return Err(e);
            },
        };
        let evals = prove_helper::<E>(
            &rho,
            (left, right),
            W1.E.as_slice(),
            abc1.0.as_slice(),
            abc1.1.as_slice(),
            abc1.2.as_slice(),
            table.as_slice(),
            abc2.0.as_slice(),
            abc2.1.as_slice(),
            abc2.2.as_slice(),
        );
        let ghost inst2 = fresh_instance(*U2, comm_E.log());
        let ghost wit2 = fresh_witness(*W2, table);
        let ghost c1 = claim_data(S@.shape, U1@, W1@);
        let ghost c2 = claim_data(S@.shape, inst2, wit2);
        let ghost g = nsc_round(S@.left, S@.right, rho.val(), c1, c2);
        proof {
            let d1 = NscData {
                e: W1@.e,
                az: vals(abc1.0@),
                bz: vals(abc1.1@),
                cz: vals(abc1.2@),
            };
            let d2 = NscData {
                e: table@,
                az: vals(abc2.0@),
                bz: vals(abc2.1@),
                cz: vals(abc2.2@),
            };
            lemma_claim_data::<E>(S@.shape, U1@, W1@, abc1);
            lemma_claim_data::<E>(S@.shape, inst2, wit2, abc2);
            assert forall|t: int|
                (eq_poly(rho.val(), t) * nsc_sum(S@.left, S@.right, lerp_nsc(d1, d2, t))) % p
                    == #[trigger] g(t) % p by {
                lemma_nsc_lerp_cong(p, S@.left, S@.right, d1, d2, c1, c2, t);
                lemma_cong_mul(
                    p,
                    eq_poly(rho.val(), t),
                    nsc_sum(S@.left, S@.right, lerp_nsc(d1, d2, t)),
                    eq_poly(rho.val(), t),
                    nsc_sum(S@.left, S@.right, lerp_nsc(c1, c2, t)),
                );
            }
            assert(g(0) % p == g(0) % p && g(2) % p == g(2) % p && g(3) % p == g(3) % p && g(4) % p
                == g(4) % p && g(5) % p == g(5) % p);
            assert(acc_is(evals, g));
        }
        let poly = round_poly(evals, T, Ghost(g));
        proof {
            broadcast use group_is;

            lemma_seed(rho);
            lemma_seed(U1.T);
            assert(is(p, T.val(), (1 - rho.val()) * U1.T.val()));
            lemma_mod(p, (1 - rho.val()) * U1.T.val());
        }
        <UniPoly<E::Scalar> as AbsorbInRO2Trait<E>>::absorb_in_ro2(&poly, &mut ro);
        let r_b = ro.squeeze(NUM_CHALLENGE_BITS);
        let nifs = NIFS { comm_E, poly };
        assert(honest_message(
            ro_consts@,
            pp_digest.val(),
            *ck,
            S@,
            U1@,
            W1@,
            *U2,
            *W2,
            r_E.val(),
            nifs,
        ));
        let T_out = match output_claim(&nifs.poly, &rho, &r_b) {
            Ok(t) => t,
            Err(e) => {
                return Err(e);
            },
        };
        let U = match U1.fold(U2, &comm_E, &r_b, &T_out) {
            Ok(u) => u,
            Err(e) => {
                return Err(e);
            },
        };
        let W = match W1.fold(W2, &table, &r_b) {
            Ok(w) => w,
            Err(e) => {
                return Err(e);
            },
        };
        Ok((nifs, (U, W)))
    }

    /// Folds a fresh instance and witness into a running pair, with weights under fresh
    /// randomness.
    pub fn prove(
        ck: &CommitmentKey<E>,
        ro_consts: &PoseidonConstants<E::Scalar>,
        pp_digest: &E::Scalar,
        S: &Structure<E>,
        U1: &FoldedInstance<E>,
        W1: &FoldedWitness<E>,
        U2: &R1CSInstance<E>,
        W2: &R1CSWitness<E>,
    ) -> (r: Result<(NIFS<E>, (FoldedInstance<E>, FoldedWitness<E>)), NovaError>)
        requires
            ro_consts.wf(),
            S@.left + S@.right <= ck.bases().len(),
            W1@.e.len() == S@.left + S@.right,
            W1@.split == S@.left,
            W1.W@.len() + 1 + U1.X@.len() <= usize::MAX,
            W2.W@.len() + 1 + U2.X@.len() <= usize::MAX,
        ensures
            ({
                let fit = fills_columns(S@, W1.W@.len(), U1.X@.len()) && fills_columns(
                    S@,
                    W2.W@.len(),
                    U2.X@.len(),
                );
                &&& !fit ==> r is Err && r->Err_0 == NovaError::InvalidWitnessLength
                &&& fit ==> exists|r_e: int, nifs: NIFS<E>| #[trigger]
                    honest_message(
                        ro_consts@,
                        pp_digest.val(),
                        *ck,
                        S@,
                        U1@,
                        W1@,
                        *U2,
                        *W2,
                        r_e,
                        nifs,
                    ) && prover_returns(
                        ro_consts@,
                        pp_digest.val(),
                        S@,
                        U1@,
                        W1@,
                        *U2,
                        *W2,
                        r_e,
                        nifs,
                        r,
                    )
            }),
    {
        Self::prove_with_randomness(
            ck,
            ro_consts,
            pp_digest,
            S,
            U1,
            W1,
            U2,
            W2,
            E::Scalar::random(),
        )
    }

    /// Checks the message and folds the fresh instance into the running one.
    pub fn verify(
        &self,
        ro_consts: &PoseidonConstants<E::Scalar>,
        pp_digest: &E::Scalar,
        U1: &FoldedInstance<E>,
        U2: &R1CSInstance<E>,
    ) -> (r: Result<FoldedInstance<E>, NovaError>)
        requires
            ro_consts.wf(),
        ensures
            ({
                let p = E::Scalar::modulus();
                let ch = fold_challenges(ro_consts@, pp_digest.val(), *U2, *self);
                let sums = sums_to_claim(p, self.poly@, ch.rho, U1@.t);
                let eq = eq_poly(ch.rho, ch.r_b);
                match r {
                    Ok(U) => {
                        &&& sums
                        &&& eq % p != 0
                        &&& invertible(p, eq)
                        &&& U1@.x.len() == U2.X@.len()
                        &&& U@ == folded_instance(ro_consts@, pp_digest.val(), U1@, *U2, *self)
                        &&& U.placed()
                    },
                    Err(NovaError::InvalidSumcheckProof) => !sums,
                    Err(NovaError::DivideByZero) => sums && eq % p == 0,
                    Err(NovaError::InvalidInputLength) => sums && eq % p != 0 && U1@.x.len()
                        != U2.X@.len(),
                    Err(_) => false,
                }
            }),
    {
        let ghost p = E::Scalar::modulus();
        let ghost fresh = <R1CSInstance<E> as AbsorbInRO2Trait<E>>::elements(U2);
        let mut ro = PoseidonRO::new(ro_consts.duplicate());
        ro.absorb(*pp_digest);
        U2.absorb_in_ro2(&mut ro);
        assert(ro@ =~= seq![pp_digest.val()] + fresh);
        let _tau = ro.squeeze(NUM_CHALLENGE_BITS);
        absorb_commitment::<E>(&self.comm_E, &mut ro);
        let rho = ro.squeeze(NUM_CHALLENGE_BITS);
        let T = E::Scalar::one().sub(rho).mul(U1.T);
        let (at_zero, at_one) = (self.poly.eval_at_zero(), self.poly.eval_at_one());
        let total = at_zero.add(at_one);
        proof {
            broadcast use group_is;

            lemma_seed(rho);
            lemma_seed(U1.T);
            lemma_seed_const::<E::Scalar>(1);
            assert(is(p, T.val(), (1 - rho.val()) * U1.T.val()));
            assert(is(p, total.val(), peval(self.poly@, 0) + peval(self.poly@, 1)));
        }
        if !total.equals(T) {
            return Err(NovaError::InvalidSumcheckProof);
        }
        <UniPoly<E::Scalar> as AbsorbInRO2Trait<E>>::absorb_in_ro2(&self.poly, &mut ro);
        let r_b = ro.squeeze(NUM_CHALLENGE_BITS);
        let T_out = match output_claim(&self.poly, &rho, &r_b) {
            Ok(t) => t,
            Err(e) => {
                return Err(e);
            },
        };
        U1.fold(U2, &self.comm_E, &r_b, &T_out)
    }
}

/// The products of the matrices with `[w, u, x]`, or the refusal of a vector that does not fit.
pub open spec fn products<E: Engine>(
    S: Structure<E>,
    w: Seq<int>,
    u: int,
    x: Seq<int>,
    res: Result<(Vec<E::Scalar>, Vec<E::Scalar>, Vec<E::Scalar>), NovaError>,
) -> bool {
    let p = E::Scalar::modulus();
    let n = S@.shape.num_cons;
    let z = crate::relation::z_vec(w, u, x);
    match res {
        Ok(abc) => {
            &&& w.len() + 1 + x.len() == S@.shape.cols()
            &&& abc.0@.len() == n
            &&& abc.1@.len() == n
            &&& abc.2@.len() == n
            &&& forall|i: int| 0 <= i < n ==> is(
                p,
                #[trigger] abc.0@[i].val(),
                mat_vec(S@.shape.a, n, z)[i],
            )
            &&& forall|i: int| 0 <= i < n ==> is(
                p,
                #[trigger] abc.1@[i].val(),
                mat_vec(S@.shape.b, n, z)[i],
            )
            &&& forall|i: int| 0 <= i < n ==> is(
                p,
                #[trigger] abc.2@[i].val(),
                mat_vec(S@.shape.c, n, z)[i],
            )
        },
        Err(e) => w.len() + 1 + x.len() != S@.shape.cols() && e == NovaError::InvalidWitnessLength,
    }
}

/// Multiplies the matrices with `[w, u, x]`.
pub fn multiply<E: Engine>(
    S: &Structure<E>,
    w: &Vec<E::Scalar>,
    u: E::Scalar,
    x: &Vec<E::Scalar>,
) -> (res: Result<(Vec<E::Scalar>, Vec<E::Scalar>, Vec<E::Scalar>), NovaError>)
    requires
        w@.len() + 1 + x@.len() <= usize::MAX,
    ensures
        products(*S, vals(w@), u.val(), vals(x@), res),
{
    let z = concat_z(w, u, x);
    S.shape().multiply_vec(z.as_slice())
}

} // verus!
