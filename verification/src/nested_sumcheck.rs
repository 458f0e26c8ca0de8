//! Conversion of zero checks to nested sum-checks.
use vstd::prelude::*;
use crate::arith::is;
use crate::commitment::{commit_log, CommitmentKey};
use crate::errors::NovaError;
use crate::field::{vals, Field};
use crate::nifs::multiply;
use crate::power_check_relation::{
    compute_pc_weighted_sum_bruteforce, fresh_pc_instance, pc_flat_sum,
    power_check_with_randomness, FoldedPowerCheckInstance, FoldedPowerCheckWitness, PcWitness,
    PowerCheckInstance, PowerCheckStructure, PowerCheckWitness,
};
use crate::r1cs::{mat_vec, R1CSInstance, R1CSWitness};
use crate::relation::{
    fresh_instance, fresh_witness, z_vec, FoldedInstance, FoldedWitness, Structure,
    StructureModel,
};
use crate::ro::{challenge, poseidon, PoseidonRO, NUM_CHALLENGE_BITS};
use crate::traits::{Commitment, Engine, Group};
use crate::transcript::{absorb_commitment, point_elements, AbsorbInRO2Trait};
use crate::weight_table::{mod_seq, power_table, TableModel, WeightTable};

verus! {

/// What the conversion of a fresh zero check and a fresh power check yields.
pub struct NSCConversionOutput<E: Engine> {
    /// The challenge that the weights are the powers of.
    pub tau: E::Scalar,
    /// The weights, shared by the main relation and the power check.
    pub E: WeightTable<E>,
    /// Commitment to the weights.
    pub comm_E: E::GE,
    /// The product of the first matrix with the fresh vector.
    pub Az: Vec<E::Scalar>,
    /// The product of the second matrix with the fresh vector.
    pub Bz: Vec<E::Scalar>,
    /// The product of the third matrix with the fresh vector.
    pub Cz: Vec<E::Scalar>,
    /// The fresh constraint system as a nested sum-check.
    pub nsc: (FoldedInstance<E>, FoldedWitness<E>),
    /// The given power check as a nested sum-check, with the weights attached.
    pub nsc_pc: (FoldedPowerCheckInstance<E>, FoldedPowerCheckWitness<E>),
    /// The power check of the weights, which is left for later.
    pub zc_pc: (PowerCheckInstance<E>, PowerCheckWitness<E>),
}

/// The transcript that the challenge of a conversion is drawn from.
pub open spec fn conversion_transcript<E: Engine>(
    before: Seq<int>,
    u2: R1CSInstance<E>,
    u_pc: PowerCheckInstance<E>,
) -> Seq<int> {
    before + <R1CSInstance<E> as AbsorbInRO2Trait<E>>::elements(&u2) + <PowerCheckInstance<
        E,
    > as AbsorbInRO2Trait<E>>::elements(&u_pc)
}

/// The weights of a conversion: the powers of the challenge, under the given randomness.
pub open spec fn conversion_weights<E: Engine>(s: StructureModel, tau: int, r_e: int) -> TableModel {
    TableModel {
        data: mod_seq(E::Scalar::modulus(), power_table(tau, s.left as nat, s.right as nat)),
        rand: r_e,
        split: s.left as nat,
    }
}

/// The entries represent the product of the matrix with the vector.
pub open spec fn represents<F: Field>(v: Seq<F>, product: Seq<int>) -> bool {
    &&& v.len() == product.len()
    &&& forall|i: int| 0 <= i < v.len() ==> is(F::modulus(), #[trigger] v[i].val(), product[i])
}

/// The output is the conversion of the given pairs under the challenge and the randomness.
pub open spec fn converted<E: Engine>(
    ck: CommitmentKey<E>,
    s: StructureModel,
    zc: (&R1CSInstance<E>, &R1CSWitness<E>),
    zc_pc: (&PowerCheckInstance<E>, &PowerCheckWitness<E>),
    tau: int,
    r_e: int,
    out: NSCConversionOutput<E>,
) -> bool {
    let p = E::Scalar::modulus();
    let weights = conversion_weights::<E>(s, tau, r_e);
    let n = s.shape.num_cons;
    let z = z_vec(vals(zc.1.W@), 1, vals(zc.0.X@));
    &&& out.tau.val() == tau
    &&& out.E.model() == weights
    &&& is(p, out.comm_E.log(), commit_log(ck.bases(), ck.blind(), weights.data, r_e))
    &&& out.comm_E.coords() == E::GE::point(out.comm_E.log())
    &&& represents(out.Az@, mat_vec(s.shape.a, n, z))
    &&& represents(out.Bz@, mat_vec(s.shape.b, n, z))
    &&& represents(out.Cz@, mat_vec(s.shape.c, n, z))
    &&& out.nsc.0@ == fresh_instance(*zc.0, out.comm_E.log())
    &&& out.nsc.1@ == fresh_witness(*zc.1, out.E)
    &&& out.nsc_pc.0@ == fresh_pc_instance(*zc_pc.0, out.comm_E.log())
    &&& out.nsc_pc.0.tau == zc_pc.0.tau
    &&& out.nsc_pc.1@ == (PcWitness { witness: zc_pc.1.powers.model(), weights })
    &&& out.zc_pc.0.comm_powers == out.comm_E
    &&& out.zc_pc.0.tau == out.tau
    &&& out.zc_pc.1.powers.model() == weights
}

/// Converts a fresh zero check and a fresh power check to nested sum-checks, with weights under
/// the given randomness.
///
/// The transcript absorbs both fresh instances, yields the challenge, and absorbs the commitment
/// to the powers of that challenge. These are the weights of both sums, and their own power check
/// is left for later. A witness and a public input that do not fit the shape are refused.
pub fn convert_with_randomness<E: Engine>(
    ck: &CommitmentKey<E>,
    S: &Structure<E>,
    zc: (&R1CSInstance<E>, &R1CSWitness<E>),
    zc_pc: (&PowerCheckInstance<E>, &PowerCheckWitness<E>),
    transcript: &mut PoseidonRO<E::Scalar>,
    r_E: E::Scalar,
) -> (r: Result<NSCConversionOutput<E>, NovaError>)
    requires
        old(transcript).wf(),
        S@.left + S@.right <= ck.bases().len(),
        zc.1.W@.len() + 1 + zc.0.X@.len() <= usize::MAX,
    ensures
        final(transcript).wf(),
        final(transcript).params() == old(transcript).params(),
        r is Ok <==> zc.1.W@.len() + 1 + zc.0.X@.len() == S@.shape.cols(),
        r matches Err(e) ==> e == NovaError::InvalidWitnessLength,
        ({
            let p = E::Scalar::modulus();
            let t0 = conversion_transcript(old(transcript)@, *zc.0, *zc_pc.0);
            let tau = challenge(p, old(transcript).params(), t0, NUM_CHALLENGE_BITS as nat);
            r matches Ok(out) ==> converted(*ck, S@, zc, zc_pc, tau, r_E.val(), out)
                && final(transcript)@ == seq![poseidon(p, old(transcript).params(), t0)]
                + point_elements(out.comm_E.coords())
        }),
{
    proof {
        use_type_invariant(S);
    }
    let (U2, W2) = zc;
    let (U_pc, W_pc) = zc_pc;
    U2.absorb_in_ro2(transcript);
    U_pc.absorb_in_ro2(transcript);
    assert(transcript@ == conversion_transcript(old(transcript)@, *U2, *U_pc));
    let tau = transcript.squeeze(NUM_CHALLENGE_BITS);

    // the fresh power check, whose table gives the weights of both sums
    let (fresh_pc_instance, fresh_pc_witness) = power_check_with_randomness(
        &tau,
        S.left(),
        S.right(),
        ck,
        r_E,
    );
    let E = fresh_pc_witness.powers.clone();
    let comm_E = fresh_pc_instance.comm_powers;
    absorb_commitment::<E>(&comm_E, transcript);

    let (Az, Bz, Cz) = match multiply(S, &W2.W, E::Scalar::one(), &U2.X) {
        Ok(abc) => abc,
        Err(e) => {
            return Err(e);
        },
    };
    let nsc_pc_instance = FoldedPowerCheckInstance::from_fresh_zc_pc(U_pc, comm_E);
    let nsc_pc_witness = FoldedPowerCheckWitness::from_fresh_zc_pc(W_pc, E.clone());
    let nsc_instance = FoldedInstance::from_r1cs(U2, &comm_E);
    let nsc_witness = FoldedWitness::from_r1cs(W2, E.clone());
    Ok(
        NSCConversionOutput {
            tau,
            E,
            comm_E,
            Az,
            Bz,
            Cz,
            nsc: (nsc_instance, nsc_witness),
            nsc_pc: (nsc_pc_instance, nsc_pc_witness),
            zc_pc: (fresh_pc_instance, fresh_pc_witness),
        },
    )
}

/// Converts a fresh zero check and a fresh power check to nested sum-checks, with weights under
/// fresh randomness.
pub fn convert_to_nsc<E: Engine>(
    ck: &CommitmentKey<E>,
    S: &Structure<E>,
    zc: (&R1CSInstance<E>, &R1CSWitness<E>),
    zc_pc: (&PowerCheckInstance<E>, &PowerCheckWitness<E>),
    transcript: &mut PoseidonRO<E::Scalar>,
) -> (r: Result<NSCConversionOutput<E>, NovaError>)
    requires
        old(transcript).wf(),
        S@.left + S@.right <= ck.bases().len(),
        zc.1.W@.len() + 1 + zc.0.X@.len() <= usize::MAX,
    ensures
        final(transcript).wf(),
        final(transcript).params() == old(transcript).params(),
        r is Ok <==> zc.1.W@.len() + 1 + zc.0.X@.len() == S@.shape.cols(),
        r matches Err(e) ==> e == NovaError::InvalidWitnessLength,
        ({
            let p = E::Scalar::modulus();
            let t0 = conversion_transcript(old(transcript)@, *zc.0, *zc_pc.0);
            let tau = challenge(p, old(transcript).params(), t0, NUM_CHALLENGE_BITS as nat);
            r matches Ok(out) ==> converted(*ck, S@, zc, zc_pc, tau, out.E.rand(), out)
                && final(transcript)@ == seq![poseidon(p, old(transcript).params(), t0)]
                + point_elements(out.comm_E.coords())
        }),
{
    convert_with_randomness(ck, S, zc, zc_pc, transcript, E::Scalar::random())
}

/// A fresh pair of each relation in folded form.
pub struct ReconstructedFresh<E: Engine> {
    /// The fresh constraint system as a nested sum-check.
    pub nsc: (FoldedInstance<E>, FoldedWitness<E>),
    /// The fresh power check as a nested sum-check.
    pub nsc_pc: (FoldedPowerCheckInstance<E>, FoldedPowerCheckWitness<E>),
}

/// The pairs that a conversion made under the challenge `tau`, up to the randomness of the
/// weights.
pub fn reconstruct_fresh_from_tau<E: Engine>(
    S: &Structure<E>,
    zc: (&R1CSInstance<E>, &R1CSWitness<E>),
    zc_pc: (&PowerCheckInstance<E>, &PowerCheckWitness<E>),
    tau: &E::Scalar,
    comm_E: &Commitment<E>,
) -> (r: Result<ReconstructedFresh<E>, NovaError>)
    ensures
        r matches Ok(f) && {
            let weights = conversion_weights::<E>(S@, tau.val(), f.nsc.1@.r_e);
            &&& f.nsc.0@ == fresh_instance(*zc.0, comm_E.log())
            &&& f.nsc.1@.w == vals(zc.1.W@)
            &&& f.nsc.1@.r_w == zc.1.r_W.val()
            &&& f.nsc.1@.e == weights.data
            &&& f.nsc.1@.split == weights.split
            &&& f.nsc_pc.0@ == fresh_pc_instance(*zc_pc.0, comm_E.log())
            &&& f.nsc_pc.1@ == (PcWitness { witness: zc_pc.1.powers.model(), weights })
        },
{
    proof {
        use_type_invariant(S);
    }
    let (u_fresh, w_fresh) = zc;
    let (zc_pc_instance, zc_pc_witness) = zc_pc;
    let E = WeightTable::from_tau(tau, S.left(), S.right());
    let nsc_instance = FoldedInstance::from_r1cs(u_fresh, comm_E);
    let nsc_witness = FoldedWitness::from_r1cs(w_fresh, E.clone());
    let nsc_pc_instance = FoldedPowerCheckInstance::from_fresh_zc_pc(zc_pc_instance, *comm_E);
    let nsc_pc_witness = FoldedPowerCheckWitness::from_fresh_zc_pc(zc_pc_witness, E);
    Ok(
        ReconstructedFresh {
            nsc: (nsc_instance, nsc_witness),
            nsc_pc: (nsc_pc_instance, nsc_pc_witness),
        },
    )
}

/// Recomputes the nested sum of the main relation and holds it against the claim.
pub fn verify_nsc_claim_bruteforce<E: Engine>(
    S: &Structure<E>,
    U: &FoldedInstance<E>,
    W: &FoldedWitness<E>,
) -> (r: Result<(), NovaError>)
    requires
        W.W@.len() + 1 + U.X@.len() <= usize::MAX,
        W@.e.len() == S@.left + S@.right,
        W@.split == S@.left,
    ensures
        ({
            let fit = W@.w.len() + 1 + U@.x.len() == S@.shape.cols();
            &&& r is Ok <==> fit && is(E::Scalar::modulus(), U@.t, S@.claim(U@, W@))
            &&& r matches Err(e) ==> if fit {
                e is UnSat
            } else {
                e == NovaError::InvalidWitnessLength
            }
        }),
{
    match S.claim(U, W) {
        Ok(sum) => {
            if !sum.equals(U.T) {
                return Err(NovaError::UnSat { reason: "NSC claim mismatch".to_string() });
            }
            Ok(())
        },
        Err(e) => Err(e),
    }
}

/// Recomputes the weighted sum of residuals of the power check and holds it against the claim.
pub fn verify_nsc_pc_claim_bruteforce<E: Engine>(
    S_pc: &PowerCheckStructure,
    U: &FoldedPowerCheckInstance<E>,
    W: &FoldedPowerCheckWitness<E>,
) -> (r: Result<(), NovaError>)
    requires
        S_pc.left >= 1,
        S_pc.num_cons == S_pc.left + S_pc.right,
        S_pc.num_cons <= S_pc.left * S_pc.right,
        W@.witness.splits(S_pc.left as int, S_pc.right as int),
        W@.weights.splits(S_pc.left as int, S_pc.right as int),
    ensures
        r is Ok <==> is(
            E::Scalar::modulus(),
            U@.claim,
            pc_flat_sum(
                S_pc.left as int,
                W@.weights.first(),
                W@.weights.second(),
                W@.witness.first(),
                W@.witness.second(),
                U@.tau,
                S_pc.num_cons as int,
            ),
        ),
        r matches Err(e) ==> e is UnSat,
{
    let (e1, e2) = (W.witness.e1(), W.witness.e2());
    let (w_left, w_right) = (W.weights.e1(), W.weights.e2());
    let sum = compute_pc_weighted_sum_bruteforce(e1, e2, &U.tau, w_left, w_right);
    if !sum.equals(U.pc_sumcheck_claim) {
        return Err(NovaError::UnSat { reason: "NSC_PC claim mismatch".to_string() });
    }
    Ok(())
}

} // verus!
