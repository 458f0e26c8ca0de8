//! Conversion of zero checks to nested sum-checks that leaves the main instance to its caller.
use vstd::prelude::*;
use crate::arith::is;
use crate::commitment::{commit_log, CommitmentKey};
use crate::errors::NovaError;
use crate::field::{vals, Field};
use crate::nested_sumcheck::{
    conversion_transcript, conversion_weights, represents,
};
use crate::nifs::multiply;
use crate::power_check_relation::{
    fresh_pc_instance, FoldedPowerCheckInstance, FoldedPowerCheckWitness, PcWitness,
    PowerCheckInstance, PowerCheckStructure, PowerCheckWitness,
};
use crate::r1cs::{mat_vec, R1CSInstance, R1CSWitness};
use crate::relation::{z_vec, Structure, StructureModel};
use crate::ro::{challenge, poseidon, PoseidonRO, NUM_CHALLENGE_BITS};
use crate::traits::{Engine, Group};
use crate::transcript::{absorb_commitment, point_elements, AbsorbInRO2Trait};
use crate::weight_table::WeightTable;

verus! {

/// What the conversion of a fresh zero check and a fresh power check yields.
pub struct NSCConversionOutput<E: Engine> {
    /// The challenge that the weights are the powers of.
    pub tau: E::Scalar,
    /// The weights, shared by the main relation and the power check.
    pub E: WeightTable<E>,
    /// Commitment to the weights.
    pub comm_E: E::GE,
    /// The product of the first matrix with the fresh vector.
    pub Az: Vec<E::Scalar>,
    /// The product of the second matrix with the fresh vector.
    pub Bz: Vec<E::Scalar>,
    /// The product of the third matrix with the fresh vector.
    pub Cz: Vec<E::Scalar>,
    /// The given power check as a nested sum-check, with the weights attached.
    pub nsc_pc: (FoldedPowerCheckInstance<E>, FoldedPowerCheckWitness<E>),
    /// The power check of the weights, which is left for later.
    pub fresh_pc: (PowerCheckInstance<E>, PowerCheckWitness<E>),
}

/// The output is the conversion of the given pairs under the challenge and the randomness.
pub open spec fn converted<E: Engine>(
    ck: CommitmentKey<E>,
    s: StructureModel,
    zc: (&R1CSInstance<E>, &R1CSWitness<E>),
    zc_pc: (&PowerCheckInstance<E>, &PowerCheckWitness<E>),
    tau: int,
    r_e: int,
    out: NSCConversionOutput<E>,
) -> bool {
    let p = E::Scalar::modulus();
    let weights = conversion_weights::<E>(s, tau, r_e);
    let n = s.shape.num_cons;
    let z = z_vec(vals(zc.1.W@), 1, vals(zc.0.X@));
    &&& out.tau.val() == tau
    &&& out.E.model() == weights
    &&& is(p, out.comm_E.log(), commit_log(ck.bases(), ck.blind(), weights.data, r_e))
    &&& out.comm_E.coords() == E::GE::point(out.comm_E.log())
    &&& represents(out.Az@, mat_vec(s.shape.a, n, z))
    &&& represents(out.Bz@, mat_vec(s.shape.b, n, z))
    &&& represents(out.Cz@, mat_vec(s.shape.c, n, z))
    &&& out.nsc_pc.0@ == fresh_pc_instance(*zc_pc.0, out.comm_E.log())
    &&& out.nsc_pc.1@ == (PcWitness { witness: zc_pc.1.powers.model(), weights })
    &&& out.fresh_pc.0.comm_powers == out.comm_E
    &&& out.fresh_pc.0.tau == out.tau
    &&& out.fresh_pc.1.powers.model() == weights
}

/// Converts a fresh zero check and a fresh power check, with weights under the given randomness.
/// A witness and a public input that do not fit the shape are refused.
pub fn convert_with_randomness<E: Engine>(
    ck: &CommitmentKey<E>,
    S: &Structure<E>,
    zc: (&R1CSInstance<E>, &R1CSWitness<E>),
    zc_pc: (&PowerCheckInstance<E>, &PowerCheckWitness<E>),
    transcript: &mut PoseidonRO<E::Scalar>,
    r_E: E::Scalar,
) -> (r: Result<NSCConversionOutput<E>, NovaError>)
    requires
        old(transcript).wf(),
        S@.left + S@.right <= ck.bases().len(),
        zc.1.W@.len() + 1 + zc.0.X@.len() <= usize::MAX,
    ensures
        final(transcript).wf(),
        final(transcript).params() == old(transcript).params(),
        r is Ok <==> zc.1.W@.len() + 1 + zc.0.X@.len() == S@.shape.cols(),
        r matches Err(e) ==> e == NovaError::InvalidWitnessLength,
        ({
            let p = E::Scalar::modulus();
            let t0 = conversion_transcript(old(transcript)@, *zc.0, *zc_pc.0);
            let tau = challenge(p, old(transcript).params(), t0, NUM_CHALLENGE_BITS as nat);
            r matches Ok(out) ==> converted(*ck, S@, zc, zc_pc, tau, r_E.val(), out)
                && final(transcript)@ == seq![poseidon(p, old(transcript).params(), t0)]
                + point_elements(out.comm_E.coords())
        }),
{
    proof {
        use_type_invariant(S);
    }
    let (U2, W2) = zc;
    let (pc_inst, pc_wit) = zc_pc;
    U2.absorb_in_ro2(transcript);
    pc_inst.absorb_in_ro2(transcript);
    assert(transcript@ == conversion_transcript(old(transcript)@, *U2, *pc_inst));
    let tau = transcript.squeeze(NUM_CHALLENGE_BITS);
    let E = WeightTable::from_powers(&tau, S.left(), S.right(), r_E);
    let comm_E = E.commit(ck);
    absorb_commitment::<E>(&comm_E, transcript);
    let (Az, Bz, Cz) = match multiply(S, &W2.W, E::Scalar::one(), &U2.X) {
        Ok(abc) => abc,
        Err(e) => {
            return Err(e);
        },
    };
    let nsc_pc_instance = FoldedPowerCheckInstance::from_fresh_zc_pc(pc_inst, comm_E);
    let nsc_pc_witness = FoldedPowerCheckWitness::from_fresh_zc_pc(pc_wit, E.clone());
    let fresh_pc_instance = PowerCheckInstance { comm_powers: comm_E, tau };
    let fresh_pc_witness = PowerCheckWitness { powers: E.clone() };
    Ok(
        NSCConversionOutput {
            tau,
            E,
            comm_E,
            Az,
            Bz,
            Cz,
            nsc_pc: (nsc_pc_instance, nsc_pc_witness),
            fresh_pc: (fresh_pc_instance, fresh_pc_witness),
        },
    )
}

/// Converts a fresh zero check and a fresh power check, with weights under fresh randomness.
pub fn convert_to_nsc<E: Engine>(
    ck: &CommitmentKey<E>,
    S: &Structure<E>,
    _S_pc: &PowerCheckStructure,
    zc: (&R1CSInstance<E>, &R1CSWitness<E>),
    zc_pc: (&PowerCheckInstance<E>, &PowerCheckWitness<E>),
    transcript: &mut PoseidonRO<E::Scalar>,
) -> (r: Result<NSCConversionOutput<E>, NovaError>)
    requires
        old(transcript).wf(),
        S@.left + S@.right <= ck.bases().len(),
        zc.1.W@.len() + 1 + zc.0.X@.len() <= usize::MAX,
    ensures
        final(transcript).wf(),
        final(transcript).params() == old(transcript).params(),
        r is Ok <==> zc.1.W@.len() + 1 + zc.0.X@.len() == S@.shape.cols(),
        r matches Err(e) ==> e == NovaError::InvalidWitnessLength,
        ({
            let p = E::Scalar::modulus();
            let t0 = conversion_transcript(old(transcript)@, *zc.0, *zc_pc.0);
            let tau = challenge(p, old(transcript).params(), t0, NUM_CHALLENGE_BITS as nat);
            r matches Ok(out) ==> converted(*ck, S@, zc, zc_pc, tau, out.E.rand(), out)
                && final(transcript)@ == seq![poseidon(p, old(transcript).params(), t0)]
                + point_elements(out.comm_E.coords())
        }),
{
    convert_with_randomness(ck, S, zc, zc_pc, transcript, E::Scalar::random())
}

} // verus!
