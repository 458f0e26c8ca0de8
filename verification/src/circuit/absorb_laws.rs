//! What absorbing a value in a circuit leaves in a transcript, element by element, and what the
//! parts of the verifier demand.
use vstd::prelude::*;
use crate::circuit::point::AllocatedNonnativePoint;
use crate::circuit::power_check_relation::{
    AllocatedFoldedPowerCheckInstance, AllocatedPowerCheckInstance,
};
use crate::circuit::relation::AllocatedNonnativeR1CSInstance;
use crate::circuit::transcript_laws::{circuit_reads, claim_left, claim_met, lemma_circuit_reads};
use crate::circuit::univariate::AllocatedUniPoly;
use crate::circuit::zerofold_nifs::AllocatedZeroFoldNIFS;
use crate::errors::SynthesisError;
use crate::field::Field;
use crate::frontend::{agrees, new_hold, ConstraintSystem};
use crate::gadgets::at_all;
use crate::num::AllocatedNum;
use crate::ro::poseidon;
use crate::ro_circuit::PoseidonROCircuit;
use crate::traits::Engine;
use crate::transcript_laws::drawn;

verus! {

/// The transcript goes on behind what it held before, and is `n` numbers longer.
pub open spec fn nums_grow_by<F: Field>(
    t: Seq<AllocatedNum<F>>,
    before: Seq<AllocatedNum<F>>,
    n: int,
) -> bool {
    &&& t.len() == before.len() + n
    &&& forall|i: int| 0 <= i < before.len() ==> #[trigger] t[i] == before[i]
}

/// From place `at` on, the transcript holds the numbers.
pub open spec fn holds_from<F: Field>(
    t: Seq<AllocatedNum<F>>,
    at: int,
    v: Seq<AllocatedNum<F>>,
) -> bool {
    forall|i: int| 0 <= i < v.len() ==> t[at + i] == #[trigger] v[i]
}

/// From place `at` on, the transcript holds the nine numbers of a point: those of both coordinates
/// and the mark of the identity.
pub open spec fn holds_point_from<E: Engine>(
    t: Seq<AllocatedNum<E::Scalar>>,
    at: int,
    c: AllocatedNonnativePoint<E>,
) -> bool {
    &&& holds_from(t, at, c.x@)
    &&& holds_from(t, at + 4, c.y@)
    &&& t[at + 8] == c.is_infinity
}

/// Absorbing a point appends the numbers of both coordinates and the mark of the identity.
pub proof fn law_allocated_point_is_absorbed<E: Engine>(
    c: &AllocatedNonnativePoint<E>,
    ro: &mut PoseidonROCircuit<E::Scalar>,
)
    requires
        call_ensures(AllocatedNonnativePoint::<E>::absorb_in_ro, (c, ro), ()),
        c.x@.len() == 4,
        c.y@.len() == 4,
    ensures
        nums_grow_by(final(ro)@, old(ro)@, 9),
        holds_point_from(final(ro)@, old(ro)@.len() as int, *c),
        final(ro).params() == old(ro).params(),
{
    let (t, n) = (final(ro)@, old(ro)@.len() as int);
    lemma_from(t, n, c.elements(), 0, c.x@);
    lemma_from(t, n, c.elements(), 4, c.y@);
}

/// What is held at the places of a sequence holds the parts of that sequence.
proof fn lemma_from<F: Field>(
    t: Seq<AllocatedNum<F>>,
    n: int,
    e: Seq<AllocatedNum<F>>,
    at: int,
    v: Seq<AllocatedNum<F>>,
)
    requires
        0 <= at,
        at + v.len() <= e.len(),
        forall|i: int| 0 <= i < e.len() ==> t[n + i] == #[trigger] e[i],
        forall|i: int| 0 <= i < v.len() ==> e[at + i] == #[trigger] v[i],
    ensures
        holds_from(t, n + at, v),
{
    assert forall|i: int| 0 <= i < v.len() implies t[n + at + i] == #[trigger] v[i] by {
        assert(e[at + i] == v[i]);
        assert(t[n + (at + i)] == e[at + i]);
    }
}

/// Absorbing a fresh instance appends its commitment and then its public input.
pub proof fn law_allocated_instance_is_absorbed<E: Engine>(
    u: &AllocatedNonnativeR1CSInstance<E>,
    ro: &mut PoseidonROCircuit<E::Scalar>,
)
    requires
        call_ensures(AllocatedNonnativeR1CSInstance::<E>::absorb_in_ro, (u, ro), ()),
        u.comm_W.x@.len() == 4,
        u.comm_W.y@.len() == 4,
    ensures
        nums_grow_by(final(ro)@, old(ro)@, 9int + u.X@.len()),
        holds_point_from(final(ro)@, old(ro)@.len() as int, u.comm_W),
        holds_from(final(ro)@, old(ro)@.len() + 9int, u.X@),
        final(ro).params() == old(ro).params(),
{
    let (t, n) = (final(ro)@, old(ro)@.len() as int);
    let e = u.elements();
    lemma_from(t, n, e, 0, u.comm_W.x@);
    lemma_from(t, n, e, 4, u.comm_W.y@);
    lemma_from(t, n, e, 9, u.X@);
    assert(t[n + 8] == e[8]);
}

/// Absorbing a power check appends its commitment and then its scalar, and leaves the system as it
/// is.
pub proof fn law_allocated_power_check_is_absorbed<E: Engine>(
    u: &AllocatedPowerCheckInstance<E>,
    cs: &mut ConstraintSystem<E::Scalar>,
    ro: &mut PoseidonROCircuit<E::Scalar>,
    r: Result<(), SynthesisError>,
)
    requires
        call_ensures(AllocatedPowerCheckInstance::<E>::absorb_in_ro, (u, cs, ro), r),
        u.comm_powers.x@.len() == 4,
        u.comm_powers.y@.len() == 4,
    ensures
        r is Ok,
        *final(cs) == *old(cs),
        nums_grow_by(final(ro)@, old(ro)@, 10),
        holds_point_from(final(ro)@, old(ro)@.len() as int, u.comm_powers),
        final(ro)@[old(ro)@.len() + 9int] == u.tau,
        final(ro).params() == old(ro).params(),
{
    let (t, n) = (final(ro)@, old(ro)@.len() as int);
    let e = u.elements();
    lemma_from(t, n, e, 0, u.comm_powers.x@);
    lemma_from(t, n, e, 4, u.comm_powers.y@);
    assert(t[n + 8] == e[8]);
}

/// Absorbing a folded power check appends its claim, the commitment to its table, the commitment to
/// its weights and its scalar, in this order, and leaves the system as it is.
pub proof fn law_allocated_folded_power_check_is_absorbed<E: Engine>(
    u: &AllocatedFoldedPowerCheckInstance<E>,
    cs: &mut ConstraintSystem<E::Scalar>,
    ro: &mut PoseidonROCircuit<E::Scalar>,
    r: Result<(), SynthesisError>,
)
    requires
        call_ensures(AllocatedFoldedPowerCheckInstance::<E>::absorb_in_ro, (u, cs, ro), r),
        u.comm_witness.x@.len() == 4,
        u.comm_witness.y@.len() == 4,
        u.comm_weights.x@.len() == 4,
        u.comm_weights.y@.len() == 4,
    ensures
        r is Ok,
        *final(cs) == *old(cs),
        nums_grow_by(final(ro)@, old(ro)@, 20),
        final(ro)@[old(ro)@.len() as int] == u.pc_sumcheck_claim,
        holds_point_from(final(ro)@, old(ro)@.len() + 1int, u.comm_witness),
        holds_point_from(final(ro)@, old(ro)@.len() + 10int, u.comm_weights),
        final(ro)@[old(ro)@.len() + 19int] == u.tau,
        final(ro).params() == old(ro).params(),
{
    let (t, n) = (final(ro)@, old(ro)@.len() as int);
    let e = u.elements();
    lemma_from(t, n, e, 1, u.comm_witness.x@);
    lemma_from(t, n, e, 5, u.comm_witness.y@);
    lemma_from(t, n, e, 10, u.comm_weights.x@);
    lemma_from(t, n, e, 14, u.comm_weights.y@);
    assert(t[n + 9] == e[9]);
    assert(t[n + 18] == e[18]);
}

/// Absorbing a polynomial appends all its coefficients.
pub proof fn law_allocated_polynomial_is_absorbed<E: Engine>(
    u: &AllocatedUniPoly<E>,
    ro: &mut PoseidonROCircuit<E::Scalar>,
)
    requires
        call_ensures(AllocatedUniPoly::<E>::absorb_in_ro, (u, ro), ()),
    ensures
        nums_grow_by(final(ro)@, old(ro)@, u.coeffs@.len() as int),
        holds_from(final(ro)@, old(ro)@.len() as int, u.coeffs@),
        final(ro).params() == old(ro).params(),
{
}

/// The first two challenges of the verifier are drawn from the digest with both fresh instances,
/// and from the hash of these with the commitment to the weights. The oracle then remembers the
/// hash of the second transcript.
pub proof fn law_first_challenges<E: Engine>(
    nifs: &AllocatedZeroFoldNIFS<E>,
    cs: &mut ConstraintSystem<E::Scalar>,
    digest: &AllocatedNum<E::Scalar>,
    u2: &AllocatedNonnativeR1CSInstance<E>,
    u2_pc: &AllocatedPowerCheckInstance<E>,
    ro: &mut PoseidonROCircuit<E::Scalar>,
    out: (AllocatedNum<E::Scalar>, AllocatedNum<E::Scalar>),
    a: Seq<int>,
    t: (Seq<int>, Seq<int>, Seq<int>),
)
    requires
        call_ensures(
            AllocatedZeroFoldNIFS::<E>::draw_tau_rho,
            (nifs, cs, digest, u2, u2_pc, ro),
            out,
        ),
        circuit_reads(old(ro).params(), *digest, *u2, *u2_pc, *nifs, a, t),
        new_hold(E::Scalar::modulus(), old(cs)@, final(cs)@, a) || agrees(a, final(cs)@),
    ensures
        ({
            let (p, m) = (E::Scalar::modulus(), old(ro).params());
            &&& out.0.at(a) % p == drawn(p, m, t.0)
            &&& out.1.at(a) % p == drawn(p, m, t.1)
            &&& final(ro)@.len() == 1
            &&& final(ro)@[0].at(a) % p == poseidon(p, m, t.1)
            &&& final(ro).params() == m
        }),
{
    let p = E::Scalar::modulus();
    lemma_circuit_reads(old(ro).params(), *digest, *u2, *u2_pc, *nifs, a, t);
    assert(agrees(a, final(cs)@) ==> new_hold(p, old(cs)@, final(cs)@, a));
    assert(new_hold(p, old(cs)@, final(cs)@, a));
}

/// Where the claims are checked, the new constraints hold only if both polynomials add up to the
/// running claims, and they do hold then for the values that the system records.
pub proof fn law_claims_are_checked<E: Engine>(
    nifs: &AllocatedZeroFoldNIFS<E>,
    cs: &mut ConstraintSystem<E::Scalar>,
    rho: &AllocatedNum<E::Scalar>,
    claims: (&AllocatedNum<E::Scalar>, &AllocatedNum<E::Scalar>),
    a: Seq<int>,
)
    requires
        call_ensures(
            AllocatedZeroFoldNIFS::<E>::check_claims,
            (nifs, cs, rho, claims.0, claims.1),
            (),
        ),
    ensures
        ({
            let met = claim_met(nifs.poly_nsc, a, rho.at(a), *claims.0) && claim_met(
                nifs.poly_pc,
                a,
                rho.at(a),
                *claims.1,
            );
            let held = new_hold(E::Scalar::modulus(), old(cs)@, final(cs)@, a);
            &&& held ==> met
            &&& agrees(a, final(cs)@) && met ==> held
        }),
{
    assert(nifs.poly_nsc.at(a) =~= at_all(nifs.poly_nsc.coeffs@, a));
    assert(nifs.poly_pc.at(a) =~= at_all(nifs.poly_pc.coeffs@, a));
    assert(agrees(a, final(cs)@) ==> (nifs.claims_hold(
        a,
        rho.at(a),
        claims.0.at(a),
        claims.1.at(a),
    ) ==> new_hold(E::Scalar::modulus(), old(cs)@, final(cs)@, a)));
}

/// Each claim that comes out, times the equality polynomial at both challenges, is the value of its
/// own polynomial at the folding challenge. Where the equality polynomial vanishes for the recorded
/// values, there are no claims.
pub proof fn law_claims_are_left<E: Engine>(
    nifs: &AllocatedZeroFoldNIFS<E>,
    cs: &mut ConstraintSystem<E::Scalar>,
    rho: &AllocatedNum<E::Scalar>,
    r_b: &AllocatedNum<E::Scalar>,
    r: Result<(AllocatedNum<E::Scalar>, AllocatedNum<E::Scalar>), SynthesisError>,
    a: Seq<int>,
)
    requires
        call_ensures(AllocatedZeroFoldNIFS::<E>::output_claims, (nifs, cs, rho, r_b), r),
    ensures
        ({
            let p = E::Scalar::modulus();
            let (x, y) = (rho.at(a), r_b.at(a));
            &&& r matches Ok((nsc, pc)) ==> (new_hold(p, old(cs)@, final(cs)@, a) || agrees(
                a,
                final(cs)@,
            ) ==> claim_left(nifs.poly_nsc, a, x, y, nsc) && claim_left(
                nifs.poly_pc,
                a,
                x,
                y,
                pc,
            ))
            &&& agrees(a, final(cs)@) ==> (r is Ok <==> ((1 - x) * (1 - y) + x * y) % p != 0)
            &&& r matches Err(e) ==> e == SynthesisError::DivisionByZero
        }),
{
    assert(nifs.poly_nsc.at(a) =~= at_all(nifs.poly_nsc.coeffs@, a));
    assert(nifs.poly_pc.at(a) =~= at_all(nifs.poly_pc.coeffs@, a));
}

} // verus!
