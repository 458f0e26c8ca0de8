//! What the verifier inside a circuit demands, and which transcript its challenges come from.
use vstd::prelude::*;
use crate::arith::{lerp, lerp_seq};
use crate::circuit::point::AllocatedNonnativePoint;
use crate::circuit::power_check_relation::{
    AllocatedFoldedPowerCheckInstance, AllocatedPowerCheckInstance,
};
use crate::circuit::relation::{AllocatedFoldedInstance, AllocatedNonnativeR1CSInstance};
use crate::circuit::univariate::AllocatedUniPoly;
use crate::circuit::zerofold_nifs::AllocatedZeroFoldNIFS;
use crate::errors::SynthesisError;
use crate::field::Field;
use crate::frontend::{agrees, new_hold, ConstraintSystem};
use crate::gadgets::at_all;
use crate::num::AllocatedNum;
use crate::ro::{poseidon, PoseidonConstants, PoseidonModel};
use crate::traits::Engine;
use crate::transcript_laws::drawn;
use crate::univariate::peval;
use crate::weight_table::mod_seq;

verus! {

/// From place `at` on, the transcript holds the values of numbers under an assignment.
pub open spec fn holds_nums<F: Field>(
    t: Seq<int>,
    at: int,
    v: Seq<AllocatedNum<F>>,
    a: Seq<int>,
) -> bool {
    forall|i: int| 0 <= i < v.len() ==> t[at + i] == (#[trigger] v[i]).at(a)
}

/// From place `at` on, the transcript holds the nine values of a point under an assignment: the
/// limbs of both coordinates, and the mark of the identity.
pub open spec fn holds_allocated_point<E: Engine>(
    t: Seq<int>,
    at: int,
    c: AllocatedNonnativePoint<E>,
    a: Seq<int>,
) -> bool {
    &&& c.x@.len() == 4
    &&& c.y@.len() == 4
    &&& holds_nums(t, at, c.x@, a)
    &&& holds_nums(t, at + 4, c.y@, a)
    &&& t[at + 8] == c.is_infinity.at(a)
}

/// The transcripts of the three challenges of the verifier under an assignment: the digest and both
/// fresh instances; the hash of these and the commitment to the weights; the hash of these, every
/// coefficient of the polynomial of the main relation and every coefficient of the polynomial of
/// the power check.
pub open spec fn circuit_reads<E: Engine>(
    m: PoseidonModel,
    digest: AllocatedNum<E::Scalar>,
    u2: AllocatedNonnativeR1CSInstance<E>,
    u2_pc: AllocatedPowerCheckInstance<E>,
    nifs: AllocatedZeroFoldNIFS<E>,
    a: Seq<int>,
    t: (Seq<int>, Seq<int>, Seq<int>),
) -> bool {
    let p = E::Scalar::modulus();
    let n = u2.X@.len() as int;
    let (c, d) = (nifs.poly_nsc.coeffs@, nifs.poly_pc.coeffs@);
    &&& t.0.len() == 20 + n
    &&& t.0[0] == digest.at(a)
    &&& holds_allocated_point(t.0, 1, u2.comm_W, a)
    &&& holds_nums(t.0, 10, u2.X@, a)
    &&& holds_allocated_point(t.0, 10 + n, u2_pc.comm_powers, a)
    &&& t.0[19 + n] == u2_pc.tau.at(a)
    &&& t.1.len() == 10
    &&& t.1[0] == poseidon(p, m, t.0)
    &&& holds_allocated_point(t.1, 1, nifs.comm_E, a)
    &&& t.2.len() == 1 + c.len() + d.len()
    &&& t.2[0] == poseidon(p, m, t.1)
    &&& holds_nums(t.2, 1, c, a)
    &&& holds_nums(t.2, 1 + c.len() as int, d, a)
}

/// Values that stand at the same places of one transcript are the same.
proof fn lemma_same_values<F: Field>(
    t: Seq<int>,
    at: int,
    v: Seq<AllocatedNum<F>>,
    a: Seq<int>,
    w: Seq<AllocatedNum<F>>,
    b: Seq<int>,
)
    requires
        v.len() == w.len(),
        holds_nums(t, at, v, a),
        holds_nums(t, at, w, b),
    ensures
        at_all(v, a) == at_all(w, b),
{
    assert forall|i: int| 0 <= i < v.len() implies at_all(v, a)[i] == at_all(w, b)[i] by {
        assert(t[at + i] == v[i].at(a));
        assert(t[at + i] == w[i].at(b));
    }
    assert(at_all(v, a) =~= at_all(w, b));
}

/// The transcripts of the verifier tell proofs and inputs apart: those of the folding challenge
/// hold both polynomials, those of the second challenge the commitment to the weights, and those of
/// the first the digest and both fresh instances. This is so within one circuit and between
/// circuits of one size.
pub proof fn law_circuit_transcripts_bind<E: Engine>(
    m: PoseidonModel,
    digest: (AllocatedNum<E::Scalar>, AllocatedNum<E::Scalar>),
    u2: (AllocatedNonnativeR1CSInstance<E>, AllocatedNonnativeR1CSInstance<E>),
    u2_pc: (AllocatedPowerCheckInstance<E>, AllocatedPowerCheckInstance<E>),
    nifs: (AllocatedZeroFoldNIFS<E>, AllocatedZeroFoldNIFS<E>),
    a: (Seq<int>, Seq<int>),
    t: (Seq<int>, Seq<int>, Seq<int>),
    s: (Seq<int>, Seq<int>, Seq<int>),
)
    requires
        circuit_reads(m, digest.0, u2.0, u2_pc.0, nifs.0, a.0, t),
        circuit_reads(m, digest.1, u2.1, u2_pc.1, nifs.1, a.1, s),
        u2.0.X@.len() == u2.1.X@.len(),
        nifs.0.poly_nsc.coeffs@.len() == nifs.1.poly_nsc.coeffs@.len(),
    ensures
        t.0 == s.0 ==> {
            &&& digest.0.at(a.0) == digest.1.at(a.1)
            &&& at_all(u2.0.comm_W.x@, a.0) == at_all(u2.1.comm_W.x@, a.1)
            &&& at_all(u2.0.comm_W.y@, a.0) == at_all(u2.1.comm_W.y@, a.1)
            &&& at_all(u2.0.X@, a.0) == at_all(u2.1.X@, a.1)
            &&& at_all(u2_pc.0.comm_powers.x@, a.0) == at_all(u2_pc.1.comm_powers.x@, a.1)
            &&& at_all(u2_pc.0.comm_powers.y@, a.0) == at_all(u2_pc.1.comm_powers.y@, a.1)
            &&& u2_pc.0.tau.at(a.0) == u2_pc.1.tau.at(a.1)
        },
        t.1 == s.1 ==> {
            &&& at_all(nifs.0.comm_E.x@, a.0) == at_all(nifs.1.comm_E.x@, a.1)
            &&& at_all(nifs.0.comm_E.y@, a.0) == at_all(nifs.1.comm_E.y@, a.1)
            &&& nifs.0.comm_E.is_infinity.at(a.0) == nifs.1.comm_E.is_infinity.at(a.1)
        },
        t.2 == s.2 ==> {
            &&& at_all(nifs.0.poly_nsc.coeffs@, a.0) == at_all(nifs.1.poly_nsc.coeffs@, a.1)
            &&& at_all(nifs.0.poly_pc.coeffs@, a.0) == at_all(nifs.1.poly_pc.coeffs@, a.1)
        },
{
    let n = u2.0.X@.len() as int;
    if t.0 == s.0 {
        lemma_same_values(t.0, 1, u2.0.comm_W.x@, a.0, u2.1.comm_W.x@, a.1);
        lemma_same_values(t.0, 5, u2.0.comm_W.y@, a.0, u2.1.comm_W.y@, a.1);
        lemma_same_values(t.0, 10, u2.0.X@, a.0, u2.1.X@, a.1);
        let (c, d) = (u2_pc.0.comm_powers, u2_pc.1.comm_powers);
        lemma_same_values(t.0, 10 + n, c.x@, a.0, d.x@, a.1);
        lemma_same_values(t.0, 14 + n, c.y@, a.0, d.y@, a.1);
    }
    if t.1 == s.1 {
        lemma_same_values(t.1, 1, nifs.0.comm_E.x@, a.0, nifs.1.comm_E.x@, a.1);
        lemma_same_values(t.1, 5, nifs.0.comm_E.y@, a.0, nifs.1.comm_E.y@, a.1);
    }
    if t.2 == s.2 {
        let (c, d) = (nifs.0.poly_nsc.coeffs@, nifs.1.poly_nsc.coeffs@);
        lemma_same_values(t.2, 1, c, a.0, d, a.1);
        let k = 1 + c.len() as int;
        lemma_same_values(t.2, k, nifs.0.poly_pc.coeffs@, a.0, nifs.1.poly_pc.coeffs@, a.1);
    }
}

/// The values of a point stand in the transcript as the contracts speak of them.
proof fn lemma_allocated_point<E: Engine>(
    t: Seq<int>,
    at: int,
    c: AllocatedNonnativePoint<E>,
    a: Seq<int>,
)
    requires
        0 <= at,
        at + 9 <= t.len(),
        holds_allocated_point(t, at, c, a),
    ensures
        t.subrange(at, at + 9) == at_all(c.elements(), a),
{
    let s = t.subrange(at, at + 9);
    let e = at_all(c.elements(), a);
    assert forall|i: int| 0 <= i < 9 implies s[i] == e[i] by {
        if i < 4 {
            assert(t[at + i] == c.x@[i].at(a));
        } else if i < 8 {
            assert(t[at + 4 + (i - 4)] == c.y@[i - 4].at(a));
        }
    }
    assert(s =~= e);
}

/// The transcripts are the sequences that the contracts speak of.
pub proof fn lemma_circuit_reads<E: Engine>(
    m: PoseidonModel,
    digest: AllocatedNum<E::Scalar>,
    u2: AllocatedNonnativeR1CSInstance<E>,
    u2_pc: AllocatedPowerCheckInstance<E>,
    nifs: AllocatedZeroFoldNIFS<E>,
    a: Seq<int>,
    t: (Seq<int>, Seq<int>, Seq<int>),
)
    requires
        circuit_reads(m, digest, u2, u2_pc, nifs, a, t),
    ensures
        ({
            let p = E::Scalar::modulus();
            &&& nifs.challenges_at(m, digest, u2, u2_pc, a) == (
                drawn(p, m, t.0),
                drawn(p, m, t.1),
                drawn(p, m, t.2),
            )
            &&& t.0 == AllocatedZeroFoldNIFS::<E>::fresh_at(digest, u2, u2_pc, a)
            &&& t.1 == seq![poseidon(p, m, t.0)] + nifs.comm_E.at(a)
        }),
{
    let p = E::Scalar::modulus();
    let n = u2.X@.len() as int;
    lemma_allocated_point(t.0, 1, u2.comm_W, a);
    lemma_allocated_point(t.0, 10 + n, u2_pc.comm_powers, a);
    lemma_allocated_point(t.1, 1, nifs.comm_E, a);
    let fresh = AllocatedZeroFoldNIFS::<E>::fresh_at(digest, u2, u2_pc, a);
    assert forall|i: int| 0 <= i < t.0.len() implies t.0[i] == fresh[i] by {
        if 1 <= i < 10 {
            assert(t.0.subrange(1, 10)[i - 1] == t.0[i]);
        } else if 10 <= i < 10 + n {
            assert(t.0[10 + (i - 10)] == u2.X@[i - 10].at(a));
        } else if 10 + n <= i < 19 + n {
            assert(t.0.subrange(10 + n, 19 + n)[i - 10 - n] == t.0[i]);
        }
    }
    assert(t.0 =~= fresh);
    assert(t.1 =~= seq![poseidon(p, m, t.0)] + t.1.subrange(1, 10));
    let (c, d) = (nifs.poly_nsc.coeffs@, nifs.poly_pc.coeffs@);
    let third = seq![poseidon(p, m, t.1)] + (at_all(c, a) + at_all(d, a));
    assert forall|i: int| 0 <= i < t.2.len() implies t.2[i] == third[i] by {
        if 1 <= i < 1 + c.len() {
            assert(t.2[1 + (i - 1)] == c[i - 1].at(a));
        } else if i >= 1 + c.len() {
            let k = i - 1 - c.len();
            assert(t.2[1 + c.len() + k] == d[k].at(a));
        }
    }
    assert(t.2 =~= third);
    assert(nifs.poly_nsc.at(a) =~= at_all(c, a));
    assert(nifs.poly_pc.at(a) =~= at_all(d, a));
}

/// The values of a polynomial at zero and one add up to a claim, scaled down by a challenge.
pub open spec fn claim_met<E: Engine>(
    poly: AllocatedUniPoly<E>,
    a: Seq<int>,
    rho: int,
    claim: AllocatedNum<E::Scalar>,
) -> bool {
    let p = E::Scalar::modulus();
    let c = at_all(poly.coeffs@, a);
    (peval(c, 0) + peval(c, 1)) % p == ((1 - rho) * claim.at(a)) % p
}

/// What is left of a claim, times the equality polynomial at the challenges, is the value of the
/// polynomial at the folding challenge.
pub open spec fn claim_left<E: Engine>(
    poly: AllocatedUniPoly<E>,
    a: Seq<int>,
    rho: int,
    r: int,
    claim: AllocatedNum<E::Scalar>,
) -> bool {
    let p = E::Scalar::modulus();
    (claim.at(a) * ((1 - rho) * (1 - r) + rho * r)) % p == peval(at_all(poly.coeffs@, a), r) % p
}

/// A number lies on the line between two values, at the point `r`.
pub open spec fn num_on_the_line<F: Field>(
    out: AllocatedNum<F>,
    a: Seq<int>,
    x: int,
    y: int,
    r: int,
) -> bool {
    out.at(a) % F::modulus() == (x + r * (y - x)) % F::modulus()
}

/// What the verifier hands on: the running instances folded with the fresh ones at the folding
/// challenge, what is left of both claims, and the first challenge.
pub open spec fn folded_in_circuit<E: Engine>(
    m: PoseidonModel,
    nifs: AllocatedZeroFoldNIFS<E>,
    u1: AllocatedFoldedInstance<E>,
    u1_pc: AllocatedFoldedPowerCheckInstance<E>,
    u2: AllocatedNonnativeR1CSInstance<E>,
    u2_pc: AllocatedPowerCheckInstance<E>,
    out: (
        AllocatedFoldedInstance<E>,
        AllocatedFoldedPowerCheckInstance<E>,
        AllocatedPowerCheckInstance<E>,
    ),
    a: Seq<int>,
    t: (Seq<int>, Seq<int>, Seq<int>),
) -> bool {
    let p = E::Scalar::modulus();
    let (tau, rho, r_b) = (drawn(p, m, t.0), drawn(p, m, t.1), drawn(p, m, t.2));
    &&& num_on_the_line(out.0.u, a, u1.u.at(a), 1, r_b)
    &&& forall|i: int|
        0 <= i < u1.X@.len() ==> num_on_the_line(
            #[trigger] out.0.X@[i],
            a,
            u1.X@[i].at(a),
            u2.X@[i].at(a),
            r_b,
        )
    &&& num_on_the_line(out.1.tau, a, u1_pc.tau.at(a), u2_pc.tau.at(a), r_b)
    &&& claim_left(nifs.poly_nsc, a, rho, r_b, out.0.T)
    &&& claim_left(nifs.poly_pc, a, rho, r_b, out.1.pc_sumcheck_claim)
    &&& out.2.tau.at(a) % p == tau
}

/// Every assignment that satisfies the constraints of the verifier meets both claims under the
/// second challenge, and folds at the folding challenge. The challenges are the low bits of the
/// hashes of transcripts that hold all that was sent before, element by element. The recorded
/// values fold at it in any case, and satisfy the constraints if they meet both claims.
pub proof fn law_circuit_verifier<E: Engine>(
    nifs: &AllocatedZeroFoldNIFS<E>,
    cs: &mut ConstraintSystem<E::Scalar>,
    digest: &AllocatedNum<E::Scalar>,
    u1: &AllocatedFoldedInstance<E>,
    u1_pc: &AllocatedFoldedPowerCheckInstance<E>,
    u2: &AllocatedNonnativeR1CSInstance<E>,
    u2_pc: &AllocatedPowerCheckInstance<E>,
    comm: (
        &AllocatedNonnativePoint<E>,
        &AllocatedNonnativePoint<E>,
        &AllocatedNonnativePoint<E>,
    ),
    ro: PoseidonConstants<E::Scalar>,
    out: (
        AllocatedFoldedInstance<E>,
        AllocatedFoldedPowerCheckInstance<E>,
        AllocatedPowerCheckInstance<E>,
    ),
    a: Seq<int>,
    t: (Seq<int>, Seq<int>, Seq<int>),
)
    requires
        call_ensures(
            AllocatedZeroFoldNIFS::<E>::verify,
            (nifs, cs, digest, u1, u1_pc, u2, u2_pc, comm.0, comm.1, comm.2, ro),
            Ok(out),
        ),
        u1.X@.len() == u2.X@.len(),
        circuit_reads(ro@, *digest, *u2, *u2_pc, *nifs, a, t),
    ensures
        ({
            let p = E::Scalar::modulus();
            let rho = drawn(p, ro@, t.1);
            let met = claim_met(nifs.poly_nsc, a, rho, u1.T) && claim_met(
                nifs.poly_pc,
                a,
                rho,
                u1_pc.pc_sumcheck_claim,
            );
            let folded = folded_in_circuit(ro@, *nifs, *u1, *u1_pc, *u2, *u2_pc, out, a, t);
            &&& new_hold(p, old(cs)@, final(cs)@, a) ==> met && folded
            &&& agrees(a, final(cs)@) ==> folded && (met <==> new_hold(
                p,
                old(cs)@,
                final(cs)@,
                a,
            ))
            &&& out.0.X@.len() == u1.X@.len()
            &&& out.0.comm_W.elements() == comm.0.elements()
            &&& out.0.comm_E.elements() == comm.1.elements()
            &&& out.1.comm_witness.elements() == comm.2.elements()
            &&& out.1.comm_weights.elements() == comm.1.elements()
            &&& out.2.comm_powers.elements() == nifs.comm_E.elements()
        }),
{
    let p = E::Scalar::modulus();
    lemma_circuit_reads(ro@, *digest, *u2, *u2_pc, *nifs, a, t);
    let r_b = drawn(p, ro@, t.2);
    assert(nifs.poly_nsc.at(a) =~= at_all(nifs.poly_nsc.coeffs@, a));
    assert(nifs.poly_pc.at(a) =~= at_all(nifs.poly_pc.coeffs@, a));
    if nifs.folded_at(ro@, *digest, *u1, *u1_pc, *u2, *u2_pc, out, a) {
        let x = at_all(out.0.X@, a);
        let l = lerp_seq(at_all(u1.X@, a), at_all(u2.X@, a), r_b);
        assert forall|i: int| 0 <= i < u1.X@.len() implies num_on_the_line(
            #[trigger] out.0.X@[i],
            a,
            u1.X@[i].at(a),
            u2.X@[i].at(a),
            r_b,
        ) by {
            assert(mod_seq(p, x)[i] == mod_seq(p, l)[i]);
            assert(l[i] == lerp(u1.X@[i].at(a), u2.X@[i].at(a), r_b));
        }
    }
}

/// The verifier fails only where there is a witness, and there if and only if the equality
/// polynomial vanishes at the second challenge and the folding challenge.
pub proof fn law_circuit_verifier_fails<E: Engine>(
    nifs: &AllocatedZeroFoldNIFS<E>,
    cs: &mut ConstraintSystem<E::Scalar>,
    digest: &AllocatedNum<E::Scalar>,
    u1: &AllocatedFoldedInstance<E>,
    u1_pc: &AllocatedFoldedPowerCheckInstance<E>,
    u2: &AllocatedNonnativeR1CSInstance<E>,
    u2_pc: &AllocatedPowerCheckInstance<E>,
    comm: (
        &AllocatedNonnativePoint<E>,
        &AllocatedNonnativePoint<E>,
        &AllocatedNonnativePoint<E>,
    ),
    ro: PoseidonConstants<E::Scalar>,
    r: Result<
        (
            AllocatedFoldedInstance<E>,
            AllocatedFoldedPowerCheckInstance<E>,
            AllocatedPowerCheckInstance<E>,
        ),
        SynthesisError,
    >,
    t: (Seq<int>, Seq<int>, Seq<int>),
)
    requires
        call_ensures(
            AllocatedZeroFoldNIFS::<E>::verify,
            (nifs, cs, digest, u1, u1_pc, u2, u2_pc, comm.0, comm.1, comm.2, ro),
            r,
        ),
        circuit_reads(ro@, *digest, *u2, *u2_pc, *nifs, old(cs)@.values(), t),
    ensures
        ({
            let p = E::Scalar::modulus();
            let (rho, r_b) = (drawn(p, ro@, t.1), drawn(p, ro@, t.2));
            &&& r is Err <==> old(cs)@.witness && ((1 - rho) * (1 - r_b) + rho * r_b) % p == 0
            &&& r matches Err(e) ==> e == SynthesisError::DivisionByZero
        }),
{
    lemma_circuit_reads(ro@, *digest, *u2, *u2_pc, *nifs, old(cs)@.values(), t);
}

} // verus!
