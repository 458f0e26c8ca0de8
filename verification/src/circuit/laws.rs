//! What holds of every verification inside a circuit.
use vstd::prelude::*;
use crate::arith::{fmul, lemma_cong_lerp, lemma_cong_mul};
use crate::circuit::point::identity_elements;
use crate::circuit::power_check_relation::{
    folded_elements, fresh_elements, zero_elements, AllocatedFoldedPowerCheckInstance,
    AllocatedPowerCheckInstance,
};
use crate::circuit::relation::{
    r1cs_elements, zero_seq, AllocatedFoldedInstance, AllocatedNonnativeR1CSInstance,
};
use crate::circuit::zerofold_nifs::AllocatedZeroFoldNIFS;
use crate::field::Field;
use crate::frontend::{law_shape_satisfied_grows, lemma_zero_diff, new_hold, CsModel};
use crate::gadgets::at_all;
use crate::num::AllocatedNum;
use crate::power_check_relation::{FoldedPowerCheckInstance, PcInstance, PowerCheckInstance};
use crate::r1cs::R1CSInstance;
use crate::relation::FoldedInstance;
use crate::ro::PoseidonModel;
use crate::sumcheck::eq_poly;
use crate::traits::{zero_coords, Engine, Group};
use crate::transcript::{point_elements, AbsorbInRO2Trait};
use crate::weight_table::mod_seq;

verus! {

/// The elements that a circuit absorbs of an instance that was allocated in it are those that are
/// absorbed outside.
pub proof fn law_circuit_absorbs_as_outside<E: Engine>(
    fresh: R1CSInstance<E>,
    check: PowerCheckInstance<E>,
    folded: FoldedPowerCheckInstance<E>,
)
    ensures
        r1cs_elements(Some(&fresh), fresh.X@.len() as int) == fresh.elements(),
        fresh_elements(Some(&check)) == check.elements(),
        folded_elements(Some(&folded)) == folded.elements(),
{
    assert(fresh_elements(Some(&check)) =~= check.elements());
    assert(folded_elements(Some(&folded)) =~= folded.elements());
}

/// The zero instances that a circuit allocates, or demands by default, have the values of the
/// default instances outside: their claims and scalars are zero, and their commitments are the
/// identity, whose coordinates are zero.
pub proof fn law_defaults_agree<E: Engine>(
    pc: FoldedPowerCheckInstance<E>,
    nsc: FoldedInstance<E>,
    in_circuit: AllocatedFoldedInstance<E>,
    a: Seq<int>,
)
    requires
        pc@ == (PcInstance { claim: 0, comm_witness: 0, comm_weights: 0, tau: 0 }),
        zero_coords(pc.comm_witness.coords()),
        zero_coords(pc.comm_weights.coords()),
        nsc@.t == 0,
        nsc@.u == 0,
        nsc@.x == zero_seq(nsc.X@.len() as int),
        zero_coords(nsc.comm_W.coords()),
        zero_coords(nsc.comm_E.coords()),
    ensures
        folded_elements(Some(&pc)) == folded_elements::<E>(None),
        pc.elements() == zero_elements(),
        in_circuit.holds_values_of(a, Some(&nsc), nsc.X@.len() as int)
            <==> in_circuit.holds_values_of(a, None, nsc.X@.len() as int),
{
    lemma_identity_elements(pc.comm_witness.coords());
    lemma_identity_elements(pc.comm_weights.coords());
    lemma_identity_elements(nsc.comm_W.coords());
    lemma_identity_elements(nsc.comm_E.coords());
    assert(pc.elements() =~= folded_elements(Some(&pc)));
}

/// Coordinates that are all zero stand for the identity.
proof fn lemma_identity_elements(c: (Seq<u64>, Seq<u64>))
    requires
        zero_coords(c),
    ensures
        point_elements(c) == identity_elements(),
{
    assert(point_elements(c) =~= identity_elements());
}

/// The numbers stand on the same variables, whatever values they have.
pub open spec fn same_variables<F: Field>(v: Seq<AllocatedNum<F>>, w: Seq<AllocatedNum<F>>) -> bool {
    &&& v.len() == w.len()
    &&& forall|i: int| 0 <= i < v.len() ==> (#[trigger] v[i]).variable == w[i].variable
}

/// Numbers on the same variables have the same values under every assignment.
proof fn lemma_same_variables<F: Field>(
    v: Seq<AllocatedNum<F>>,
    w: Seq<AllocatedNum<F>>,
    a: Seq<int>,
)
    requires
        same_variables(v, w),
    ensures
        at_all(v, a) == at_all(w, a),
{
    assert forall|i: int| 0 <= i < v.len() implies at_all(v, a)[i] == at_all(w, a)[i] by {
        assert(v[i].variable == w[i].variable);
    }
    assert(at_all(v, a) =~= at_all(w, a));
}

/// What a verification is run on: the proof, the digest, the running pair and the fresh pair.
pub struct VerifierArgs<E: Engine> {
    pub nifs: AllocatedZeroFoldNIFS<E>,
    pub pp_digest: AllocatedNum<E::Scalar>,
    pub U1: AllocatedFoldedInstance<E>,
    pub U1_pc: AllocatedFoldedPowerCheckInstance<E>,
    pub U2: AllocatedNonnativeR1CSInstance<E>,
    pub U2_pc: AllocatedPowerCheckInstance<E>,
}

/// What a verification gives: the folded pair, and the power check for the next fold.
pub struct VerifierOutput<E: Engine> {
    pub nsc: AllocatedFoldedInstance<E>,
    pub pc: AllocatedFoldedPowerCheckInstance<E>,
    pub zc_pc: AllocatedPowerCheckInstance<E>,
}

impl<E: Engine> VerifierArgs<E> {
    /// The verification adds its variables and its constraints to a system.
    pub open spec fn adds(
        self,
        m: PoseidonModel,
        out: VerifierOutput<E>,
        before: CsModel,
        after: CsModel,
    ) -> bool {
        self.nifs.adds_verifier(
            m,
            self.pp_digest,
            self.U1,
            self.U1_pc,
            self.U2,
            self.U2_pc,
            (out.nsc, out.pc, out.zc_pc),
            before,
            after,
        )
    }

    /// What the verification reads stands on the same variables.
    pub open spec fn same_variables(self, other: Self) -> bool {
        &&& same_variables(self.nifs.comm_E.elements(), other.nifs.comm_E.elements())
        &&& same_variables(self.nifs.poly_nsc.coeffs@, other.nifs.poly_nsc.coeffs@)
        &&& same_variables(self.nifs.poly_pc.coeffs@, other.nifs.poly_pc.coeffs@)
        &&& self.pp_digest.variable == other.pp_digest.variable
        &&& self.U1.T.variable == other.U1.T.variable
        &&& self.U1.u.variable == other.U1.u.variable
        &&& same_variables(self.U1.X@, other.U1.X@)
        &&& self.U1_pc.pc_sumcheck_claim.variable == other.U1_pc.pc_sumcheck_claim.variable
        &&& self.U1_pc.tau.variable == other.U1_pc.tau.variable
        &&& same_variables(self.U2.elements(), other.U2.elements())
        &&& same_variables(self.U2.X@, other.U2.X@)
        &&& same_variables(self.U2_pc.elements(), other.U2_pc.elements())
        &&& self.U2_pc.tau.variable == other.U2_pc.tau.variable
    }
}

/// The verifier has one shape: two verifications in systems with equally many variables, on
/// arguments that stand on the same variables, add equally many variables, and constraints that the
/// same assignments meet; what comes out stands on the same variables. Neither the values, nor
/// whether there are any, nor the hints for the folded commitments matter. So the recorded values
/// of the one satisfy the system of the other, if they did before and satisfy their own.
pub proof fn law_verifier_has_one_shape<E: Engine>(
    m: PoseidonModel,
    x: VerifierArgs<E>,
    y: VerifierArgs<E>,
    out: VerifierOutput<E>,
    out2: VerifierOutput<E>,
    s: (CsModel, CsModel),
    t: (CsModel, CsModel),
)
    requires
        x.adds(m, out, s.0, s.1),
        y.adds(m, out2, t.0, t.1),
        x.same_variables(y),
        s.0.aux.len() == t.0.aux.len(),
        s.0.wf(),
        t.0.wf(),
        s.0.extended_by(s.1),
        t.0.extended_by(t.1),
    ensures
        s.1.aux.len() == t.1.aux.len(),
        forall|a: Seq<int>| #[trigger]
            new_hold(E::Scalar::modulus(), s.0, s.1, a) <==> new_hold(
                E::Scalar::modulus(),
                t.0,
                t.1,
                a,
            ),
        t.0.satisfied_by(E::Scalar::modulus(), s.0) && s.1.satisfied(E::Scalar::modulus())
            ==> t.1.satisfied_by(E::Scalar::modulus(), s.1),
        out.nsc.T.variable == out2.nsc.T.variable,
        out.nsc.u.variable == out2.nsc.u.variable,
        out.nsc.X@.len() == out2.nsc.X@.len() ==> same_variables(out.nsc.X@, out2.nsc.X@),
        out.pc.pc_sumcheck_claim.variable == out2.pc.pc_sumcheck_claim.variable,
        out.pc.tau.variable == out2.pc.tau.variable,
        out.zc_pc.tau.variable == out2.zc_pc.tau.variable,
{
    let p = E::Scalar::modulus();
    assert forall|a: Seq<int>| #[trigger]
        x.nifs.input_at(x.pp_digest, x.U1, x.U1_pc, x.U2, x.U2_pc, a) == y.nifs.input_at(
            y.pp_digest,
            y.U1,
            y.U1_pc,
            y.U2,
            y.U2_pc,
            a,
        ) by {
        lemma_same_variables(x.nifs.comm_E.elements(), y.nifs.comm_E.elements(), a);
        lemma_same_variables(x.nifs.poly_nsc.coeffs@, y.nifs.poly_nsc.coeffs@, a);
        lemma_same_variables(x.nifs.poly_pc.coeffs@, y.nifs.poly_pc.coeffs@, a);
        lemma_same_variables(x.U1.X@, y.U1.X@, a);
        lemma_same_variables(x.U2.elements(), y.U2.elements(), a);
        lemma_same_variables(x.U2.X@, y.U2.X@, a);
        lemma_same_variables(x.U2_pc.elements(), y.U2_pc.elements(), a);
    }
    let empty = Seq::<int>::empty();
    assert(x.nifs.input_at(x.pp_digest, x.U1, x.U1_pc, x.U2, x.U2_pc, empty) == y.nifs.input_at(
        y.pp_digest,
        y.U1,
        y.U1_pc,
        y.U2,
        y.U2_pc,
        empty,
    ));
    assert forall|a: Seq<int>| #[trigger] new_hold(p, s.0, s.1, a) <==> new_hold(
        p,
        t.0,
        t.1,
        a,
    ) by {
        assert(x.nifs.input_at(x.pp_digest, x.U1, x.U1_pc, x.U2, x.U2_pc, a) == y.nifs.input_at(
            y.pp_digest,
            y.U1,
            y.U1_pc,
            y.U2,
            y.U2_pc,
            a,
        ));
    }
    if t.0.satisfied_by(p, s.0) && s.1.satisfied(p) {
        assert(new_hold(p, s.0, s.1, s.1.values()));
        law_shape_satisfied_grows(p, s.0, s.1, t.0, t.1);
    }
    if out.nsc.X@.len() == out2.nsc.X@.len() {
        let (u, v) = (out.nsc.X@, out2.nsc.X@);
        let k = s.1.aux.len() - 2 - x.U1.X@.len();
        assert forall|i: int| 0 <= i < u.len() implies (#[trigger] u[i]).variable
            == v[i].variable by {
            assert(u[i].sits(k + i));
            assert(v[i].sits(k + i));
        }
    }
}

/// Factors that do not vanish can be cancelled.
proof fn lemma_cancel<F: Field>(x: int, y: int, c: int, d: int)
    requires
        c % F::modulus() != 0,
        c % F::modulus() == d % F::modulus(),
        (x * c) % F::modulus() == (y * d) % F::modulus(),
    ensures
        x % F::modulus() == y % F::modulus(),
{
    let p = F::modulus();
    F::lemma_modulus();
    F::lemma_no_zero_divisors();
    lemma_cong_mul(p, y, d, y, c);
    lemma_zero_diff(p, x * c, y * c);
    assert(x * c - y * c == (x - y) * c) by (nonlinear_arith);
    assert(fmul(p, x - y, c) == 0);
    lemma_zero_diff(p, x, y);
}

/// Two verifications of one proof with one fresh pair, on running pairs of their own, draw the same
/// challenges, and give the same claims and the same new power check. What else they give for the
/// main relation depends on the running instance of the main relation alone, and what they give
/// for the power check on that of the power check alone.
pub proof fn law_running_instances_are_apart<E: Engine>(
    nifs: AllocatedZeroFoldNIFS<E>,
    m: PoseidonModel,
    pp_digest: AllocatedNum<E::Scalar>,
    U1: (AllocatedFoldedInstance<E>, AllocatedFoldedPowerCheckInstance<E>),
    V1: (AllocatedFoldedInstance<E>, AllocatedFoldedPowerCheckInstance<E>),
    U2: AllocatedNonnativeR1CSInstance<E>,
    U2_pc: AllocatedPowerCheckInstance<E>,
    U: (
        AllocatedFoldedInstance<E>,
        AllocatedFoldedPowerCheckInstance<E>,
        AllocatedPowerCheckInstance<E>,
    ),
    V: (
        AllocatedFoldedInstance<E>,
        AllocatedFoldedPowerCheckInstance<E>,
        AllocatedPowerCheckInstance<E>,
    ),
    a: Seq<int>,
    b: Seq<int>,
)
    requires
        nifs.comm_E.at(a) == nifs.comm_E.at(b),
        nifs.poly_nsc.at(a) == nifs.poly_nsc.at(b),
        nifs.poly_pc.at(a) == nifs.poly_pc.at(b),
        pp_digest.at(a) == pp_digest.at(b),
        at_all(U2.elements(), a) == at_all(U2.elements(), b),
        at_all(U2_pc.elements(), a) == at_all(U2_pc.elements(), b),
        nifs.folded_at(m, pp_digest, U1.0, U1.1, U2, U2_pc, U, a),
        nifs.folded_at(m, pp_digest, V1.0, V1.1, U2, U2_pc, V, b),
        ({
            let ch = nifs.challenges_at(m, pp_digest, U2, U2_pc, a);
            eq_poly(ch.1, ch.2) % E::Scalar::modulus() != 0
        }),
    ensures
        ({
            let p = E::Scalar::modulus();
            &&& nifs.challenges_at(m, pp_digest, U2, U2_pc, a) == nifs.challenges_at(
                m,
                pp_digest,
                U2,
                U2_pc,
                b,
            )
            &&& U.2.tau.at(a) % p == V.2.tau.at(b) % p
            &&& U.0.T.at(a) % p == V.0.T.at(b) % p
            &&& U.1.pc_sumcheck_claim.at(a) % p == V.1.pc_sumcheck_claim.at(b) % p
            &&& U1.0.u.at(a) % p == V1.0.u.at(b) % p ==> U.0.u.at(a) % p == V.0.u.at(b) % p
            &&& at_all(U1.0.X@, a) == at_all(V1.0.X@, b) ==> mod_seq(p, at_all(U.0.X@, a))
                == mod_seq(p, at_all(V.0.X@, b))
            &&& U1.1.tau.at(a) % p == V1.1.tau.at(b) % p ==> U.1.tau.at(a) % p == V.1.tau.at(b) % p
        }),
{
    let p = E::Scalar::modulus();
    E::Scalar::lemma_modulus();
    let ch = nifs.challenges_at(m, pp_digest, U2, U2_pc, a);
    let eq = eq_poly(ch.1, ch.2);
    lemma_cancel::<E::Scalar>(U.0.T.at(a), V.0.T.at(b), eq, eq);
    lemma_cancel::<E::Scalar>(U.1.pc_sumcheck_claim.at(a), V.1.pc_sumcheck_claim.at(b), eq, eq);
    if U1.0.u.at(a) % p == V1.0.u.at(b) % p {
        lemma_cong_lerp(p, U1.0.u.at(a), 1, ch.2, V1.0.u.at(b), 1, ch.2);
    }
    let (x, y) = (at_all(U2.X@, a), at_all(U2.X@, b));
    assert(x =~= y) by {
        let (s, t) = (at_all(U2.elements(), a), at_all(U2.elements(), b));
        let n = U2.comm_W.elements().len() as int;
        assert forall|i: int| 0 <= i < x.len() implies x[i] == y[i] by {
            assert(U2.elements()[n + i] == U2.X@[i]);
            assert(s[n + i] == t[n + i]);
        }
    }
    if U1.1.tau.at(a) % p == V1.1.tau.at(b) % p {
        let (s, t) = (at_all(U2_pc.elements(), a), at_all(U2_pc.elements(), b));
        let n = U2_pc.comm_powers.elements().len() as int;
        assert(U2_pc.elements()[n] == U2_pc.tau);
        assert(s[n] == t[n]);
        lemma_cong_lerp(
            p,
            U1.1.tau.at(a),
            U2_pc.tau.at(a),
            ch.2,
            V1.1.tau.at(b),
            U2_pc.tau.at(b),
            ch.2,
        );
    }
}

} // verus!
