//! The verifier of one fold of both relations, inside a circuit.
use vstd::prelude::*;
use crate::arith::{
    cong_seq, fdiv, fmul, invertible, lemma_cong_add, lemma_cong_lerp, lemma_cong_mul,
    lemma_cong_sub, lemma_fdiv, lemma_mod, lerp, lerp_seq,
};
use crate::circuit::point::{identity_elements, AllocatedNonnativePoint};
use crate::circuit::power_check_relation::{
    AllocatedFoldedPowerCheckInstance, AllocatedPowerCheckInstance,
};
use crate::circuit::relation::{
    lemma_coordinates, AllocatedFoldedInstance, AllocatedNonnativeR1CSInstance,
};
use crate::circuit::univariate::{
    coefficient_elements, horner_at, horner_rows, AllocatedUniPoly,
};
use crate::errors::SynthesisError;
use crate::field::{lemma_seed_const, Field};
use crate::frontend::{agrees, lemma_chain, new_hold, ConstraintSystem, CsModel};
use crate::gadgets::{all_wf, alloc_zero, at_all, bit_row, lemma_slots, sit_from, slots};
use crate::num::{complete, mul_add, product, quotient_num, AllocatedNum, Lin};
use crate::ro::{challenge, poseidon, PoseidonConstants, PoseidonModel, NUM_CHALLENGE_BITS};
use crate::ro_circuit::{
    challenge_rows, challenge_vars, hash_at, lemma_complete_chain, lemma_poseidon_cong,
    PoseidonROCircuit,
};
use crate::sumcheck::eq_poly;
use crate::traits::{Engine, Group};
use crate::transcript::point_elements;
use crate::univariate::{lemma_peval_cong, peval};
use crate::weight_table::mod_seq;
use crate::zerofold_nifs::ZeroFoldNIFS;

verus! {

/// A proof of one fold: a commitment to the fresh weights, and one round polynomial for each
/// relation.
pub struct AllocatedZeroFoldNIFS<E: Engine> {
    /// Commitment to the weights.
    pub comm_E: AllocatedNonnativePoint<E>,
    /// Round polynomial of the main relation.
    pub poly_nsc: AllocatedUniPoly<E>,
    /// Round polynomial of the power check.
    pub poly_pc: AllocatedUniPoly<E>,
}

/// The challenges that the circuit draws: the one for the weights after the fresh instances, the
/// one that combines the claims after the commitment to the weights, and the folding challenge
/// after both polynomials.
pub open spec fn circuit_challenges(
    p: int,
    m: PoseidonModel,
    fresh: Seq<int>,
    comm: Seq<int>,
    polys: Seq<int>,
) -> (int, int, int) {
    let bits = NUM_CHALLENGE_BITS as nat;
    let second = seq![poseidon(p, m, fresh)] + comm;
    let third = seq![poseidon(p, m, second)] + polys;
    (challenge(p, m, fresh, bits), challenge(p, m, second, bits), challenge(p, m, third, bits))
}

/// The values of the polynomial at zero and at one add up to the claim of the running instance,
/// scaled down by the challenge.
pub open spec fn sums_up(p: int, poly: Seq<int>, rho: int, claim: int) -> bool {
    (peval(poly, 0) + peval(poly, 1)) % p == ((1 - rho) * claim) % p
}

/// The claim that is left, times the equality polynomial at the challenges, is the value of the
/// round polynomial.
pub open spec fn leaves(p: int, poly: Seq<int>, rho: int, r_b: int, out: int) -> bool {
    (out * eq_poly(rho, r_b)) % p == peval(poly, r_b) % p
}

/// The constraints of the equality polynomial at two challenges.
pub open spec fn eq_rows(p: int, n: int, rho: int, r_b: int, a: Seq<int>) -> bool {
    &&& a[n] % p == ((1 - rho) * (1 - r_b)) % p
    &&& a[n + 1] % p == (rho * r_b + a[n]) % p
}

/// The number of private variables of the first two challenges.
pub open spec fn draw_vars(m: PoseidonModel, fresh: int, comm: int) -> int {
    challenge_vars(m, fresh) + challenge_vars(m, 1 + comm)
}

/// The constraints of the first two challenges.
pub open spec fn draw_rows(
    p: int,
    m: PoseidonModel,
    n: int,
    fresh: Seq<int>,
    comm: Seq<int>,
    a: Seq<int>,
) -> bool {
    let bits = NUM_CHALLENGE_BITS as nat;
    let len = fresh.len() as int;
    let second = seq![hash_at(m, n, len, a)] + comm;
    &&& challenge_rows(p, m, n, fresh, bits, a)
    &&& challenge_rows(p, m, n + challenge_vars(m, len), second, bits, a)
}

/// The constraint that the values of a polynomial at zero and at one add up to a claim.
pub open spec fn sum_row(p: int, poly: Seq<int>, claim: int) -> bool {
    (peval(poly, 0) + peval(poly, 1)) % p == claim % p
}

/// The constraints that both polynomials add up to their claims, scaled down by a challenge.
pub open spec fn claims_rows(
    p: int,
    n: int,
    polys: (Seq<int>, Seq<int>),
    rho: int,
    claims: (int, int),
    a: Seq<int>,
) -> bool {
    &&& a[n] % p == ((1 - rho) * claims.0) % p
    &&& sum_row(p, polys.0, a[n])
    &&& a[n + 1] % p == ((1 - rho) * claims.1) % p
    &&& sum_row(p, polys.1, a[n + 1])
}

/// The constraints of a claim that is left: the value of a polynomial of `k + 1` coefficients at the
/// folding challenge, and its quotient by the equality polynomial.
pub open spec fn left_rows(
    p: int,
    n: int,
    poly: Seq<int>,
    r_b: int,
    eq: int,
    a: Seq<int>,
) -> bool {
    let k = poly.len() - 1;
    &&& horner_rows(p, n, poly, r_b, a, k)
    &&& (a[n + k] * eq) % p == horner_at(poly, n, a, k) % p
}

/// The constraints of the claims that are left.
pub open spec fn output_rows(
    p: int,
    n: int,
    polys: (Seq<int>, Seq<int>),
    rho: int,
    r_b: int,
    a: Seq<int>,
) -> bool {
    &&& eq_rows(p, n, rho, r_b, a)
    &&& left_rows(p, n + 2, polys.0, r_b, a[n + 1], a)
    &&& left_rows(p, n + 2 + polys.0.len(), polys.1, r_b, a[n + 1], a)
}

/// What the verifier reads: the elements of the fresh instances after the digest, the commitment to
/// the weights, both polynomials, and of the instances what is folded.
#[verifier::ext_equal]
pub struct VerifierInput {
    pub fresh: Seq<int>,
    pub comm: Seq<int>,
    pub polys: (Seq<int>, Seq<int>),
    pub claims: (int, int),
    pub u: int,
    pub x: (Seq<int>, Seq<int>),
    pub tau: (int, int),
}

impl VerifierInput {
    /// The number of private variables up to the challenge that combines the claims.
    pub open spec fn drawn(self, m: PoseidonModel) -> int {
        draw_vars(m, self.fresh.len() as int, self.comm.len() as int)
    }

    /// The number of private variables up to the folding challenge.
    pub open spec fn checked(self, m: PoseidonModel) -> int {
        self.drawn(m) + 2 + challenge_vars(m, 1int + self.polys.0.len() + self.polys.1.len())
    }

    /// The number of private variables up to the claims that are left.
    pub open spec fn left(self, m: PoseidonModel) -> int {
        self.checked(m) + 2 + self.polys.0.len() + self.polys.1.len()
    }

    /// The number of private variables of the verifier.
    pub open spec fn vars(self, m: PoseidonModel) -> int {
        self.left(m) + 3 + self.x.0.len()
    }

    /// The constraints of the verifier, whose variables sit from variable `n` on. They speak of what
    /// is read and of the places of the new variables alone.
    pub open spec fn rows(self, p: int, m: PoseidonModel, n: int, a: Seq<int>) -> bool {
        let rho = a[n + self.drawn(m) - 1];
        let r_b = a[n + self.checked(m) - 1];
        let first = challenge_vars(m, self.fresh.len() as int);
        let hash = hash_at(m, n + first, 1int + self.comm.len(), a);
        let third = seq![hash] + self.polys.0 + self.polys.1;
        let k = n + self.left(m);
        let len = self.x.0.len();
        &&& draw_rows(p, m, n, self.fresh, self.comm, a)
        &&& claims_rows(p, n + self.drawn(m), self.polys, rho, self.claims, a)
        &&& challenge_rows(
            p,
            m,
            n + self.drawn(m) + 2,
            third,
            NUM_CHALLENGE_BITS as nat,
            a,
        )
        &&& output_rows(p, n + self.checked(m), self.polys, rho, r_b, a)
        &&& a[k] % p == lerp(self.u, 1, r_b) % p
        &&& mod_seq(p, slots(a, k + 1, len)) == mod_seq(p, lerp_seq(self.x.0, self.x.1, r_b))
        &&& a[k + 1 + len] % p == 0
        &&& a[k + 2 + len] % p == lerp(self.tau.0, self.tau.1, r_b) % p
    }
}

/// The claim of a running instance, scaled down by a challenge.
fn scaled_claim<F: Field>(
    cs: &mut ConstraintSystem<F>,
    claim: &AllocatedNum<F>,
    rho: &AllocatedNum<F>,
) -> (r: AllocatedNum<F>)
    requires
        old(cs)@.wf(),
        claim.wf(old(cs)@),
        rho.wf(old(cs)@),
    ensures
        old(cs)@.extended_by(final(cs)@),
        final(cs)@.aux.len() == old(cs)@.aux.len() + 1,
        r.sits(old(cs)@.aux.len() as int),
        r.wf(final(cs)@),
        forall|a: Seq<int>| #[trigger]
            new_hold(F::modulus(), old(cs)@, final(cs)@, a) <==> r.at(a) % F::modulus() == ((1
                - rho.at(a)) * claim.at(a)) % F::modulus(),
        complete(F::modulus(), old(cs)@, final(cs)@),
{
    let ghost p = F::modulus();
    let x = Lin::var(cs, claim);
    let one = Lin::constant(cs, F::one());
    let y = one.minus(Ghost(cs@), rho);
    let r = product(cs, &x, &y);
    proof {
        lemma_seed_const::<F>(1);
        assert forall|a: Seq<int>| #[trigger] new_hold(p, old(cs)@, cs@, a) <==> r.at(a) % p == ((
        1 - rho.at(a)) * claim.at(a)) % p by {
            let (u, v) = (claim.at(a), rho.at(a));
            lemma_cong_sub(p, one.at(a), v, 1, v);
            lemma_cong_mul(p, x.at(a), y.at(a), u, 1 - v);
            assert(u * (1 - v) == (1 - v) * u) by (nonlinear_arith);
        }
    }
    r
}

/// The equality polynomial at two challenges.
fn eq_num<F: Field>(
    cs: &mut ConstraintSystem<F>,
    rho: &AllocatedNum<F>,
    r_b: &AllocatedNum<F>,
) -> (r: AllocatedNum<F>)
    requires
        old(cs)@.wf(),
        rho.wf(old(cs)@),
        r_b.wf(old(cs)@),
    ensures
        old(cs)@.extended_by(final(cs)@),
        final(cs)@.aux.len() == old(cs)@.aux.len() + 2,
        r.sits((old(cs)@.aux.len() + 1) as int),
        forall|a: Seq<int>| #[trigger]
            new_hold(F::modulus(), old(cs)@, final(cs)@, a) <==> eq_rows(
                F::modulus(),
                old(cs)@.aux.len() as int,
                rho.at(a),
                r_b.at(a),
                a,
            ),
        r.wf(final(cs)@),
        forall|a: Seq<int>| #[trigger]
            new_hold(F::modulus(), old(cs)@, final(cs)@, a) ==> r.at(a) % F::modulus() == eq_poly(
                rho.at(a),
                r_b.at(a),
            ) % F::modulus(),
        complete(F::modulus(), old(cs)@, final(cs)@),
{
    let ghost p = F::modulus();
    let ghost s0 = cs@;
    let one = Lin::constant(cs, F::one());
    let x1 = one.minus(Ghost(cs@), rho);
    let one_again = Lin::constant(cs, F::one());
    let y1 = one_again.minus(Ghost(cs@), r_b);
    let first = product(cs, &x1, &y1);
    let ghost s1 = cs@;
    proof {
        rho.lemma_grow(s0, s1);
        r_b.lemma_grow(s0, s1);
    }
    let x2 = Lin::var(cs, rho);
    let y2 = Lin::var(cs, r_b);
    let z2 = Lin::var(cs, &first);
    let r = mul_add(cs, &x2, &y2, &z2);
    proof {
        lemma_seed_const::<F>(1);
        lemma_chain(p, s0, s1, cs@);
        lemma_complete_chain(p, s0, s1, cs@);
        assert forall|a: Seq<int>| #[trigger] new_hold(p, s0, cs@, a) <==> eq_rows(
            p,
            s0.aux.len() as int,
            rho.at(a),
            r_b.at(a),
            a,
        ) by {
            let (u, v) = (rho.at(a), r_b.at(a));
            lemma_cong_sub(p, one.at(a), u, 1, u);
            lemma_cong_sub(p, one_again.at(a), v, 1, v);
            lemma_cong_mul(p, x1.at(a), y1.at(a), 1 - u, 1 - v);
            lemma_cong_mul(p, x2.at(a), y2.at(a), u, v);
            lemma_cong_add(p, x2.at(a) * y2.at(a), z2.at(a), u * v, first.at(a));
        }
        assert forall|a: Seq<int>| #[trigger] new_hold(p, s0, cs@, a) implies r.at(a) % p == eq_poly(
            rho.at(a),
            r_b.at(a),
        ) % p by {
            assert(new_hold(p, s0, s1, a) && new_hold(p, s1, cs@, a));
            let (u, v) = (rho.at(a), r_b.at(a));
            lemma_cong_sub(p, one.at(a), u, 1, u);
            lemma_cong_sub(p, one_again.at(a), v, 1, v);
            lemma_cong_mul(p, x1.at(a), y1.at(a), 1 - u, 1 - v);
            lemma_cong_mul(p, x2.at(a), y2.at(a), u, v);
            lemma_cong_add(p, x2.at(a) * y2.at(a), z2.at(a), u * v, (1 - u) * (1 - v));
        }
    }
    r
}

impl<E: Engine> AllocatedZeroFoldNIFS<E> {
    /// The variables are those of the system.
    pub open spec fn wf(self, cs: CsModel) -> bool {
        self.comm_E.wf(cs) && self.poly_nsc.wf(cs) && self.poly_pc.wf(cs)
    }

    /// What is known of a proof stays true when the system grows.
    pub proof fn lemma_grow(self, s: CsModel, t: CsModel)
        requires
            self.wf(s),
            s.extended_by(t),
        ensures
            self.wf(t),
    {
        self.comm_E.lemma_grow(s, t);
        self.poly_nsc.lemma_grow(s, t);
        self.poly_pc.lemma_grow(s, t);
    }

    /// A new proof with polynomials of at most the given degree, zero where none is given.
    pub fn allocate(
        cs: &mut ConstraintSystem<E::Scalar>,
        nifs: Option<&ZeroFoldNIFS<E>>,
        degree: usize,
    ) -> (r: Result<Self, SynthesisError>)
        requires
            old(cs)@.wf(),
            degree < usize::MAX,
            nifs matches Some(n) ==> n.poly_nsc@.len() > degree && n.poly_pc@.len() > degree,
        ensures
            r is Ok,
            old(cs)@.extended_by(final(cs)@),
            r->Ok_0.wf(final(cs)@),
            r->Ok_0.poly_nsc.coeffs@.len() == degree + 1,
            r->Ok_0.poly_pc.coeffs@.len() == degree + 1,
            final(cs)@.aux.len() == old(cs)@.aux.len() + 11 + 2 * degree,
            final(cs)@.constraints.len() == old(cs)@.constraints.len() + 1,
            sit_from(r->Ok_0.comm_E.elements(), old(cs)@.aux.len() as int),
            sit_from(r->Ok_0.poly_nsc.coeffs@, (old(cs)@.aux.len() + 9) as int),
            sit_from(r->Ok_0.poly_pc.coeffs@, (old(cs)@.aux.len() + 10 + degree) as int),
            forall|a: Seq<int>| #[trigger]
                new_hold(E::Scalar::modulus(), old(cs)@, final(cs)@, a) <==> bit_row(
                    E::Scalar::modulus(),
                    r->Ok_0.comm_E.is_infinity.at(a),
                ),
            forall|a: Seq<int>| #[trigger]
                agrees(a, final(cs)@) ==> r->Ok_0.holds_values_of(a, nifs, degree as int),
            complete(E::Scalar::modulus(), old(cs)@, final(cs)@),
    {
        let ghost p = E::Scalar::modulus();
        let ghost s0 = cs@;
        let (coords, nsc, pc) = match nifs {
            Some(n) => (Some(n.comm_E.to_coordinates()), Some(&n.poly_nsc), Some(&n.poly_pc)),
            None => (None, None, None),
        };
        let comm_E = match AllocatedNonnativePoint::<E>::allocate(cs, coords) {
            Ok(c) => c,
            Err(e) => {
                return Err(e);
            },
        };
        let ghost s1 = cs@;
        let poly_nsc = match AllocatedUniPoly::<E>::allocate(cs, degree, nsc) {
            Ok(c) => c,
            Err(e) => {
                return Err(e);
            },
        };
        let ghost s2 = cs@;
        let poly_pc = match AllocatedUniPoly::<E>::allocate(cs, degree, pc) {
            Ok(c) => c,
            Err(e) => {
                return Err(e);
            },
        };
        let r: Self = AllocatedZeroFoldNIFS { comm_E, poly_nsc, poly_pc };
        proof {
            lemma_chain(p, s0, s1, s2);
            lemma_chain(p, s0, s2, cs@);
            lemma_chain(p, s1, s2, cs@);
            assert(complete(p, s1, cs@)) by {
                assert forall|a: Seq<int>| #[trigger] agrees(a, cs@) implies new_hold(
                    p,
                    s1,
                    cs@,
                    a,
                ) by {}
            }
            lemma_complete_chain(p, s0, s1, cs@);
            r.comm_E.lemma_grow(s1, cs@);
            r.poly_nsc.lemma_grow(s2, cs@);
            assert forall|a: Seq<int>| #[trigger] new_hold(p, s0, cs@, a) <==> bit_row(
                p,
                r.comm_E.is_infinity.at(a),
            ) by {
                assert(new_hold(p, s1, cs@, a));
            }
            assert forall|a: Seq<int>| #[trigger] agrees(a, cs@) implies r.holds_values_of(
                a,
                nifs,
                degree as int,
            ) by {
                assert(agrees(a, s2) && agrees(a, s1));
                if nifs is Some {
                    lemma_coordinates::<E>(nifs->0.comm_E, coords->0);
                }
            }
        }
        Ok(r)
    }

    /// Under the assignment, the variables take the values of the proof, or those of the zero
    /// proof.
    pub open spec fn holds_values_of(
        self,
        a: Seq<int>,
        nifs: Option<&ZeroFoldNIFS<E>>,
        degree: int,
    ) -> bool {
        match nifs {
            Some(n) => {
                &&& self.comm_E.at(a) == point_elements(n.comm_E.coords())
                &&& self.poly_nsc.at(a) == n.poly_nsc@.take(degree + 1)
                &&& self.poly_pc.at(a) == n.poly_pc@.take(degree + 1)
            },
            None => {
                &&& self.comm_E.at(a) == identity_elements()
                &&& self.poly_nsc.at(a) == coefficient_elements::<E::Scalar>(None, degree + 1)
                &&& self.poly_pc.at(a) == coefficient_elements::<E::Scalar>(None, degree + 1)
            },
        }
    }

    /// The field elements of the fresh instances under an assignment, after the digest.
    pub open spec fn fresh_at(
        pp_digest: AllocatedNum<E::Scalar>,
        U2: AllocatedNonnativeR1CSInstance<E>,
        U2_pc: AllocatedPowerCheckInstance<E>,
        a: Seq<int>,
    ) -> Seq<int> {
        seq![pp_digest.at(a)] + at_all(U2.elements(), a) + at_all(U2_pc.elements(), a)
    }

    /// The challenges under an assignment.
    pub open spec fn challenges_at(
        self,
        m: PoseidonModel,
        pp_digest: AllocatedNum<E::Scalar>,
        U2: AllocatedNonnativeR1CSInstance<E>,
        U2_pc: AllocatedPowerCheckInstance<E>,
        a: Seq<int>,
    ) -> (int, int, int) {
        circuit_challenges(
            E::Scalar::modulus(),
            m,
            Self::fresh_at(pp_digest, U2, U2_pc, a),
            self.comm_E.at(a),
            self.poly_nsc.at(a) + self.poly_pc.at(a),
        )
    }

    /// Draws the challenge for the weights and the one that combines the claims.
    pub fn draw_tau_rho(
        &self,
        cs: &mut ConstraintSystem<E::Scalar>,
        pp_digest: &AllocatedNum<E::Scalar>,
        U2: &AllocatedNonnativeR1CSInstance<E>,
        U2_pc: &AllocatedPowerCheckInstance<E>,
        ro: &mut PoseidonROCircuit<E::Scalar>,
    ) -> (r: (AllocatedNum<E::Scalar>, AllocatedNum<E::Scalar>))
        requires
            old(cs)@.wf(),
            old(ro).wf(),
            old(ro)@.len() == 0,
            self.wf(old(cs)@),
            pp_digest.wf(old(cs)@),
            U2.wf(old(cs)@),
            U2_pc.wf(old(cs)@),
        ensures
            old(cs)@.extended_by(final(cs)@),
            final(ro).wf(),
            final(ro).params() == old(ro).params(),
            final(ro)@.len() == 1,
            all_wf(final(ro)@, final(cs)@),
            ({
                let m = old(ro).params();
                let n = old(cs)@.aux.len() as int;
                let first = challenge_vars(m, 1int + U2.elements().len() + U2_pc.elements().len());
                let len = 1int + self.comm_E.elements().len();
                &&& final(cs)@.aux.len() == n + first + challenge_vars(m, len)
                &&& r.0.sits(n + first - 1)
                &&& r.1.sits(final(cs)@.aux.len() - 1)
                &&& forall|a: Seq<int>| #[trigger]
                    final(ro)@[0].at(a) == hash_at(m, n + first, len, a)
            }),
            forall|a: Seq<int>| #[trigger]
                new_hold(E::Scalar::modulus(), old(cs)@, final(cs)@, a) <==> draw_rows(
                    E::Scalar::modulus(),
                    old(ro).params(),
                    old(cs)@.aux.len() as int,
                    Self::fresh_at(*pp_digest, *U2, *U2_pc, a),
                    self.comm_E.at(a),
                    a,
                ),
            r.0.wf(final(cs)@),
            r.1.wf(final(cs)@),
            forall|a: Seq<int>| #[trigger]
                new_hold(E::Scalar::modulus(), old(cs)@, final(cs)@, a) ==> {
                    let p = E::Scalar::modulus();
                    let m = old(ro).params();
                    let bits = NUM_CHALLENGE_BITS as nat;
                    let fresh = Self::fresh_at(*pp_digest, *U2, *U2_pc, a);
                    let second = seq![poseidon(p, m, fresh)] + self.comm_E.at(a);
                    &&& r.0.at(a) % p == challenge(p, m, fresh, bits)
                    &&& r.1.at(a) % p == challenge(p, m, second, bits)
                    &&& final(ro)@[0].at(a) % p == poseidon(p, m, second)
                },
            complete(E::Scalar::modulus(), old(cs)@, final(cs)@),
    {
        let ghost p = E::Scalar::modulus();
        let ghost m = ro.params();
        let ghost s0 = cs@;
        ro.absorb(pp_digest);
        U2.absorb_in_ro(ro);
        let _ = U2_pc.absorb_in_ro(cs, ro);
        let ghost state0 = ro@;
        proof {
            E::Scalar::lemma_modulus();
            U2.lemma_grow(s0, s0);
            U2_pc.lemma_grow(s0, s0);
            assert(state0 =~= seq![*pp_digest] + U2.elements() + U2_pc.elements());
            assert forall|i: int| 0 <= i < state0.len() implies (#[trigger] state0[i]).wf(s0) by {
                let n = 1 + U2.elements().len();
                if 1 <= i < n {
                    assert(state0[i] == U2.elements()[i - 1]);
                } else if i >= n {
                    assert(state0[i] == U2_pc.elements()[i - n]);
                }
            }
        }
        let tau = ro.squeeze_num(cs, NUM_CHALLENGE_BITS);
        let ghost s1 = cs@;
        let ghost h0 = ro@[0];
        self.comm_E.absorb_in_ro(ro);
        let ghost state1 = ro@;
        proof {
            self.lemma_grow(s0, s1);
            assert(state1 =~= seq![h0] + self.comm_E.elements());
            assert forall|i: int| 0 <= i < state1.len() implies (#[trigger] state1[i]).wf(s1) by {
                if i > 0 {
                    assert(state1[i] == self.comm_E.elements()[i - 1]);
                }
            }
        }
        let rho = ro.squeeze_num(cs, NUM_CHALLENGE_BITS);
        proof {
            lemma_chain(p, s0, s1, cs@);
            lemma_complete_chain(p, s0, s1, cs@);
            tau.lemma_grow(s1, cs@);
            assert forall|a: Seq<int>| #[trigger] new_hold(p, s0, cs@, a) <==> draw_rows(
                p,
                m,
                s0.aux.len() as int,
                Self::fresh_at(*pp_digest, *U2, *U2_pc, a),
                self.comm_E.at(a),
                a,
            ) by {
                let n = s0.aux.len() as int;
                assert(at_all(state0, a) =~= Self::fresh_at(*pp_digest, *U2, *U2_pc, a));
                assert(h0.at(a) == hash_at(m, n, state0.len() as int, a));
                assert(at_all(state1, a) =~= seq![h0.at(a)] + self.comm_E.at(a));
            }
            assert forall|a: Seq<int>| #[trigger]
                new_hold(p, s0, cs@, a) implies {
                let bits = NUM_CHALLENGE_BITS as nat;
                let fresh = Self::fresh_at(*pp_digest, *U2, *U2_pc, a);
                let second = seq![poseidon(p, m, fresh)] + self.comm_E.at(a);
                &&& tau.at(a) % p == challenge(p, m, fresh, bits)
                &&& rho.at(a) % p == challenge(p, m, second, bits)
                &&& ro@[0].at(a) % p == poseidon(p, m, second)
            } by {
                assert(new_hold(p, s0, s1, a) && new_hold(p, s1, cs@, a));
                let fresh = Self::fresh_at(*pp_digest, *U2, *U2_pc, a);
                let second = seq![poseidon(p, m, fresh)] + self.comm_E.at(a);
                assert(at_all(state0, a) =~= fresh);
                assert(at_all(state1, a) =~= seq![h0.at(a)] + self.comm_E.at(a));
                lemma_mod(p, h0.at(a));
                assert(cong_seq(p, at_all(state1, a), second));
                lemma_poseidon_cong(p, m, at_all(state1, a), second);
            }
        }
        (tau, rho)
    }

    /// Demands that both polynomials add up to their claims.
    pub fn check_claims(
        &self,
        cs: &mut ConstraintSystem<E::Scalar>,
        rho: &AllocatedNum<E::Scalar>,
        T_nsc: &AllocatedNum<E::Scalar>,
        T_pc: &AllocatedNum<E::Scalar>,
    )
        requires
            old(cs)@.wf(),
            self.wf(old(cs)@),
            rho.wf(old(cs)@),
            T_nsc.wf(old(cs)@),
            T_pc.wf(old(cs)@),
        ensures
            old(cs)@.extended_by(final(cs)@),
            final(cs)@.aux.len() == old(cs)@.aux.len() + 2,
            forall|a: Seq<int>| #[trigger]
                new_hold(E::Scalar::modulus(), old(cs)@, final(cs)@, a) <==> claims_rows(
                    E::Scalar::modulus(),
                    old(cs)@.aux.len() as int,
                    (self.poly_nsc.at(a), self.poly_pc.at(a)),
                    rho.at(a),
                    (T_nsc.at(a), T_pc.at(a)),
                    a,
                ),
            forall|a: Seq<int>| #[trigger]
                new_hold(E::Scalar::modulus(), old(cs)@, final(cs)@, a) ==> self.claims_hold(
                    a,
                    rho.at(a),
                    T_nsc.at(a),
                    T_pc.at(a),
                ),
            forall|a: Seq<int>| #[trigger]
                agrees(a, final(cs)@) && self.claims_hold(a, rho.at(a), T_nsc.at(a), T_pc.at(a))
                    ==> new_hold(E::Scalar::modulus(), old(cs)@, final(cs)@, a),
    {
        let ghost p = E::Scalar::modulus();
        let ghost s0 = cs@;
        let claim_nsc = scaled_claim(cs, T_nsc, rho);
        let ghost s1 = cs@;
        proof {
            self.lemma_grow(s0, s1);
        }
        self.poly_nsc.check_poly_zero_poly_one_with(cs, &claim_nsc);
        let ghost s2 = cs@;
        proof {
            self.lemma_grow(s1, s2);
            lemma_chain(p, s0, s1, s2);
            rho.lemma_grow(s0, s2);
            T_pc.lemma_grow(s0, s2);
        }
        let claim_pc = scaled_claim(cs, T_pc, rho);
        let ghost s3 = cs@;
        proof {
            self.lemma_grow(s2, s3);
        }
        self.poly_pc.check_poly_zero_poly_one_with(cs, &claim_pc);
        proof {
            lemma_chain(p, s0, s2, s3);
            lemma_chain(p, s0, s3, cs@);
            assert forall|a: Seq<int>| #[trigger] new_hold(p, s0, cs@, a) <==> claims_rows(
                p,
                s0.aux.len() as int,
                (self.poly_nsc.at(a), self.poly_pc.at(a)),
                rho.at(a),
                (T_nsc.at(a), T_pc.at(a)),
                a,
            ) by {
                assert(new_hold(p, s0, cs@, a) <==> new_hold(p, s0, s3, a) && new_hold(
                    p,
                    s3,
                    cs@,
                    a,
                ));
                assert(new_hold(p, s0, s3, a) <==> new_hold(p, s0, s2, a) && new_hold(
                    p,
                    s2,
                    s3,
                    a,
                ));
                assert(new_hold(p, s0, s2, a) <==> new_hold(p, s0, s1, a) && new_hold(
                    p,
                    s1,
                    s2,
                    a,
                ));
                assert(claim_nsc.at(a) == a[s0.aux.len() as int]);
                assert(claim_pc.at(a) == a[s0.aux.len() + 1int]);
            }
            assert forall|a: Seq<int>| #[trigger] new_hold(
                p,
                s0,
                cs@,
                a,
            ) implies self.claims_hold(a, rho.at(a), T_nsc.at(a), T_pc.at(a)) by {
                assert(new_hold(p, s0, s3, a) && new_hold(p, s3, cs@, a));
                assert(new_hold(p, s0, s2, a) && new_hold(p, s2, s3, a));
                assert(new_hold(p, s0, s1, a) && new_hold(p, s1, s2, a));
            }
            assert forall|a: Seq<int>| #[trigger]
                agrees(a, cs@) && self.claims_hold(
                    a,
                    rho.at(a),
                    T_nsc.at(a),
                    T_pc.at(a),
                ) implies new_hold(p, s0, cs@, a) by {
                assert(agrees(a, s3) && agrees(a, s2) && agrees(a, s1));
                assert(new_hold(p, s0, s1, a));
                assert(new_hold(p, s1, s2, a));
                assert(new_hold(p, s2, s3, a));
                assert(new_hold(p, s3, cs@, a));
            }
        }
    }

    /// Both polynomials add up to their claims.
    pub open spec fn claims_hold(self, a: Seq<int>, rho: int, t_nsc: int, t_pc: int) -> bool {
        &&& sums_up(E::Scalar::modulus(), self.poly_nsc.at(a), rho, t_nsc)
        &&& sums_up(E::Scalar::modulus(), self.poly_pc.at(a), rho, t_pc)
    }

    /// The claims that both polynomials leave. Where there is a witness, the equality polynomial
    /// must not vanish at the challenges.
    pub fn output_claims(
        &self,
        cs: &mut ConstraintSystem<E::Scalar>,
        rho: &AllocatedNum<E::Scalar>,
        r_b: &AllocatedNum<E::Scalar>,
    ) -> (r: Result<(AllocatedNum<E::Scalar>, AllocatedNum<E::Scalar>), SynthesisError>)
        requires
            old(cs)@.wf(),
            self.wf(old(cs)@),
            rho.wf(old(cs)@),
            r_b.wf(old(cs)@),
        ensures
            old(cs)@.extended_by(final(cs)@),
            complete(E::Scalar::modulus(), old(cs)@, final(cs)@),
            match r {
                Ok((nsc, pc)) => {
                    &&& final(cs)@.aux.len() == old(cs)@.aux.len() + 2 + self.poly_nsc.coeffs@.len()
                        + self.poly_pc.coeffs@.len()
                    &&& nsc.sits(old(cs)@.aux.len() + 1int + self.poly_nsc.coeffs@.len())
                    &&& pc.sits(final(cs)@.aux.len() - 1)
                    &&& forall|a: Seq<int>| #[trigger]
                        new_hold(E::Scalar::modulus(), old(cs)@, final(cs)@, a) <==> output_rows(
                            E::Scalar::modulus(),
                            old(cs)@.aux.len() as int,
                            (self.poly_nsc.at(a), self.poly_pc.at(a)),
                            rho.at(a),
                            r_b.at(a),
                            a,
                        )
                    &&& nsc.wf(final(cs)@)
                    &&& pc.wf(final(cs)@)
                    &&& forall|a: Seq<int>| #[trigger]
                        new_hold(E::Scalar::modulus(), old(cs)@, final(cs)@, a) ==> {
                            let p = E::Scalar::modulus();
                            &&& leaves(p, self.poly_nsc.at(a), rho.at(a), r_b.at(a), nsc.at(a))
                            &&& leaves(p, self.poly_pc.at(a), rho.at(a), r_b.at(a), pc.at(a))
                        }
                    &&& forall|a: Seq<int>| #[trigger]
                        agrees(a, final(cs)@) ==> eq_poly(rho.at(a), r_b.at(a))
                            % E::Scalar::modulus() != 0
                },
                Err(e) => {
                    &&& e == SynthesisError::DivisionByZero
                    &&& old(cs)@.witness
                    &&& forall|a: Seq<int>| #[trigger]
                        agrees(a, final(cs)@) ==> eq_poly(rho.at(a), r_b.at(a))
                            % E::Scalar::modulus() == 0
                },
            },
    {
        let ghost p = E::Scalar::modulus();
        let ghost s0 = cs@;
        let eq_rho_r_b = eq_num(cs, rho, r_b);
        let ghost s1 = cs@;
        proof {
            E::Scalar::lemma_modulus();
            self.lemma_grow(s0, s1);
            r_b.lemma_grow(s0, s1);
        }
        let eval_nsc = match self.poly_nsc.evaluate(cs, r_b) {
            Ok(v) => v,
            Err(e) => {
                return Err(e);
            },
        };
        let ghost s2 = cs@;
        proof {
            lemma_chain(p, s0, s1, s2);
            lemma_complete_chain(p, s0, s1, s2);
            eq_rho_r_b.lemma_grow(s1, s2);
            self.lemma_grow(s1, s2);
            r_b.lemma_grow(s1, s2);
            assert forall|a: Seq<int>| #[trigger]
                agrees(a, s2) implies eq_rho_r_b.value->0.val() == eq_poly(
                rho.at(a),
                r_b.at(a),
            ) % p && eq_rho_r_b.value is Some by {
                assert(new_hold(p, s0, s2, a));
                assert(new_hold(p, s0, s1, a));
                eq_rho_r_b.lemma_at(s2, a);
                let v = eq_rho_r_b.value->0;
                v.lemma_val();
                vstd::arithmetic::div_mod::lemma_small_mod(v.val() as nat, p as nat);
            }
        }
        let T_out_nsc = match quotient_num(cs, &eval_nsc, &eq_rho_r_b) {
            Ok(t) => t,
            Err(e) => {
                return Err(e);
            },
        };
        let ghost s3 = cs@;
        proof {
            lemma_chain(p, s0, s2, s3);
            lemma_complete_chain(p, s0, s2, s3);
            self.lemma_grow(s2, s3);
            r_b.lemma_grow(s2, s3);
            eq_rho_r_b.lemma_grow(s2, s3);
        }
        let eval_pc = match self.poly_pc.evaluate(cs, r_b) {
            Ok(v) => v,
            Err(e) => {
                return Err(e);
            },
        };
        let ghost s4 = cs@;
        proof {
            lemma_chain(p, s0, s3, s4);
            lemma_complete_chain(p, s0, s3, s4);
            eq_rho_r_b.lemma_grow(s3, s4);
        }
        let T_out_pc = match quotient_num(cs, &eval_pc, &eq_rho_r_b) {
            Ok(t) => t,
            Err(e) => {
                return Err(e);
            },
        };
        proof {
            lemma_chain(p, s0, s4, cs@);
            lemma_complete_chain(p, s0, s4, cs@);
            lemma_chain(p, s3, s4, cs@);
            T_out_nsc.lemma_grow(s3, cs@);
            assert forall|a: Seq<int>| #[trigger] new_hold(p, s0, cs@, a) <==> output_rows(
                p,
                s0.aux.len() as int,
                (self.poly_nsc.at(a), self.poly_pc.at(a)),
                rho.at(a),
                r_b.at(a),
                a,
            ) by {
                assert(new_hold(p, s0, cs@, a) <==> new_hold(p, s0, s4, a) && new_hold(
                    p,
                    s4,
                    cs@,
                    a,
                ));
                assert(new_hold(p, s0, s4, a) <==> new_hold(p, s0, s3, a) && new_hold(
                    p,
                    s3,
                    s4,
                    a,
                ));
                assert(new_hold(p, s0, s3, a) <==> new_hold(p, s0, s2, a) && new_hold(
                    p,
                    s2,
                    s3,
                    a,
                ));
                assert(new_hold(p, s0, s2, a) <==> new_hold(p, s0, s1, a) && new_hold(
                    p,
                    s1,
                    s2,
                    a,
                ));
                let n = s0.aux.len() as int;
                let (c, d) = (self.poly_nsc.at(a), self.poly_pc.at(a));
                assert(eq_rho_r_b.at(a) == a[n + 1]);
                assert(eval_nsc.at(a) == horner_at(c, n + 2, a, c.len() - 1));
                assert(T_out_nsc.at(a) == a[n + 2 + (c.len() - 1)]);
                assert(eval_pc.at(a) == horner_at(d, n + 2 + c.len(), a, d.len() - 1));
                assert(T_out_pc.at(a) == a[n + 2 + c.len() + (d.len() - 1)]);
            }
            assert forall|a: Seq<int>| #[trigger] new_hold(p, s0, cs@, a) implies {
                &&& leaves(p, self.poly_nsc.at(a), rho.at(a), r_b.at(a), T_out_nsc.at(a))
                &&& leaves(p, self.poly_pc.at(a), rho.at(a), r_b.at(a), T_out_pc.at(a))
            } by {
                assert(new_hold(p, s0, s4, a) && new_hold(p, s4, cs@, a));
                assert(new_hold(p, s0, s3, a) && new_hold(p, s3, s4, a));
                assert(new_hold(p, s0, s2, a) && new_hold(p, s2, s3, a));
                assert(new_hold(p, s0, s1, a) && new_hold(p, s1, s2, a));
                let eq = eq_poly(rho.at(a), r_b.at(a));
                lemma_cong_mul(p, T_out_nsc.at(a), eq_rho_r_b.at(a), T_out_nsc.at(a), eq);
                lemma_cong_mul(p, T_out_pc.at(a), eq_rho_r_b.at(a), T_out_pc.at(a), eq);
            }
            assert forall|a: Seq<int>| #[trigger] agrees(a, cs@) implies eq_poly(
                rho.at(a),
                r_b.at(a),
            ) % p != 0 by {
                assert(agrees(a, s4) && agrees(a, s3) && agrees(a, s2));
            }
        }
        Ok((T_out_nsc, T_out_pc))
    }

    /// What the verifier reads, under an assignment.
    pub open spec fn input_at(
        self,
        pp_digest: AllocatedNum<E::Scalar>,
        U1: AllocatedFoldedInstance<E>,
        U1_pc: AllocatedFoldedPowerCheckInstance<E>,
        U2: AllocatedNonnativeR1CSInstance<E>,
        U2_pc: AllocatedPowerCheckInstance<E>,
        a: Seq<int>,
    ) -> VerifierInput {
        VerifierInput {
            fresh: Self::fresh_at(pp_digest, U2, U2_pc, a),
            comm: self.comm_E.at(a),
            polys: (self.poly_nsc.at(a), self.poly_pc.at(a)),
            claims: (U1.T.at(a), U1_pc.pc_sumcheck_claim.at(a)),
            u: U1.u.at(a),
            x: (at_all(U1.X@, a), at_all(U2.X@, a)),
            tau: (U1_pc.tau.at(a), U2_pc.tau.at(a)),
        }
    }

    /// The verifier adds its variables and its constraints to a system, whatever values there are,
    /// and whether or not there are any. The new variables that come out have their places.
    pub open spec fn adds_verifier(
        self,
        m: PoseidonModel,
        pp_digest: AllocatedNum<E::Scalar>,
        U1: AllocatedFoldedInstance<E>,
        U1_pc: AllocatedFoldedPowerCheckInstance<E>,
        U2: AllocatedNonnativeR1CSInstance<E>,
        U2_pc: AllocatedPowerCheckInstance<E>,
        out: (
            AllocatedFoldedInstance<E>,
            AllocatedFoldedPowerCheckInstance<E>,
            AllocatedPowerCheckInstance<E>,
        ),
        before: CsModel,
        after: CsModel,
    ) -> bool {
        let n = before.aux.len() as int;
        let shape = self.input_at(pp_digest, U1, U1_pc, U2, U2_pc, Seq::empty());
        let k = n + shape.left(m);
        &&& after.aux.len() == n + shape.vars(m)
        &&& out.0.T.sits(n + shape.checked(m) + 1 + shape.polys.0.len())
        &&& out.0.u.sits(k)
        &&& sit_from(out.0.X@, k + 1)
        &&& out.1.pc_sumcheck_claim.sits(k - 1)
        &&& out.1.tau.sits(after.aux.len() - 1)
        &&& out.2.tau.sits(n + challenge_vars(m, shape.fresh.len() as int) - 1)
        &&& forall|a: Seq<int>| #[trigger]
            new_hold(E::Scalar::modulus(), before, after, a) <==> self.input_at(
                pp_digest,
                U1,
                U1_pc,
                U2,
                U2_pc,
                a,
            ).rows(E::Scalar::modulus(), m, n, a)
    }

    /// The instances that come out are folded at the challenge of the transcript, with the claims
    /// that the polynomials leave.
    pub open spec fn folded_at(
        self,
        m: PoseidonModel,
        pp_digest: AllocatedNum<E::Scalar>,
        U1: AllocatedFoldedInstance<E>,
        U1_pc: AllocatedFoldedPowerCheckInstance<E>,
        U2: AllocatedNonnativeR1CSInstance<E>,
        U2_pc: AllocatedPowerCheckInstance<E>,
        out: (
            AllocatedFoldedInstance<E>,
            AllocatedFoldedPowerCheckInstance<E>,
            AllocatedPowerCheckInstance<E>,
        ),
        a: Seq<int>,
    ) -> bool {
        let p = E::Scalar::modulus();
        let (tau, rho, r_b) = self.challenges_at(m, pp_digest, U2, U2_pc, a);
        &&& leaves(p, self.poly_nsc.at(a), rho, r_b, out.0.T.at(a))
        &&& leaves(p, self.poly_pc.at(a), rho, r_b, out.1.pc_sumcheck_claim.at(a))
        &&& out.0.u.at(a) % p == lerp(U1.u.at(a), 1, r_b) % p
        &&& mod_seq(p, at_all(out.0.X@, a)) == mod_seq(
            p,
            lerp_seq(at_all(U1.X@, a), at_all(U2.X@, a), r_b),
        )
        &&& out.1.tau.at(a) % p == lerp(U1_pc.tau.at(a), U2_pc.tau.at(a), r_b) % p
        &&& out.2.tau.at(a) % p == tau
    }

    /// What the constraints of the verifier say of an assignment: the challenges are those of the
    /// transcript, both polynomials add up to their claims, and the instances that come out are
    /// folded at the challenge, with the claims that the polynomials leave.
    pub open spec fn verified_at(
        self,
        m: PoseidonModel,
        pp_digest: AllocatedNum<E::Scalar>,
        U1: AllocatedFoldedInstance<E>,
        U1_pc: AllocatedFoldedPowerCheckInstance<E>,
        U2: AllocatedNonnativeR1CSInstance<E>,
        U2_pc: AllocatedPowerCheckInstance<E>,
        out: (
            AllocatedFoldedInstance<E>,
            AllocatedFoldedPowerCheckInstance<E>,
            AllocatedPowerCheckInstance<E>,
        ),
        a: Seq<int>,
    ) -> bool {
        let rho = self.challenges_at(m, pp_digest, U2, U2_pc, a).1;
        &&& self.claims_hold(a, rho, U1.T.at(a), U1_pc.pc_sumcheck_claim.at(a))
        &&& self.folded_at(m, pp_digest, U1, U1_pc, U2, U2_pc, out, a)
    }

    /// Verifies the proof: draws the challenges from the transcript, demands that both polynomials
    /// add up to their claims, and folds the instances. The commitments of the folded instances
    /// are passed through. The values of the witness are folded whether or not the claims hold.
    #[verifier::rlimit(80)]
    #[verifier::spinoff_prover]
    pub fn verify(
        &self,
        cs: &mut ConstraintSystem<E::Scalar>,
        pp_digest: &AllocatedNum<E::Scalar>,
        U1: &AllocatedFoldedInstance<E>,
        U1_pc: &AllocatedFoldedPowerCheckInstance<E>,
        U2: &AllocatedNonnativeR1CSInstance<E>,
        U2_pc: &AllocatedPowerCheckInstance<E>,
        comm_W_fold: &AllocatedNonnativePoint<E>,
        comm_E_fold: &AllocatedNonnativePoint<E>,
        comm_witness_fold: &AllocatedNonnativePoint<E>,
        ro_consts: PoseidonConstants<E::Scalar>,
    ) -> (r: Result<
        (
            AllocatedFoldedInstance<E>,
            AllocatedFoldedPowerCheckInstance<E>,
            AllocatedPowerCheckInstance<E>,
        ),
        SynthesisError,
    >)
        requires
            old(cs)@.wf(),
            ro_consts.wf(),
            self.wf(old(cs)@),
            pp_digest.wf(old(cs)@),
            U1.wf(old(cs)@),
            U1_pc.wf(old(cs)@),
            U2.wf(old(cs)@),
            U2_pc.wf(old(cs)@),
            comm_W_fold.wf(old(cs)@),
            comm_E_fold.wf(old(cs)@),
            comm_witness_fold.wf(old(cs)@),
            U1.X@.len() == U2.X@.len(),
        ensures
            old(cs)@.extended_by(final(cs)@),
            r is Err <==> old(cs)@.witness && ({
                let ch = self.challenges_at(
                    ro_consts@,
                    *pp_digest,
                    *U2,
                    *U2_pc,
                    old(cs)@.values(),
                );
                eq_poly(ch.1, ch.2) % E::Scalar::modulus() == 0
            }),
            r matches Err(e) ==> e == SynthesisError::DivisionByZero,
            r matches Ok(out) ==> {
                &&& out.0.wf(final(cs)@)
                &&& out.1.wf(final(cs)@)
                &&& out.2.wf(final(cs)@)
                &&& out.0.comm_W.elements() == comm_W_fold.elements()
                &&& out.0.comm_E.elements() == comm_E_fold.elements()
                &&& out.0.X@.len() == U1.X@.len()
                &&& out.1.comm_witness.elements() == comm_witness_fold.elements()
                &&& out.1.comm_weights.elements() == comm_E_fold.elements()
                &&& out.2.comm_powers.elements() == self.comm_E.elements()
                &&& self.adds_verifier(
                    ro_consts@,
                    *pp_digest,
                    *U1,
                    *U1_pc,
                    *U2,
                    *U2_pc,
                    out,
                    old(cs)@,
                    final(cs)@,
                )
                &&& forall|a: Seq<int>| #[trigger]
                    new_hold(E::Scalar::modulus(), old(cs)@, final(cs)@, a) ==> self.verified_at(
                        ro_consts@,
                        *pp_digest,
                        *U1,
                        *U1_pc,
                        *U2,
                        *U2_pc,
                        out,
                        a,
                    )
                &&& forall|a: Seq<int>| #[trigger]
                    agrees(a, final(cs)@) ==> self.folded_at(
                        ro_consts@,
                        *pp_digest,
                        *U1,
                        *U1_pc,
                        *U2,
                        *U2_pc,
                        out,
                        a,
                    )
                &&& forall|a: Seq<int>| #[trigger]
                    agrees(a, final(cs)@) && self.claims_hold(
                        a,
                        self.challenges_at(ro_consts@, *pp_digest, *U2, *U2_pc, a).1,
                        U1.T.at(a),
                        U1_pc.pc_sumcheck_claim.at(a),
                    ) ==> new_hold(E::Scalar::modulus(), old(cs)@, final(cs)@, a)
            },
    {
        let ghost p = E::Scalar::modulus();
        let ghost m = ro_consts@;
        let ghost s0 = cs@;
        proof {
            E::Scalar::lemma_modulus();
        }
        // The transcript up to the challenge that combines the claims.
        let mut ro = PoseidonROCircuit::new(ro_consts);
        let (tau, rho) = self.draw_tau_rho(cs, pp_digest, U2, U2_pc, &mut ro);
        let ghost s1 = cs@;
        let ghost h1 = ro@[0];
        proof {
            self.lemma_grow(s0, s1);
            U1.lemma_grow(s0, s1);
            U1_pc.lemma_grow(s0, s1);
        }
        // The sum-check identities.
        self.check_claims(cs, &rho, &U1.T, &U1_pc.pc_sumcheck_claim);
        let ghost s2 = cs@;
        proof {
            lemma_chain(p, s0, s1, s2);
            self.lemma_grow(s1, s2);
            h1.lemma_grow(s1, s2);
        }
        // Both polynomials are absorbed, and the folding challenge is drawn.
        self.poly_nsc.absorb_in_ro(&mut ro);
        self.poly_pc.absorb_in_ro(&mut ro);
        let ghost state = ro@;
        proof {
            let (c1, c2) = (self.poly_nsc.coeffs@, self.poly_pc.coeffs@);
            assert(state =~= seq![h1] + c1 + c2);
            assert forall|i: int| 0 <= i < state.len() implies (#[trigger] state[i]).wf(s2) by {
                if 1 <= i < 1 + c1.len() {
                    assert(state[i] == c1[i - 1]);
                } else if i >= 1 + c1.len() {
                    assert(state[i] == c2[i - 1 - c1.len()]);
                }
            }
        }
        let r_b = ro.squeeze_num(cs, NUM_CHALLENGE_BITS);
        let ghost s3 = cs@;
        proof {
            lemma_chain(p, s0, s2, s3);
            lemma_chain(p, s1, s2, s3);
            self.lemma_grow(s2, s3);
            rho.lemma_grow(s1, s3);
            tau.lemma_grow(s1, s3);
            // The challenges are those of the transcript.
            assert forall|a: Seq<int>|
                new_hold(p, s0, s1, a) && #[trigger] new_hold(p, s2, s3, a) implies {
                let ch = self.challenges_at(m, *pp_digest, *U2, *U2_pc, a);
                &&& tau.at(a) % p == ch.0
                &&& rho.at(a) % p == ch.1
                &&& r_b.at(a) % p == ch.2
            } by {
                let fresh = Self::fresh_at(*pp_digest, *U2, *U2_pc, a);
                let second = seq![poseidon(p, m, fresh)] + self.comm_E.at(a);
                let polys = self.poly_nsc.at(a) + self.poly_pc.at(a);
                let third = seq![poseidon(p, m, second)] + polys;
                assert(at_all(state, a) =~= seq![h1.at(a)] + polys);
                lemma_mod(p, h1.at(a));
                assert(cong_seq(p, at_all(state, a), third));
                lemma_poseidon_cong(p, m, at_all(state, a), third);
            }
        }
        // The claims that are left.
        let (T_out_nsc, T_out_pc) = match self.output_claims(cs, &rho, &r_b) {
            Ok(t) => t,
            Err(e) => {
                proof {
                    let s4 = cs@;
                    lemma_chain(p, s0, s3, s4);
                    lemma_chain(p, s1, s3, s4);
                    lemma_chain(p, s2, s3, s4);
                    let a = s4.values();
                    lemma_values_agree(s4);
                    self.lemma_challenges_grow(m, *pp_digest, *U2, *U2_pc, s0, s4);
                    assert(agrees(a, s3) && agrees(a, s1));
                    assert(new_hold(p, s0, s1, a) && new_hold(p, s2, s3, a));
                    lemma_eq_cong(
                        p,
                        rho.at(a),
                        r_b.at(a),
                        self.challenges_at(m, *pp_digest, *U2, *U2_pc, a),
                    );
                }
                return Err(e);
            },
        };
        let ghost s4 = cs@;
        proof {
            lemma_chain(p, s0, s3, s4);
            lemma_chain(p, s1, s3, s4);
            lemma_chain(p, s2, s3, s4);
            U1.lemma_grow(s0, s4);
            U2.lemma_grow(s0, s4);
            comm_W_fold.lemma_grow(s0, s4);
            comm_E_fold.lemma_grow(s0, s4);
            r_b.lemma_grow(s3, s4);
        }
        // The folded instances.
        let folded_nsc = match U1.fold(cs, U2, &r_b, &T_out_nsc, comm_W_fold, comm_E_fold) {
            Ok(f) => f,
            Err(e) => {
                return Err(e);
            },
        };
        let ghost s5 = cs@;
        let zero_claim = alloc_zero(cs);
        let ghost s6 = cs@;
        proof {
            lemma_chain(p, s0, s4, s5);
            lemma_chain(p, s0, s5, s6);
            lemma_chain(p, s3, s4, s5);
            lemma_chain(p, s3, s5, s6);
            lemma_chain(p, s4, s5, s6);
            self.lemma_grow(s0, s6);
            U1_pc.lemma_grow(s0, s6);
            U2_pc.lemma_grow(s0, s6);
            comm_witness_fold.lemma_grow(s0, s6);
            comm_E_fold.lemma_grow(s0, s6);
            r_b.lemma_grow(s3, s6);
            T_out_pc.lemma_grow(s4, s6);
        }
        let U2_pc_folded = AllocatedFoldedPowerCheckInstance::from_fresh_zc_pc(
            U2_pc,
            &self.comm_E,
            &zero_claim,
        );
        let folded_pc = match U1_pc.fold(
            cs,
            &U2_pc_folded,
            &r_b,
            &T_out_pc,
            comm_witness_fold,
            comm_E_fold,
        ) {
            Ok(f) => f,
            Err(e) => {
                return Err(e);
            },
        };
        let new_zc_pc = AllocatedPowerCheckInstance { comm_powers: self.comm_E.clone(), tau };
        proof {
            let s7 = cs@;
            lemma_chain(p, s0, s6, s7);
            lemma_chain(p, s1, s4, s5);
            lemma_chain(p, s1, s5, s6);
            lemma_chain(p, s1, s6, s7);
            lemma_chain(p, s4, s6, s7);
            lemma_chain(p, s5, s6, s7);
            folded_nsc.lemma_grow(s5, s7);
            self.lemma_grow(s6, s7);
            tau.lemma_grow(s1, s7);
            let out = (folded_nsc, folded_pc, new_zc_pc);
            let n = s0.aux.len() as int;
            assert forall|a: Seq<int>| #[trigger] new_hold(p, s0, s7, a) <==> self.input_at(
                *pp_digest,
                *U1,
                *U1_pc,
                *U2,
                *U2_pc,
                a,
            ).rows(p, m, n, a) by {
                let v = self.input_at(*pp_digest, *U1, *U1_pc, *U2, *U2_pc, a);
                assert(new_hold(p, s0, s7, a) <==> new_hold(p, s0, s6, a) && new_hold(p, s6, s7, a));
                assert(new_hold(p, s0, s6, a) <==> new_hold(p, s0, s5, a) && new_hold(p, s5, s6, a));
                assert(new_hold(p, s0, s5, a) <==> new_hold(p, s0, s4, a) && new_hold(p, s4, s5, a));
                assert(new_hold(p, s0, s4, a) <==> new_hold(p, s0, s3, a) && new_hold(p, s3, s4, a));
                assert(new_hold(p, s0, s3, a) <==> new_hold(p, s0, s2, a) && new_hold(p, s2, s3, a));
                assert(new_hold(p, s0, s2, a) <==> new_hold(p, s0, s1, a) && new_hold(p, s1, s2, a));
                assert(s1.aux.len() == n + v.drawn(m));
                assert(s3.aux.len() == n + v.checked(m));
                assert(s4.aux.len() == n + v.left(m));
                assert(rho.at(a) == a[n + v.drawn(m) - 1]);
                assert(r_b.at(a) == a[n + v.checked(m) - 1]);
                let first = challenge_vars(m, v.fresh.len() as int);
                assert(h1.at(a) == hash_at(m, n + first, 1int + v.comm.len(), a));
                assert(at_all(state, a) =~= seq![h1.at(a)] + v.polys.0 + v.polys.1);
                assert(folded_nsc.u.at(a) == a[n + v.left(m)]);
                lemma_slots(folded_nsc.X@, n + v.left(m) + 1, a);
                assert(zero_claim.at(a) == a[n + v.left(m) + 1 + v.x.0.len()]);
                assert(folded_pc.tau.at(a) == a[n + v.left(m) + 2 + v.x.0.len()]);
            }
            assert forall|a: Seq<int>| #[trigger]
                new_hold(p, s6, s7, a) && new_hold(p, s4, s5, a) && new_hold(p, s3, s4, a)
                    && new_hold(p, s2, s3, a) && new_hold(p, s0, s1, a) implies self.folded_at(
                m,
                *pp_digest,
                *U1,
                *U1_pc,
                *U2,
                *U2_pc,
                out,
                a,
            ) by {
                let ch = self.challenges_at(m, *pp_digest, *U2, *U2_pc, a);
                lemma_leaves_cong(
                    p,
                    self.poly_nsc.at(a),
                    rho.at(a),
                    r_b.at(a),
                    ch,
                    T_out_nsc.at(a),
                );
                lemma_leaves_cong(
                    p,
                    self.poly_pc.at(a),
                    rho.at(a),
                    r_b.at(a),
                    ch,
                    T_out_pc.at(a),
                );
                lemma_mod(p, r_b.at(a));
                lemma_cong_lerp(
                    p,
                    U1.u.at(a),
                    1,
                    r_b.at(a),
                    U1.u.at(a),
                    1,
                    ch.2,
                );
                lemma_cong_lerp(
                    p,
                    U1_pc.tau.at(a),
                    U2_pc.tau.at(a),
                    r_b.at(a),
                    U1_pc.tau.at(a),
                    U2_pc.tau.at(a),
                    ch.2,
                );
                lemma_lerp_seq_point(p, at_all(U1.X@, a), at_all(U2.X@, a), r_b.at(a), ch.2);
            }
            assert forall|a: Seq<int>| #[trigger]
                new_hold(p, s0, s7, a) implies self.verified_at(
                m,
                *pp_digest,
                *U1,
                *U1_pc,
                *U2,
                *U2_pc,
                out,
                a,
            ) by {
                assert(new_hold(p, s0, s6, a) && new_hold(p, s6, s7, a));
                assert(new_hold(p, s0, s5, a) && new_hold(p, s5, s6, a));
                assert(new_hold(p, s0, s4, a) && new_hold(p, s4, s5, a));
                assert(new_hold(p, s0, s3, a) && new_hold(p, s3, s4, a));
                assert(new_hold(p, s0, s2, a) && new_hold(p, s2, s3, a));
                assert(new_hold(p, s0, s1, a) && new_hold(p, s1, s2, a));
                let ch = self.challenges_at(m, *pp_digest, *U2, *U2_pc, a);
                lemma_sums_up_cong(p, self.poly_nsc.at(a), rho.at(a), ch.1, U1.T.at(a));
                lemma_sums_up_cong(
                    p,
                    self.poly_pc.at(a),
                    rho.at(a),
                    ch.1,
                    U1_pc.pc_sumcheck_claim.at(a),
                );
            }
            assert forall|a: Seq<int>| #[trigger] agrees(a, s7) implies self.folded_at(
                m,
                *pp_digest,
                *U1,
                *U1_pc,
                *U2,
                *U2_pc,
                out,
                a,
            ) by {
                assert(agrees(a, s6) && agrees(a, s5) && agrees(a, s4) && agrees(a, s3) && agrees(
                    a,
                    s2,
                ) && agrees(a, s1));
                assert(new_hold(p, s0, s1, a) && new_hold(p, s2, s3, a));
                assert(new_hold(p, s3, s4, a) && new_hold(p, s4, s5, a));
                assert(new_hold(p, s6, s7, a));
            }
            assert forall|a: Seq<int>| #[trigger]
                agrees(a, s7) && self.claims_hold(
                    a,
                    self.challenges_at(m, *pp_digest, *U2, *U2_pc, a).1,
                    U1.T.at(a),
                    U1_pc.pc_sumcheck_claim.at(a),
                ) implies new_hold(p, s0, s7, a) by {
                assert(agrees(a, s6) && agrees(a, s5) && agrees(a, s4) && agrees(a, s3) && agrees(
                    a,
                    s2,
                ) && agrees(a, s1));
                assert(new_hold(p, s0, s1, a) && new_hold(p, s2, s3, a));
                let ch = self.challenges_at(m, *pp_digest, *U2, *U2_pc, a);
                lemma_sums_up_cong(p, self.poly_nsc.at(a), rho.at(a), ch.1, U1.T.at(a));
                lemma_sums_up_cong(
                    p,
                    self.poly_pc.at(a),
                    rho.at(a),
                    ch.1,
                    U1_pc.pc_sumcheck_claim.at(a),
                );
                assert(new_hold(p, s1, s2, a));
                assert(new_hold(p, s3, s4, a));
                assert(new_hold(p, s4, s5, a));
                assert(new_hold(p, s5, s6, a));
                assert(new_hold(p, s6, s7, a));
            }
            if s0.witness {
                let a = s7.values();
                lemma_values_agree(s7);
                self.lemma_challenges_grow(m, *pp_digest, *U2, *U2_pc, s0, s7);
                assert(agrees(a, s6) && agrees(a, s5) && agrees(a, s4) && agrees(a, s3) && agrees(
                    a,
                    s1,
                ));
                assert(new_hold(p, s0, s1, a) && new_hold(p, s2, s3, a));
                lemma_eq_cong(
                    p,
                    rho.at(a),
                    r_b.at(a),
                    self.challenges_at(m, *pp_digest, *U2, *U2_pc, a),
                );
            }
        }
        Ok((folded_nsc, folded_pc, new_zc_pc))
    }

    /// The challenges under the witness do not change when the system grows.
    proof fn lemma_challenges_grow(
        self,
        m: PoseidonModel,
        pp_digest: AllocatedNum<E::Scalar>,
        U2: AllocatedNonnativeR1CSInstance<E>,
        U2_pc: AllocatedPowerCheckInstance<E>,
        s: CsModel,
        t: CsModel,
    )
        requires
            s.extended_by(t),
            self.wf(s),
            pp_digest.wf(s),
            U2.wf(s),
            U2_pc.wf(s),
        ensures
            self.challenges_at(m, pp_digest, U2, U2_pc, s.values()) == self.challenges_at(
                m,
                pp_digest,
                U2,
                U2_pc,
                t.values(),
            ),
    {
        U2.lemma_grow(s, t);
        U2_pc.lemma_grow(s, t);
        assert(all_wf(U2.elements(), s)) by {
            assert forall|i: int| 0 <= i < U2.elements().len() implies (#[trigger]
            U2.elements()[i]).wf(s) by {
                if i < 9 {
                    assert(U2.elements()[i] == U2.comm_W.elements()[i]);
                } else {
                    assert(U2.elements()[i] == U2.X@[i - 9]);
                }
            }
        }
        assert(all_wf(U2_pc.elements(), s)) by {
            assert forall|i: int| 0 <= i < U2_pc.elements().len() implies (#[trigger]
            U2_pc.elements()[i]).wf(s) by {
                if i < 9 {
                    assert(U2_pc.elements()[i] == U2_pc.comm_powers.elements()[i]);
                }
            }
        }
        lemma_values_grow(U2.elements(), s, t);
        lemma_values_grow(U2_pc.elements(), s, t);
        lemma_values_grow(self.comm_E.elements(), s, t);
        lemma_values_grow(self.poly_nsc.coeffs@, s, t);
        lemma_values_grow(self.poly_pc.coeffs@, s, t);
        assert(s.aux[pp_digest.variable.0->Aux_0 as int] == t.aux[pp_digest.variable.0->Aux_0 as int]);
    }
}

/// The values of the witness agree with it.
pub proof fn lemma_values_agree(cs: CsModel)
    requires
        cs.wf(),
        cs.witness,
    ensures
        agrees(cs.values(), cs),
{
    assert forall|i: int| 0 <= i < cs.aux.len() implies #[trigger] cs.aux[i] == Some(
        cs.values()[i],
    ) by {
        assert(cs.aux[i] is Some);
    }
}

/// Variables keep their values when the system grows.
pub proof fn lemma_values_grow<F: Field>(v: Seq<AllocatedNum<F>>, s: CsModel, t: CsModel)
    requires
        all_wf(v, s),
        s.extended_by(t),
    ensures
        at_all(v, s.values()) == at_all(v, t.values()),
{
    assert forall|i: int| 0 <= i < v.len() implies #[trigger] at_all(v, s.values())[i] == at_all(
        v,
        t.values(),
    )[i] by {
        assert(v[i].wf(s));
        let k = v[i].variable.0->Aux_0 as int;
        assert(s.aux[k] == t.aux[k]);
    }
    assert(at_all(v, s.values()) =~= at_all(v, t.values()));
}

/// The equality polynomial at congruent points.
proof fn lemma_eq_cong(p: int, rho: int, r_b: int, ch: (int, int, int))
    requires
        p > 1,
        rho % p == ch.1,
        r_b % p == ch.2,
    ensures
        eq_poly(rho, r_b) % p == eq_poly(ch.1, ch.2) % p,
{
    lemma_mod(p, rho);
    lemma_mod(p, r_b);
    lemma_cong_sub(p, 1, rho, 1, ch.1);
    lemma_cong_sub(p, 1, r_b, 1, ch.2);
    lemma_cong_mul(p, 1 - rho, 1 - r_b, 1 - ch.1, 1 - ch.2);
    lemma_cong_mul(p, rho, r_b, ch.1, ch.2);
    lemma_cong_add(
        p,
        (1 - rho) * (1 - r_b),
        rho * r_b,
        (1 - ch.1) * (1 - ch.2),
        ch.1 * ch.2,
    );
}

/// The sum-check identity at congruent challenges.
proof fn lemma_sums_up_cong(p: int, poly: Seq<int>, rho: int, rho2: int, claim: int)
    requires
        p > 1,
        rho % p == rho2,
    ensures
        sums_up(p, poly, rho, claim) <==> sums_up(p, poly, rho2, claim),
{
    lemma_mod(p, rho);
    lemma_cong_sub(p, 1, rho, 1, rho2);
    lemma_cong_mul(p, 1 - rho, claim, 1 - rho2, claim);
}

/// The claim that is left at congruent challenges.
proof fn lemma_leaves_cong(
    p: int,
    poly: Seq<int>,
    rho: int,
    r_b: int,
    ch: (int, int, int),
    out: int,
)
    requires
        p > 1,
        rho % p == ch.1,
        r_b % p == ch.2,
        leaves(p, poly, rho, r_b, out),
    ensures
        leaves(p, poly, ch.1, ch.2, out),
{
    lemma_eq_cong(p, rho, r_b, ch);
    lemma_mod(p, r_b);
    lemma_peval_cong(p, poly, poly, r_b, ch.2);
    lemma_cong_mul(p, out, eq_poly(rho, r_b), out, eq_poly(ch.1, ch.2));
}

/// Interpolation at congruent points.
proof fn lemma_lerp_seq_point(p: int, x: Seq<int>, y: Seq<int>, r: int, r2: int)
    requires
        p > 1,
        r % p == r2,
    ensures
        mod_seq(p, lerp_seq(x, y, r)) == mod_seq(p, lerp_seq(x, y, r2)),
{
    lemma_mod(p, r);
    let (u, v) = (lerp_seq(x, y, r), lerp_seq(x, y, r2));
    assert forall|i: int| 0 <= i < u.len() implies #[trigger] u[i] % p == v[i] % p by {
        lemma_cong_lerp(p, x[i], y[i], r, x[i], y[i], r2);
    }
    assert(mod_seq(p, u) =~= mod_seq(p, v));
}

/// The claim that a polynomial leaves in the circuit is the one that the verifier outside computes:
/// its value at the folding challenge, divided by the equality polynomial.
pub proof fn law_left_claim_is_quotient(p: int, poly: Seq<int>, rho: int, r_b: int, out: int)
    requires
        p > 1,
        invertible(p, eq_poly(rho, r_b)),
        leaves(p, poly, rho, r_b, out),
    ensures
        out % p == fdiv(p, peval(poly, r_b), eq_poly(rho, r_b)),
{
    let eq = eq_poly(rho, r_b);
    let inv = choose|v: int| #[trigger] fmul(p, eq, v) == 1;
    lemma_mod(p, out);
    lemma_cong_mul(p, out % p, eq, out, eq);
    lemma_fdiv(p, peval(poly, r_b), eq, inv, out % p);
}

} // verus!
