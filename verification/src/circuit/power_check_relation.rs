//! Instances of the power check inside a circuit.
use vstd::prelude::*;
use crate::arith::lerp;
use crate::circuit::point::{identity_elements, AllocatedNonnativePoint};
use crate::circuit::relation::{fold_num, lemma_coordinates};
use crate::errors::SynthesisError;
use crate::field::Field;
use crate::frontend::{agrees, lemma_chain, new_hold, ConstraintSystem, CsModel};
use crate::gadgets::{
    all_wf, alloc_zero, at_all, bit_row, lemma_recorded_residues, sit_from,
};
use crate::num::{complete, AllocatedNum};
use crate::power_check_relation::{FoldedPowerCheckInstance, PowerCheckInstance};
use crate::ro_circuit::{lemma_complete_chain, PoseidonROCircuit};
use crate::traits::{Engine, Group};
use crate::transcript::point_elements;
use crate::weight_table::mod_seq;

verus! {

/// A fresh instance: the power check that is left for the next fold.
pub struct AllocatedPowerCheckInstance<E: Engine> {
    /// Commitment to the table.
    pub comm_powers: AllocatedNonnativePoint<E>,
    /// The scalar that the table holds the powers of.
    pub tau: AllocatedNum<E::Scalar>,
}

/// The field elements that stand for a fresh instance, or for the zero instance.
pub open spec fn fresh_elements<E: Engine>(inst: Option<&PowerCheckInstance<E>>) -> Seq<int> {
    match inst {
        Some(i) => point_elements(i.comm_powers.coords()) + seq![i.tau.val()],
        None => identity_elements() + seq![0int],
    }
}

impl<E: Engine> Clone for AllocatedPowerCheckInstance<E> {
    fn clone(&self) -> (r: Self)
        ensures
            r.elements() == self.elements(),
            forall|cs: CsModel| self.wf(cs) ==> #[trigger] r.wf(cs),
    {
        AllocatedPowerCheckInstance { comm_powers: self.comm_powers.clone(), tau: self.tau }
    }
}

impl<E: Engine> AllocatedPowerCheckInstance<E> {
    /// The variables in the order in which they are absorbed.
    pub open spec fn elements(self) -> Seq<AllocatedNum<E::Scalar>> {
        self.comm_powers.elements() + seq![self.tau]
    }

    /// The variables are those of the system.
    pub open spec fn wf(self, cs: CsModel) -> bool {
        self.comm_powers.wf(cs) && self.tau.wf(cs)
    }

    /// What is known of an instance stays true when the system grows.
    pub proof fn lemma_grow(self, s: CsModel, t: CsModel)
        requires
            self.wf(s),
            s.extended_by(t),
        ensures
            self.wf(t),
            all_wf(self.elements(), t),
    {
        self.comm_powers.lemma_grow(s, t);
        self.tau.lemma_grow(s, t);
        assert forall|i: int| 0 <= i < self.elements().len() implies (#[trigger]
        self.elements()[i]).wf(t) by {
            if i < 9 {
                assert(self.elements()[i] == self.comm_powers.elements()[i]);
            }
        }
    }

    /// A new instance, zero where none is given.
    pub fn allocate(
        cs: &mut ConstraintSystem<E::Scalar>,
        inst: Option<&PowerCheckInstance<E>>,
    ) -> (r: Result<Self, SynthesisError>)
        requires
            old(cs)@.wf(),
        ensures
            r is Ok,
            old(cs)@.extended_by(final(cs)@),
            final(cs)@.aux.len() == old(cs)@.aux.len() + 10,
            final(cs)@.constraints.len() == old(cs)@.constraints.len() + 1,
            sit_from(r->Ok_0.elements(), old(cs)@.aux.len() as int),
            r->Ok_0.wf(final(cs)@),
            forall|a: Seq<int>| #[trigger]
                new_hold(E::Scalar::modulus(), old(cs)@, final(cs)@, a) <==> bit_row(
                    E::Scalar::modulus(),
                    r->Ok_0.comm_powers.is_infinity.at(a),
                ),
            forall|a: Seq<int>| #[trigger]
                agrees(a, final(cs)@) ==> at_all(r->Ok_0.elements(), a) == fresh_elements(inst),
            complete(E::Scalar::modulus(), old(cs)@, final(cs)@),
    {
        let ghost p = E::Scalar::modulus();
        let ghost s0 = cs@;
        let (coords, tau_value) = match inst {
            Some(i) => (Some(i.comm_powers.to_coordinates()), i.tau),
            None => (None, E::Scalar::zero()),
        };
        let comm_powers = match AllocatedNonnativePoint::<E>::allocate(cs, coords) {
            Ok(c) => c,
            Err(e) => {
                return Err(e);
            },
        };
        let ghost s1 = cs@;
        let tau = match AllocatedNum::allocate(cs, Ok(tau_value)) {
            Ok(t) => t,
            Err(e) => {
                return Err(e);
            },
        };
        let r: Self = AllocatedPowerCheckInstance { comm_powers, tau };
        proof {
            lemma_chain(p, s0, s1, cs@);
            assert(complete(p, s1, cs@)) by {
                assert forall|a: Seq<int>| #[trigger] agrees(a, cs@) implies new_hold(
                    p,
                    s1,
                    cs@,
                    a,
                ) by {}
            }
            lemma_complete_chain(p, s0, s1, cs@);
            r.comm_powers.lemma_grow(s1, cs@);
            assert forall|i: int| 0 <= i < r.elements().len() implies (#[trigger]
            r.elements()[i]).sits(s0.aux.len() + i) by {
                if i < 9 {
                    assert(r.elements()[i] == r.comm_powers.elements()[i]);
                }
            }
            assert forall|a: Seq<int>| #[trigger] new_hold(p, s0, cs@, a) <==> bit_row(
                p,
                r.comm_powers.is_infinity.at(a),
            ) by {
                assert(new_hold(p, s1, cs@, a));
            }
            assert forall|a: Seq<int>| #[trigger] agrees(a, cs@) implies at_all(r.elements(), a)
                == fresh_elements(inst) by {
                assert(agrees(a, s1));
                r.tau.lemma_at(cs@, a);
                assert(at_all(r.elements(), a) =~= r.comm_powers.at(a) + seq![r.tau.at(a)]);
                if inst is Some {
                    lemma_coordinates::<E>(inst->0.comm_powers, coords->0);
                }
            }
        }
        Ok(r)
    }

    /// Absorbs the instance.
    pub fn absorb_in_ro(
        &self,
        cs: &mut ConstraintSystem<E::Scalar>,
        ro: &mut PoseidonROCircuit<E::Scalar>,
    ) -> (r: Result<(), SynthesisError>)
        ensures
            r is Ok,
            *final(cs) == *old(cs),
            final(ro)@ == old(ro)@ + self.elements(),
            final(ro).params() == old(ro).params(),
            final(ro).wf() == old(ro).wf(),
    {
        self.comm_powers.absorb_in_ro(ro);
        ro.absorb(&self.tau);
        assert(ro@ =~= old(ro)@ + self.elements());
        Ok(())
    }
}

/// A folded instance.
pub struct AllocatedFoldedPowerCheckInstance<E: Engine> {
    /// The claimed value of the weighted sum of residuals.
    pub pc_sumcheck_claim: AllocatedNum<E::Scalar>,
    /// Commitment to the table that is checked.
    pub comm_witness: AllocatedNonnativePoint<E>,
    /// Commitment to the weights.
    pub comm_weights: AllocatedNonnativePoint<E>,
    /// The folded scalar.
    pub tau: AllocatedNum<E::Scalar>,
}

/// The field elements that stand for a folded instance, or for the zero instance.
pub open spec fn folded_elements<E: Engine>(inst: Option<&FoldedPowerCheckInstance<E>>) -> Seq<int> {
    match inst {
        Some(i) => seq![i.pc_sumcheck_claim.val()] + point_elements(i.comm_witness.coords())
            + point_elements(i.comm_weights.coords()) + seq![i.tau.val()],
        None => zero_elements(),
    }
}

/// The field elements that stand for the zero instance.
pub open spec fn zero_elements() -> Seq<int> {
    seq![0int] + identity_elements() + identity_elements() + seq![0int]
}

impl<E: Engine> Clone for AllocatedFoldedPowerCheckInstance<E> {
    fn clone(&self) -> (r: Self)
        ensures
            r.elements() == self.elements(),
            forall|cs: CsModel| self.wf(cs) ==> #[trigger] r.wf(cs),
    {
        AllocatedFoldedPowerCheckInstance {
            pc_sumcheck_claim: self.pc_sumcheck_claim,
            comm_witness: self.comm_witness.clone(),
            comm_weights: self.comm_weights.clone(),
            tau: self.tau,
        }
    }
}

impl<E: Engine> AllocatedFoldedPowerCheckInstance<E> {
    /// The variables in the order in which they are absorbed.
    pub open spec fn elements(self) -> Seq<AllocatedNum<E::Scalar>> {
        seq![self.pc_sumcheck_claim] + self.comm_witness.elements() + self.comm_weights.elements()
            + seq![self.tau]
    }

    /// The variables are those of the system.
    pub open spec fn wf(self, cs: CsModel) -> bool {
        &&& self.pc_sumcheck_claim.wf(cs)
        &&& self.comm_witness.wf(cs)
        &&& self.comm_weights.wf(cs)
        &&& self.tau.wf(cs)
    }

    /// What is known of an instance stays true when the system grows.
    pub proof fn lemma_grow(self, s: CsModel, t: CsModel)
        requires
            self.wf(s),
            s.extended_by(t),
        ensures
            self.wf(t),
    {
        self.pc_sumcheck_claim.lemma_grow(s, t);
        self.comm_witness.lemma_grow(s, t);
        self.comm_weights.lemma_grow(s, t);
        self.tau.lemma_grow(s, t);
    }

    /// Variables that sit part by part sit in a row.
    proof fn lemma_sits(self, n: int)
        requires
            self.comm_witness.elements().len() == 9,
            self.comm_weights.elements().len() == 9,
            self.pc_sumcheck_claim.sits(n),
            sit_from(self.comm_witness.elements(), n + 1),
            sit_from(self.comm_weights.elements(), n + 10),
            self.tau.sits(n + 19),
        ensures
            sit_from(self.elements(), n),
    {
        let e = self.elements();
        assert forall|i: int| 0 <= i < e.len() implies (#[trigger] e[i]).sits(n + i) by {
            if 1 <= i < 10 {
                assert(e[i] == self.comm_witness.elements()[i - 1]);
                assert(self.comm_witness.elements()[i - 1].sits(n + 1 + (i - 1)));
            } else if 10 <= i < 19 {
                assert(e[i] == self.comm_weights.elements()[i - 10]);
                assert(self.comm_weights.elements()[i - 10].sits(n + 10 + (i - 10)));
            }
        }
    }

    /// The values of the variables, part by part.
    proof fn lemma_at_all(self, a: Seq<int>)
        ensures
            at_all(self.elements(), a) == seq![self.pc_sumcheck_claim.at(a)] + self.comm_witness.at(
                a,
            ) + self.comm_weights.at(a) + seq![self.tau.at(a)],
    {
        assert(at_all(self.elements(), a) =~= seq![self.pc_sumcheck_claim.at(a)]
            + self.comm_witness.at(a) + self.comm_weights.at(a) + seq![self.tau.at(a)]);
    }

    /// A new instance, zero where none is given.
    pub fn allocate(
        cs: &mut ConstraintSystem<E::Scalar>,
        inst: Option<&FoldedPowerCheckInstance<E>>,
    ) -> (r: Result<Self, SynthesisError>)
        requires
            old(cs)@.wf(),
        ensures
            r is Ok,
            old(cs)@.extended_by(final(cs)@),
            final(cs)@.aux.len() == old(cs)@.aux.len() + 20,
            final(cs)@.constraints.len() == old(cs)@.constraints.len() + 2,
            sit_from(r->Ok_0.elements(), old(cs)@.aux.len() as int),
            r->Ok_0.wf(final(cs)@),
            forall|a: Seq<int>| #[trigger]
                new_hold(E::Scalar::modulus(), old(cs)@, final(cs)@, a) <==> bit_row(
                    E::Scalar::modulus(),
                    r->Ok_0.comm_witness.is_infinity.at(a),
                ) && bit_row(E::Scalar::modulus(), r->Ok_0.comm_weights.is_infinity.at(a)),
            forall|a: Seq<int>| #[trigger]
                agrees(a, final(cs)@) ==> at_all(r->Ok_0.elements(), a) == folded_elements(inst),
            complete(E::Scalar::modulus(), old(cs)@, final(cs)@),
    {
        let ghost p = E::Scalar::modulus();
        let ghost s0 = cs@;
        let (claim, witness_coords, weights_coords, tau_value) = match inst {
            Some(i) => (
                i.pc_sumcheck_claim,
                Some(i.comm_witness.to_coordinates()),
                Some(i.comm_weights.to_coordinates()),
                i.tau,
            ),
            None => (E::Scalar::zero(), None, None, E::Scalar::zero()),
        };
        let pc_sumcheck_claim = match AllocatedNum::allocate(cs, Ok(claim)) {
            Ok(t) => t,
            Err(e) => {
                return Err(e);
            },
        };
        let ghost s1 = cs@;
        let comm_witness = match AllocatedNonnativePoint::<E>::allocate(cs, witness_coords) {
            Ok(c) => c,
            Err(e) => {
                return Err(e);
            },
        };
        let ghost s2 = cs@;
        let comm_weights = match AllocatedNonnativePoint::<E>::allocate(cs, weights_coords) {
            Ok(c) => c,
            Err(e) => {
                return Err(e);
            },
        };
        let ghost s3 = cs@;
        let tau = match AllocatedNum::allocate(cs, Ok(tau_value)) {
            Ok(t) => t,
            Err(e) => {
                return Err(e);
            },
        };
        let r: Self = AllocatedFoldedPowerCheckInstance {
            pc_sumcheck_claim,
            comm_witness,
            comm_weights,
            tau,
        };
        proof {
            lemma_chain(p, s0, s1, s2);
            lemma_chain(p, s0, s2, s3);
            lemma_chain(p, s0, s3, cs@);
            lemma_chain(p, s1, s2, s3);
            lemma_chain(p, s1, s3, cs@);
            lemma_chain(p, s2, s3, cs@);
            assert(complete(p, s0, s1)) by {
                assert forall|a: Seq<int>| #[trigger] agrees(a, s1) implies new_hold(
                    p,
                    s0,
                    s1,
                    a,
                ) by {}
            }
            assert(complete(p, s3, cs@)) by {
                assert forall|a: Seq<int>| #[trigger] agrees(a, cs@) implies new_hold(
                    p,
                    s3,
                    cs@,
                    a,
                ) by {}
            }
            lemma_complete_chain(p, s0, s1, s2);
            lemma_complete_chain(p, s0, s2, s3);
            lemma_complete_chain(p, s0, s3, cs@);
            r.pc_sumcheck_claim.lemma_grow(s1, cs@);
            r.comm_witness.lemma_grow(s2, cs@);
            r.comm_weights.lemma_grow(s3, cs@);
            r.lemma_sits(s0.aux.len() as int);
            assert forall|a: Seq<int>| #[trigger] new_hold(p, s0, cs@, a) <==> bit_row(
                p,
                r.comm_witness.is_infinity.at(a),
            ) && bit_row(p, r.comm_weights.is_infinity.at(a)) by {
                assert(new_hold(p, s3, cs@, a) && new_hold(p, s0, s1, a));
                assert(new_hold(p, s0, s3, a) <==> new_hold(p, s0, s2, a) && new_hold(
                    p,
                    s2,
                    s3,
                    a,
                ));
                assert(new_hold(p, s0, s2, a) <==> new_hold(p, s0, s1, a) && new_hold(
                    p,
                    s1,
                    s2,
                    a,
                ));
            }
            assert forall|a: Seq<int>| #[trigger] agrees(a, cs@) implies at_all(r.elements(), a)
                == folded_elements(inst) by {
                assert(agrees(a, s3) && agrees(a, s2));
                r.pc_sumcheck_claim.lemma_at(cs@, a);
                r.tau.lemma_at(cs@, a);
                r.lemma_at_all(a);
                if inst is Some {
                    lemma_coordinates::<E>(inst->0.comm_witness, witness_coords->0);
                    lemma_coordinates::<E>(inst->0.comm_weights, weights_coords->0);
                }
            }
        }
        Ok(r)
    }

    /// The zero instance. It has the values of a new instance without values, and they are demanded.
    pub fn default(cs: &mut ConstraintSystem<E::Scalar>) -> (r: Result<Self, SynthesisError>)
        requires
            old(cs)@.wf(),
        ensures
            r is Ok,
            old(cs)@.extended_by(final(cs)@),
            final(cs)@.aux.len() == old(cs)@.aux.len() + 20,
            final(cs)@.constraints.len() == old(cs)@.constraints.len() + 20,
            sit_from(r->Ok_0.elements(), old(cs)@.aux.len() as int),
            r->Ok_0.wf(final(cs)@),
            forall|a: Seq<int>| #[trigger]
                new_hold(E::Scalar::modulus(), old(cs)@, final(cs)@, a) <==> mod_seq(
                    E::Scalar::modulus(),
                    at_all(r->Ok_0.elements(), a),
                ) == zero_elements(),
            forall|a: Seq<int>| #[trigger]
                agrees(a, final(cs)@) ==> at_all(r->Ok_0.elements(), a) == folded_elements::<E>(
                    None,
                ),
            complete(E::Scalar::modulus(), old(cs)@, final(cs)@),
    {
        let ghost p = E::Scalar::modulus();
        let ghost s0 = cs@;
        let pc_sumcheck_claim = alloc_zero(cs);
        let ghost s1 = cs@;
        let comm_witness = match AllocatedNonnativePoint::<E>::default(cs) {
            Ok(c) => c,
            Err(e) => {
                return Err(e);
            },
        };
        let ghost s2 = cs@;
        let comm_weights = match AllocatedNonnativePoint::<E>::default(cs) {
            Ok(c) => c,
            Err(e) => {
                return Err(e);
            },
        };
        let ghost s3 = cs@;
        let tau = alloc_zero(cs);
        let r: Self = AllocatedFoldedPowerCheckInstance {
            pc_sumcheck_claim,
            comm_witness,
            comm_weights,
            tau,
        };
        proof {
            lemma_chain(p, s0, s1, s2);
            lemma_chain(p, s0, s2, s3);
            lemma_chain(p, s0, s3, cs@);
            lemma_chain(p, s1, s2, s3);
            lemma_chain(p, s1, s3, cs@);
            lemma_chain(p, s2, s3, cs@);
            lemma_complete_chain(p, s0, s1, s2);
            lemma_complete_chain(p, s0, s2, s3);
            lemma_complete_chain(p, s0, s3, cs@);
            r.pc_sumcheck_claim.lemma_grow(s1, cs@);
            r.comm_witness.lemma_grow(s2, cs@);
            r.comm_weights.lemma_grow(s3, cs@);
            r.lemma_sits(s0.aux.len() as int);
            assert forall|a: Seq<int>| #[trigger] new_hold(p, s0, cs@, a) <==> mod_seq(
                p,
                at_all(r.elements(), a),
            ) == zero_elements() by {
                assert(new_hold(p, s0, cs@, a) <==> new_hold(p, s0, s3, a) && new_hold(
                    p,
                    s3,
                    cs@,
                    a,
                ));
                assert(new_hold(p, s0, s3, a) <==> new_hold(p, s0, s2, a) && new_hold(
                    p,
                    s2,
                    s3,
                    a,
                ));
                assert(new_hold(p, s0, s2, a) <==> new_hold(p, s0, s1, a) && new_hold(
                    p,
                    s1,
                    s2,
                    a,
                ));
                r.lemma_at_all(a);
                let (u, v) = (mod_seq(p, r.comm_witness.at(a)), mod_seq(p, r.comm_weights.at(a)));
                let all = mod_seq(p, at_all(r.elements(), a));
                assert(all =~= seq![r.pc_sumcheck_claim.at(a) % p] + u + v + seq![
                    r.tau.at(a) % p,
                ]);
                if all == zero_elements() {
                    assert(all[0] == r.pc_sumcheck_claim.at(a) % p);
                    assert(all[19] == r.tau.at(a) % p);
                    assert(u =~= all.subrange(1, 10));
                    assert(u =~= identity_elements());
                    assert(v =~= all.subrange(10, 19));
                    assert(v =~= identity_elements());
                }
            }
            assert forall|a: Seq<int>| #[trigger] agrees(a, cs@) implies at_all(r.elements(), a)
                == folded_elements::<E>(None) by {
                assert(new_hold(p, s0, cs@, a));
                assert forall|i: int| 0 <= i < r.elements().len() implies (#[trigger]
                r.elements()[i]).wf(cs@) by {
                    if 1 <= i < 10 {
                        assert(r.elements()[i] == r.comm_witness.elements()[i - 1]);
                    } else if 10 <= i < 19 {
                        assert(r.elements()[i] == r.comm_weights.elements()[i - 10]);
                    }
                }
                lemma_recorded_residues(r.elements(), cs@, a, zero_elements());
            }
        }
        Ok(r)
    }

    /// Absorbs the instance.
    pub fn absorb_in_ro(
        &self,
        cs: &mut ConstraintSystem<E::Scalar>,
        ro: &mut PoseidonROCircuit<E::Scalar>,
    ) -> (r: Result<(), SynthesisError>)
        ensures
            r is Ok,
            *final(cs) == *old(cs),
            final(ro)@ == old(ro)@ + self.elements(),
            final(ro).params() == old(ro).params(),
            final(ro).wf() == old(ro).wf(),
    {
        ro.absorb(&self.pc_sumcheck_claim);
        self.comm_witness.absorb_in_ro(ro);
        self.comm_weights.absorb_in_ro(ro);
        ro.absorb(&self.tau);
        assert(ro@ =~= old(ro)@ + self.elements());
        Ok(())
    }

    /// A fresh instance as a folded one. The claim of a fresh instance is zero, and the commitment
    /// to the weights is that of the main relation.
    pub fn from_fresh_zc_pc(
        zc_pc: &AllocatedPowerCheckInstance<E>,
        comm_E: &AllocatedNonnativePoint<E>,
        zero_claim: &AllocatedNum<E::Scalar>,
    ) -> (r: Self)
        ensures
            r.elements() == seq![*zero_claim] + zc_pc.comm_powers.elements() + comm_E.elements()
                + seq![zc_pc.tau],
            r.pc_sumcheck_claim == *zero_claim,
            r.comm_witness.elements() == zc_pc.comm_powers.elements(),
            r.comm_weights.elements() == comm_E.elements(),
            r.tau == zc_pc.tau,
            forall|cs: CsModel|
                zero_claim.wf(cs) && zc_pc.wf(cs) && comm_E.wf(cs) ==> #[trigger] r.wf(cs),
    {
        AllocatedFoldedPowerCheckInstance {
            pc_sumcheck_claim: *zero_claim,
            comm_witness: zc_pc.comm_powers.clone(),
            comm_weights: comm_E.clone(),
            tau: zc_pc.tau,
        }
    }

    /// Folds another instance into this one. The scalar is constrained, by one new variable and one
    /// new constraint; the claim and the commitments are passed through.
    pub fn fold(
        &self,
        cs: &mut ConstraintSystem<E::Scalar>,
        other: &Self,
        r_b: &AllocatedNum<E::Scalar>,
        T_out_pc: &AllocatedNum<E::Scalar>,
        comm_witness_fold: &AllocatedNonnativePoint<E>,
        comm_weights_fold: &AllocatedNonnativePoint<E>,
    ) -> (r: Result<Self, SynthesisError>)
        requires
            old(cs)@.wf(),
            self.wf(old(cs)@),
            other.wf(old(cs)@),
            r_b.wf(old(cs)@),
            T_out_pc.wf(old(cs)@),
            comm_witness_fold.wf(old(cs)@),
            comm_weights_fold.wf(old(cs)@),
        ensures
            r is Ok,
            old(cs)@.extended_by(final(cs)@),
            final(cs)@.aux.len() == old(cs)@.aux.len() + 1,
            final(cs)@.constraints.len() == old(cs)@.constraints.len() + 1,
            r->Ok_0.wf(final(cs)@),
            r->Ok_0.pc_sumcheck_claim == *T_out_pc,
            r->Ok_0.comm_witness.elements() == comm_witness_fold.elements(),
            r->Ok_0.comm_weights.elements() == comm_weights_fold.elements(),
            r->Ok_0.tau.sits(old(cs)@.aux.len() as int),
            forall|a: Seq<int>| #[trigger]
                new_hold(E::Scalar::modulus(), old(cs)@, final(cs)@, a) <==> r->Ok_0.tau.at(a)
                    % E::Scalar::modulus() == lerp(self.tau.at(a), other.tau.at(a), r_b.at(a))
                    % E::Scalar::modulus(),
            complete(E::Scalar::modulus(), old(cs)@, final(cs)@),
    {
        let tau_fold = fold_num(cs, &self.tau, &other.tau, r_b);
        proof {
            T_out_pc.lemma_grow(old(cs)@, cs@);
            comm_witness_fold.lemma_grow(old(cs)@, cs@);
            comm_weights_fold.lemma_grow(old(cs)@, cs@);
        }
        Ok(
            AllocatedFoldedPowerCheckInstance {
                pc_sumcheck_claim: *T_out_pc,
                comm_witness: comm_witness_fold.clone(),
                comm_weights: comm_weights_fold.clone(),
                tau: tau_fold,
            },
        )
    }
}

} // verus!
