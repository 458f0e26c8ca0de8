//! Commitments inside a circuit whose native field is not that of their coordinates.
use vstd::prelude::*;
use crate::errors::SynthesisError;
use crate::field::{copy_vec, Field};
use crate::frontend::{agrees, lemma_chain, new_hold, ConstraintSystem, CsModel};
use crate::gadgets::{
    all_wf, alloc_bit, alloc_constant, alloc_zero, at_all, bit_row, digit, lemma_all_grow,
    lemma_recorded_residues, sit_from,
};
use crate::num::{complete, fresh, AllocatedNum};
use crate::ro_circuit::{lemma_complete_chain, PoseidonROCircuit};
use crate::traits::Engine;
use crate::transcript::limb_elements;
use crate::weight_table::mod_seq;

verus! {

/// A point: the limbs of both coordinates, and a flag for the identity. Only the flag is
/// constrained; the coordinates are taken as they come.
pub struct AllocatedNonnativePoint<E: Engine> {
    /// Limbs of the first coordinate.
    pub x: Vec<AllocatedNum<E::Scalar>>,
    /// Limbs of the second coordinate.
    pub y: Vec<AllocatedNum<E::Scalar>>,
    /// One for the identity, zero for every other point.
    pub is_infinity: AllocatedNum<E::Scalar>,
}

/// The coordinates of a point as they come out of the group, or those of the identity.
pub open spec fn coordinate_elements(c: Option<([u64; 4], [u64; 4], bool)>) -> Seq<int> {
    match c {
        Some(c) => limb_elements(c.0@) + limb_elements(c.1@) + seq![digit(c.2)],
        None => identity_elements(),
    }
}

/// The field elements that stand for the identity.
pub open spec fn identity_elements() -> Seq<int> {
    seq![0int, 0, 0, 0, 0, 0, 0, 0, 1]
}

impl<E: Engine> Clone for AllocatedNonnativePoint<E> {
    fn clone(&self) -> (r: Self)
        ensures
            r.elements() == self.elements(),
            forall|cs: CsModel| self.wf(cs) ==> #[trigger] r.wf(cs),
    {
        let x = copy_vec(&self.x);
        let y = copy_vec(&self.y);
        AllocatedNonnativePoint { x, y, is_infinity: self.is_infinity }
    }
}

/// Four variables with the given values.
fn alloc_limbs<F: Field>(cs: &mut ConstraintSystem<F>, l: [u64; 4]) -> (r: Vec<AllocatedNum<F>>)
    requires
        old(cs)@.wf(),
    ensures
        old(cs)@.extended_by(final(cs)@),
        final(cs)@.constraints == old(cs)@.constraints,
        final(cs)@.aux.len() == old(cs)@.aux.len() + 4,
        sit_from(r@, old(cs)@.aux.len() as int),
        r@.len() == 4,
        all_wf(r@, final(cs)@),
        forall|a: Seq<int>| #[trigger] agrees(a, final(cs)@) ==> at_all(r@, a) == limb_elements(l@),
{
    let mut r: Vec<AllocatedNum<F>> = Vec::new();
    let mut i: usize = 0;
    let ghost s0 = cs@;
    while i < 4
        invariant
            i <= 4,
            cs@.wf(),
            s0.extended_by(cs@),
            cs@.constraints == s0.constraints,
            cs@.aux.len() == s0.aux.len() + i,
            sit_from(r@, s0.aux.len() as int),
            r@.len() == i,
            all_wf(r@, cs@),
            s0.witness ==> forall|j: int|
                0 <= j < i ==> (#[trigger] r@[j]).value is Some && r@[j].value->0.val() == l@[j],
        decreases 4 - i,
    {
        let ghost s1 = cs@;
        let ghost before = r@;
        let n = fresh(cs, Some(F::from_u64(l[i])));
        r.push(n);
        proof {
            lemma_chain(F::modulus(), s0, s1, cs@);
            lemma_all_grow(before, s1, cs@);
        }
        i += 1;
    }
    proof {
        assert forall|a: Seq<int>| #[trigger] agrees(a, cs@) implies at_all(r@, a) == limb_elements(
            l@,
        ) by {
            assert forall|j: int| 0 <= j < 4 implies #[trigger] at_all(r@, a)[j] == l@[j] by {
                assert(r@[j].value is Some);
                r@[j].lemma_at(cs@, a);
            }
            assert(at_all(r@, a) =~= limb_elements(l@));
        }
    }
    r
}

/// Four variables that equal zero.
fn zero_limbs<F: Field>(cs: &mut ConstraintSystem<F>) -> (r: Vec<AllocatedNum<F>>)
    requires
        old(cs)@.wf(),
    ensures
        old(cs)@.extended_by(final(cs)@),
        final(cs)@.aux.len() == old(cs)@.aux.len() + 4,
        final(cs)@.constraints.len() == old(cs)@.constraints.len() + 4,
        sit_from(r@, old(cs)@.aux.len() as int),
        r@.len() == 4,
        all_wf(r@, final(cs)@),
        forall|a: Seq<int>| #[trigger]
            new_hold(F::modulus(), old(cs)@, final(cs)@, a) <==> mod_seq(
                F::modulus(),
                at_all(r@, a),
            ) == seq![0int, 0, 0, 0],
        complete(F::modulus(), old(cs)@, final(cs)@),
{
    let ghost p = F::modulus();
    let mut r: Vec<AllocatedNum<F>> = Vec::new();
    let mut i: usize = 0;
    let ghost s0 = cs@;
    while i < 4
        invariant
            i <= 4,
            p == F::modulus(),
            cs@.wf(),
            s0.extended_by(cs@),
            complete(p, s0, cs@),
            r@.len() == i,
            cs@.aux.len() == s0.aux.len() + i,
            cs@.constraints.len() == s0.constraints.len() + i,
            sit_from(r@, s0.aux.len() as int),
            all_wf(r@, cs@),
            forall|a: Seq<int>| #[trigger]
                new_hold(p, s0, cs@, a) <==> forall|j: int|
                    0 <= j < i ==> (#[trigger] r@[j]).at(a) % p == 0,
        decreases 4 - i,
    {
        let ghost s1 = cs@;
        let ghost before = r@;
        let n = alloc_zero(cs);
        r.push(n);
        proof {
            lemma_chain(p, s0, s1, cs@);
            lemma_complete_chain(p, s0, s1, cs@);
            lemma_all_grow(before, s1, cs@);
            assert forall|a: Seq<int>| #[trigger] new_hold(p, s0, cs@, a) <==> forall|j: int|
                0 <= j < i + 1 ==> (#[trigger] r@[j]).at(a) % p == 0 by {
                if forall|j: int| 0 <= j < i + 1 ==> (#[trigger] r@[j]).at(a) % p == 0 {
                    assert forall|j: int| 0 <= j < i implies (#[trigger] before[j]).at(a) % p
                        == 0 by {
                        assert(r@[j] == before[j]);
                    }
                    assert(r@[i as int] == n);
                }
                if new_hold(p, s0, cs@, a) {
                    assert forall|j: int| 0 <= j < i + 1 implies (#[trigger] r@[j]).at(a) % p
                        == 0 by {
                        if j < i {
                            assert(r@[j] == before[j]);
                        }
                    }
                }
            }
        }
        i += 1;
    }
    proof {
        assert forall|a: Seq<int>| #[trigger] new_hold(p, s0, cs@, a) <==> mod_seq(
            p,
            at_all(r@, a),
        ) == seq![0int, 0, 0, 0] by {
            let v = mod_seq(p, at_all(r@, a));
            if new_hold(p, s0, cs@, a) {
                assert forall|j: int| 0 <= j < 4 implies #[trigger] v[j] == 0 by {
                    assert(r@[j].at(a) % p == 0);
                }
                assert(v =~= seq![0int, 0, 0, 0]);
            }
            if v == seq![0int, 0, 0, 0] {
                assert forall|j: int| 0 <= j < 4 implies (#[trigger] r@[j]).at(a) % p == 0 by {
                    assert(v[j] == 0);
                }
            }
        }
    }
    r
}

impl<E: Engine> AllocatedNonnativePoint<E> {
    /// The variables in the order in which they are absorbed.
    pub open spec fn elements(self) -> Seq<AllocatedNum<E::Scalar>> {
        self.x@ + self.y@ + seq![self.is_infinity]
    }

    /// The variables are those of the system.
    pub open spec fn wf(self, cs: CsModel) -> bool {
        &&& self.x@.len() == 4
        &&& self.y@.len() == 4
        &&& all_wf(self.elements(), cs)
    }

    /// The values under an assignment.
    pub open spec fn at(self, a: Seq<int>) -> Seq<int> {
        at_all(self.elements(), a)
    }

    /// A new point with the given coordinates, or the identity where there are none.
    pub fn allocate(
        cs: &mut ConstraintSystem<E::Scalar>,
        coords: Option<([u64; 4], [u64; 4], bool)>,
    ) -> (r: Result<Self, SynthesisError>)
        requires
            old(cs)@.wf(),
        ensures
            r is Ok,
            old(cs)@.extended_by(final(cs)@),
            final(cs)@.aux.len() == old(cs)@.aux.len() + 9,
            final(cs)@.constraints.len() == old(cs)@.constraints.len() + 1,
            sit_from(r->Ok_0.elements(), old(cs)@.aux.len() as int),
            r->Ok_0.wf(final(cs)@),
            forall|a: Seq<int>| #[trigger]
                new_hold(E::Scalar::modulus(), old(cs)@, final(cs)@, a) <==> bit_row(
                    E::Scalar::modulus(),
                    r->Ok_0.is_infinity.at(a),
                ),
            forall|a: Seq<int>| #[trigger]
                agrees(a, final(cs)@) ==> r->Ok_0.at(a) == coordinate_elements(coords),
            complete(E::Scalar::modulus(), old(cs)@, final(cs)@),
    {
        let ghost p = E::Scalar::modulus();
        let ghost s0 = cs@;
        let (x, y, infinity) = match coords {
            Some(c) => c,
            None => ([0u64; 4], [0u64; 4], true),
        };
        let x_nums = alloc_limbs(cs, x);
        let ghost s1 = cs@;
        let y_nums = alloc_limbs(cs, y);
        let ghost s2 = cs@;
        let is_infinity = alloc_bit(cs, Some(infinity));
        let r: Self = AllocatedNonnativePoint { x: x_nums, y: y_nums, is_infinity };
        proof {
            lemma_chain(p, s0, s1, s2);
            lemma_chain(p, s0, s2, cs@);
            lemma_chain(p, s1, s2, cs@);
            lemma_complete_chain(p, s0, s2, cs@);
            lemma_all_grow(r.x@, s1, cs@);
            lemma_all_grow(r.y@, s2, cs@);
            assert forall|i: int| 0 <= i < r.elements().len() implies (#[trigger]
            r.elements()[i]).wf(cs@) && r.elements()[i].sits(s0.aux.len() + i) by {
                if i < 4 {
                    assert(r.elements()[i] == r.x@[i]);
                } else if i < 8 {
                    assert(r.elements()[i] == r.y@[i - 4]);
                    assert(r.y@[i - 4].sits(s1.aux.len() + (i - 4)));
                }
            }
            assert forall|a: Seq<int>| #[trigger] new_hold(p, s0, cs@, a) <==> bit_row(
                p,
                r.is_infinity.at(a),
            ) by {
                assert(new_hold(p, s0, s2, a));
            }
            assert forall|a: Seq<int>| #[trigger] agrees(a, cs@) implies r.at(a)
                == coordinate_elements(coords) by {
                assert(agrees(a, s2) && agrees(a, s1));
                r.is_infinity.lemma_at(cs@, a);
                assert(at_all(r.x@, a) == limb_elements(x@));
                assert(at_all(r.y@, a) == limb_elements(y@));
                assert(r.at(a) =~= at_all(r.x@, a) + at_all(r.y@, a) + seq![r.is_infinity.at(a)]);
                assert(r.at(a) =~= limb_elements(x@) + limb_elements(y@) + seq![digit(infinity)]);
                if coords is None {
                    assert(r.at(a) =~= identity_elements());
                }
            }
        }
        Ok(r)
    }

    /// The identity. It has the values of a new point without coordinates, and they are demanded.
    pub fn default(cs: &mut ConstraintSystem<E::Scalar>) -> (r: Result<Self, SynthesisError>)
        requires
            old(cs)@.wf(),
        ensures
            r is Ok,
            old(cs)@.extended_by(final(cs)@),
            final(cs)@.aux.len() == old(cs)@.aux.len() + 9,
            final(cs)@.constraints.len() == old(cs)@.constraints.len() + 9,
            sit_from(r->Ok_0.elements(), old(cs)@.aux.len() as int),
            r->Ok_0.wf(final(cs)@),
            forall|a: Seq<int>| #[trigger]
                new_hold(E::Scalar::modulus(), old(cs)@, final(cs)@, a) <==> mod_seq(
                    E::Scalar::modulus(),
                    r->Ok_0.at(a),
                ) == identity_elements(),
            forall|a: Seq<int>| #[trigger]
                agrees(a, final(cs)@) ==> r->Ok_0.at(a) == coordinate_elements(None),
            complete(E::Scalar::modulus(), old(cs)@, final(cs)@),
    {
        let ghost p = E::Scalar::modulus();
        let ghost s0 = cs@;
        let x = zero_limbs(cs);
        let ghost s1 = cs@;
        let y = zero_limbs(cs);
        let ghost s2 = cs@;
        let is_infinity = alloc_constant(cs, E::Scalar::one());
        let r: Self = AllocatedNonnativePoint { x, y, is_infinity };
        proof {
            lemma_chain(p, s0, s1, s2);
            lemma_chain(p, s0, s2, cs@);
            lemma_chain(p, s1, s2, cs@);
            lemma_complete_chain(p, s0, s1, s2);
            lemma_complete_chain(p, s0, s2, cs@);
            lemma_all_grow(r.x@, s1, cs@);
            lemma_all_grow(r.y@, s2, cs@);
            assert forall|i: int| 0 <= i < r.elements().len() implies (#[trigger]
            r.elements()[i]).wf(cs@) && r.elements()[i].sits(s0.aux.len() + i) by {
                if i < 4 {
                    assert(r.elements()[i] == r.x@[i]);
                } else if i < 8 {
                    assert(r.elements()[i] == r.y@[i - 4]);
                    assert(r.y@[i - 4].sits(s1.aux.len() + (i - 4)));
                }
            }
            assert forall|a: Seq<int>| #[trigger] new_hold(p, s0, cs@, a) <==> mod_seq(p, r.at(a))
                == identity_elements() by {
                assert(new_hold(p, s0, cs@, a) <==> new_hold(p, s0, s2, a) && new_hold(
                    p,
                    s2,
                    cs@,
                    a,
                ));
                assert(new_hold(p, s0, s2, a) <==> new_hold(p, s0, s1, a) && new_hold(
                    p,
                    s1,
                    s2,
                    a,
                ));
                let (u, v) = (mod_seq(p, at_all(r.x@, a)), mod_seq(p, at_all(r.y@, a)));
                let all = mod_seq(p, r.at(a));
                assert(all =~= u + v + seq![r.is_infinity.at(a) % p]);
                if new_hold(p, s0, cs@, a) {
                    assert(all =~= identity_elements());
                }
                if all == identity_elements() {
                    assert(u =~= all.subrange(0, 4));
                    assert(u =~= seq![0int, 0, 0, 0]);
                    assert(v =~= all.subrange(4, 8));
                    assert(v =~= seq![0int, 0, 0, 0]);
                    assert(all[8] == r.is_infinity.at(a) % p);
                }
            }
            assert forall|a: Seq<int>| #[trigger] agrees(a, cs@) implies r.at(a)
                == coordinate_elements(None) by {
                assert(new_hold(p, s0, cs@, a));
                lemma_recorded_residues(r.elements(), cs@, a, identity_elements());
            }
        }
        Ok(r)
    }

    /// Absorbs the point.
    pub fn absorb_in_ro(&self, ro: &mut PoseidonROCircuit<E::Scalar>)
        ensures
            final(ro)@ == old(ro)@ + self.elements(),
            final(ro).params() == old(ro).params(),
            final(ro).wf() == old(ro).wf(),
    {
        ro.absorb_all(&self.x);
        ro.absorb_all(&self.y);
        ro.absorb(&self.is_infinity);
        assert(ro@ =~= old(ro)@ + self.elements());
    }

    /// What is known of a point stays true when the system grows.
    pub proof fn lemma_grow(self, s: CsModel, t: CsModel)
        requires
            self.wf(s),
            s.extended_by(t),
        ensures
            self.wf(t),
    {
        lemma_all_grow(self.elements(), s, t);
    }
}

} // verus!
