//! What goes into the random oracle.
use vstd::prelude::*;
use crate::field::{vals, Field};
use crate::r1cs::R1CSInstance;
use crate::ro::PoseidonRO;
use crate::traits::{Engine, Group};
use crate::univariate::UniPoly;

verus! {

/// The limbs of a coordinate as field elements.
pub open spec fn limb_elements(l: Seq<u64>) -> Seq<int> {
    Seq::new(l.len(), |i: int| l[i] as int)
}

/// The field elements that stand for a point: the limbs of both coordinates, then one for the
/// identity and zero for every other point.
pub open spec fn point_elements(c: (Seq<u64>, Seq<u64>)) -> Seq<int> {
    limb_elements(c.0) + limb_elements(c.1) + seq![
        if crate::traits::all_zero(c) {
            1int
        } else {
            0int
        },
    ]
}

/// Values that a random oracle absorbs.
pub trait AbsorbInRO2Trait<E: Engine> {
    /// The field elements that stand for the value.
    spec fn elements(&self) -> Seq<int>;

    /// Absorbs the value.
    fn absorb_in_ro2(&self, ro: &mut PoseidonRO<E::Scalar>)
        ensures
            final(ro)@ == old(ro)@ + self.elements(),
            final(ro).params() == old(ro).params(),
            final(ro).wf() == old(ro).wf(),
    ;
}

/// Absorbs four limbs.
fn absorb_limbs<F: Field>(l: &[u64; 4], ro: &mut PoseidonRO<F>)
    ensures
        final(ro)@ == old(ro)@ + limb_elements(l@),
        final(ro).params() == old(ro).params(),
        final(ro).wf() == old(ro).wf(),
{
    ro.absorb(F::from_u64(l[0]));
    ro.absorb(F::from_u64(l[1]));
    ro.absorb(F::from_u64(l[2]));
    ro.absorb(F::from_u64(l[3]));
    assert(ro@ =~= old(ro)@ + limb_elements(l@));
}

/// Absorbs a commitment.
pub fn absorb_commitment<E: Engine>(c: &E::GE, ro: &mut PoseidonRO<E::Scalar>)
    ensures
        final(ro)@ == old(ro)@ + point_elements(c.coords()),
        final(ro).params() == old(ro).params(),
        final(ro).wf() == old(ro).wf(),
{
    let (x, y, infinity) = c.to_coordinates();
    absorb_limbs(&x, ro);
    absorb_limbs(&y, ro);
    if infinity {
        ro.absorb(E::Scalar::one());
    } else {
        ro.absorb(E::Scalar::zero());
    }
    assert(ro@ =~= old(ro)@ + point_elements(c.coords()));
}

/// Absorbs the elements of a vector in order.
pub fn absorb_vec<F: Field>(v: &Vec<F>, ro: &mut PoseidonRO<F>)
    ensures
        final(ro)@ == old(ro)@ + vals(v@),
        final(ro).params() == old(ro).params(),
        final(ro).wf() == old(ro).wf(),
{
    let mut i: usize = 0;
    assert(ro@ =~= old(ro)@ + vals(v@).take(0));
    while i < v.len()
        invariant
            i <= v@.len(),
            ro@ == old(ro)@ + vals(v@).take(i as int),
            ro.params() == old(ro).params(),
            ro.wf() == old(ro).wf(),
        decreases v@.len() - i,
    {
        ro.absorb(v[i]);
        i += 1;
        assert(ro@ =~= old(ro)@ + vals(v@).take(i as int));
    }
    assert(vals(v@).take(v@.len() as int) =~= vals(v@));
}

impl<E: Engine> AbsorbInRO2Trait<E> for R1CSInstance<E> {
    open spec fn elements(&self) -> Seq<int> {
        point_elements(self.comm_W.coords()) + vals(self.X@)
    }

    fn absorb_in_ro2(&self, ro: &mut PoseidonRO<E::Scalar>) {
        absorb_commitment::<E>(&self.comm_W, ro);
        absorb_vec(&self.X, ro);
        assert(ro@ =~= old(ro)@ + self.elements());
    }
}

impl<E: Engine> AbsorbInRO2Trait<E> for UniPoly<E::Scalar> {
    open spec fn elements(&self) -> Seq<int> {
        self@
    }

    fn absorb_in_ro2(&self, ro: &mut PoseidonRO<E::Scalar>) {
        absorb_vec(&self.coeffs, ro);
        assert(vals(self.coeffs@) == self@) by {
            self.lemma_view();
        }
    }
}

} // verus!
