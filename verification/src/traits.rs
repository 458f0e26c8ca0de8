//! The engine of the scheme: a scalar field and a commitment group over it.
use vstd::prelude::*;
use crate::arith::{fadd, fmul};
use crate::field::Field;
use crate::ro::{PoseidonConstants, PoseidonModel};

verus! {

/// All limbs of both coordinates are zero.
pub open spec fn all_zero(c: (Seq<u64>, Seq<u64>)) -> bool {
    &&& forall|i: int| 0 <= i < c.0.len() ==> c.0[i] == 0
    &&& forall|i: int| 0 <= i < c.1.len() ==> c.1[i] == 0
}

/// Both coordinates have four limbs, and all are zero.
pub open spec fn zero_coords(c: (Seq<u64>, Seq<u64>)) -> bool {
    c.0.len() == 4 && c.1.len() == 4 && all_zero(c)
}

/// Elements of a cyclic group whose order is the characteristic of `F`.
pub trait Group<F: Field>: Copy + Send + Sync + Eq + core::fmt::Debug {
    /// The discrete logarithm of the element to the base of the group's generator.
    spec fn log(self) -> int;

    /// The affine coordinates of the element, in little-endian limbs.
    spec fn coords(self) -> (Seq<u64>, Seq<u64>);

    /// The coordinates of the element with the given logarithm.
    spec fn point(log: int) -> (Seq<u64>, Seq<u64>);

    /// The coordinates of the element that a message is hashed to under a domain.
    spec fn hashed(domain: Seq<char>, message: Seq<u8>) -> (Seq<u64>, Seq<u64>);

    /// Logarithms are canonical.
    proof fn lemma_log(self)
        ensures
            0 <= self.log() < F::modulus(),
    ;

    /// Coordinates have four limbs each.
    proof fn lemma_coords(self)
        ensures
            self.coords().0.len() == 4,
            self.coords().1.len() == 4,
    ;

    /// The neutral element.
    fn identity() -> (r: Self)
        ensures
            r.log() == 0,
            r.coords() == Self::point(0),
            zero_coords(r.coords()),
    ;

    /// The sum of two elements.
    fn add(self, other: Self) -> (r: Self)
        ensures
            r.log() == fadd(F::modulus(), self.log(), other.log()),
            r.coords() == Self::point(r.log()),
    ;

    /// The multiple of an element by a scalar.
    fn scale(self, by: F) -> (r: Self)
        ensures
            r.log() == fmul(F::modulus(), self.log(), by.val()),
            r.coords() == Self::point(r.log()),
    ;

    /// Whether two elements are equal.
    fn equals(self, other: Self) -> (r: bool)
        ensures
            r == (self.log() == other.log()),
    ;

    /// The element that a message is hashed to under a short domain prefix.
    fn hash_to_group(domain: &str, message: &[u8]) -> (r: Self)
        requires
            domain@.len() <= 56,
        ensures
            r.coords() == Self::hashed(domain@, message@),
            r.coords() == Self::point(r.log()),
    ;

    /// The affine coordinates, and whether the element is the identity, whose coordinates are all
    /// zero.
    fn to_coordinates(self) -> (r: ([u64; 4], [u64; 4], bool))
        ensures
            (r.0@, r.1@) == self.coords(),
            r.2 == all_zero(self.coords()),
    ;
}

/// A scalar field together with a commitment group over it.
pub trait Engine: Sized {
    /// The scalar field.
    type Scalar: Field;

    /// The group that commitments live in.
    type GE: Group<Self::Scalar>;

    /// The parameters of the random oracle of the engine.
    spec fn ro_model() -> PoseidonModel;

    /// The parameters of the random oracle of the engine.
    fn ro_constants() -> (r: PoseidonConstants<Self::Scalar>)
        ensures
            r.wf(),
            r@ == Self::ro_model(),
    ;
}

/// A commitment is an element of the group.
pub type Commitment<E> = <E as Engine>::GE;

} // verus!
