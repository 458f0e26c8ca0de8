//! What the operations of the field and of the group do.
use vstd::prelude::*;
use crate::field::Field;
use crate::traits::{Engine, Group};

verus! {

/// Sums, differences and products are those of the integers, modulo the characteristic, and the
/// neutral elements are zero and one.
pub proof fn law_field_operations<F: Field>(
    x: F,
    y: F,
    zero: F,
    one: F,
    sum: F,
    difference: F,
    product: F,
    same: bool,
)
    requires
        call_ensures(F::zero, (), zero),
        call_ensures(F::one, (), one),
        call_ensures(F::add, (x, y), sum),
        call_ensures(F::sub, (x, y), difference),
        call_ensures(F::mul, (x, y), product),
        call_ensures(F::equals, (x, y), same),
    ensures
        zero.val() == 0,
        one.val() == 1,
        sum.val() == (x.val() + y.val()) % F::modulus(),
        difference.val() == (x.val() - y.val()) % F::modulus(),
        product.val() == (x.val() * y.val()) % F::modulus(),
        same <==> x.val() == y.val(),
{
}

/// An inverse times its element is one, and zero alone has none.
pub proof fn law_inverses<F: Field>(x: F, inverse: Option<F>, y: F, product: F)
    requires
        call_ensures(F::invert, (x,), inverse),
        inverse is Some ==> y == inverse->0,
        call_ensures(F::mul, (x, y), product),
    ensures
        inverse is None <==> x.val() == 0,
        inverse is Some ==> product.val() == 1,
{
}

/// In a group, the identity is neutral, elements add up as their logarithms do, multiples are those
/// of the logarithms, and equal elements are those with equal logarithms. Every element has the
/// coordinates that belong to its logarithm.
pub proof fn law_group_operations<E: Engine>(
    x: E::GE,
    y: E::GE,
    by: E::Scalar,
    identity: E::GE,
    sum: E::GE,
    multiple: E::GE,
    same: bool,
    k: ([u64; 4], [u64; 4], bool),
)
    requires
        call_ensures(E::GE::identity, (), identity),
        call_ensures(E::GE::add, (x, y), sum),
        call_ensures(E::GE::scale, (x, by), multiple),
        call_ensures(E::GE::equals, (x, y), same),
        call_ensures(E::GE::to_coordinates, (identity,), k),
    ensures
        identity.log() == 0,
        sum.log() == (x.log() + y.log()) % E::Scalar::modulus(),
        multiple.log() == (x.log() * by.val()) % E::Scalar::modulus(),
        same <==> x.log() == y.log(),
        sum.coords() == E::GE::point(sum.log()),
        multiple.coords() == E::GE::point(multiple.log()),
        k.2,
{
}

} // verus!
