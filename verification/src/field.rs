//! The scalar field: a trait for prime-field elements, and vectors of them.
use vstd::prelude::*;
use crate::arith::{fadd, fmul, fsub, is, lemma_is_self, no_zero_divisors, power};

verus! {

/// The integer whose little-endian binary digits are `bits`.
pub open spec fn bits_value(bits: Seq<bool>) -> int
    decreases bits.len(),
{
    if bits.len() == 0 {
        0
    } else {
        bits_value(bits.drop_last()) + if bits.last() {
            power(2, (bits.len() - 1) as nat)
        } else {
            0
        }
    }
}

/// Elements of a prime field.
pub trait Field: Copy + Send + Sync + Eq + core::fmt::Debug {
    /// The characteristic of the field.
    spec fn modulus() -> int;

    /// The canonical representative of the element.
    spec fn val(self) -> int;

    /// Representatives are canonical.
    proof fn lemma_val(self)
        ensures
            0 <= self.val() < Self::modulus(),
    ;

    /// The field has more elements than a machine word has values, and 120 is invertible in
    /// it, so that the points 0 to 5 determine a polynomial of degree five.
    proof fn lemma_modulus() -> (inv: int)
        ensures
            Self::modulus() > u64::MAX,
            (120 * inv) % Self::modulus() == 1,
    ;

    /// The field has no zero divisors.
    proof fn lemma_no_zero_divisors()
        ensures
            no_zero_divisors(Self::modulus()),
    ;

    /// The additive identity.
    fn zero() -> (r: Self)
        ensures
            r.val() == 0,
    ;

    /// The multiplicative identity.
    fn one() -> (r: Self)
        ensures
            r.val() == 1,
    ;

    /// The element that represents a machine word.
    fn from_u64(x: u64) -> (r: Self)
        ensures
            r.val() == x,
    ;

    /// The sum of two elements.
    fn add(self, other: Self) -> (r: Self)
        ensures
            r.val() == fadd(Self::modulus(), self.val(), other.val()),
    ;

    /// The difference of two elements.
    fn sub(self, other: Self) -> (r: Self)
        ensures
            r.val() == fsub(Self::modulus(), self.val(), other.val()),
    ;

    /// The product of two elements.
    fn mul(self, other: Self) -> (r: Self)
        ensures
            r.val() == fmul(Self::modulus(), self.val(), other.val()),
    ;

    /// The multiplicative inverse, which every element but zero has.
    fn invert(self) -> (r: Option<Self>)
        ensures
            r is None <==> self.val() == 0,
            r matches Some(v) ==> fmul(Self::modulus(), self.val(), v.val()) == 1,
    ;

    /// Whether two elements are equal.
    fn equals(self, other: Self) -> (r: bool)
        ensures
            r == (self.val() == other.val()),
    ;

    /// The little-endian binary digits of the canonical representative.
    fn to_le_bits(self) -> (r: Vec<bool>)
        ensures
            r@.len() == 256,
            bits_value(r@) == self.val(),
    ;

    /// An element drawn at random. Any element may come out.
    fn random() -> (r: Self);
}

/// The representatives of a vector of field elements.
pub open spec fn vals<F: Field>(s: Seq<F>) -> Seq<int> {
    Seq::new(s.len(), |i: int| s[i].val())
}

/// A field element represents its own canonical representative.
pub proof fn lemma_seed<F: Field>(x: F)
    ensures
        is(F::modulus(), x.val(), x.val()),
        0 <= x.val() < F::modulus(),
        F::modulus() > u64::MAX,
{
    x.lemma_val();
    F::lemma_modulus();
    lemma_is_self(F::modulus(), x.val());
}

/// A small integer represents itself.
pub proof fn lemma_seed_const<F: Field>(c: int)
    requires
        0 <= c <= u64::MAX,
    ensures
        is(F::modulus(), c, c),
        F::modulus() > u64::MAX,
{
    F::lemma_modulus();
    lemma_is_self(F::modulus(), c);
}

/// A copy of a vector.
pub fn copy_vec<F: Copy>(v: &Vec<F>) -> (r: Vec<F>)
    ensures
        r@ == v@,
{
    let mut out: Vec<F> = Vec::new();
    let mut i: usize = 0;
    while i < v.len()
        invariant
            i <= v@.len(),
            out@ == v@.take(i as int),
        decreases v@.len() - i,
    {
        out.push(v[i]);
        i += 1;
        assert(v@.take(i as int) =~= v@.take(i - 1).push(v@[i - 1]));
    }
    assert(v@.take(v@.len() as int) =~= v@);
    out
}

} // verus!
