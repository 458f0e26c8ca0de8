//! The BN254 curve: its scalar field and its first group.
//!
//! Elements are held as plain little-endian limbs. The arithmetic is that of the
//! `halo2curves` crate.
use ark_ff::PrimeField as _;
use ff::Field as _;
use ff::PrimeField as _;
use group::Curve as _;
use halo2curves::bn256;
use halo2curves::{group, CurveAffine as _, CurveExt as _};
use rand_core::OsRng;
use vstd::prelude::*;
use crate::arith::{lemma_mod, power};
use crate::field::{bits_value, vals, Field};
use crate::ro::{PoseidonConstants, PoseidonModel};
use crate::scalar_prime::law_scalar_field_has_no_zero_divisors;
use crate::traits::{Engine, Group};

verus! {

/// The order of the group, the characteristic of the scalar field.
pub open spec fn scalar_modulus() -> int {
    0x30644e72e131a029b85045b68181585d2833e84879b9709143e1f593f0000001int
}

/// The characteristic of the field that the curve is defined over.
pub open spec fn base_modulus() -> int {
    0x30644e72e131a029b85045b68181585d97816a916871ca8d3c208c16d87cfd47int
}

/// The integer with the given little-endian limbs.
pub open spec fn limbs_value(l: Seq<u64>) -> int {
    l[0] + 0x10000000000000000int * l[1] + 0x100000000000000000000000000000000int * l[2]
        + 0x1000000000000000000000000000000000000000000000000int * l[3]
}

/// `(x, y)` are canonical coordinates of a point of the curve `y^2 = x^3 + 3`, or `(0, 0)`,
/// which stands for the point at infinity.
pub open spec fn on_curve(c: (Seq<u64>, Seq<u64>)) -> bool {
    let x = limbs_value(c.0);
    let y = limbs_value(c.1);
    &&& c.0.len() == 4
    &&& c.1.len() == 4
    &&& x < base_modulus()
    &&& y < base_modulus()
    &&& (y * y) % base_modulus() == (x * x * x + 3) % base_modulus() || (x == 0 && y == 0)
}

/// The coordinates of what scalar multiplication of the generator of the group by `k` returns.
pub uninterp spec fn g1_multiple(k: int) -> (Seq<u64>, Seq<u64>);

/// The discrete logarithm of a point: how often the generator is added to reach it.
pub open spec fn g1_log(c: (Seq<u64>, Seq<u64>)) -> int {
    let k = choose|k: int| 0 <= k < scalar_modulus() && #[trigger] g1_multiple(k) == c;
    k % scalar_modulus()
}

/// The coordinates of the point that a message is hashed to under a domain.
pub uninterp spec fn g1_hash(domain: Seq<char>, message: Seq<u8>) -> (Seq<u64>, Seq<u64>);

/// Addition in `halo2curves::bn256::Fr`: the sum of two canonical scalars, reduced.
#[verifier::external_body]
fn fr_add(a: [u64; 4], b: [u64; 4]) -> (r: [u64; 4])
    requires
        limbs_value(a@) < scalar_modulus(),
        limbs_value(b@) < scalar_modulus(),
    ensures
        limbs_value(r@) == (limbs_value(a@) + limbs_value(b@)) % scalar_modulus(),
{
    let s: [u8; 32] = (bn256::Fr::from_raw(a) + bn256::Fr::from_raw(b)).to_repr().into();
    [0, 8, 16, 24].map(|i: usize| u64::from_le_bytes(s[i..i + 8].try_into().unwrap()))
}

/// Subtraction in `halo2curves::bn256::Fr`: the difference of two canonical scalars, reduced.
#[verifier::external_body]
fn fr_sub(a: [u64; 4], b: [u64; 4]) -> (r: [u64; 4])
    requires
        limbs_value(a@) < scalar_modulus(),
        limbs_value(b@) < scalar_modulus(),
    ensures
        limbs_value(r@) == (limbs_value(a@) - limbs_value(b@)) % scalar_modulus(),
{
    let s: [u8; 32] = (bn256::Fr::from_raw(a) - bn256::Fr::from_raw(b)).to_repr().into();
    [0, 8, 16, 24].map(|i: usize| u64::from_le_bytes(s[i..i + 8].try_into().unwrap()))
}

/// Multiplication in `halo2curves::bn256::Fr`: the product of two canonical scalars, reduced.
#[verifier::external_body]
fn fr_mul(a: [u64; 4], b: [u64; 4]) -> (r: [u64; 4])
    requires
        limbs_value(a@) < scalar_modulus(),
        limbs_value(b@) < scalar_modulus(),
    ensures
        limbs_value(r@) == (limbs_value(a@) * limbs_value(b@)) % scalar_modulus(),
{
    let s: [u8; 32] = (bn256::Fr::from_raw(a) * bn256::Fr::from_raw(b)).to_repr().into();
    [0, 8, 16, 24].map(|i: usize| u64::from_le_bytes(s[i..i + 8].try_into().unwrap()))
}

/// `invert` of `halo2curves::bn256::Fr`: the inverse of a canonical scalar, which zero alone lacks.
#[verifier::external_body]
fn fr_invert(a: [u64; 4]) -> (r: Option<[u64; 4]>)
    requires
        limbs_value(a@) < scalar_modulus(),
    ensures
        r is None <==> limbs_value(a@) == 0,
        r matches Some(v) ==> limbs_value(v@) < scalar_modulus() && (limbs_value(a@) * limbs_value(
            v@,
        )) % scalar_modulus() == 1,
{
    let v: Option<bn256::Fr> = bn256::Fr::from_raw(a).invert().into();
    let s: [u8; 32] = v?.to_repr().into();
    Some([0, 8, 16, 24].map(|i: usize| u64::from_le_bytes(s[i..i + 8].try_into().unwrap())))
}

/// `random` of `halo2curves::bn256::Fr` on the generator of the operating system: a canonical
/// scalar, of which nothing else is known.
#[verifier::external_body]
fn fr_random() -> (r: [u64; 4])
    ensures
        limbs_value(r@) < scalar_modulus(),
{
    let s: [u8; 32] = bn256::Fr::random(&mut OsRng).to_repr().into();
    [0, 8, 16, 24].map(|i: usize| u64::from_le_bytes(s[i..i + 8].try_into().unwrap()))
}

/// An element of the scalar field.
#[derive(Clone, Copy, Debug, PartialEq, Eq)]
pub struct Fr {
    l0: u64,
    l1: u64,
    l2: u64,
    l3: u64,
}

impl Fr {
    spec fn raw(self) -> int {
        limbs_value(seq![self.l0, self.l1, self.l2, self.l3])
    }

    #[verifier::type_invariant]
    spec fn canonical(self) -> bool {
        self.raw() < scalar_modulus()
    }

    /// The little-endian limbs of the canonical representative.
    pub fn limbs(self) -> (r: [u64; 4])
        ensures
            limbs_value(r@) == self.val(),
            limbs_value(r@) < scalar_modulus(),
    {
        proof {
            use_type_invariant(&self);
            assert(self.raw() >= 0);
            vstd::arithmetic::div_mod::lemma_small_mod(self.raw() as nat, scalar_modulus() as nat);
        }
        let r = [self.l0, self.l1, self.l2, self.l3];
        assert(r@ =~= seq![self.l0, self.l1, self.l2, self.l3]);
        r
    }

    /// The element with the given little-endian limbs, if they are below the modulus.
    pub fn from_limbs(l: [u64; 4]) -> (r: Option<Fr>)
        ensures
            r is Some <==> limbs_value(l@) < scalar_modulus(),
            r matches Some(x) ==> x.val() == limbs_value(l@),
    {
        let below = if l[3] != 0x30644e72e131a029 {
            l[3] < 0x30644e72e131a029
        } else if l[2] != 0xb85045b68181585d {
            l[2] < 0xb85045b68181585d
        } else if l[1] != 0x2833e84879b97091 {
            l[1] < 0x2833e84879b97091
        } else {
            l[0] < 0x43e1f593f0000001
        };
        if below {
            Some(Fr::reduced(l))
        } else {
            None
        }
    }

    /// The element with the given limbs, which are below the modulus.
    fn reduced(l: [u64; 4]) -> (r: Fr)
        requires
            limbs_value(l@) < scalar_modulus(),
        ensures
            r.val() == limbs_value(l@),
    {
        proof {
            assert(l@ =~= seq![l@[0], l@[1], l@[2], l@[3]]);
            assert(limbs_value(l@) >= 0);
            vstd::arithmetic::div_mod::lemma_small_mod(
                limbs_value(l@) as nat,
                scalar_modulus() as nat,
            );
        }
        Fr { l0: l[0], l1: l[1], l2: l[2], l3: l[3] }
    }
}

/// Splits off the 64 binary digits of a limb.
fn push_limb_bits(bits: &mut Vec<bool>, limb: u64)
    ensures
        final(bits)@.len() == old(bits)@.len() + 64,
        bits_value(final(bits)@) == bits_value(old(bits)@) + power(2, old(bits)@.len()) * limb,
{
    let mut x: u64 = limb;
    let mut i: usize = 0;
    proof {
        assert(power(2, 0) * x == x) by (nonlinear_arith)
            requires
                power(2, 0) == 1,
        ;
        assert(power(2, old(bits)@.len()) * power(2, 0) == power(2, old(bits)@.len()));
    }
    while i < 64
        invariant
            i <= 64,
            bits@.len() == old(bits)@.len() + i,
            bits_value(bits@) + power(2, bits@.len()) * x == bits_value(old(bits)@) + power(
                2,
                old(bits)@.len(),
            ) * limb,
            power(2, i as nat) * x <= limb,
        decreases 64 - i,
    {
        let ghost before = bits@;
        let bit = x % 2 == 1;
        bits.push(bit);
        proof {
            assert(bits@.drop_last() =~= before);
            let pw = power(2, before.len());
            let half = (x / 2) as int;
            let b: int = if bit {
                1
            } else {
                0
            };
            assert(x == 2 * half + b);
            assert(pw * x == (pw * 2) * half + pw * b) by (nonlinear_arith)
                requires
                    x == 2 * half + b,
            ;
            assert(pw * 1 == pw && pw * 0 == 0);
            let pi = power(2, i as nat);
            assert(pi >= 0) by {
                lemma_power_two_pos(i as nat);
            }
            assert(pi * x == (pi * 2) * half + pi * b) by (nonlinear_arith)
                requires
                    x == 2 * half + b,
            ;
            assert(pi * b >= 0) by (nonlinear_arith)
                requires
                    pi >= 0,
                    b >= 0,
            ;
        }
        x = x / 2;
        i += 1;
    }
    proof {
        assert(power(2, 64) == 0x10000000000000000int) by {
            lemma_power_two_64();
        }
        assert(x == 0) by (nonlinear_arith)
            requires
                0x10000000000000000int * x <= limb,
                limb <= 0xffffffffffffffff,
        ;
        assert(power(2, bits@.len()) * 0 == 0);
    }
}

/// Powers of two are positive.
pub proof fn lemma_power_two_pos(k: nat)
    ensures
        power(2, k) > 0,
    decreases k,
{
    if k > 0 {
        lemma_power_two_pos((k - 1) as nat);
    }
}

/// The size of a machine word as a power of two.
pub proof fn lemma_power_two_64()
    ensures
        power(2, 64) == 0x10000000000000000int,
        power(2, 128) == 0x100000000000000000000000000000000int,
        power(2, 192) == 0x1000000000000000000000000000000000000000000000000int,
{
    reveal_with_fuel(power, 9);
    assert(power(2, 8) == 256);
    crate::arith::lemma_power_add(2, 8, 8);
    assert(power(2, 16) == 0x10000) by (nonlinear_arith)
        requires
            power(2, 16) == power(2, 8) * power(2, 8),
            power(2, 8) == 256,
    ;
    crate::arith::lemma_power_add(2, 16, 16);
    assert(power(2, 32) == 0x100000000) by (nonlinear_arith)
        requires
            power(2, 32) == power(2, 16) * power(2, 16),
            power(2, 16) == 0x10000,
    ;
    crate::arith::lemma_power_add(2, 32, 32);
    assert(power(2, 64) == 0x10000000000000000int) by (nonlinear_arith)
        requires
            power(2, 64) == power(2, 32) * power(2, 32),
            power(2, 32) == 0x100000000,
    ;
    crate::arith::lemma_power_add(2, 64, 64);
    assert(power(2, 128) == 0x100000000000000000000000000000000int) by (nonlinear_arith)
        requires
            power(2, 128) == power(2, 64) * power(2, 64),
            power(2, 64) == 0x10000000000000000int,
    ;
    crate::arith::lemma_power_add(2, 128, 64);
    assert(power(2, 192) == 0x1000000000000000000000000000000000000000000000000int)
        by (nonlinear_arith)
        requires
            power(2, 192) == power(2, 128) * power(2, 64),
            power(2, 128) == 0x100000000000000000000000000000000int,
            power(2, 64) == 0x10000000000000000int,
    ;
}

/// An integer has only one representation in limbs.
proof fn lemma_limbs_unique(a: Seq<u64>, b: Seq<u64>)
    requires
        limbs_value(a) == limbs_value(b),
    ensures
        a[0] == b[0],
        a[1] == b[1],
        a[2] == b[2],
        a[3] == b[3],
{
    let w = 0x10000000000000000int;
    let (d1, d2, d3) = (b[1] - a[1], b[2] - a[2], b[3] - a[3]);
    let k1 = d1 + w * d2 + w * w * d3;
    assert(a[0] - b[0] == w * k1);
    assert(k1 == 0);
    let k2 = d2 + w * d3;
    assert(-d1 == w * k2);
    assert(k2 == 0);
    assert(-d2 == w * d3);
    assert(d3 == 0);
}

impl Field for Fr {
    open spec fn modulus() -> int {
        scalar_modulus()
    }

    closed spec fn val(self) -> int {
        self.raw() % scalar_modulus()
    }

    proof fn lemma_val(self) {
        lemma_mod(scalar_modulus(), self.raw());
    }

    proof fn lemma_modulus() -> (inv: int) {
        0x12f4163142de1a76bd85d7099d63ba136b7abafa40bdf6c16dc991405799999aint
    }

    proof fn lemma_no_zero_divisors() {
        law_scalar_field_has_no_zero_divisors();
    }

    fn zero() -> (r: Self) {
        Fr::reduced([0, 0, 0, 0])
    }

    fn one() -> (r: Self) {
        Fr::reduced([1, 0, 0, 0])
    }

    fn from_u64(x: u64) -> (r: Self) {
        Fr::reduced([x, 0, 0, 0])
    }

    fn add(self, other: Self) -> (r: Self) {
        proof {
            lemma_mod(scalar_modulus(), self.val() + other.val());
        }
        Fr::reduced(fr_add(self.limbs(), other.limbs()))
    }

    fn sub(self, other: Self) -> (r: Self) {
        proof {
            lemma_mod(scalar_modulus(), self.val() - other.val());
        }
        Fr::reduced(fr_sub(self.limbs(), other.limbs()))
    }

    fn mul(self, other: Self) -> (r: Self) {
        proof {
            lemma_mod(scalar_modulus(), self.val() * other.val());
        }
        Fr::reduced(fr_mul(self.limbs(), other.limbs()))
    }

    fn invert(self) -> (r: Option<Self>) {
        match fr_invert(self.limbs()) {
            Some(v) => Some(Fr::reduced(v)),
            None => None,
        }
    }

    fn equals(self, other: Self) -> (r: bool) {
        let a = self.limbs();
        let b = other.limbs();
        proof {
            if limbs_value(a@) == limbs_value(b@) {
                lemma_limbs_unique(a@, b@);
            }
        }
        a[0] == b[0] && a[1] == b[1] && a[2] == b[2] && a[3] == b[3]
    }

    fn to_le_bits(self) -> (r: Vec<bool>) {
        let l = self.limbs();
        let mut bits: Vec<bool> = Vec::new();
        proof {
            lemma_power_two_64();
            assert(power(2, 0) == 1);
        }
        push_limb_bits(&mut bits, l[0]);
        push_limb_bits(&mut bits, l[1]);
        push_limb_bits(&mut bits, l[2]);
        push_limb_bits(&mut bits, l[3]);
        bits
    }

    fn random() -> (r: Self) {
        Fr::reduced(fr_random())
    }
}

/// Addition in `halo2curves::bn256::G1`. The group is cyclic of prime order, so that a point is
/// determined by its logarithm; that of the sum is the sum of the logarithms. The result is handed
/// back in affine coordinates.
#[verifier::external_body]
fn g1_add(a: ([u64; 4], [u64; 4]), b: ([u64; 4], [u64; 4])) -> (r: ([u64; 4], [u64; 4]))
    requires
        on_curve((a.0@, a.1@)),
        on_curve((b.0@, b.1@)),
    ensures
        on_curve((r.0@, r.1@)),
        g1_log((r.0@, r.1@)) == (g1_log((a.0@, a.1@)) + g1_log((b.0@, b.1@))) % scalar_modulus(),
        (r.0@, r.1@) == g1_multiple(g1_log((r.0@, r.1@))),
{
    let p = bn256::G1Affine::from_xy(bn256::Fq::from_raw(a.0), bn256::Fq::from_raw(a.1)).unwrap();
    let q = bn256::G1Affine::from_xy(bn256::Fq::from_raw(b.0), bn256::Fq::from_raw(b.1)).unwrap();
    let s: bn256::G1Affine = (p + q).to_affine();
    let x: [u8; 32] = s.x.to_repr().into();
    let y: [u8; 32] = s.y.to_repr().into();
    let limbs = |b: [u8; 32]|
        [0, 8, 16, 24].map(|i: usize| u64::from_le_bytes(b[i..i + 8].try_into().unwrap()));
    (limbs(x), limbs(y))
}

/// Scalar multiplication in `halo2curves::bn256::G1`: the logarithm of the result is the product
/// of the point's logarithm and the scalar. Of the generator, which is its own first multiple, it
/// gives the multiples that points are counted by.
#[verifier::external_body]
fn g1_mul(a: ([u64; 4], [u64; 4]), k: [u64; 4]) -> (r: ([u64; 4], [u64; 4]))
    requires
        on_curve((a.0@, a.1@)),
        limbs_value(k@) < scalar_modulus(),
    ensures
        on_curve((r.0@, r.1@)),
        g1_log((r.0@, r.1@)) == (g1_log((a.0@, a.1@)) * limbs_value(k@)) % scalar_modulus(),
        (r.0@, r.1@) == g1_multiple(g1_log((r.0@, r.1@))),
        (a.0@, a.1@) == g1_multiple(1) ==> (r.0@, r.1@) == g1_multiple(limbs_value(k@)),
{
    let p = bn256::G1Affine::from_xy(bn256::Fq::from_raw(a.0), bn256::Fq::from_raw(a.1)).unwrap();
    let s: bn256::G1Affine = (p * bn256::Fr::from_raw(k)).to_affine();
    let x: [u8; 32] = s.x.to_repr().into();
    let y: [u8; 32] = s.y.to_repr().into();
    let limbs = |b: [u8; 32]|
        [0, 8, 16, 24].map(|i: usize| u64::from_le_bytes(b[i..i + 8].try_into().unwrap()));
    (limbs(x), limbs(y))
}

/// The identity of `halo2curves::bn256::G1`, whose affine form is `(0, 0)` and whose logarithm is
/// zero.
#[verifier::external_body]
fn g1_identity() -> (r: ([u64; 4], [u64; 4]))
    ensures
        on_curve((r.0@, r.1@)),
        limbs_value(r.0@) == 0,
        limbs_value(r.1@) == 0,
        g1_log((r.0@, r.1@)) == 0,
        (r.0@, r.1@) == g1_multiple(0),
{
    let s: bn256::G1Affine = <bn256::G1 as group::Group>::identity().to_affine();
    let x: [u8; 32] = s.x.to_repr().into();
    let y: [u8; 32] = s.y.to_repr().into();
    let limbs = |b: [u8; 32]|
        [0, 8, 16, 24].map(|i: usize| u64::from_le_bytes(b[i..i + 8].try_into().unwrap()));
    (limbs(x), limbs(y))
}

/// `hash_to_curve` of `halo2curves::bn256::G1`: a point of the curve, and so a multiple of the
/// generator, that depends on the domain and the message alone. The domain prefix has to stay
/// short: the outside function refuses long ones.
#[verifier::external_body]
fn g1_hash_to_curve(domain: &str, message: &[u8]) -> (r: ([u64; 4], [u64; 4]))
    requires
        domain@.len() <= 56,
    ensures
        on_curve((r.0@, r.1@)),
        (r.0@, r.1@) == g1_hash(domain@, message@),
        (r.0@, r.1@) == g1_multiple(g1_log((r.0@, r.1@))),
{
    let s: bn256::G1Affine = bn256::G1::hash_to_curve(domain)(message).to_affine();
    let x: [u8; 32] = s.x.to_repr().into();
    let y: [u8; 32] = s.y.to_repr().into();
    let limbs = |b: [u8; 32]|
        [0, 8, 16, 24].map(|i: usize| u64::from_le_bytes(b[i..i + 8].try_into().unwrap()));
    (limbs(x), limbs(y))
}

/// `from_xy` of `halo2curves::bn256::G1Affine`: whether canonical coordinates belong to a point of
/// the curve or are those of the identity. The curve has as many points as the group has elements,
/// so that such a point is a multiple of the generator.
#[verifier::external_body]
fn g1_from_xy(x: [u64; 4], y: [u64; 4]) -> (r: bool)
    requires
        limbs_value(x@) < base_modulus(),
        limbs_value(y@) < base_modulus(),
    ensures
        r == on_curve((x@, y@)),
        r ==> (x@, y@) == g1_multiple(g1_log((x@, y@))),
{
    let p = bn256::G1Affine::from_xy(bn256::Fq::from_raw(x), bn256::Fq::from_raw(y));
    p.is_some().into()
}

/// Whether limbs are below the characteristic of the field that the curve is defined over.
fn is_coordinate(l: [u64; 4]) -> (r: bool)
    ensures
        r == (limbs_value(l@) < base_modulus()),
{
    if l[3] != 0x30644e72e131a029 {
        l[3] < 0x30644e72e131a029
    } else if l[2] != 0xb85045b68181585d {
        l[2] < 0xb85045b68181585d
    } else if l[1] != 0x97816a916871ca8d {
        l[1] < 0x97816a916871ca8d
    } else {
        l[0] < 0x3c208c16d87cfd47
    }
}

/// A point of the first group of BN254, in affine coordinates; `(0, 0)` is the identity.
#[derive(Clone, Copy, Debug, PartialEq, Eq)]
pub struct G1 {
    x: [u64; 4],
    y: [u64; 4],
}

impl G1 {
    #[verifier::type_invariant]
    spec fn valid(self) -> bool {
        &&& on_curve((self.x@, self.y@))
        &&& (self.x@, self.y@) == g1_multiple(g1_log((self.x@, self.y@)))
    }

    /// The point with the given coordinates, if they are those of a point.
    pub fn from_coordinates(x: [u64; 4], y: [u64; 4]) -> (r: Option<G1>)
        ensures
            r is Some <==> on_curve((x@, y@)),
            r matches Some(p) ==> p.coords() == (x@, y@),
    {
        if is_coordinate(x) && is_coordinate(y) && g1_from_xy(x, y) {
            Some(G1 { x, y })
        } else {
            None
        }
    }
}

impl Group<Fr> for G1 {
    closed spec fn log(self) -> int {
        g1_log((self.x@, self.y@))
    }

    closed spec fn coords(self) -> (Seq<u64>, Seq<u64>) {
        (self.x@, self.y@)
    }

    open spec fn point(log: int) -> (Seq<u64>, Seq<u64>) {
        g1_multiple(log)
    }

    open spec fn hashed(domain: Seq<char>, message: Seq<u8>) -> (Seq<u64>, Seq<u64>) {
        g1_hash(domain, message)
    }

    proof fn lemma_log(self) {
        lemma_mod(
            scalar_modulus(),
            choose|k: int|
                0 <= k < scalar_modulus() && #[trigger] g1_multiple(k) == (self.x@, self.y@),
        );
    }

    proof fn lemma_coords(self) {
    }

    fn identity() -> (r: Self) {
        let (x, y) = g1_identity();
        G1 { x, y }
    }

    fn add(self, other: Self) -> (r: Self) {
        proof {
            use_type_invariant(&self);
            use_type_invariant(&other);
        }
        let (x, y) = g1_add((self.x, self.y), (other.x, other.y));
        G1 { x, y }
    }

    fn scale(self, by: Fr) -> (r: Self) {
        proof {
            use_type_invariant(&self);
        }
        let (x, y) = g1_mul((self.x, self.y), by.limbs());
        G1 { x, y }
    }

    fn equals(self, other: Self) -> (r: bool) {
        proof {
            use_type_invariant(&self);
            use_type_invariant(&other);
        }
        let r = self.x[0] == other.x[0] && self.x[1] == other.x[1] && self.x[2] == other.x[2]
            && self.x[3] == other.x[3] && self.y[0] == other.y[0] && self.y[1] == other.y[1]
            && self.y[2] == other.y[2] && self.y[3] == other.y[3];
        proof {
            if r {
                assert(self.x@ =~= other.x@);
                assert(self.y@ =~= other.y@);
            } else if self.log() == other.log() {
                assert((self.x@, self.y@) == (other.x@, other.y@));
                assert(self.x@[0] == other.x@[0] && self.x@[1] == other.x@[1] && self.x@[2]
                    == other.x@[2] && self.x@[3] == other.x@[3]);
                assert(self.y@[0] == other.y@[0] && self.y@[1] == other.y@[1] && self.y@[2]
                    == other.y@[2] && self.y@[3] == other.y@[3]);
            }
        }
        r
    }

    fn hash_to_group(domain: &str, message: &[u8]) -> (r: Self) {
        let (x, y) = g1_hash_to_curve(domain, message);
        G1 { x, y }
    }

    fn to_coordinates(self) -> (r: ([u64; 4], [u64; 4], bool)) {
        let zero = self.x[0] == 0 && self.x[1] == 0 && self.x[2] == 0 && self.x[3] == 0
            && self.y[0] == 0 && self.y[1] == 0 && self.y[2] == 0 && self.y[3] == 0;
        proof {
            let c = self.coords();
            assert(c.0[0] == self.x[0] && c.0[1] == self.x[1] && c.0[2] == self.x[2] && c.0[3]
                == self.x[3]);
            assert(c.1[0] == self.y[0] && c.1[1] == self.y[1] && c.1[2] == self.y[2] && c.1[3]
                == self.y[3]);
            if zero {
                assert forall|i: int| 0 <= i < c.0.len() implies c.0[i] == 0 by {
                    assert(i == 0 || i == 1 || i == 2 || i == 3);
                }
                assert forall|i: int| 0 <= i < c.1.len() implies c.1[i] == 0 by {
                    assert(i == 0 || i == 1 || i == 2 || i == 3);
                }
            }
        }
        (self.x, self.y, zero)
    }
}

/// The engine over BN254.
#[derive(Clone, Copy, Debug, PartialEq, Eq)]
pub struct Bn256EngineKZG {}

impl Engine for Bn256EngineKZG {
    type Scalar = Fr;

    type GE = G1;

    open spec fn ro_model() -> PoseidonModel {
        let (ark, mds) = poseidon_grain(1, 8, 56);
        PoseidonModel { width: 2, half_full: 4, partial: 56, ark, mds }
    }

    fn ro_constants() -> (r: PoseidonConstants<Fr>) {
        let (ark, mds) = find_poseidon_ark_and_mds(1, 8, 56);
        let ark = scalars(&ark);
        let mds = scalars(&mds);
        PoseidonConstants::from_parts(2, 4, 56, ark, mds)
    }
}

/// The round constants and the mixing matrix, both row by row, that the Grain generator of the
/// Poseidon paper yields over the scalar field for a rate and for numbers of full and of partial
/// rounds.
pub uninterp spec fn poseidon_grain(rate: int, full: int, partial: int) -> (Seq<int>, Seq<int>);

/// The integers with the given limbs.
pub open spec fn limb_values(v: Seq<[u64; 4]>) -> Seq<int> {
    Seq::new(v.len(), |i: int| limbs_value(v[i]@))
}

/// `find_poseidon_ark_and_mds` of `ark_crypto_primitives` over `ark_bn254::Fr`: as many round
/// constants as there are rounds and elements of the state, and a square matrix, of canonical
/// scalars. It is called with one set of parameters, on which it is known to succeed.
#[verifier::external_body]
fn find_poseidon_ark_and_mds(rate: usize, full: u64, partial: u64) -> (r: (
    Vec<[u64; 4]>,
    Vec<[u64; 4]>,
))
    requires
        rate == 1,
        full == 8,
        partial == 56,
    ensures
        r.0@.len() == (full + partial) * (rate + 1),
        r.1@.len() == (rate + 1) * (rate + 1),
        forall|i: int| 0 <= i < r.0@.len() ==> limbs_value(#[trigger] r.0@[i]@) < scalar_modulus(),
        forall|i: int| 0 <= i < r.1@.len() ==> limbs_value(#[trigger] r.1@[i]@) < scalar_modulus(),
        (limb_values(r.0@), limb_values(r.1@)) == poseidon_grain(
            rate as int,
            full as int,
            partial as int,
        ),
{
    let (ark, mds) = ark_crypto_primitives::sponge::poseidon::find_poseidon_ark_and_mds::<
        ark_bn254::Fr,
    >(254, rate, full, partial, 0);
    let flat = |m: Vec<Vec<ark_bn254::Fr>>| -> Vec<[u64; 4]> {
        m.into_iter().flatten().map(|c| c.into_bigint().0).collect()
    };
    (flat(ark), flat(mds))
}

/// The scalars with the given limbs, which are below the modulus.
fn scalars(v: &Vec<[u64; 4]>) -> (r: Vec<Fr>)
    requires
        forall|i: int| 0 <= i < v@.len() ==> limbs_value(#[trigger] v@[i]@) < scalar_modulus(),
    ensures
        vals(r@) == limb_values(v@),
        r@.len() == v@.len(),
{
    let mut out: Vec<Fr> = Vec::new();
    let mut i: usize = 0;
    while i < v.len()
        invariant
            i <= v@.len(),
            forall|k: int| 0 <= k < v@.len() ==> limbs_value(#[trigger] v@[k]@) < scalar_modulus(),
            out@.len() == i,
            forall|k: int| 0 <= k < i ==> (#[trigger] out@[k]).val() == limbs_value(v@[k]@),
        decreases v@.len() - i,
    {
        let l = v[i];
        assert(limbs_value(v@[i as int]@) < scalar_modulus());
        out.push(Fr::reduced(l));
        i += 1;
    }
    assert(vals(out@) =~= limb_values(v@));
    out
}

} // verus!
