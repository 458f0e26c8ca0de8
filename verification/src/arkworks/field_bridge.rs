//! The bridge between the field elements of arkworks and those of this library.
use ark_ff::{BigInt, PrimeField as _};
use ark_serialize::CanonicalSerialize as _;
use ff::PrimeField as _;
use halo2curves::bn256;
use vstd::prelude::*;
use crate::bn254::{limbs_value, scalar_modulus, Fr};
use crate::errors::SynthesisError;
use crate::field::Field;
use crate::gadgets::digit;

verus! {

/// The integer with the given little-endian bytes.
pub open spec fn bytes_value(b: Seq<u8>) -> int
    decreases b.len(),
{
    if b.len() == 0 {
        0
    } else {
        b[0] + 256 * bytes_value(b.drop_first())
    }
}

/// `serialize_compressed` of `ark_bn254::Fr`: a canonical scalar in 32 little-endian bytes.
#[verifier::external_body]
fn ark_serialize(limbs: [u64; 4]) -> (r: [u8; 32])
    requires
        limbs_value(limbs@) < scalar_modulus(),
    ensures
        bytes_value(r@) == limbs_value(limbs@),
{
    let mut bytes = [0u8; 32];
    ark_bn254::Fr::new(BigInt(limbs)).serialize_compressed(&mut bytes[..]).unwrap();
    bytes
}

/// `from_le_bytes_mod_order` of `ark_bn254::Fr`: the scalar that little-endian bytes stand for,
/// reduced.
#[verifier::external_body]
fn ark_from_le_bytes_mod_order(bytes: [u8; 32]) -> (r: [u64; 4])
    ensures
        limbs_value(r@) == bytes_value(bytes@) % scalar_modulus(),
{
    ark_bn254::Fr::from_le_bytes_mod_order(&bytes).into_bigint().0
}

/// `from_repr` of `halo2curves::bn256::Fr`: the scalar with the given little-endian bytes, if they
/// stand for a number below the modulus.
#[verifier::external_body]
fn fr_from_repr(bytes: [u8; 32]) -> (r: Option<[u64; 4]>)
    ensures
        r is Some <==> bytes_value(bytes@) < scalar_modulus(),
        r matches Some(l) ==> limbs_value(l@) == bytes_value(bytes@),
{
    let x: Option<bn256::Fr> = bn256::Fr::from_repr(bytes.into()).into();
    let s: [u8; 32] = x?.to_repr().into();
    Some([0, 8, 16, 24].map(|i: usize| u64::from_le_bytes(s[i..i + 8].try_into().unwrap())))
}

/// `to_repr` of `halo2curves::bn256::Fr`: a canonical scalar in 32 little-endian bytes.
#[verifier::external_body]
fn fr_to_repr(limbs: [u64; 4]) -> (r: [u8; 32])
    requires
        limbs_value(limbs@) < scalar_modulus(),
    ensures
        bytes_value(r@) == limbs_value(limbs@),
{
    bn256::Fr::from_raw(limbs).to_repr().into()
}

/// A scalar as arkworks holds it, by the limbs of its canonical representative.
#[derive(Clone, Copy, Debug, PartialEq, Eq)]
pub struct ArkFr {
    limbs: [u64; 4],
}

impl ArkFr {
    #[verifier::type_invariant]
    spec fn canonical(self) -> bool {
        limbs_value(self.limbs@) < scalar_modulus()
    }

    /// The canonical representative.
    pub closed spec fn val(self) -> int {
        limbs_value(self.limbs@)
    }

    /// The scalar that represents a machine word.
    pub fn from_u64(x: u64) -> (r: Self)
        ensures
            r.val() == x,
    {
        ArkFr { limbs: [x, 0, 0, 0] }
    }

    /// The scalar with the given limbs, if they are below the modulus.
    pub fn from_limbs(l: [u64; 4]) -> (r: Option<Self>)
        ensures
            r is Some <==> limbs_value(l@) < scalar_modulus(),
            r matches Some(x) ==> x.val() == limbs_value(l@),
    {
        match Fr::from_limbs(l) {
            Some(_) => Some(ArkFr { limbs: l }),
            None => None,
        }
    }

    /// The scalar with the given limbs, which have to be below the modulus.
    pub fn from_canonical(l: [u64; 4]) -> (r: Self)
        requires
            limbs_value(l@) < scalar_modulus(),
        ensures
            r.val() == limbs_value(l@),
    {
        ArkFr { limbs: l }
    }

    /// The limbs of the canonical representative.
    pub fn limbs(self) -> (r: [u64; 4])
        ensures
            limbs_value(r@) == self.val(),
            limbs_value(r@) < scalar_modulus(),
    {
        proof {
            use_type_invariant(&self);
        }
        self.limbs
    }
}

/// Conversions between the field elements of arkworks and those of this library.
pub trait FieldBridge<AF, NF: Field>: Clone + Send + Sync {
    /// The canonical representative of an arkworks element.
    spec fn ark_value(af: AF) -> int;

    /// The element of this library with the same representative.
    fn ark_to_nova(af: AF) -> (r: NF)
        ensures
            r.val() == Self::ark_value(af),
    ;

    /// The arkworks element with the same representative.
    fn nova_to_ark(nf: NF) -> (r: AF)
        ensures
            Self::ark_value(r) == nf.val(),
    ;

    /// An element that is zero or one as a boolean. Every other element is refused.
    fn nova_bit(nf: NF) -> (r: Result<bool, SynthesisError>)
        ensures
            match r {
                Ok(b) => nf.val() == digit(b),
                Err(SynthesisError::Unsatisfiable(text)) => {
                    &&& nf.val() != 0
                    &&& nf.val() != 1
                    &&& text@ == "expected 0 or 1"@
                },
                Err(_) => false,
            },
    ;
}

/// The bridge for the scalar field of BN254.
#[derive(Clone, Copy, Debug, Default, PartialEq, Eq)]
pub struct Bn254Bridge;

impl FieldBridge<ArkFr, Fr> for Bn254Bridge {
    open spec fn ark_value(af: ArkFr) -> int {
        af.val()
    }

    fn ark_to_nova(af: ArkFr) -> (r: Fr) {
        let bytes = ark_serialize(af.limbs());
        match fr_from_repr(bytes) {
            Some(l) => match Fr::from_limbs(l) {
                Some(x) => x,
                None => Fr::zero(),
            },
            None => Fr::zero(),
        }
    }

    fn nova_to_ark(nf: Fr) -> (r: ArkFr) {
        let bytes = fr_to_repr(nf.limbs());
        let limbs = ark_from_le_bytes_mod_order(bytes);
        proof {
            nf.lemma_val();
            vstd::arithmetic::div_mod::lemma_small_mod(nf.val() as nat, scalar_modulus() as nat);
        }
        ArkFr { limbs }
    }

    fn nova_bit(nf: Fr) -> (r: Result<bool, SynthesisError>) {
        if nf.equals(Fr::zero()) {
            Ok(false)
        } else if nf.equals(Fr::one()) {
            Ok(true)
        } else {
            Err(SynthesisError::Unsatisfiable("expected 0 or 1".to_string()))
        }
    }
}

} // verus!
