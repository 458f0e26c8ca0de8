//! The SHA-256 circuit of arkworks as one step of a hash chain.
use ark_crypto_primitives::crh::sha256::constraints::Sha256Gadget;
use ark_crypto_primitives::crh::sha256::digest::Digest as _;
use ark_crypto_primitives::crh::sha256::Sha256;
use ark_r1cs_std::alloc::AllocVar as _;
use ark_r1cs_std::boolean::Boolean;
use ark_r1cs_std::convert::ToBitsGadget as _;
use ark_r1cs_std::eq::EqGadget as _;
use ark_r1cs_std::uint8::UInt8;
use ark_r1cs_std::R1CSVar as _;
use ark_relations::r1cs::ConstraintSystem as ArkConstraintSystem;
use ark_relations::r1cs::ConstraintSystemRef;
use ark_relations::r1cs::SynthesisError as ArkSynthesisError;
use vstd::prelude::*;
use crate::arith::fmul;
use crate::bn254::{scalar_modulus, Fr};
use crate::errors::SynthesisError;
use crate::field::{bits_value, vals, Field};
use crate::frontend::lemma_zero_diff;
use crate::gadgets::{all_binary, digit, digits};
use crate::packing::{
    bits_to_bytes, bytes_to_bits, digit_values, law_packing_is_injective, lemma_byte_bound, ones,
    packed,
};

verus! {

/// The error of an arkworks synthesis.
#[verifier::external_type_specification]
#[verifier::external_body]
pub struct ExArkSynthesisError(ArkSynthesisError);

/// A reference to an arkworks constraint system over the scalar field of BN254. What the system
/// holds changes through this reference alone.
#[verifier::external_body]
pub struct ArkCs {
    /// The system.
    pub inner: ConstraintSystemRef<ark_bn254::Fr>,
}

/// A boolean of an arkworks system.
#[verifier::external_body]
pub struct ArkBit {
    inner: Boolean<ark_bn254::Fr>,
}

/// A byte of an arkworks system.
#[verifier::external_body]
pub struct ArkByte {
    inner: UInt8<ark_bn254::Fr>,
}

/// Where a boolean comes from: which result of which call, counted from the first one that changed
/// the system, or something else.
pub enum ArkSource {
    Call(int, int),
    Other(int),
}

/// A call that changed a system, apart from values.
pub enum ArkCall {
    Witness,
    Digest(Seq<ArkSource>),
    Equal(ArkSource, ArkSource),
    Other(int),
}

/// What a reference to a system leads to.
#[verifier::ext_equal]
pub struct ArkState {
    /// The reference is not empty.
    pub present: bool,
    /// The values of variables are recorded. That is so outside setup mode.
    pub records: bool,
    /// Constraints are kept, so that there are matrices.
    pub keeps: bool,
    /// The mode was set before the first call and not changed after, nothing was written to the
    /// parts of the system but by calls, no symbolic combination was replaced yet, and none refers
    /// to the placeholder for zero.
    pub regular: bool,
    /// The system was regular until its symbolic combinations were replaced by what they stand for,
    /// as far as they are kept, and nothing was added after.
    pub inlined: bool,
    /// The calls that changed the system.
    pub calls: Seq<ArkCall>,
    /// The number of private variables.
    pub private: nat,
    /// The number of public variables, the constant one among them.
    pub public: nat,
    /// The number of constraints.
    pub constraints: nat,
    /// The values that are recorded for private variables, in the order of their allocation.
    pub witness: Seq<int>,
    /// The values that are recorded for public variables, in the order of their allocation.
    pub instance: Seq<int>,
}

impl ArkState {
    /// A new system, which records values and keeps its constraints, of which it has none. Its only
    /// variable is the constant one.
    pub open spec fn fresh() -> ArkState {
        ArkState {
            present: true,
            records: true,
            keeps: true,
            regular: true,
            inlined: false,
            calls: Seq::empty(),
            private: 0,
            public: 1,
            constraints: 0,
            witness: Seq::empty(),
            instance: seq![1int],
        }
    }

    /// A value is recorded for each variable.
    pub open spec fn complete(self) -> bool {
        self.witness.len() == self.private && self.instance.len() == self.public
    }

    /// Where values are recorded, there is one for each variable, so that each is found at the
    /// place of its variable.
    pub open spec fn consistent(self) -> bool {
        self.records ==> self.complete()
    }

    /// The recorded values of the public variables behind the constant one.
    pub open spec fn inputs(self) -> Seq<int> {
        self.instance.skip(1)
    }
}

/// What a reference to a system leads to.
pub uninterp spec fn ark_state(cs: ArkCs) -> ArkState;

/// Every constraint of the system holds modulo the order of the field, where the public variables
/// behind the constant one have the values `x`, and zero where `x` ends, and the private variables
/// have the values `w`.
pub uninterp spec fn ark_holds(cs: ArkCs, x: Seq<int>, w: Seq<int>) -> bool;

/// What is known of a boolean by itself.
pub struct ArkBitState {
    /// Its value.
    pub value: bool,
    /// It is a constant, or its system has recorded its value. A system keeps what it has recorded.
    pub known: bool,
    /// It is no constant, but a variable of a system.
    pub allocated: bool,
    /// Where it comes from.
    pub source: ArkSource,
}

/// What is known of a boolean by itself.
pub uninterp spec fn ark_bit_state(b: ArkBit) -> ArkBitState;

/// The value of a boolean where the variables of its system have the values `x` and `w`.
pub uninterp spec fn ark_bit_at(b: ArkBit, x: Seq<int>, w: Seq<int>) -> int;

/// The boolean is a constant or belongs to the system.
pub uninterp spec fn ark_bit_in(b: ArkBit, cs: ArkCs) -> bool;

/// What is known of a byte by itself.
pub struct ArkByteState {
    /// Its value.
    pub value: u8,
    /// The values of its digits are known.
    pub known: bool,
    /// Where its digits come from.
    pub sources: Seq<ArkSource>,
}

/// What is known of a byte by itself.
pub uninterp spec fn ark_byte_state(b: ArkByte) -> ArkByteState;

/// The digits of a byte where the variables of its system have the values `x` and `w`.
pub uninterp spec fn ark_byte_at(b: ArkByte, x: Seq<int>, w: Seq<int>) -> Seq<int>;

/// The digits of the byte are constants or belong to the system.
pub uninterp spec fn ark_byte_in(b: ArkByte, cs: ArkCs) -> bool;

/// The values that `Sha256Gadget::digest` records for the variables that it allocates, where it is
/// the last of the calls that changed the system, and the given bytes have the values `bytes`.
pub uninterp spec fn ark_digest_values(calls: Seq<ArkCall>, bytes: Seq<u8>) -> Seq<int>;

/// What `Sha256::digest` of `sha2` returns for a sequence of bytes.
pub uninterp spec fn sha256(bytes: Seq<u8>) -> Seq<u8>;

impl ArkCs {
    /// What the reference leads to.
    pub open spec fn view(self) -> ArkState {
        ark_state(self)
    }
}

impl ArkBit {
    /// What is known of the boolean by itself.
    pub open spec fn view(self) -> ArkBitState {
        ark_bit_state(self)
    }
}

impl ArkByte {
    /// What is known of the byte by itself.
    pub open spec fn view(self) -> ArkByteState {
        ark_byte_state(self)
    }
}

/// The values of booleans.
pub open spec fn bit_values(bits: Seq<ArkBit>) -> Seq<bool> {
    Seq::new(bits.len(), |i: int| bits[i]@.value)
}

/// The values of booleans under an assignment.
pub open spec fn bits_at(bits: Seq<ArkBit>, x: Seq<int>, w: Seq<int>) -> Seq<int> {
    Seq::new(bits.len(), |i: int| ark_bit_at(bits[i], x, w))
}

/// Where booleans come from.
pub open spec fn bit_sources(bits: Seq<ArkBit>) -> Seq<ArkSource> {
    Seq::new(bits.len(), |i: int| bits[i]@.source)
}

/// The values of all booleans are known.
pub open spec fn all_known(bits: Seq<ArkBit>) -> bool {
    forall|i: int| 0 <= i < bits.len() ==> (#[trigger] bits[i])@.known
}

/// All booleans are constants or belong to the system.
pub open spec fn all_in(bits: Seq<ArkBit>, cs: ArkCs) -> bool {
    forall|i: int| 0 <= i < bits.len() ==> ark_bit_in(#[trigger] bits[i], cs)
}

/// The values of bytes.
pub open spec fn byte_values(bytes: Seq<ArkByte>) -> Seq<u8> {
    Seq::new(bytes.len(), |i: int| bytes[i]@.value)
}

/// The digits of bytes under an assignment.
pub open spec fn bytes_at(bytes: Seq<ArkByte>, x: Seq<int>, w: Seq<int>) -> Seq<int> {
    Seq::new(8 * bytes.len(), |k: int| ark_byte_at(bytes[k / 8], x, w)[k % 8])
}

/// Where the digits of bytes come from.
pub open spec fn byte_sources(bytes: Seq<ArkByte>) -> Seq<ArkSource> {
    Seq::new(8 * bytes.len(), |k: int| bytes[k / 8]@.sources[k % 8])
}

/// The values of all bytes are known.
pub open spec fn all_bytes_known(bytes: Seq<ArkByte>) -> bool {
    forall|i: int| 0 <= i < bytes.len() ==> (#[trigger] bytes[i])@.known
}

/// All bytes are constants or belong to the system.
pub open spec fn all_bytes_in(bytes: Seq<ArkByte>, cs: ArkCs) -> bool {
    forall|i: int| 0 <= i < bytes.len() ==> ark_byte_in(#[trigger] bytes[i], cs)
}

/// Digits that come out are those of the digest of the digits that go in.
pub open spec fn digests(input: Seq<int>, output: Seq<int>) -> bool {
    let p = scalar_modulus();
    &&& all_binary(p, output)
    &&& packed(digits(p, output)) == sha256(packed(digits(p, input)))
}

/// `ConstraintSystem::new_ref` of `ark_relations`: a system that records values and keeps its
/// constraints, of which it has none, with the constant one for its only variable.
#[verifier::external_body]
fn ark_new_ref() -> (r: ArkCs)
    ensures
        ark_state(r) == ArkState::fresh(),
        forall|x: Seq<int>, w: Seq<int>| w.len() == 0 ==> #[trigger] ark_holds(r, x, w),
{
    ArkCs { inner: ArkConstraintSystem::new_ref() }
}

/// `is_none` of an `ark_relations` reference: whether it is empty.
#[verifier::external_body]
fn ark_is_none(cs: &ArkCs) -> (r: bool)
    ensures
        r == !cs@.present,
{
    cs.inner.is_none()
}

/// `Boolean::new_witness` of `ark_r1cs_std`: a new private variable with the given value, behind
/// those that the system has, and a constraint that its product with its complement vanishes. It
/// fails on an empty reference, and on a missing value where values are recorded; nothing else in
/// it fails.
#[verifier::external_body]
fn ark_new_witness(cs: &mut ArkCs, value: Option<bool>) -> (r: Result<ArkBit, ArkSynthesisError>)
    requires
        old(cs)@.consistent(),
    ensures
        r is Ok <==> old(cs)@.present && (old(cs)@.records ==> value is Some),
        r matches Ok(b) ==> {
            let n = old(cs)@.private as int;
            &&& final(cs)@ == (ArkState {
                inlined: false,
                calls: old(cs)@.calls.push(ArkCall::Witness),
                private: old(cs)@.private + 1,
                constraints: old(cs)@.constraints + 1,
                witness: if old(cs)@.records {
                    old(cs)@.witness.push(digit(value->0))
                } else {
                    old(cs)@.witness
                },
                ..old(cs)@
            })
            &&& value is Some ==> b@.value == value->0
            &&& ark_bit_state(b).known == old(cs)@.records
            &&& b@.allocated
            &&& b@.source == ArkSource::Call(old(cs)@.calls.len() as int, 0)
            &&& ark_bit_in(b, *final(cs))
            &&& forall|c: ArkBit|
                ark_bit_in(c, *old(cs)) ==> #[trigger] ark_bit_in(c, *final(cs))
            &&& forall|x: Seq<int>, w: Seq<int>|
                w.len() > n ==> #[trigger] ark_bit_at(b, x, w) == w[n]
            &&& forall|x: Seq<int>, w: Seq<int>|
                w.len() == n + 1 ==> (#[trigger] ark_holds(*final(cs), x, w) <==> ark_holds(
                    *old(cs),
                    x,
                    w.take(n),
                ) && ((1 - w[n]) * w[n]) % scalar_modulus() == 0)
        },
{
    let value = value.ok_or(ArkSynthesisError::AssignmentMissing);
    Ok(ArkBit { inner: Boolean::new_witness(cs.inner.clone(), || value)? })
}

/// `UInt8::from_bits_le` of `ark_r1cs_std`: the byte with the given binary digits, of which there
/// have to be eight.
#[verifier::external_body]
fn ark_from_bits_le(bits: &[ArkBit]) -> (r: ArkByte)
    requires
        bits@.len() == 8,
    ensures
        ark_byte_state(r).value == bits_value(bit_values(bits@)),
        r@.known == all_known(bits@),
        r@.sources == bit_sources(bits@),
        forall|cs: ArkCs| all_in(bits@, cs) ==> #[trigger] ark_byte_in(r, cs),
        forall|x: Seq<int>, w: Seq<int>| #[trigger] ark_byte_at(r, x, w) == bits_at(bits@, x, w),
{
    let bits: Vec<Boolean<ark_bn254::Fr>> = bits.iter().map(|b| b.inner.clone()).collect();
    ArkByte { inner: UInt8::from_bits_le(&bits) }
}

/// `Sha256Gadget::digest` of `ark_crypto_primitives`: the 32 bytes of a SHA-256 digest, the same as
/// `Sha256::digest` of `sha2` gives. It allocates private variables of its own behind those that
/// the system has, and adds constraints. Every assignment that satisfies them gives binary digits
/// for the digest of what the given bytes are under it, if these are binary; the recorded values
/// satisfy them, if they satisfied those before. Which variables and constraints it adds does not
/// depend on values. What it records for its variables depends on the calls so far, which tell
/// constants from variables among the digits, and on the values of the bytes alone. It does not
/// fail on bytes of a system, but stops the program where a value is missing that would have to be
/// recorded.
#[verifier::external_body]
fn ark_sha256_digest(cs: &mut ArkCs, bytes: &Vec<ArkByte>) -> (r: Result<
    Vec<ArkByte>,
    ArkSynthesisError,
>)
    requires
        bytes@.len() == 32,
        all_bytes_in(bytes@, *old(cs)),
        old(cs)@.present,
        old(cs)@.consistent(),
        old(cs)@.records ==> all_bytes_known(bytes@),
    ensures
        r is Ok,
        r matches Ok(d) ==> {
            let (s, t) = (old(cs)@, final(cs)@);
            &&& d@.len() == 32
            &&& byte_values(d@) == sha256(byte_values(bytes@))
            &&& s.records ==> all_bytes_known(d@)
            &&& all_bytes_in(d@, *final(cs))
            &&& byte_sources(d@) == Seq::new(
                256,
                |k: int| ArkSource::Call(s.calls.len() as int, k),
            )
            &&& t == (ArkState {
                inlined: false,
                calls: s.calls.push(ArkCall::Digest(byte_sources(bytes@))),
                private: t.private,
                constraints: t.constraints,
                witness: t.witness,
                ..s
            })
            &&& s.private <= t.private
            &&& s.constraints <= t.constraints
            &&& t.witness == (if s.records {
                s.witness + ark_digest_values(t.calls, byte_values(bytes@))
            } else {
                s.witness
            })
            &&& t.consistent()
            &&& forall|x: Seq<int>, w: Seq<int>|
                w.len() == t.private && #[trigger] ark_holds(*final(cs), x, w) ==> {
                    &&& ark_holds(*old(cs), x, w.take(s.private as int))
                    &&& all_binary(scalar_modulus(), bytes_at(bytes@, x, w)) ==> digests(
                        bytes_at(bytes@, x, w),
                        bytes_at(d@, x, w),
                    )
                }
            &&& forall|i: int, x: Seq<int>, w: Seq<int>|
                0 <= i < 32 && w.len() >= t.private ==> #[trigger] ark_byte_at(d@[i], x, w)
                    == ark_byte_at(d@[i], x, w.take(t.private as int))
            &&& s.records && ark_holds(*old(cs), s.inputs(), s.witness) ==> ark_holds(
                *final(cs),
                t.inputs(),
                t.witness,
            )
        },
{
    let bytes: Vec<UInt8<ark_bn254::Fr>> = bytes.iter().map(|b| b.inner.clone()).collect();
    let digest = Sha256Gadget::digest(&bytes)?;
    Ok(digest.0.into_iter().map(|inner| ArkByte { inner }).collect())
}

/// `to_bits_le` of an `ark_r1cs_std` byte: its eight binary digits, the lowest first. It hands out
/// the digits that the byte holds, and does not fail.
#[verifier::external_body]
fn ark_to_bits_le(byte: &ArkByte) -> (r: Result<Vec<ArkBit>, ArkSynthesisError>)
    ensures
        r is Ok,
        r matches Ok(bits) ==> {
            &&& bits@.len() == 8
            &&& bits_value(bit_values(bits@)) == byte@.value
            &&& byte@.known ==> all_known(bits@)
            &&& bit_sources(bits@) == byte@.sources
            &&& forall|cs: ArkCs| #[trigger] ark_byte_in(*byte, cs) ==> all_in(bits@, cs)
            &&& forall|x: Seq<int>, w: Seq<int>| #[trigger]
                bits_at(bits@, x, w) == ark_byte_at(*byte, x, w)
        },
{
    Ok(byte.inner.to_bits_le()?.into_iter().map(|inner| ArkBit { inner }).collect())
}

/// `value` of an `ark_r1cs_std` boolean: the value that it was allocated with, if that is known.
#[verifier::external_body]
fn ark_value(bit: &ArkBit) -> (r: Result<bool, ArkSynthesisError>)
    ensures
        r is Ok <==> bit@.known,
        r matches Ok(v) ==> v == bit@.value,
{
    bit.inner.value()
}

/// `enforce_equal` of `ark_r1cs_std` booleans: a constraint that they are equal, and no new
/// variable. On a variable of a system it does not fail.
#[verifier::external_body]
fn ark_enforce_equal(cs: &mut ArkCs, a: &ArkBit, b: &ArkBit) -> (r: Result<(), ArkSynthesisError>)
    requires
        ark_bit_in(*a, *old(cs)),
        ark_bit_in(*b, *old(cs)),
    ensures
        a@.allocated ==> r is Ok,
        r is Ok && a@.allocated ==> final(cs)@ == (ArkState {
            inlined: false,
            calls: old(cs)@.calls.push(ArkCall::Equal(a@.source, b@.source)),
            constraints: old(cs)@.constraints + 1,
            ..old(cs)@
        }),
        forall|c: ArkBit| ark_bit_in(c, *old(cs)) ==> #[trigger] ark_bit_in(c, *final(cs)),
        r is Ok ==> forall|x: Seq<int>, w: Seq<int>|
            w.len() == old(cs)@.private ==> (#[trigger] ark_holds(*final(cs), x, w) <==> ark_holds(
                *old(cs),
                x,
                w,
            ) && ark_bit_at(*a, x, w) % scalar_modulus() == ark_bit_at(*b, x, w)
                % scalar_modulus()),
{
    a.inner.enforce_equal(&b.inner)
}

/// `Sha256::digest` of `sha2`, which `ark_crypto_primitives` hands on: the digest of the bytes.
#[verifier::external_body]
fn sha256_digest(bytes: &[u8; 32]) -> (r: [u8; 32])
    ensures
        r@ == sha256(bytes@),
{
    Sha256::digest(bytes).into()
}

impl ArkCs {
    /// A new system that records values and keeps its constraints.
    pub fn new_ref() -> (r: Self)
        ensures
            r@ == ArkState::fresh(),
            forall|x: Seq<int>, w: Seq<int>| w.len() == 0 ==> #[trigger] ark_holds(r, x, w),
    {
        ark_new_ref()
    }
}

/// The digest of 256 binary digits, itself as binary digits.
pub fn compute_expected_hash<F: Field>(input_bits: &[F]) -> (r: Vec<F>)
    requires
        input_bits@.len() == 256,
    ensures
        r@.len() == 256,
        exists|bits: Seq<bool>|
            bits.len() == 256 && packed(bits) == sha256(packed(ones(vals(input_bits@)))) && vals(r@)
                == #[trigger] digit_values(bits),
{
    let input_bytes = bits_to_bytes(input_bits);
    let hash = sha256_digest(&input_bytes);
    bytes_to_bits(&hash)
}

/// One SHA-256 step: 256 binary digits in, the 256 of their digest out.
#[derive(Clone, Debug, Default, PartialEq, Eq)]
pub struct ArkSha256HashStep {
    /// The digits that go in. There are none when only the shape of the circuit is wanted.
    pub in_bits: Option<Vec<bool>>,
}

/// The digits of the digest of digits: the ones that pack to it.
pub open spec fn digest_digits(input: Seq<bool>) -> Seq<bool> {
    choose|output: Seq<bool>|
        output.len() == 256 && #[trigger] packed(output) == sha256(packed(input))
}

/// The values that a step records behind the given calls: the digits that go in, what the digest
/// needs, and the digits that come out.
pub open spec fn step_values(calls: Seq<ArkCall>, input: Seq<bool>) -> Seq<int> {
    digit_values(input) + ark_digest_values(digest_calls(calls), packed(input)) + digit_values(
        digest_digits(input),
    )
}

/// Values of private variables, of which the first `n` are not those of the step: the next 256 are
/// binary digits, and the last 256 are those of their digest.
pub open spec fn step_relation(n: int, w: Seq<int>) -> bool {
    let input = w.subrange(n, n + 256);
    let output = w.subrange(w.len() - 256, w.len() as int);
    &&& w.len() >= n + 512
    &&& all_binary(scalar_modulus(), input)
    &&& digests(input, output)
}

/// The calls that allocate digits.
pub open spec fn input_calls(calls: Seq<ArkCall>, n: nat) -> Seq<ArkCall> {
    calls + Seq::new(n, |i: int| ArkCall::Witness)
}

/// Where digits come from that calls behind the first `n` ones allocate.
pub open spec fn input_sources(n: int) -> Seq<ArkSource> {
    Seq::new(256, |i: int| ArkSource::Call(n + i, 0))
}

/// Where the digits of a digest come from that call `n` gives.
pub open spec fn digest_sources(n: int) -> Seq<ArkSource> {
    Seq::new(256, |k: int| ArkSource::Call(n, k))
}

/// The calls that allocate a digit for each of the given ones, and demand that it equals it.
pub open spec fn output_calls(calls: Seq<ArkCall>, sources: Seq<ArkSource>, n: nat) -> Seq<
    ArkCall,
>
    decreases n,
{
    if n == 0 {
        calls
    } else {
        let before = output_calls(calls, sources, (n - 1) as nat);
        let source = ArkSource::Call(before.len() as int, 0);
        before.push(ArkCall::Witness).push(ArkCall::Equal(source, sources[n - 1]))
    }
}

/// The calls of a step up to the digest.
pub open spec fn digest_calls(calls: Seq<ArkCall>) -> Seq<ArkCall> {
    input_calls(calls, 256).push(ArkCall::Digest(input_sources(calls.len() as int)))
}

/// The calls of a step. They do not depend on the digits that go in.
pub open spec fn step_calls(calls: Seq<ArkCall>) -> Seq<ArkCall> {
    output_calls(digest_calls(calls), digest_sources(calls.len() as int + 256), 256)
}

/// What a step makes of a system: no public variable is added, the calls are those of the step,
/// every assignment that satisfies the constraints satisfies those before and the relation of the
/// step, and the recorded values satisfy them if they did before.
pub open spec fn stepped(before: ArkCs, after: ArkCs, input: Seq<bool>) -> bool {
    let (s, t) = (before@, after@);
    &&& t == (ArkState {
        inlined: false,
        calls: step_calls(s.calls),
        private: t.private,
        constraints: t.constraints,
        witness: t.witness,
        ..s
    })
    &&& t.private >= s.private + 512
    &&& t.constraints >= s.constraints + 768
    &&& forall|x: Seq<int>, w: Seq<int>|
        w.len() == t.private && #[trigger] ark_holds(after, x, w) ==> ark_holds(
            before,
            x,
            w.take(s.private as int),
        ) && step_relation(s.private as int, w)
    &&& t.witness == (if s.records {
        s.witness + step_values(s.calls, input)
    } else {
        s.witness
    })
    &&& s.records ==> digest_digits(input).len() == 256 && packed(digest_digits(input)) == sha256(
        packed(input),
    )
    &&& t.consistent()
    &&& s.records && ark_holds(before, s.inputs(), s.witness) ==> ark_holds(
        after,
        t.inputs(),
        t.witness,
    )
}

impl ArkSha256HashStep {
    /// The step whose shape is wanted.
    pub fn new_setup() -> (r: Self)
        ensures
            r.in_bits is None,
    {
        ArkSha256HashStep { in_bits: None }
    }

    /// The step on the given digits, of which there have to be 256.
    pub fn new_witness(in_bits: Vec<bool>) -> (r: Self)
        requires
            in_bits@.len() == 256,
        ensures
            r.in_bits == Some(in_bits),
    {
        ArkSha256HashStep { in_bits: Some(in_bits) }
    }

    /// The digits that the circuit is synthesized on: zeros where there are none.
    pub open spec fn input(self) -> Seq<bool> {
        match self.in_bits {
            Some(v) => v@.take(256),
            None => Seq::new(256, |i: int| false),
        }
    }

    /// Digits are given, but fewer than the circuit needs.
    pub open spec fn too_short(self) -> bool {
        match self.in_bits {
            Some(v) => v@.len() < 256,
            None => false,
        }
    }

    /// Synthesizes the circuit. The digits that go in are allocated first and those that come out
    /// last, so that both are found by their place.
    pub fn generate_constraints(self, cs: &mut ArkCs) -> (r: Result<(), SynthesisError>)
        requires
            old(cs)@.consistent(),
        ensures
            match r {
                Ok(()) => old(cs)@.present && (old(cs)@.records ==> !self.too_short()) && stepped(
                    *old(cs),
                    *final(cs),
                    self.input(),
                ),
                Err(SynthesisError::MissingCS) => !old(cs)@.present,
                Err(SynthesisError::AssignmentMissing) => old(cs)@.present && old(cs)@.records
                    && self.too_short(),
                Err(_) => false,
            },
    {
        if ark_is_none(cs) {
            return Err(SynthesisError::MissingCS);
        }
        let ghost start = *cs;
        let input_bits = match alloc_input(&self.in_bits, cs) {
            Ok(bits) => bits,
            Err(_) => {
                return Err(SynthesisError::AssignmentMissing);
            },
        };
        let ghost ready = *cs;
        let input_bytes = pack(&input_bits, Ghost(*cs));
        let digest = match ark_sha256_digest(cs, &input_bytes) {
            Ok(d) => d,
            Err(_) => {
                return Err(SynthesisError::AssignmentMissing);
            },
        };
        let ghost digested = *cs;
        let digest_bits = match unpack(&digest, Ghost(*cs)) {
            Ok(bits) => bits,
            Err(_) => {
                return Err(SynthesisError::AssignmentMissing);
            },
        };
        proof {
            assert forall|i: int, x: Seq<int>, w: Seq<int>|
                0 <= i < 256 && w.len() >= digested@.private implies #[trigger] ark_bit_at(
                digest_bits@[i],
                x,
                w,
            ) == ark_bit_at(digest_bits@[i], x, w.take(digested@.private as int)) by {
                let v = w.take(digested@.private as int);
                assert(bits_at(digest_bits@, x, w)[i] == bytes_at(digest@, x, w)[i]);
                assert(bits_at(digest_bits@, x, v)[i] == bytes_at(digest@, x, v)[i]);
            }
        }
        match alloc_output(&digest_bits, cs) {
            Ok(()) => {},
            Err(_) => {
                return Err(SynthesisError::AssignmentMissing);
            },
        }
        proof {
            lemma_step(
                start,
                ready,
                digested,
                *cs,
                self.input(),
                input_bits@,
                input_bytes@,
                digest@,
                digest_bits@,
            );
        }
        Ok(())
    }
}

/// What allocating the digits that go in makes of a system.
spec fn with_inputs(before: ArkCs, after: ArkCs, bits: Seq<ArkBit>, input: Seq<bool>, n: nat) -> bool {
    let (s, t) = (before@, after@);
    &&& bits.len() == n
    &&& t == (ArkState {
        inlined: s.inlined && n == 0,
        calls: input_calls(s.calls, n),
        private: s.private + n,
        constraints: s.constraints + n,
        witness: if s.records {
            s.witness + digit_values(input).take(n as int)
        } else {
            s.witness
        },
        ..s
    })
    &&& all_in(bits, after)
    &&& s.records ==> all_known(bits)
    &&& s.records ==> forall|i: int| 0 <= i < n ==> (#[trigger] bits[i])@.value == input[i]
    &&& forall|i: int|
        0 <= i < n ==> (#[trigger] bits[i])@.source == ArkSource::Call(s.calls.len() + i, 0)
    &&& forall|i: int, x: Seq<int>, w: Seq<int>|
        0 <= i < n && w.len() > s.private + i ==> #[trigger] ark_bit_at(bits[i], x, w)
            == w[s.private + i]
    &&& forall|x: Seq<int>, w: Seq<int>|
        w.len() == s.private + n ==> (#[trigger] ark_holds(after, x, w) <==> ark_holds(
            before,
            x,
            w.take(s.private as int),
        ) && all_binary(scalar_modulus(), w.skip(s.private as int)))
}

/// What vanishes with its complement as a factor is zero or one.
proof fn lemma_binary(v: int)
    ensures
        ((1 - v) * v) % scalar_modulus() == 0 <==> v % scalar_modulus() == 0 || v
            % scalar_modulus() == 1,
{
    let p = scalar_modulus();
    Fr::lemma_no_zero_divisors();
    vstd::arithmetic::div_mod::lemma_small_mod(0, p as nat);
    vstd::arithmetic::div_mod::lemma_small_mod(1, p as nat);
    if ((1 - v) * v) % p == 0 {
        assert(fmul(p, 1 - v, v) == 0);
        if (1 - v) % p == 0 {
            lemma_zero_diff(p, 1, v);
        }
    }
    if v % p == 0 {
        crate::arith::lemma_cong_mul(p, 1 - v, v, 1 - v, 0);
        assert((1 - v) * 0 == 0) by (nonlinear_arith);
    }
    if v % p == 1 {
        crate::arith::lemma_cong_sub(p, 1, v, 1, 1);
        crate::arith::lemma_cong_mul(p, 1 - v, v, 0, v);
        assert(0 * v == 0) by (nonlinear_arith);
    }
}

/// Allocates the digits that go in. It fails where a digit is missing that would be recorded.
fn alloc_input(in_bits: &Option<Vec<bool>>, cs: &mut ArkCs) -> (r: Result<
    Vec<ArkBit>,
    ArkSynthesisError,
>)
    requires
        old(cs)@.present,
        old(cs)@.consistent(),
    ensures
        r is Ok <==> (old(cs)@.records ==> !(ArkSha256HashStep { in_bits: *in_bits }.too_short())),
        r matches Ok(bits) ==> with_inputs(
            *old(cs),
            *final(cs),
            bits@,
            ArkSha256HashStep { in_bits: *in_bits }.input(),
            256,
        ),
{
    let ghost start = *cs;
    let ghost zeros = Seq::new(256, |i: int| false);
    let ghost input = match in_bits {
        Some(v) => v@,
        None => zeros,
    };
    let mut bits: Vec<ArkBit> = Vec::new();
    let mut i: usize = 0;
    proof {
        let s = cs@;
        assert(s.witness + digit_values(input).take(0) =~= s.witness);
        assert(input_calls(s.calls, 0) =~= s.calls);
        assert forall|x: Seq<int>, w: Seq<int>| w.len() == s.private implies (#[trigger] ark_holds(
            *cs,
            x,
            w,
        ) <==> ark_holds(start, x, w.take(s.private as int)) && all_binary(
            scalar_modulus(),
            w.skip(s.private as int),
        )) by {
            assert(w.take(s.private as int) =~= w);
        }
        assert(with_inputs(start, *cs, bits@, input, 0));
    }
    while i < 256
        invariant
            i <= 256,
            start == *old(cs),
            start@.present,
            start@.consistent(),
            zeros == Seq::new(256, |i: int| false),
            input == (match in_bits {
                Some(v) => v@,
                None => zeros,
            }),
            start@.records ==> (in_bits matches Some(v) ==> v@.len() >= i),
            with_inputs(start, *cs, bits@, input, i as nat),
        decreases 256 - i,
    {
        let ghost (before, mid) = (bits@, *cs);
        let value = match in_bits {
            Some(v) => if i < v.len() {
                Some(v[i])
            } else {
                None
            },
            None => Some(false),
        };
        match ark_new_witness(cs, value) {
            Ok(b) => bits.push(b),
            Err(e) => {
                return Err(e);
            },
        }
        proof {
            lemma_next_input(start, mid, *cs, before, bits@.last(), input, i as nat);
            assert(bits@ =~= before.push(bits@.last()));
        }
        i += 1;
    }
    proof {
        if start@.records {
            let given = ArkSha256HashStep { in_bits: *in_bits }.input();
            assert(digit_values(given).take(256) =~= digit_values(input).take(256));
            assert forall|j: int| 0 <= j < 256 implies (#[trigger] bits@[j])@.value == given[j] by {
                assert(bits@[j]@.value == input[j]);
            }
        }
    }
    Ok(bits)
}

/// One more digit that goes in.
proof fn lemma_next_input(
    start: ArkCs,
    mid: ArkCs,
    end: ArkCs,
    bits: Seq<ArkBit>,
    b: ArkBit,
    input: Seq<bool>,
    i: nat,
)
    requires
        with_inputs(start, mid, bits, input, i),
        start@.records ==> i < input.len(),
        end@ == (ArkState {
            inlined: false,
            calls: mid@.calls.push(ArkCall::Witness),
            private: mid@.private + 1,
            constraints: mid@.constraints + 1,
            witness: if mid@.records {
                mid@.witness.push(digit(input[i as int]))
            } else {
                mid@.witness
            },
            ..mid@
        }),
        mid@.records ==> b@.known && b@.value == input[i as int],
        b@.source == ArkSource::Call(mid@.calls.len() as int, 0),
        ark_bit_in(b, end),
        forall|c: ArkBit| ark_bit_in(c, mid) ==> #[trigger] ark_bit_in(c, end),
        forall|x: Seq<int>, w: Seq<int>|
            w.len() > mid@.private ==> #[trigger] ark_bit_at(b, x, w) == w[mid@.private as int],
        forall|x: Seq<int>, w: Seq<int>|
            w.len() == mid@.private + 1 ==> (#[trigger] ark_holds(end, x, w) <==> ark_holds(
                mid,
                x,
                w.take(mid@.private as int),
            ) && ((1 - w[mid@.private as int]) * w[mid@.private as int]) % scalar_modulus() == 0),
    ensures
        with_inputs(start, end, bits.push(b), input, i + 1),
{
    let s = start@;
    let p = scalar_modulus();
    let all = bits.push(b);
    assert(input_calls(s.calls, i + 1) =~= input_calls(s.calls, i).push(ArkCall::Witness));
    if s.records {
        let d = digit_values(input);
        assert(s.witness + d.take(i as int + 1) =~= (s.witness + d.take(i as int)).push(
            digit(input[i as int]),
        ));
    }
    assert(end@ =~= (ArkState {
        inlined: false,
        calls: input_calls(s.calls, i + 1),
        private: s.private + (i + 1),
        constraints: s.constraints + (i + 1),
        witness: if s.records {
            s.witness + digit_values(input).take(i as int + 1)
        } else {
            s.witness
        },
        ..s
    }));
    assert(all_in(all, end)) by {
        assert forall|j: int| 0 <= j < all.len() implies ark_bit_in(#[trigger] all[j], end) by {
            if j < i {
                assert(ark_bit_in(bits[j], mid));
            }
        }
    }
    if s.records {
        assert forall|j: int| 0 <= j < all.len() implies (#[trigger] all[j])@.known && all[j]@.value
            == input[j] by {
            if j < i {
                assert(bits[j]@.known && bits[j]@.value == input[j]);
            }
        }
    }
    assert forall|j: int| 0 <= j < i + 1 implies (#[trigger] all[j])@.source == ArkSource::Call(
        s.calls.len() + j,
        0,
    ) by {
        if j < i {
            assert(all[j] == bits[j]);
        }
    }
    assert forall|j: int, x: Seq<int>, w: Seq<int>|
        0 <= j < i + 1 && w.len() > s.private + j implies #[trigger] ark_bit_at(all[j], x, w)
        == w[s.private + j] by {
        if j < i {
            assert(all[j] == bits[j]);
        }
    }
    assert forall|x: Seq<int>, w: Seq<int>| w.len() == s.private + (i + 1) implies (
    #[trigger] ark_holds(end, x, w) <==> ark_holds(start, x, w.take(s.private as int))
        && all_binary(p, w.skip(s.private as int))) by {
        let n = mid@.private as int;
        let v = w.take(n);
        lemma_binary(w[n]);
        assert(v.take(s.private as int) =~= w.take(s.private as int));
        let (a, c) = (w.skip(s.private as int), v.skip(s.private as int));
        if all_binary(p, a) {
            assert(a[i as int] == w[n]);
            assert forall|j: int| 0 <= j < c.len() implies #[trigger] c[j] % p == 0 || c[j] % p
                == 1 by {
                assert(a[j] == c[j]);
            }
        }
        if all_binary(p, c) && (w[n] % p == 0 || w[n] % p == 1) {
            assert forall|j: int| 0 <= j < a.len() implies #[trigger] a[j] % p == 0 || a[j] % p
                == 1 by {
                if j < i {
                    assert(a[j] == c[j]);
                }
            }
        }
    }
}

/// Packs 256 digits of a system into 32 bytes.
fn pack(bits: &Vec<ArkBit>, Ghost(cs): Ghost<ArkCs>) -> (r: Vec<ArkByte>)
    requires
        bits@.len() == 256,
        all_in(bits@, cs),
    ensures
        r@.len() == 32,
        byte_values(r@) == packed(bit_values(bits@)),
        all_known(bits@) ==> all_bytes_known(r@),
        all_bytes_in(r@, cs),
        byte_sources(r@) == bit_sources(bits@),
        forall|x: Seq<int>, w: Seq<int>| #[trigger] bytes_at(r@, x, w) == bits_at(bits@, x, w),
{
    let ghost d = bit_values(bits@);
    let mut bytes: Vec<ArkByte> = Vec::new();
    let mut i: usize = 0;
    while i < 32
        invariant
            i <= 32,
            bits@.len() == 256,
            all_in(bits@, cs),
            d == bit_values(bits@),
            bytes@.len() == i,
            forall|j: int| 0 <= j < i ==> (#[trigger] bytes@[j])@.value == packed(d)[j],
            all_known(bits@) ==> all_bytes_known(bytes@),
            all_bytes_in(bytes@, cs),
            forall|j: int|
                0 <= j < i ==> (#[trigger] bytes@[j])@.sources == bit_sources(bits@).subrange(
                    8 * j,
                    8 * j + 8,
                ),
            forall|j: int, x: Seq<int>, w: Seq<int>|
                0 <= j < i ==> #[trigger] ark_byte_at(bytes@[j], x, w) == bits_at(
                    bits@,
                    x,
                    w,
                ).subrange(8 * j, 8 * j + 8),
        decreases 32 - i,
    {
        let chunk = vstd::slice::slice_subrange(bits.as_slice(), 8 * i, 8 * i + 8);
        let ghost before = bytes@;
        proof {
            assert(bit_values(chunk@) =~= d.subrange(8 * i as int, 8 * i + 8));
            lemma_byte_bound(d.subrange(8 * i as int, 8 * i + 8));
            assert forall|k: int| 0 <= k < 8 implies ark_bit_in(#[trigger] chunk@[k], cs) by {
                assert(chunk@[k] == bits@[8 * i + k]);
            }
            if all_known(bits@) {
                assert forall|k: int| 0 <= k < 8 implies (#[trigger] chunk@[k])@.known by {
                    assert(chunk@[k] == bits@[8 * i + k]);
                }
            }
            assert(bit_sources(chunk@) =~= bit_sources(bits@).subrange(8 * i as int, 8 * i + 8));
        }
        let byte = ark_from_bits_le(chunk);
        bytes.push(byte);
        proof {
            assert forall|x: Seq<int>, w: Seq<int>| #[trigger] ark_byte_at(byte, x, w) == bits_at(
                bits@,
                x,
                w,
            ).subrange(8 * i as int, 8 * i + 8) by {
                assert(bits_at(chunk@, x, w) =~= bits_at(bits@, x, w).subrange(
                    8 * i as int,
                    8 * i + 8,
                ));
            }
            assert forall|j: int, x: Seq<int>, w: Seq<int>|
                0 <= j < i + 1 implies #[trigger] ark_byte_at(bytes@[j], x, w) == bits_at(
                bits@,
                x,
                w,
            ).subrange(8 * j, 8 * j + 8) by {
                if j < i {
                    assert(bytes@[j] == before[j]);
                }
            }
        }
        i += 1;
    }
    proof {
        assert(byte_values(bytes@) =~= packed(d));
        assert forall|k: int| 0 <= k < 256 implies #[trigger] byte_sources(bytes@)[k]
            == bit_sources(bits@)[k] by {
            assert(bytes@[k / 8]@.sources == bit_sources(bits@).subrange(
                8 * (k / 8),
                8 * (k / 8) + 8,
            ));
        }
        assert(byte_sources(bytes@) =~= bit_sources(bits@));
        assert forall|x: Seq<int>, w: Seq<int>| #[trigger] bytes_at(bytes@, x, w) == bits_at(
            bits@,
            x,
            w,
        ) by {
            let (u, v) = (bytes_at(bytes@, x, w), bits_at(bits@, x, w));
            assert forall|k: int| 0 <= k < 256 implies #[trigger] u[k] == v[k] by {
                assert(ark_byte_at(bytes@[k / 8], x, w) == v.subrange(
                    8 * (k / 8),
                    8 * (k / 8) + 8,
                ));
            }
            assert(u =~= v);
        }
    }
    bytes
}

/// Unpacks 32 bytes of a system into 256 digits. It does not fail.
fn unpack(bytes: &Vec<ArkByte>, Ghost(cs): Ghost<ArkCs>) -> (r: Result<
    Vec<ArkBit>,
    ArkSynthesisError,
>)
    requires
        bytes@.len() == 32,
        all_bytes_in(bytes@, cs),
    ensures
        r is Ok,
        r matches Ok(bits) ==> {
            &&& bits@.len() == 256
            &&& packed(bit_values(bits@)) == byte_values(bytes@)
            &&& all_bytes_known(bytes@) ==> all_known(bits@)
            &&& all_in(bits@, cs)
            &&& bit_sources(bits@) == byte_sources(bytes@)
            &&& forall|x: Seq<int>, w: Seq<int>| #[trigger]
                bits_at(bits@, x, w) == bytes_at(bytes@, x, w)
        },
{
    let mut bits: Vec<ArkBit> = Vec::new();
    let mut i: usize = 0;
    while i < 32
        invariant
            i <= 32,
            bytes@.len() == 32,
            all_bytes_in(bytes@, cs),
            bits@.len() == 8 * i,
            forall|j: int|
                0 <= j < i ==> bits_value(
                    #[trigger] bit_values(bits@).subrange(8 * j, 8 * j + 8),
                ) == bytes@[j]@.value,
            all_bytes_known(bytes@) ==> all_known(bits@),
            all_in(bits@, cs),
            forall|k: int| 0 <= k < 8 * i ==> (#[trigger] bits@[k])@.source == byte_sources(
                bytes@,
            )[k],
            forall|k: int, x: Seq<int>, w: Seq<int>|
                0 <= k < 8 * i ==> #[trigger] ark_bit_at(bits@[k], x, w) == bytes_at(
                    bytes@,
                    x,
                    w,
                )[k],
        decreases 32 - i,
    {
        let ghost before = bits@;
        let mut byte_bits = match ark_to_bits_le(&bytes[i]) {
            Ok(b) => b,
            Err(e) => {
                return Err(e);
            },
        };
        let ghost added = byte_bits@;
        bits.append(&mut byte_bits);
        proof {
            let all = bit_values(bits@);
            assert(bits@ =~= before + added);
            assert(all =~= bit_values(before) + bit_values(added));
            assert forall|j: int| 0 <= j < i + 1 implies bits_value(
                #[trigger] all.subrange(8 * j, 8 * j + 8),
            ) == bytes@[j]@.value by {
                if j < i {
                    assert(all.subrange(8 * j, 8 * j + 8) =~= bit_values(before).subrange(
                        8 * j,
                        8 * j + 8,
                    ));
                } else {
                    assert(all.subrange(8 * j, 8 * j + 8) =~= bit_values(added));
                }
            }
            assert(ark_byte_in(bytes@[i as int], cs));
            assert forall|k: int| 0 <= k < 8 * (i + 1) implies ark_bit_in(#[trigger] bits@[k], cs)
                && bits@[k]@.source == byte_sources(bytes@)[k] && (all_bytes_known(bytes@)
                ==> bits@[k]@.known) by {
                if k < 8 * i {
                    assert(bits@[k] == before[k]);
                } else {
                    assert(bits@[k] == added[k - 8 * i]);
                    assert(bit_sources(added)[k - 8 * i] == bytes@[i as int]@.sources[k - 8 * i]);
                    if all_bytes_known(bytes@) {
                        assert(bytes@[i as int]@.known);
                    }
                }
            }
            assert forall|k: int, x: Seq<int>, w: Seq<int>|
                0 <= k < 8 * (i + 1) implies #[trigger] ark_bit_at(bits@[k], x, w) == bytes_at(
                bytes@,
                x,
                w,
            )[k] by {
                if k < 8 * i {
                    assert(bits@[k] == before[k]);
                } else {
                    assert(bits@[k] == added[k - 8 * i]);
                    assert(bits_at(added, x, w)[k - 8 * i] == ark_byte_at(
                        bytes@[i as int],
                        x,
                        w,
                    )[k - 8 * i]);
                }
            }
        }
        i += 1;
    }
    proof {
        let d = bit_values(bits@);
        assert forall|j: int| 0 <= j < 32 implies packed(d)[j] == byte_values(bytes@)[j] by {
            assert(bits_value(d.subrange(8 * j, 8 * j + 8)) == bytes@[j]@.value);
        }
        assert(packed(d) =~= byte_values(bytes@));
        assert(bit_sources(bits@) =~= byte_sources(bytes@));
        assert forall|x: Seq<int>, w: Seq<int>| #[trigger] bits_at(bits@, x, w) == bytes_at(
            bytes@,
            x,
            w,
        ) by {
            assert(bits_at(bits@, x, w) =~= bytes_at(bytes@, x, w));
        }
    }
    Ok(bits)
}

/// The values of the booleans do not depend on variables past the first `n`.
pub open spec fn settled(bits: Seq<ArkBit>, n: int) -> bool {
    forall|i: int, x: Seq<int>, w: Seq<int>|
        0 <= i < bits.len() && w.len() >= n ==> #[trigger] ark_bit_at(bits[i], x, w)
            == ark_bit_at(bits[i], x, w.take(n))
}

/// The values equal those of the booleans, and are zero or one.
pub open spec fn copies(bits: Seq<ArkBit>, x: Seq<int>, w: Seq<int>, n: int, k: int) -> bool {
    let p = scalar_modulus();
    forall|j: int|
        0 <= j < k ==> {
            &&& #[trigger] w[n + j] % p == ark_bit_at(bits[j], x, w.take(n)) % p
            &&& w[n + j] % p == 0 || w[n + j] % p == 1
        }
}

/// What allocating the digits that come out makes of a system.
spec fn with_outputs(before: ArkCs, after: ArkCs, bits: Seq<ArkBit>, k: nat) -> bool {
    let (s, t) = (before@, after@);
    &&& k <= bits.len()
    &&& t == (ArkState {
        inlined: s.inlined && k == 0,
        calls: output_calls(s.calls, bit_sources(bits), k),
        private: s.private + k,
        constraints: s.constraints + 2 * k,
        witness: if s.records {
            s.witness + digit_values(bit_values(bits)).take(k as int)
        } else {
            s.witness
        },
        ..s
    })
    &&& all_in(bits, after)
    &&& forall|x: Seq<int>, w: Seq<int>|
        w.len() == s.private + k ==> (#[trigger] ark_holds(after, x, w) <==> ark_holds(
            before,
            x,
            w.take(s.private as int),
        ) && copies(bits, x, w, s.private as int, k as int))
}

/// Allocates the digits that come out, and demands that they equal the given ones. It fails where a
/// value is not known that would be recorded.
fn alloc_output(bits: &Vec<ArkBit>, cs: &mut ArkCs) -> (r: Result<(), ArkSynthesisError>)
    requires
        old(cs)@.present,
        old(cs)@.consistent(),
        all_in(bits@, *old(cs)),
        settled(bits@, old(cs)@.private as int),
    ensures
        r is Ok <==> (old(cs)@.records ==> all_known(bits@)),
        r is Ok ==> with_outputs(*old(cs), *final(cs), bits@, bits@.len()),
{
    let ghost start = *cs;
    let mut i: usize = 0;
    proof {
        let s = cs@;
        let d = digit_values(bit_values(bits@));
        assert(s.witness + d.take(0) =~= s.witness);
        assert forall|x: Seq<int>, w: Seq<int>| w.len() == s.private implies (#[trigger] ark_holds(
            *cs,
            x,
            w,
        ) <==> ark_holds(start, x, w.take(s.private as int)) && copies(
            bits@,
            x,
            w,
            s.private as int,
            0,
        )) by {
            assert(w.take(s.private as int) =~= w);
        }
        assert(with_outputs(start, *cs, bits@, 0));
    }
    while i < bits.len()
        invariant
            i <= bits@.len(),
            start == *old(cs),
            start@.present,
            start@.consistent(),
            settled(bits@, start@.private as int),
            start@.records ==> forall|j: int| 0 <= j < i ==> (#[trigger] bits@[j])@.known,
            with_outputs(start, *cs, bits@, i as nat),
        decreases bits@.len() - i,
    {
        let ghost mid = *cs;
        let value = match ark_value(&bits[i]) {
            Ok(v) => Some(v),
            Err(_) => None,
        };
        let out = match ark_new_witness(cs, value) {
            Ok(b) => b,
            Err(e) => {
                return Err(e);
            },
        };
        let ghost allocated = *cs;
        assert(ark_bit_in(bits@[i as int], mid));
        match ark_enforce_equal(cs, &out, &bits[i]) {
            Ok(()) => {},
            Err(e) => {
                return Err(e);
            },
        }
        proof {
            lemma_next_output(start, mid, allocated, *cs, bits@, out, i as nat);
        }
        i += 1;
    }
    Ok(())
}

/// One more digit that comes out.
proof fn lemma_next_output(
    start: ArkCs,
    mid: ArkCs,
    allocated: ArkCs,
    end: ArkCs,
    bits: Seq<ArkBit>,
    out: ArkBit,
    i: nat,
)
    requires
        with_outputs(start, mid, bits, i),
        i < bits.len(),
        settled(bits, start@.private as int),
        start@.records ==> bits[i as int]@.known,
        allocated@ == (ArkState {
            inlined: false,
            calls: mid@.calls.push(ArkCall::Witness),
            private: mid@.private + 1,
            constraints: mid@.constraints + 1,
            witness: if mid@.records {
                mid@.witness.push(digit(bits[i as int]@.value))
            } else {
                mid@.witness
            },
            ..mid@
        }),
        out@.source == ArkSource::Call(mid@.calls.len() as int, 0),
        forall|c: ArkBit| ark_bit_in(c, mid) ==> #[trigger] ark_bit_in(c, allocated),
        forall|c: ArkBit| ark_bit_in(c, allocated) ==> #[trigger] ark_bit_in(c, end),
        forall|x: Seq<int>, w: Seq<int>|
            w.len() > mid@.private ==> #[trigger] ark_bit_at(out, x, w) == w[mid@.private as int],
        forall|x: Seq<int>, w: Seq<int>|
            w.len() == mid@.private + 1 ==> (#[trigger] ark_holds(allocated, x, w) <==> ark_holds(
                mid,
                x,
                w.take(mid@.private as int),
            ) && ((1 - w[mid@.private as int]) * w[mid@.private as int]) % scalar_modulus() == 0),
        end@ == (ArkState {
            inlined: false,
            calls: allocated@.calls.push(
                ArkCall::Equal(out@.source, bits[i as int]@.source),
            ),
            constraints: allocated@.constraints + 1,
            ..allocated@
        }),
        forall|x: Seq<int>, w: Seq<int>|
            w.len() == allocated@.private ==> (#[trigger] ark_holds(end, x, w) <==> ark_holds(
                allocated,
                x,
                w,
            ) && ark_bit_at(out, x, w) % scalar_modulus() == ark_bit_at(bits[i as int], x, w)
                % scalar_modulus()),
    ensures
        with_outputs(start, end, bits, i + 1),
{
    let s = start@;
    let p = scalar_modulus();
    let d = digit_values(bit_values(bits));
    if s.records {
        assert(s.witness + d.take(i as int + 1) =~= (s.witness + d.take(i as int)).push(
            digit(bits[i as int]@.value),
        ));
    }
    assert(output_calls(s.calls, bit_sources(bits), i + 1) =~= end@.calls) by {
        assert(bit_sources(bits)[i as int] == bits[i as int]@.source);
    }
    assert(end@ =~= (ArkState {
        inlined: false,
        calls: output_calls(s.calls, bit_sources(bits), i + 1),
        private: s.private + (i + 1),
        constraints: s.constraints + 2 * (i + 1),
        witness: if s.records {
            s.witness + d.take(i as int + 1)
        } else {
            s.witness
        },
        ..s
    }));
    assert forall|j: int| 0 <= j < bits.len() implies ark_bit_in(#[trigger] bits[j], end) by {
        assert(ark_bit_in(bits[j], mid));
        assert(ark_bit_in(bits[j], allocated));
    }
    assert forall|x: Seq<int>, w: Seq<int>| w.len() == s.private + (i + 1) implies (
    #[trigger] ark_holds(end, x, w) <==> ark_holds(start, x, w.take(s.private as int)) && copies(
        bits,
        x,
        w,
        s.private as int,
        i as int + 1,
    )) by {
        let (m, n) = (s.private as int, mid@.private as int);
        let v = w.take(n);
        lemma_binary(w[n]);
        assert(v.take(m) =~= w.take(m));
        assert(ark_bit_at(bits[i as int], x, w) == ark_bit_at(bits[i as int], x, w.take(m)));
        assert(ark_bit_at(out, x, w) == w[n]);
        if copies(bits, x, w, m, i as int + 1) {
            assert(w[m + i] == w[n]);
            assert forall|j: int| 0 <= j < i implies {
                &&& #[trigger] v[m + j] % p == ark_bit_at(bits[j], x, v.take(m)) % p
                &&& v[m + j] % p == 0 || v[m + j] % p == 1
            } by {
                assert(w[m + j] == v[m + j]);
            }
        }
        if copies(bits, x, v, m, i as int) && ark_holds(end, x, w) {
            assert forall|j: int| 0 <= j < i + 1 implies {
                &&& #[trigger] w[m + j] % p == ark_bit_at(bits[j], x, w.take(m)) % p
                &&& w[m + j] % p == 0 || w[m + j] % p == 1
            } by {
                if j < i {
                    assert(w[m + j] == v[m + j]);
                }
            }
        }
    }
}

/// The parts of a step come to the whole.
proof fn lemma_step(
    start: ArkCs,
    ready: ArkCs,
    digested: ArkCs,
    end: ArkCs,
    input: Seq<bool>,
    input_bits: Seq<ArkBit>,
    input_bytes: Seq<ArkByte>,
    digest: Seq<ArkByte>,
    digest_bits: Seq<ArkBit>,
)
    requires
        start@.consistent(),
        start@.records ==> input.len() == 256,
        with_inputs(start, ready, input_bits, input, 256),
        byte_values(input_bytes) == packed(bit_values(input_bits)),
        byte_sources(input_bytes) == bit_sources(input_bits),
        forall|x: Seq<int>, w: Seq<int>| #[trigger]
            bytes_at(input_bytes, x, w) == bits_at(input_bits, x, w),
        byte_values(digest) == sha256(byte_values(input_bytes)),
        byte_sources(digest) == digest_sources(ready@.calls.len() as int),
        digested@ == (ArkState {
            inlined: false,
            calls: ready@.calls.push(ArkCall::Digest(byte_sources(input_bytes))),
            private: digested@.private,
            constraints: digested@.constraints,
            witness: digested@.witness,
            ..ready@
        }),
        ready@.private <= digested@.private,
        ready@.constraints <= digested@.constraints,
        digested@.witness == (if ready@.records {
            ready@.witness + ark_digest_values(digested@.calls, byte_values(input_bytes))
        } else {
            ready@.witness
        }),
        digested@.consistent(),
        forall|x: Seq<int>, w: Seq<int>|
            w.len() == digested@.private && #[trigger] ark_holds(digested, x, w) ==> {
                &&& ark_holds(ready, x, w.take(ready@.private as int))
                &&& all_binary(scalar_modulus(), bytes_at(input_bytes, x, w)) ==> digests(
                    bytes_at(input_bytes, x, w),
                    bytes_at(digest, x, w),
                )
            },
        ready@.records && ark_holds(ready, ready@.inputs(), ready@.witness) ==> ark_holds(
            digested,
            digested@.inputs(),
            digested@.witness,
        ),
        digest_bits.len() == 256,
        packed(bit_values(digest_bits)) == byte_values(digest),
        bit_sources(digest_bits) == byte_sources(digest),
        forall|x: Seq<int>, w: Seq<int>| #[trigger]
            bits_at(digest_bits, x, w) == bytes_at(digest, x, w),
        settled(digest_bits, digested@.private as int),
        with_outputs(digested, end, digest_bits, 256),
    ensures
        stepped(start, end, input),
{
    let p = scalar_modulus();
    let (s, t) = (start@, end@);
    let (m, n) = (s.private as int, digested@.private as int);
    assert(bit_sources(input_bits) =~= input_sources(s.calls.len() as int));
    assert(t.calls == step_calls(s.calls));
    assert forall|x: Seq<int>, w: Seq<int>|
        w.len() == t.private && #[trigger] ark_holds(end, x, w) implies ark_holds(
        start,
        x,
        w.take(m),
    ) && step_relation(m, w) by {
        let v = w.take(n);
        let u = v.take(ready@.private as int);
        assert(ark_holds(digested, x, v));
        assert(ark_holds(ready, x, u));
        assert(u.take(m) =~= w.take(m));
        let a = w.subrange(m, m + 256);
        assert(u.skip(m) =~= a);
        assert(bits_at(input_bits, x, v) =~= a) by {
            assert forall|i: int| 0 <= i < 256 implies bits_at(input_bits, x, v)[i] == a[i] by {
                assert(ark_bit_at(input_bits[i], x, v) == v[m + i]);
            }
        }
        assert(bytes_at(input_bytes, x, v) == a);
        let out = bytes_at(digest, x, v);
        assert(digests(a, out));
        let b = w.subrange(w.len() - 256, w.len() as int);
        assert(out.len() == 256) by {
            assert(bits_at(digest_bits, x, v).len() == 256);
        }
        assert forall|j: int| 0 <= j < 256 implies #[trigger] b[j] % p == out[j] % p && (b[j] % p
            == 0 || b[j] % p == 1) by {
            assert(w[n + j] % p == ark_bit_at(digest_bits[j], x, v) % p);
            assert(bits_at(digest_bits, x, v)[j] == out[j]);
            assert(b[j] == w[n + j]);
        }
        assert(digits(p, b) =~= digits(p, out));
        assert(all_binary(p, b));
    }
    if s.records {
        let output = bit_values(digest_bits);
        assert(bit_values(input_bits) =~= input);
        assert(digit_values(input).take(256) =~= digit_values(input));
        assert(digit_values(output).take(256) =~= digit_values(output));
        assert(packed(output) == sha256(packed(input)));
        law_packing_is_injective(digest_digits(input), output);
        assert(t.witness =~= s.witness + step_values(s.calls, input));
        assert(digested@.witness.take(ready@.witness.len() as int) =~= ready@.witness);
        if ark_holds(start, s.inputs(), s.witness) {
            lemma_recorded(
                start,
                ready,
                digested,
                end,
                input,
                input_bits,
                input_bytes,
                digest,
                digest_bits,
            );
        }
    }
}

/// The recorded values satisfy the constraints of a step.
proof fn lemma_recorded(
    start: ArkCs,
    ready: ArkCs,
    digested: ArkCs,
    end: ArkCs,
    input: Seq<bool>,
    input_bits: Seq<ArkBit>,
    input_bytes: Seq<ArkByte>,
    digest: Seq<ArkByte>,
    digest_bits: Seq<ArkBit>,
)
    requires
        start@.records,
        start@.complete(),
        ark_holds(start, start@.inputs(), start@.witness),
        input.len() == 256,
        with_inputs(start, ready, input_bits, input, 256),
        byte_values(input_bytes) == packed(bit_values(input_bits)),
        forall|x: Seq<int>, w: Seq<int>| #[trigger]
            bytes_at(input_bytes, x, w) == bits_at(input_bits, x, w),
        byte_values(digest) == sha256(byte_values(input_bytes)),
        digested@.records,
        digested@.instance == start@.instance,
        digested@.public == start@.public,
        ready@.private <= digested@.private,
        digested@.witness.take(ready@.witness.len() as int) == ready@.witness,
        digested@.complete(),
        forall|x: Seq<int>, w: Seq<int>|
            w.len() == digested@.private && #[trigger] ark_holds(digested, x, w) ==> {
                &&& ark_holds(ready, x, w.take(ready@.private as int))
                &&& all_binary(scalar_modulus(), bytes_at(input_bytes, x, w)) ==> digests(
                    bytes_at(input_bytes, x, w),
                    bytes_at(digest, x, w),
                )
            },
        ark_holds(ready, ready@.inputs(), ready@.witness) ==> ark_holds(
            digested,
            digested@.inputs(),
            digested@.witness,
        ),
        digest_bits.len() == 256,
        packed(bit_values(digest_bits)) == byte_values(digest),
        forall|x: Seq<int>, w: Seq<int>| #[trigger]
            bits_at(digest_bits, x, w) == bytes_at(digest, x, w),
        with_outputs(digested, end, digest_bits, 256),
    ensures
        ark_holds(end, end@.inputs(), end@.witness),
{
    let p = scalar_modulus();
    vstd::arithmetic::div_mod::lemma_small_mod(0, p as nat);
    vstd::arithmetic::div_mod::lemma_small_mod(1, p as nat);
    let (s, x) = (start@, start@.inputs());
    let (m, n) = (s.private as int, digested@.private as int);
    let u = ready@.witness;
    assert(digit_values(input).take(256) =~= digit_values(input));
    assert(u.take(m) =~= s.witness);
    assert(all_binary(p, u.skip(m))) by {
        assert forall|j: int| 0 <= j < 256 implies #[trigger] u.skip(m)[j] % p == 0 || u.skip(m)[j]
            % p == 1 by {
            assert(u.skip(m)[j] == digit(input[j]));
        }
    }
    assert(ark_holds(ready, x, u));
    let v = digested@.witness;
    assert(ark_holds(digested, x, v));
    let a = bytes_at(input_bytes, x, v);
    assert(a =~= digit_values(input)) by {
        assert(a.len() == bits_at(input_bits, x, v).len());
        assert forall|i: int| 0 <= i < 256 implies a[i] == digit_values(input)[i] by {
            assert(bits_at(input_bits, x, v)[i] == v[m + i]);
            assert(v[m + i] == u[m + i]);
        }
    }
    assert(digits(p, a) =~= input);
    assert(all_binary(p, a));
    let out = bytes_at(digest, x, v);
    assert(out.len() == bits_at(digest_bits, x, v).len());
    assert(bit_values(input_bits) =~= input);
    law_packing_is_injective(digits(p, out), bit_values(digest_bits));
    let w = end@.witness;
    let d = digit_values(bit_values(digest_bits));
    assert(d.take(256) =~= d);
    assert(w.take(n) =~= v);
    assert(copies(digest_bits, x, w, n, 256)) by {
        assert forall|j: int| 0 <= j < 256 implies {
            &&& #[trigger] w[n + j] % p == ark_bit_at(digest_bits[j], x, w.take(n)) % p
            &&& w[n + j] % p == 0 || w[n + j] % p == 1
        } by {
            assert(w[n + j] == digit(bit_values(digest_bits)[j]));
            assert(bits_at(digest_bits, x, v)[j] == out[j]);
            assert(digits(p, out)[j] == bit_values(digest_bits)[j]);
            assert(out[j] % p == 0 || out[j] % p == 1);
        }
    }
    assert(ark_holds(end, x, w));
}

} // verus!
