//! What a fold of the main relation yields, and which transcript its challenges come from.
use vstd::prelude::*;
use crate::arith::{fdiv, fmul, invertible, lemma_fdiv_by_inverse, power};
use crate::commitment::CommitmentKey;
use crate::errors::NovaError;
use crate::field::{vals, Field};
use crate::nifs::{folded_instance, honest_message, prover_returns, weighted_witness, NIFS};
use crate::r1cs::{R1CSInstance, R1CSWitness};
use crate::relation::{FoldedInstance, FoldedWitness, Structure};
use crate::ro::{poseidon, PoseidonConstants, PoseidonModel};
use crate::sumcheck::eq_poly;
use crate::traits::{Commitment, Engine, Group};
use crate::transcript_laws::{
    drawn, holds_commitment, holds_polynomial, law_transcripts_tell_instances,
    law_transcripts_tell_points, law_transcripts_tell_polynomials, lemma_behind_commitment,
    lemma_behind_polynomial, lemma_starts, left_of, on_the_line, starts_with,
};
use crate::univariate::peval;

verus! {

/// The transcripts of the three challenges of a fold: the digest and the fresh instance; the hash
/// of these and the commitment to the weights; the hash of these and the round polynomial.
pub open spec fn nifs_reads<E: Engine>(
    m: PoseidonModel,
    digest: int,
    u2: R1CSInstance<E>,
    nifs: NIFS<E>,
    t: (Seq<int>, Seq<int>, Seq<int>),
) -> bool {
    let p = E::Scalar::modulus();
    &&& t.0.len() == 10 + u2.X@.len()
    &&& starts_with(t.0, digest, u2)
    &&& holds_commitment::<E>(t.1, poseidon(p, m, t.0), nifs.comm_E)
    &&& holds_polynomial(t.2, poseidon(p, m, t.1), nifs.poly@)
}

/// The transcripts of a fold tell messages and inputs apart: that of the first challenge the digest
/// and the fresh instance, that of the second the commitment to the weights, and that of the
/// folding challenge the whole round polynomial.
pub proof fn law_nifs_transcripts_bind<E: Engine>(
    m: PoseidonModel,
    digest: (int, int),
    u2: (R1CSInstance<E>, R1CSInstance<E>),
    nifs: (NIFS<E>, NIFS<E>),
    t: (Seq<int>, Seq<int>, Seq<int>),
    s: (Seq<int>, Seq<int>, Seq<int>),
)
    requires
        nifs_reads(m, digest.0, u2.0, nifs.0, t),
        nifs_reads(m, digest.1, u2.1, nifs.1, s),
    ensures
        t.0 == s.0 ==> digest.0 == digest.1 && u2.0.comm_W.coords() == u2.1.comm_W.coords()
            && vals(u2.0.X@) == vals(u2.1.X@),
        t.1 == s.1 ==> nifs.0.comm_E.coords() == nifs.1.comm_E.coords(),
        t.2 == s.2 ==> nifs.0.poly@ == nifs.1.poly@,
{
    let p = E::Scalar::modulus();
    if t.0 == s.0 {
        law_transcripts_tell_instances(t.0, digest.0, u2.0, digest.1, u2.1);
    }
    if t.1 == s.1 {
        law_transcripts_tell_points::<E>(t.1, 1, nifs.0.comm_E, nifs.1.comm_E);
    }
    if t.2 == s.2 {
        law_transcripts_tell_polynomials(
            t.2,
            poseidon(p, m, t.1),
            nifs.0.poly@,
            poseidon(p, m, s.1),
            nifs.1.poly@,
        );
    }
}

/// A quotient times the divisor is the dividend.
pub proof fn lemma_left_of(p: int, poly: Seq<int>, rho: int, r: int)
    requires
        p > 1,
        invertible(p, eq_poly(rho, r)),
    ensures
        left_of(p, poly, rho, r, fdiv(p, peval(poly, r), eq_poly(rho, r))),
{
    let eq = eq_poly(rho, r);
    let inv = choose|v: int| #[trigger] fmul(p, eq, v) == 1;
    lemma_fdiv_by_inverse(p, peval(poly, r), eq, inv);
}

/// The verifier accepts a message if and only if the round polynomial adds up to the claim under
/// the second challenge, the equality polynomial does not vanish at the last two challenges, and
/// the public inputs have one length. It folds at the last challenge. The challenges are the low
/// bits of the hashes of transcripts that hold all that was sent before, element by element.
pub proof fn law_nifs_verifier<E: Engine>(
    nifs: &NIFS<E>,
    ro: &PoseidonConstants<E::Scalar>,
    digest: &E::Scalar,
    u1: &FoldedInstance<E>,
    u2: &R1CSInstance<E>,
    r: Result<FoldedInstance<E>, NovaError>,
    t: (Seq<int>, Seq<int>, Seq<int>),
)
    requires
        call_ensures(NIFS::<E>::verify, (nifs, ro, digest, u1, u2), r),
        nifs_reads(ro@, digest.val(), *u2, *nifs, t),
    ensures
        ({
            let p = E::Scalar::modulus();
            let rho = drawn(p, ro@, t.1);
            let r_b = drawn(p, ro@, t.2);
            let sums = (peval(nifs.poly@, 0) + peval(nifs.poly@, 1)) % p == ((1 - rho)
                * u1.T.val()) % p;
            let apart = ((1 - rho) * (1 - r_b) + rho * r_b) % p != 0;
            &&& r is Ok <==> sums && apart && u1.X@.len() == u2.X@.len()
            &&& r matches Err(e) ==> if !sums {
                e == NovaError::InvalidSumcheckProof
            } else if !apart {
                e == NovaError::DivideByZero
            } else {
                e == NovaError::InvalidInputLength
            }
            &&& r matches Ok(u) ==> on_the_line(u, *u1, *u2, nifs.comm_E, r_b) && left_of(
                p,
                nifs.poly@,
                rho,
                r_b,
                u.T.val(),
            )
        }),
{
    let p = E::Scalar::modulus();
    E::Scalar::lemma_modulus();
    lemma_starts(t.0, digest.val(), *u2);
    lemma_behind_commitment::<E>(t.1, poseidon(p, ro@, t.0), nifs.comm_E);
    lemma_behind_polynomial(t.2, poseidon(p, ro@, t.1), nifs.poly@);
    assert(t.0.take(t.0.len() as int) =~= t.0);
    let (rho, r_b) = (drawn(p, ro@, t.1), drawn(p, ro@, t.2));
    if let Ok(u) = r {
        lemma_left_of(p, nifs.poly@, rho, r_b);
        assert(u@ == folded_instance(ro@, digest.val(), u1@, *u2, *nifs));
        assert(u@.x == vals(u.X@));
        assert forall|i: int| 0 <= i < u.X@.len() implies (#[trigger] u.X@[i]).val() == (
        u1.X@[i].val() + r_b * (u2.X@[i].val() - u1.X@[i].val())) % p by {
            assert(u@.x[i] == u.X@[i].val());
            assert(u1@.x[i] == u1.X@[i].val());
        }
        assert(u@.x.len() == u.X@.len());
    }
}

/// The prover folds at the challenge of the transcript that holds its own message, and the message
/// commits to the powers of the first challenge.
pub proof fn law_nifs_prover<E: Engine>(
    ck: &CommitmentKey<E>,
    ro: &PoseidonConstants<E::Scalar>,
    digest: &E::Scalar,
    s: &Structure<E>,
    u1: &FoldedInstance<E>,
    w1: &FoldedWitness<E>,
    u2: &R1CSInstance<E>,
    w2: &R1CSWitness<E>,
    r_e: E::Scalar,
    out: (NIFS<E>, (FoldedInstance<E>, FoldedWitness<E>)),
    t: (Seq<int>, Seq<int>, Seq<int>),
    v: &[E::Scalar],
    c: Commitment<E>,
)
    requires
        call_ensures(
            NIFS::<E>::prove_with_randomness,
            (ck, ro, digest, s, u1, w1, u2, w2, r_e),
            Ok(out),
        ),
        s@.wf(),
        s@.left + s@.right <= ck.bases().len(),
        w1@.e.len() == s@.left + s@.right,
        w1@.split == s@.left,
        nifs_reads(ro@, digest.val(), *u2, out.0, t),
        is_table_of_powers(
            v@,
            drawn(E::Scalar::modulus(), ro@, t.0),
            s@.left as nat,
            s@.right as nat,
        ),
        call_ensures(CommitmentKey::<E>::commit, (ck, v, &r_e), c),
    ensures
        ({
            let p = E::Scalar::modulus();
            let rho = drawn(p, ro@, t.1);
            let r_b = drawn(p, ro@, t.2);
            let (u, w) = out.1;
            &&& out.0.comm_E.log() == c.log()
            &&& out.0.comm_E.coords() == c.coords()
            &&& (peval(out.0.poly@, 0) + peval(out.0.poly@, 1)) % p == ((1 - rho) * u1.T.val())
                % p
            &&& on_the_line(u, *u1, *u2, out.0.comm_E, r_b)
            &&& left_of(p, out.0.poly@, rho, r_b, u.T.val())
            &&& w.W@.len() == w1.W@.len() == w2.W@.len()
            &&& forall|i: int|
                0 <= i < w.W@.len() ==> (#[trigger] w.W@[i]).val() == (w1.W@[i].val() + r_b * (
                w2.W@[i].val() - w1.W@[i].val())) % p
            &&& w.r_W.val() == (w1.r_W.val() + r_b * (w2.r_W.val() - w1.r_W.val())) % p
            &&& w.E@.len() == v@.len()
            &&& forall|i: int|
                0 <= i < v@.len() ==> #[trigger] w.E@[i] == (w1.E@[i] + r_b * (v@[i].val()
                    - w1.E@[i])) % p
            &&& w.E.rand() == (w1.E.rand() + r_b * (r_e.val() - w1.E.rand())) % p
            &&& w.E.split() == s@.left
        }),
{
    let p = E::Scalar::modulus();
    E::Scalar::lemma_modulus();
    let m = ro@;
    lemma_starts(t.0, digest.val(), *u2);
    lemma_behind_commitment::<E>(t.1, poseidon(p, m, t.0), out.0.comm_E);
    lemma_behind_polynomial(t.2, poseidon(p, m, t.1), out.0.poly@);
    assert(t.0.take(t.0.len() as int) =~= t.0);
    let (tau, rho, r_b) = (drawn(p, m, t.0), drawn(p, m, t.1), drawn(p, m, t.2));
    let nifs = choose|nifs: NIFS<E>| #[trigger]
        honest_message(
            m,
            digest.val(),
            *ck,
            s@,
            u1@,
            w1@,
            *u2,
            *w2,
            r_e.val(),
            nifs,
        ) && prover_returns(
            m,
            digest.val(),
            s@,
            u1@,
            w1@,
            *u2,
            *w2,
            r_e.val(),
            nifs,
            Ok(out),
        );
    assert(nifs == out.0);
    let (u, w) = out.1;
    lemma_left_of(p, nifs.poly@, rho, r_b);
    let e = weighted_witness(s@, *w2, tau, r_e.val()).e;
    assert(e =~= vals(v@)) by {
        assert forall|i: int| 0 <= i < e.len() implies e[i] == vals(v@)[i] by {
            assert(vals(v@)[i] == v@[i].val());
        }
    }
    assert(u@.x == vals(u.X@));
    assert(u@.x.len() == u.X@.len());
    assert forall|i: int| 0 <= i < u.X@.len() implies (#[trigger] u.X@[i]).val() == (
    u1.X@[i].val() + r_b * (u2.X@[i].val() - u1.X@[i].val())) % p by {
        assert(u@.x[i] == u.X@[i].val());
        assert(u1@.x[i] == u1.X@[i].val());
    }
    assert(w@.w.len() == w.W@.len());
    assert forall|i: int| 0 <= i < w.W@.len() implies (#[trigger] w.W@[i]).val() == (
    w1.W@[i].val() + r_b * (w2.W@[i].val() - w1.W@[i].val())) % p by {
        assert(w@.w[i] == w.W@[i].val());
        assert(w1@.w[i] == w1.W@[i].val());
    }
    assert forall|i: int| 0 <= i < v@.len() implies #[trigger] w.E@[i] == (w1.E@[i] + r_b * (
    v@[i].val() - w1.E@[i])) % p by {
        assert(vals(v@)[i] == v@[i].val());
        assert(w@.e[i] == w.E@[i]);
    }
}

/// The first `left` entries are the powers of `tau` from the zeroth on, and the `right` entries
/// behind them the powers whose exponents are multiples of `left`.
pub open spec fn is_table_of_powers<F: Field>(v: Seq<F>, tau: int, left: nat, right: nat) -> bool {
    &&& v.len() == left + right
    &&& forall|j: int|
        0 <= j < left ==> (#[trigger] v[j]).val() == power(tau, j as nat) % F::modulus()
    &&& forall|j: int|
        left <= j < left + right ==> (#[trigger] v[j]).val() == power(
            tau,
            ((j - left) * left) as nat,
        ) % F::modulus()
}

} // verus!
