//! What a fold of both relations yields, and which transcript its challenges come from.
use vstd::prelude::*;
use crate::arith::{fadd, fmul, lemma_cong_add, lemma_mod, power};
use crate::commitment::CommitmentKey;
use crate::conversion_laws::{
    continues, in_a_row, law_conversion_transcripts_bind, lemma_continues, lemma_in_a_row,
    lemma_weights,
};
use crate::errors::NovaError;
use crate::field::{vals, Field};
use crate::nifs_laws::{is_table_of_powers, lemma_left_of};
use crate::power_check_relation::{
    FoldedPowerCheckInstance, FoldedPowerCheckWitness, PowerCheckInstance, PowerCheckStructure,
    PowerCheckWitness,
};
use crate::r1cs::{R1CSInstance, R1CSShape, R1CSWitness};
use crate::relation::{FoldedInstance, FoldedWitness, Structure};
use crate::ro::{poseidon, PoseidonConstants, PoseidonModel};
use crate::traits::{Commitment, Engine, Group};
use crate::transcript_laws::{
    drawn, holds_commitment, law_transcripts_tell_points, left_of, lemma_behind_commitment,
    on_the_line,
};
use crate::univariate::{coeff, peval};
use crate::zerofold_nifs::{
    combined_poly, folded_state, honest_proof, state_of, zerofold_returns, ProofModel,
    ZeroFoldNIFS, ZeroFoldOutput,
};

verus! {

/// Coefficient `i` of a polynomial, zero behind the last one.
pub open spec fn coefficient(poly: Seq<int>, i: int) -> int {
    if i < poly.len() {
        poly[i]
    } else {
        0
    }
}

/// The transcript holds the hash before it and, coefficient by coefficient, the sum of one
/// polynomial and a multiple of another.
pub open spec fn holds_combination(
    p: int,
    t: Seq<int>,
    before: int,
    a: Seq<int>,
    b: Seq<int>,
    gamma: int,
) -> bool {
    &&& t.len() == 1 + if a.len() <= b.len() {
        b.len()
    } else {
        a.len()
    }
    &&& t[0] == before
    &&& forall|i: int|
        1 <= i < t.len() ==> #[trigger] t[i] == (coefficient(a, i - 1) + gamma * coefficient(
            b,
            i - 1,
        )) % p
}

/// The transcripts of the four challenges of a fold: the digest and both fresh instances; the hash
/// of these and the commitment to the weights; the hash of these alone; the hash of that and the
/// polynomials, combined under the third challenge.
pub open spec fn zerofold_reads<E: Engine>(
    m: PoseidonModel,
    digest: int,
    u2: R1CSInstance<E>,
    u2_pc: PowerCheckInstance<E>,
    nifs: ZeroFoldNIFS<E>,
    t: (Seq<int>, Seq<int>, Seq<int>, Seq<int>),
) -> bool {
    let p = E::Scalar::modulus();
    &&& continues(t.0, seq![digest], u2, u2_pc)
    &&& holds_commitment::<E>(t.1, poseidon(p, m, t.0), nifs.comm_E)
    &&& t.2.len() == 1
    &&& t.2[0] == poseidon(p, m, t.1)
    &&& holds_combination(
        p,
        t.3,
        poseidon(p, m, t.2),
        nifs.poly_nsc@,
        nifs.poly_pc@,
        drawn(p, m, t.2),
    )
}

/// The transcripts of a fold tell proofs and inputs apart: that of the first challenge the digest
/// and both fresh instances, that of the second the commitment to the weights, and that of the
/// folding challenge the combination of the polynomials under the challenge before it, coefficient
/// by coefficient.
pub proof fn law_zerofold_transcripts_bind<E: Engine>(
    m: PoseidonModel,
    digest: (int, int),
    u2: (R1CSInstance<E>, R1CSInstance<E>),
    u2_pc: (PowerCheckInstance<E>, PowerCheckInstance<E>),
    nifs: (ZeroFoldNIFS<E>, ZeroFoldNIFS<E>),
    t: (Seq<int>, Seq<int>, Seq<int>, Seq<int>),
    s: (Seq<int>, Seq<int>, Seq<int>, Seq<int>),
    i: int,
)
    requires
        zerofold_reads(m, digest.0, u2.0, u2_pc.0, nifs.0, t),
        zerofold_reads(m, digest.1, u2.1, u2_pc.1, nifs.1, s),
        u2.0.X@.len() == u2.1.X@.len(),
    ensures
        t.0 == s.0 ==> {
            &&& digest.0 == digest.1
            &&& u2.0.comm_W.coords() == u2.1.comm_W.coords()
            &&& vals(u2.0.X@) == vals(u2.1.X@)
            &&& u2_pc.0.comm_powers.coords() == u2_pc.1.comm_powers.coords()
            &&& u2_pc.0.tau.val() == u2_pc.1.tau.val()
        },
        t.1 == s.1 ==> nifs.0.comm_E.coords() == nifs.1.comm_E.coords(),
        t.2 == s.2 && t.3 == s.3 && 0 <= i < t.3.len() - 1 ==> {
            let p = E::Scalar::modulus();
            let gamma = drawn(p, m, t.2);
            (coefficient(nifs.0.poly_nsc@, i) + gamma * coefficient(nifs.0.poly_pc@, i)) % p == (
            coefficient(nifs.1.poly_nsc@, i) + gamma * coefficient(nifs.1.poly_pc@, i)) % p
        },
{
    if t.0 == s.0 {
        law_conversion_transcripts_bind(t.0, (seq![digest.0], seq![digest.1]), u2, u2_pc);
        assert(seq![digest.0][0] == digest.0 && seq![digest.1][0] == digest.1);
    }
    if t.1 == s.1 {
        law_transcripts_tell_points::<E>(t.1, 1, nifs.0.comm_E, nifs.1.comm_E);
    }
    if t.2 == s.2 && t.3 == s.3 && 0 <= i < t.3.len() - 1 {
        assert(t.3[i + 1] == s.3[i + 1]);
    }
}

/// The transcript of the folding challenge is the sequence that the contracts speak of.
pub proof fn lemma_behind_combination(
    p: int,
    t: Seq<int>,
    before: int,
    a: Seq<int>,
    b: Seq<int>,
    gamma: int,
)
    requires
        p > 0,
        holds_combination(p, t, before, a, b, gamma),
    ensures
        t == seq![before] + combined_poly(p, a, b, gamma),
{
    let c = combined_poly(p, a, b, gamma);
    let e = seq![before] + c;
    assert forall|i: int| 0 <= i < t.len() implies t[i] == e[i] by {
        if i > 0 {
            let (x, y) = (coefficient(a, i - 1), coefficient(b, i - 1));
            assert(t[i] == (x + gamma * y) % p);
            let scaled = crate::univariate::pscale(p, b, gamma);
            assert(coeff(scaled, i - 1) % p == (gamma * y) % p) by {
                if i - 1 < b.len() {
                    assert(scaled[i - 1] == fmul(p, y, gamma));
                    assert(y * gamma == gamma * y) by (nonlinear_arith);
                    lemma_mod(p, y * gamma);
                } else {
                    assert(gamma * 0 == 0) by (nonlinear_arith);
                }
            }
            lemma_cong_add(p, x, coeff(scaled, i - 1), x, gamma * y);
            assert(c[i - 1] == fadd(p, coeff(a, i - 1), coeff(scaled, i - 1)));
        }
    }
    assert(t =~= e);
}

/// A folded power check lies on the line from the running one to the fresh one, at the point `r`.
pub open spec fn pc_on_the_line<E: Engine>(
    u: FoldedPowerCheckInstance<E>,
    u1: FoldedPowerCheckInstance<E>,
    u2: PowerCheckInstance<E>,
    comm_E: E::GE,
    r: int,
) -> bool {
    let p = E::Scalar::modulus();
    &&& u.tau.val() == (u1.tau.val() + r * (u2.tau.val() - u1.tau.val())) % p
    &&& u.comm_witness.log() == (u1.comm_witness.log() + r * (u2.comm_powers.log()
        - u1.comm_witness.log())) % p
    &&& u.comm_weights.log() == (u1.comm_weights.log() + r * (comm_E.log()
        - u1.comm_weights.log())) % p
}

/// The values of a polynomial at zero and one add up to a claim, scaled down by a challenge.
pub open spec fn adds_up(p: int, poly: Seq<int>, rho: int, claim: int) -> bool {
    (peval(poly, 0) + peval(poly, 1)) % p == ((1 - rho) * claim) % p
}

/// The challenges of the transcripts are those that the contracts speak of.
pub proof fn lemma_zerofold_reads<E: Engine>(
    m: PoseidonModel,
    digest: int,
    u2: R1CSInstance<E>,
    u2_pc: PowerCheckInstance<E>,
    nifs: ZeroFoldNIFS<E>,
    t: (Seq<int>, Seq<int>, Seq<int>, Seq<int>),
)
    requires
        zerofold_reads(m, digest, u2, u2_pc, nifs, t),
    ensures
        ({
            let p = E::Scalar::modulus();
            let ch = crate::zerofold_nifs::zerofold_challenges(m, digest, u2, u2_pc, nifs@);
            &&& ch.tau == drawn(p, m, t.0)
            &&& ch.rho == drawn(p, m, t.1)
            &&& ch.gamma == drawn(p, m, t.2)
            &&& ch.r_b == drawn(p, m, t.3)
        }),
{
    let p = E::Scalar::modulus();
    E::Scalar::lemma_modulus();
    lemma_continues(t.0, seq![digest], u2, u2_pc);
    lemma_behind_commitment::<E>(t.1, poseidon(p, m, t.0), nifs.comm_E);
    assert(t.2 =~= seq![poseidon(p, m, t.1)]);
    lemma_behind_combination(
        p,
        t.3,
        poseidon(p, m, t.2),
        nifs.poly_nsc@,
        nifs.poly_pc@,
        drawn(p, m, t.2),
    );
}

/// The verifier accepts a proof if and only if both polynomials add up to the running claims under
/// the second challenge, the equality polynomial does not vanish at the second challenge and the
/// folding challenge, and the public inputs have one length. It folds both instances at the folding
/// challenge, and leaves the power check of the weights, whose scalar is the first challenge.
pub proof fn law_zerofold_verifier<E: Engine>(
    nifs: &ZeroFoldNIFS<E>,
    ro: &PoseidonConstants<E::Scalar>,
    digest: &E::Scalar,
    u1: &FoldedInstance<E>,
    u1_pc: &FoldedPowerCheckInstance<E>,
    u2: &R1CSInstance<E>,
    u2_pc: &PowerCheckInstance<E>,
    r: Result<
        (FoldedInstance<E>, FoldedPowerCheckInstance<E>, PowerCheckInstance<E>),
        NovaError,
    >,
    t: (Seq<int>, Seq<int>, Seq<int>, Seq<int>),
)
    requires
        call_ensures(ZeroFoldNIFS::<E>::verify, (nifs, ro, digest, u1, u1_pc, u2, u2_pc), r),
        zerofold_reads(ro@, digest.val(), *u2, *u2_pc, *nifs, t),
    ensures
        ({
            let p = E::Scalar::modulus();
            let rho = drawn(p, ro@, t.1);
            let r_b = drawn(p, ro@, t.3);
            let sums = adds_up(p, nifs.poly_nsc@, rho, u1.T.val()) && adds_up(
                p,
                nifs.poly_pc@,
                rho,
                u1_pc.pc_sumcheck_claim.val(),
            );
            let apart = ((1 - rho) * (1 - r_b) + rho * r_b) % p != 0;
            &&& r is Ok <==> sums && apart && u1.X@.len() == u2.X@.len()
            &&& r matches Err(e) ==> if !sums {
                e == NovaError::InvalidSumcheckProof
            } else if !apart {
                e == NovaError::DivideByZero
            } else {
                e == NovaError::InvalidInputLength
            }
            &&& r matches Ok((u, u_pc, next)) ==> {
                &&& on_the_line(u, *u1, *u2, nifs.comm_E, r_b)
                &&& pc_on_the_line(u_pc, *u1_pc, *u2_pc, nifs.comm_E, r_b)
                &&& left_of(p, nifs.poly_nsc@, rho, r_b, u.T.val())
                &&& left_of(p, nifs.poly_pc@, rho, r_b, u_pc.pc_sumcheck_claim.val())
                &&& next.comm_powers == nifs.comm_E
                &&& next.tau.val() == drawn(p, ro@, t.0)
            }
        }),
{
    let p = E::Scalar::modulus();
    E::Scalar::lemma_modulus();
    lemma_zerofold_reads(ro@, digest.val(), *u2, *u2_pc, *nifs, t);
    let (rho, r_b) = (drawn(p, ro@, t.1), drawn(p, ro@, t.3));
    if let Ok((u, u_pc, next)) = r {
        lemma_left_of(p, nifs.poly_nsc@, rho, r_b);
        lemma_left_of(p, nifs.poly_pc@, rho, r_b);
        assert(u@.x == vals(u.X@));
        assert(u@.x.len() == u.X@.len());
        assert forall|i: int| 0 <= i < u.X@.len() implies (#[trigger] u.X@[i]).val() == (
        u1.X@[i].val() + r_b * (u2.X@[i].val() - u1.X@[i].val())) % p by {
            assert(u@.x[i] == u.X@[i].val());
            assert(u1@.x[i] == u1.X@[i].val());
        }
        assert(u_pc@.tau == u_pc.tau.val());
    }
}

/// The entries of `out` lie on the line from those of `a` to those of `b`, at the point `r`.
pub open spec fn entries_on_the_line(
    p: int,
    out: Seq<int>,
    a: Seq<int>,
    b: Seq<int>,
    r: int,
) -> bool {
    &&& out.len() == a.len() == b.len()
    &&& forall|i: int| 0 <= i < out.len() ==> #[trigger] out[i] == (a[i] + r * (b[i] - a[i])) % p
}

/// The prover draws its challenges from the transcripts that hold its own proof, commits to the
/// powers of the first, and folds instances, witnesses, products and tables at the folding
/// challenge.
pub proof fn law_zerofold_prover<E: Engine>(
    ck: &CommitmentKey<E>,
    ro: &PoseidonConstants<E::Scalar>,
    digest: &E::Scalar,
    s: &Structure<E>,
    s_pc: &PowerCheckStructure,
    nsc: (&FoldedInstance<E>, &FoldedWitness<E>),
    abc: (&[E::Scalar], &[E::Scalar], &[E::Scalar]),
    nsc_pc: (&FoldedPowerCheckInstance<E>, &FoldedPowerCheckWitness<E>),
    r1cs: (&R1CSInstance<E>, &R1CSWitness<E>),
    zc_pc: (&PowerCheckInstance<E>, &PowerCheckWitness<E>),
    r_e: E::Scalar,
    out: ZeroFoldOutput<E>,
    t: (Seq<int>, Seq<int>, Seq<int>, Seq<int>),
    v: &[E::Scalar],
    c: Commitment<E>,
    shape: &R1CSShape<E>,
    z: &[E::Scalar],
    fresh: (Vec<E::Scalar>, Vec<E::Scalar>, Vec<E::Scalar>),
)
    requires
        call_ensures(
            ZeroFoldNIFS::<E>::prove_with_randomness,
            (ck, ro, digest, s, s_pc, nsc, abc, nsc_pc, r1cs, zc_pc, r_e),
            Ok(out),
        ),
        s@.wf(),
        state_of(nsc, abc, nsc_pc).shaped(s@),
        zc_pc.1.powers.model().splits(s@.left, s@.right),
        zerofold_reads(ro@, digest.val(), *r1cs.0, *zc_pc.0, out.nifs, t),
        is_table_of_powers(
            v@,
            drawn(E::Scalar::modulus(), ro@, t.0),
            s@.left as nat,
            s@.right as nat,
        ),
        v@.len() <= ck.bases().len(),
        call_ensures(CommitmentKey::<E>::commit, (ck, v, &r_e), c),
        shape@ == s@.shape,
        in_a_row(z@, r1cs.1.W@, 1, r1cs.0.X@),
        call_ensures(R1CSShape::<E>::multiply_vec, (shape, z), Ok(fresh)),
    ensures
        ({
            let p = E::Scalar::modulus();
            let m = ro@;
            let (rho, r_b) = (drawn(p, m, t.1), drawn(p, m, t.3));
            let (u, w) = (out.folded.nsc_instance, out.folded.nsc_witness);
            let (u_pc, w_pc) = (out.folded.pc_instance, out.folded.pc_witness);
            &&& out.tau.val() == drawn(p, m, t.0)
            &&& out.rho.val() == rho
            &&& out.gamma.val() == drawn(p, m, t.2)
            &&& out.r_b.val() == r_b
            &&& out.nifs.comm_E.log() == c.log()
            &&& out.nifs.comm_E.coords() == c.coords()
            &&& adds_up(p, out.nifs.poly_nsc@, rho, nsc.0.T.val())
            &&& adds_up(p, out.nifs.poly_pc@, rho, nsc_pc.0.pc_sumcheck_claim.val())
            &&& on_the_line(u, *nsc.0, *r1cs.0, out.nifs.comm_E, r_b)
            &&& pc_on_the_line(u_pc, *nsc_pc.0, *zc_pc.0, out.nifs.comm_E, r_b)
            &&& left_of(p, out.nifs.poly_nsc@, rho, r_b, u.T.val())
            &&& left_of(p, out.nifs.poly_pc@, rho, r_b, u_pc.pc_sumcheck_claim.val())
            &&& entries_on_the_line(p, vals(w.W@), vals(nsc.1.W@), vals(r1cs.1.W@), r_b)
            &&& w.r_W.val() == (nsc.1.r_W.val() + r_b * (r1cs.1.r_W.val() - nsc.1.r_W.val())) % p
            &&& entries_on_the_line(p, w.E@, nsc.1.E@, vals(v@), r_b)
            &&& w.E.rand() == (nsc.1.E.rand() + r_b * (r_e.val() - nsc.1.E.rand())) % p
            &&& entries_on_the_line(p, w_pc.witness@, nsc_pc.1.witness@, zc_pc.1.powers@, r_b)
            &&& entries_on_the_line(p, w_pc.weights@, nsc_pc.1.weights@, vals(v@), r_b)
            &&& w_pc.witness.rand() == (nsc_pc.1.witness.rand() + r_b * (zc_pc.1.powers.rand()
                - nsc_pc.1.witness.rand())) % p
            &&& w_pc.weights.rand() == (nsc_pc.1.weights.rand() + r_b * (r_e.val()
                - nsc_pc.1.weights.rand())) % p
            &&& entries_on_the_line(p, vals(out.folded.Az@), vals(abc.0@), vals(fresh.0@), r_b)
            &&& entries_on_the_line(p, vals(out.folded.Bz@), vals(abc.1@), vals(fresh.1@), r_b)
            &&& entries_on_the_line(p, vals(out.folded.Cz@), vals(abc.2@), vals(fresh.2@), r_b)
            &&& out.new_zc_pc.0.comm_powers == out.nifs.comm_E
            &&& out.new_zc_pc.0.tau.val() == out.tau.val()
            &&& out.new_zc_pc.1.powers@ == vals(v@)
            &&& out.new_zc_pc.1.powers.rand() == r_e.val()
        }),
{
    let p = E::Scalar::modulus();
    E::Scalar::lemma_modulus();
    let m = ro@;
    lemma_zerofold_reads(m, digest.val(), *r1cs.0, *zc_pc.0, out.nifs, t);
    let (tau, rho, r_b) = (drawn(p, m, t.0), drawn(p, m, t.1), drawn(p, m, t.3));
    let st = state_of(nsc, abc, nsc_pc);
    let nifs = choose|nifs: ProofModel| #[trigger]
        honest_proof(m, digest.val(), *ck, s@, st, r1cs, zc_pc, r_e.val(), nifs)
            && zerofold_returns(
            m,
            digest.val(),
            s@,
            st,
            r1cs,
            zc_pc,
            r_e.val(),
            nifs,
            Ok(out),
        );
    assert(nifs == out.nifs@);
    lemma_weights::<E>(s@, tau, r_e.val(), v@);
    lemma_in_a_row(z@, r1cs.1.W@, 1, r1cs.0.X@);
    lemma_left_of(p, out.nifs.poly_nsc@, rho, r_b);
    lemma_left_of(p, out.nifs.poly_pc@, rho, r_b);
    let f = folded_state(m, digest.val(), s@, st, r1cs, zc_pc, r_e.val(), nifs);
    assert(out.folded@ == f);
    let (u, w) = (out.folded.nsc_instance, out.folded.nsc_witness);
    assert(f.u.x == vals(u.X@));
    assert(f.u.x.len() == u.X@.len());
    assert forall|i: int| 0 <= i < u.X@.len() implies (#[trigger] u.X@[i]).val() == (
    nsc.0.X@[i].val() + r_b * (r1cs.0.X@[i].val() - nsc.0.X@[i].val())) % p by {
        assert(f.u.x[i] == u.X@[i].val());
        assert(nsc.0@.x[i] == nsc.0.X@[i].val());
    }
    assert(f.w.w == vals(w.W@));
    assert(f.w.e == w.E@);
    assert(f.w_pc.witness == out.folded.pc_witness.witness.model());
    assert(f.w_pc.weights == out.folded.pc_witness.weights.model());
    let d2 = crate::relation::claim_data(
        s@.shape,
        crate::relation::fresh_instance(*r1cs.0, nifs.comm),
        crate::zerofold_nifs::zerofold_witness(s@, *r1cs.1, tau, r_e.val()),
    );
    assert(crate::weight_table::mod_seq(p, d2.az) =~= vals(fresh.0@));
    assert(crate::weight_table::mod_seq(p, d2.bz) =~= vals(fresh.1@));
    assert(crate::weight_table::mod_seq(p, d2.cz) =~= vals(fresh.2@));
}

} // verus!
