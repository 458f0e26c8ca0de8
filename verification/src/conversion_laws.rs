//! What a conversion to nested sum-checks yields, and which transcript its challenge comes from.
use vstd::prelude::*;
use crate::commitment::CommitmentKey;
use crate::errors::NovaError;
use crate::field::{vals, Field};
use crate::nested_sumcheck::{
    conversion_transcript, conversion_weights, convert_to_nsc, convert_with_randomness,
    NSCConversionOutput,
};
use crate::nifs_laws::is_table_of_powers;
use crate::nsc_conversion;
use crate::power_check_relation::{PowerCheckInstance, PowerCheckStructure, PowerCheckWitness};
use crate::r1cs::{R1CSInstance, R1CSShape, R1CSWitness};
use crate::relation::{z_vec, Structure, StructureModel};
use crate::ro::{poseidon, PoseidonRO};
use crate::traits::{Commitment, Engine, Group};
use crate::transcript::AbsorbInRO2Trait;
use crate::transcript_laws::{
    drawn, holds_commitment, holds_point, holds_scalars, law_transcripts_tell_points,
    lemma_elements_held, lemma_point,
};

verus! {

/// The transcript continues `before` with the fresh instance of the main relation, its commitment
/// and its public input, and the fresh power check, its commitment and its scalar.
pub open spec fn continues<E: Engine>(
    t: Seq<int>,
    before: Seq<int>,
    u2: R1CSInstance<E>,
    u_pc: PowerCheckInstance<E>,
) -> bool {
    let k = before.len() as int;
    let n = u2.X@.len() as int;
    &&& t.len() == k + n + 19
    &&& forall|i: int| 0 <= i < k ==> #[trigger] t[i] == before[i]
    &&& holds_point(t, k, u2.comm_W.coords())
    &&& holds_scalars(t, k + 9, u2.X@)
    &&& holds_point(t, k + 9 + n, u_pc.comm_powers.coords())
    &&& t[k + 18 + n] == u_pc.tau.val()
}

/// A transcript tells the fresh instances that it holds: the commitments, the public input and the
/// scalar.
pub proof fn law_conversion_transcripts_bind<E: Engine>(
    t: Seq<int>,
    before: (Seq<int>, Seq<int>),
    u2: (R1CSInstance<E>, R1CSInstance<E>),
    u_pc: (PowerCheckInstance<E>, PowerCheckInstance<E>),
)
    requires
        continues(t, before.0, u2.0, u_pc.0),
        continues(t, before.1, u2.1, u_pc.1),
        u2.0.X@.len() == u2.1.X@.len(),
    ensures
        before.0 == before.1,
        u2.0.comm_W.coords() == u2.1.comm_W.coords(),
        vals(u2.0.X@) == vals(u2.1.X@),
        u_pc.0.comm_powers.coords() == u_pc.1.comm_powers.coords(),
        u_pc.0.tau.val() == u_pc.1.tau.val(),
{
    let k = before.0.len() as int;
    let n = u2.0.X@.len() as int;
    assert forall|i: int| 0 <= i < k implies before.0[i] == before.1[i] by {
        assert(t[i] == before.0[i]);
        assert(t[i] == before.1[i]);
    }
    assert(before.0 =~= before.1);
    law_transcripts_tell_points::<E>(t, k, u2.0.comm_W, u2.1.comm_W);
    law_transcripts_tell_points::<E>(t, k + 9 + n, u_pc.0.comm_powers, u_pc.1.comm_powers);
    assert forall|i: int| 0 <= i < n implies vals(u2.0.X@)[i] == vals(u2.1.X@)[i] by {
        assert(t[k + 9 + i] == u2.0.X@[i].val());
        assert(t[k + 9 + i] == u2.1.X@[i].val());
    }
    assert(vals(u2.0.X@) =~= vals(u2.1.X@));
}

/// The transcript is the sequence that the contracts speak of.
pub proof fn lemma_continues<E: Engine>(
    t: Seq<int>,
    before: Seq<int>,
    u2: R1CSInstance<E>,
    u_pc: PowerCheckInstance<E>,
)
    requires
        continues(t, before, u2, u_pc),
    ensures
        t == conversion_transcript(before, u2, u_pc),
{
    let k = before.len() as int;
    let n = u2.X@.len() as int;
    lemma_point::<E>(t, k, u2.comm_W);
    lemma_point::<E>(t, k + 9 + n, u_pc.comm_powers);
    u2.comm_W.lemma_coords();
    u_pc.comm_powers.lemma_coords();
    let a = <R1CSInstance<E> as AbsorbInRO2Trait<E>>::elements(&u2);
    let b = <PowerCheckInstance<E> as AbsorbInRO2Trait<E>>::elements(&u_pc);
    let e = before + a + b;
    assert(a.len() == 9 + n && b.len() == 10);
    assert forall|i: int| 0 <= i < t.len() implies t[i] == e[i] by {
        if i < k {
        } else if i < k + 9 {
            assert(t.subrange(k, k + 9)[i - k] == t[i]);
        } else if i < k + 9 + n {
            assert(t[k + 9 + (i - k - 9)] == u2.X@[i - k - 9].val());
            assert(e[i] == vals(u2.X@)[i - k - 9]);
        } else if i < k + 18 + n {
            assert(t.subrange(k + 9 + n, k + 18 + n)[i - (k + 9 + n)] == t[i]);
        }
    }
    assert(t =~= e);
}

/// The witness, a scalar and the public input in a row.
pub open spec fn in_a_row<F: Field>(z: Seq<F>, w: Seq<F>, u: int, x: Seq<F>) -> bool {
    &&& z.len() == w.len() + 1 + x.len()
    &&& forall|i: int| 0 <= i < w.len() ==> (#[trigger] z[i]).val() == w[i].val()
    &&& z[w.len() as int].val() == u
    &&& forall|i: int|
        w.len() < i < z.len() ==> (#[trigger] z[i]).val() == x[i - w.len() - 1].val()
}

/// A vector in a row is the one that the contracts speak of.
pub proof fn lemma_in_a_row<F: Field>(z: Seq<F>, w: Seq<F>, u: int, x: Seq<F>)
    requires
        in_a_row(z, w, u, x),
    ensures
        vals(z) == z_vec(vals(w), u, vals(x)),
{
    let e = z_vec(vals(w), u, vals(x));
    assert forall|i: int| 0 <= i < z.len() implies vals(z)[i] == e[i] by {
        assert(vals(z)[i] == z[i].val());
    }
    assert(vals(z) =~= e);
}

/// The weights of a conversion are the table of powers.
pub proof fn lemma_weights<E: Engine>(s: StructureModel, tau: int, r_e: int, v: Seq<E::Scalar>)
    requires
        s.left >= 0,
        s.right >= 0,
        is_table_of_powers(v, tau, s.left as nat, s.right as nat),
    ensures
        conversion_weights::<E>(s, tau, r_e).data == vals(v),
{
    let e = conversion_weights::<E>(s, tau, r_e).data;
    assert forall|i: int| 0 <= i < e.len() implies e[i] == vals(v)[i] by {
        assert(vals(v)[i] == v[i].val());
    }
    assert(e =~= vals(v));
}

/// A conversion draws its challenge from the transcript that continues the one it is given with
/// both fresh instances. The weights are the powers of that challenge, `comm_E` is the commitment
/// to them, and the transcript goes on with its hash and that commitment. The products are those of
/// the matrices with the fresh vector, and the instances have the parts that they are made of.
pub proof fn law_conversion<E: Engine>(
    ck: &CommitmentKey<E>,
    s: &Structure<E>,
    zc: (&R1CSInstance<E>, &R1CSWitness<E>),
    zc_pc: (&PowerCheckInstance<E>, &PowerCheckWitness<E>),
    transcript: &mut PoseidonRO<E::Scalar>,
    r_e: E::Scalar,
    out: NSCConversionOutput<E>,
    t: Seq<int>,
    v: &[E::Scalar],
    c: Commitment<E>,
    shape: &R1CSShape<E>,
    z: &[E::Scalar],
    abc: (Vec<E::Scalar>, Vec<E::Scalar>, Vec<E::Scalar>),
)
    requires
        call_ensures(
            convert_with_randomness::<E>,
            (ck, s, zc, zc_pc, transcript, r_e),
            Ok::<NSCConversionOutput<E>, NovaError>(out),
        ),
        s@.wf(),
        continues(t, old(transcript)@, *zc.0, *zc_pc.0),
        is_table_of_powers(
            v@,
            drawn(E::Scalar::modulus(), old(transcript).params(), t),
            s@.left as nat,
            s@.right as nat,
        ),
        v@.len() <= ck.bases().len(),
        call_ensures(CommitmentKey::<E>::commit, (ck, v, &r_e), c),
        shape@ == s@.shape,
        in_a_row(z@, zc.1.W@, 1, zc.0.X@),
        call_ensures(R1CSShape::<E>::multiply_vec, (shape, z), Ok(abc)),
    ensures
        ({
            let p = E::Scalar::modulus();
            let m = old(transcript).params();
            let (u, w) = out.nsc;
            let (u_pc, w_pc) = out.nsc_pc;
            let (next, next_w) = out.zc_pc;
            &&& out.tau.val() == drawn(p, m, t)
            &&& out.E@ == vals(v@)
            &&& out.E.rand() == r_e.val()
            &&& out.E.split() == s@.left
            &&& out.comm_E.log() == c.log()
            &&& out.comm_E.coords() == c.coords()
            &&& holds_commitment::<E>(final(transcript)@, poseidon(p, m, t), out.comm_E)
            &&& final(transcript).params() == m
            &&& vals(out.Az@) == vals(abc.0@)
            &&& vals(out.Bz@) == vals(abc.1@)
            &&& vals(out.Cz@) == vals(abc.2@)
            &&& u.comm_W.log() == zc.0.comm_W.log()
            &&& u.comm_E.log() == out.comm_E.log()
            &&& u.T.val() == 0
            &&& u.u.val() == 1
            &&& vals(u.X@) == vals(zc.0.X@)
            &&& vals(w.W@) == vals(zc.1.W@)
            &&& w.r_W.val() == zc.1.r_W.val()
            &&& w.E@ == vals(v@)
            &&& w.E.rand() == r_e.val()
            &&& u_pc.pc_sumcheck_claim.val() == 0
            &&& u_pc.comm_witness.log() == zc_pc.0.comm_powers.log()
            &&& u_pc.comm_weights.log() == out.comm_E.log()
            &&& u_pc.tau.val() == zc_pc.0.tau.val()
            &&& w_pc.witness@ == zc_pc.1.powers@
            &&& w_pc.weights@ == vals(v@)
            &&& next.comm_powers.log() == out.comm_E.log()
            &&& next.tau.val() == out.tau.val()
            &&& next_w.powers@ == vals(v@)
        }),
{
    let p = E::Scalar::modulus();
    E::Scalar::lemma_modulus();
    let m = old(transcript).params();
    lemma_continues(t, old(transcript)@, *zc.0, *zc_pc.0);
    lemma_weights::<E>(s@, drawn(p, m, t), r_e.val(), v@);
    lemma_in_a_row(z@, zc.1.W@, 1, zc.0.X@);
    assert(vals(out.Az@) =~= vals(abc.0@));
    assert(vals(out.Bz@) =~= vals(abc.1@));
    assert(vals(out.Cz@) =~= vals(abc.2@));
    lemma_elements_held::<E>(final(transcript)@, poseidon(p, m, t), out.comm_E);
    assert(out.nsc.0@.x == vals(out.nsc.0.X@));
    assert(out.nsc.1@.w == vals(out.nsc.1.W@));
    assert(out.nsc.1@.e == out.nsc.1.E@);
    assert(out.nsc_pc.1@.witness == out.nsc_pc.1.witness.model());
    assert(out.nsc_pc.1@.weights == out.nsc_pc.1.weights.model());
}

/// The conversion that leaves the main instance to its caller draws its challenge from the
/// transcript that continues the one it is given with both fresh instances. The weights are the
/// powers of that challenge, `comm_E` is the commitment to them, and the transcript goes on with
/// its hash and that commitment. The products are those of the matrices with the fresh vector, and
/// the instances have the parts that they are made of.
pub proof fn law_conversion_without_instance<E: Engine>(
    ck: &CommitmentKey<E>,
    s: &Structure<E>,
    zc: (&R1CSInstance<E>, &R1CSWitness<E>),
    zc_pc: (&PowerCheckInstance<E>, &PowerCheckWitness<E>),
    transcript: &mut PoseidonRO<E::Scalar>,
    r_e: E::Scalar,
    out: nsc_conversion::NSCConversionOutput<E>,
    t: Seq<int>,
    v: &[E::Scalar],
    c: Commitment<E>,
    shape: &R1CSShape<E>,
    z: &[E::Scalar],
    abc: (Vec<E::Scalar>, Vec<E::Scalar>, Vec<E::Scalar>),
)
    requires
        call_ensures(
            nsc_conversion::convert_with_randomness::<E>,
            (ck, s, zc, zc_pc, transcript, r_e),
            Ok::<nsc_conversion::NSCConversionOutput<E>, NovaError>(out),
        ),
        s@.wf(),
        continues(t, old(transcript)@, *zc.0, *zc_pc.0),
        is_table_of_powers(
            v@,
            drawn(E::Scalar::modulus(), old(transcript).params(), t),
            s@.left as nat,
            s@.right as nat,
        ),
        v@.len() <= ck.bases().len(),
        call_ensures(CommitmentKey::<E>::commit, (ck, v, &r_e), c),
        shape@ == s@.shape,
        in_a_row(z@, zc.1.W@, 1, zc.0.X@),
        call_ensures(R1CSShape::<E>::multiply_vec, (shape, z), Ok(abc)),
    ensures
        ({
            let p = E::Scalar::modulus();
            let m = old(transcript).params();
            let (u_pc, w_pc) = out.nsc_pc;
            let (next, next_w) = out.fresh_pc;
            &&& out.tau.val() == drawn(p, m, t)
            &&& out.E@ == vals(v@)
            &&& out.E.rand() == r_e.val()
            &&& out.E.split() == s@.left
            &&& out.comm_E.log() == c.log()
            &&& out.comm_E.coords() == c.coords()
            &&& holds_commitment::<E>(final(transcript)@, poseidon(p, m, t), out.comm_E)
            &&& final(transcript).params() == m
            &&& vals(out.Az@) == vals(abc.0@)
            &&& vals(out.Bz@) == vals(abc.1@)
            &&& vals(out.Cz@) == vals(abc.2@)
            &&& u_pc.pc_sumcheck_claim.val() == 0
            &&& u_pc.comm_witness.log() == zc_pc.0.comm_powers.log()
            &&& u_pc.comm_weights.log() == out.comm_E.log()
            &&& u_pc.tau.val() == zc_pc.0.tau.val()
            &&& w_pc.witness@ == zc_pc.1.powers@
            &&& w_pc.weights@ == vals(v@)
            &&& next.comm_powers.log() == out.comm_E.log()
            &&& next.tau.val() == out.tau.val()
            &&& next_w.powers@ == vals(v@)
        }),
{
    let p = E::Scalar::modulus();
    E::Scalar::lemma_modulus();
    let m = old(transcript).params();
    lemma_continues(t, old(transcript)@, *zc.0, *zc_pc.0);
    lemma_weights::<E>(s@, drawn(p, m, t), r_e.val(), v@);
    lemma_in_a_row(z@, zc.1.W@, 1, zc.0.X@);
    assert(vals(out.Az@) =~= vals(abc.0@));
    assert(vals(out.Bz@) =~= vals(abc.1@));
    assert(vals(out.Cz@) =~= vals(abc.2@));
    lemma_elements_held::<E>(final(transcript)@, poseidon(p, m, t), out.comm_E);
    assert(out.nsc_pc.1@.witness == out.nsc_pc.1.witness.model());
    assert(out.nsc_pc.1@.weights == out.nsc_pc.1.weights.model());
}

/// A conversion that draws its randomness is the one that is given the randomness of its weights.
/// It refuses a witness and a public input that do not fill the columns, and nothing else.
pub proof fn law_conversion_under_chance<E: Engine>(
    ck: &CommitmentKey<E>,
    s: &Structure<E>,
    zc: (&R1CSInstance<E>, &R1CSWitness<E>),
    zc_pc: (&PowerCheckInstance<E>, &PowerCheckWitness<E>),
    transcript: &mut PoseidonRO<E::Scalar>,
    r: Result<NSCConversionOutput<E>, NovaError>,
    other: &mut PoseidonRO<E::Scalar>,
    r_e: E::Scalar,
    q: Result<NSCConversionOutput<E>, NovaError>,
)
    requires
        call_ensures(convert_to_nsc::<E>, (ck, s, zc, zc_pc, transcript), r),
        call_ensures(convert_with_randomness::<E>, (ck, s, zc, zc_pc, other, r_e), q),
        old(transcript)@ == old(other)@,
        old(transcript).params() == old(other).params(),
        r matches Ok(out) ==> r_e.val() == out.E.rand(),
    ensures
        r is Ok <==> q is Ok,
        r is Ok <==> zc.1.W@.len() + 1 + zc.0.X@.len() == s@.shape.cols(),
        r is Err ==> r->Err_0 == NovaError::InvalidWitnessLength && q->Err_0
            == NovaError::InvalidWitnessLength,
        r matches Ok(out) ==> {
            let same = q->Ok_0;
            &&& out.tau.val() == same.tau.val()
            &&& out.E@ == same.E@
            &&& out.E.rand() == same.E.rand()
            &&& out.comm_E.log() == same.comm_E.log()
            &&& out.comm_E.coords() == same.comm_E.coords()
            &&& vals(out.Az@) == vals(same.Az@)
            &&& vals(out.Bz@) == vals(same.Bz@)
            &&& vals(out.Cz@) == vals(same.Cz@)
            &&& out.nsc.0@ == same.nsc.0@
            &&& out.nsc.1@ == same.nsc.1@
            &&& out.nsc_pc.0@ == same.nsc_pc.0@
            &&& out.nsc_pc.1@ == same.nsc_pc.1@
            &&& out.zc_pc.0.tau.val() == same.zc_pc.0.tau.val()
            &&& out.zc_pc.0.comm_powers.log() == same.zc_pc.0.comm_powers.log()
            &&& out.zc_pc.1.powers@ == same.zc_pc.1.powers@
            &&& final(transcript)@ == final(other)@
        },
{
    if let Ok(out) = r {
        let same = q->Ok_0;
        assert(vals(out.Az@) =~= vals(same.Az@));
        assert(vals(out.Bz@) =~= vals(same.Bz@));
        assert(vals(out.Cz@) =~= vals(same.Cz@));
        assert(out.E@ == out.E.model().data && same.E@ == same.E.model().data);
    }
}

/// The conversion that leaves the main instance to its caller is, when it draws its randomness, the
/// one that is given the randomness of its weights.
pub proof fn law_conversion_without_instance_under_chance<E: Engine>(
    ck: &CommitmentKey<E>,
    s: &Structure<E>,
    s_pc: &PowerCheckStructure,
    zc: (&R1CSInstance<E>, &R1CSWitness<E>),
    zc_pc: (&PowerCheckInstance<E>, &PowerCheckWitness<E>),
    transcript: &mut PoseidonRO<E::Scalar>,
    r: Result<nsc_conversion::NSCConversionOutput<E>, NovaError>,
    other: &mut PoseidonRO<E::Scalar>,
    r_e: E::Scalar,
    q: Result<nsc_conversion::NSCConversionOutput<E>, NovaError>,
)
    requires
        call_ensures(nsc_conversion::convert_to_nsc::<E>, (ck, s, s_pc, zc, zc_pc, transcript), r),
        call_ensures(
            nsc_conversion::convert_with_randomness::<E>,
            (ck, s, zc, zc_pc, other, r_e),
            q,
        ),
        old(transcript)@ == old(other)@,
        old(transcript).params() == old(other).params(),
        r matches Ok(out) ==> r_e.val() == out.E.rand(),
    ensures
        r is Ok <==> q is Ok,
        r is Ok <==> zc.1.W@.len() + 1 + zc.0.X@.len() == s@.shape.cols(),
        r is Err ==> r->Err_0 == NovaError::InvalidWitnessLength && q->Err_0
            == NovaError::InvalidWitnessLength,
        r matches Ok(out) ==> {
            let same = q->Ok_0;
            &&& out.tau.val() == same.tau.val()
            &&& out.E@ == same.E@
            &&& out.E.rand() == same.E.rand()
            &&& out.comm_E.log() == same.comm_E.log()
            &&& out.comm_E.coords() == same.comm_E.coords()
            &&& vals(out.Az@) == vals(same.Az@)
            &&& vals(out.Bz@) == vals(same.Bz@)
            &&& vals(out.Cz@) == vals(same.Cz@)
            &&& out.nsc_pc.0@ == same.nsc_pc.0@
            &&& out.nsc_pc.1@ == same.nsc_pc.1@
            &&& out.fresh_pc.0.tau.val() == same.fresh_pc.0.tau.val()
            &&& out.fresh_pc.0.comm_powers.log() == same.fresh_pc.0.comm_powers.log()
            &&& out.fresh_pc.1.powers@ == same.fresh_pc.1.powers@
            &&& final(transcript)@ == final(other)@
        },
{
    if let Ok(out) = r {
        let same = q->Ok_0;
        assert(vals(out.Az@) =~= vals(same.Az@));
        assert(vals(out.Bz@) =~= vals(same.Bz@));
        assert(vals(out.Cz@) =~= vals(same.Cz@));
        assert(out.E@ == out.E.model().data && same.E@ == same.E.model().data);
    }
}

} // verus!
