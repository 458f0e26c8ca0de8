//! What folding does: everything that is folded lies on the line between the two values, at the
//! folding challenge.
use vstd::prelude::*;
use crate::arith::{lemma_cong_mul, lemma_mod, lerp, lerp_seq};
use crate::commitment::{commit_log, lemma_commit_homomorphic, CommitmentKey};
use crate::errors::NovaError;
use crate::field::{vals, Field};
use crate::power_check_relation::{
    FoldedPowerCheckInstance, FoldedPowerCheckWitness, PowerCheckInstance, PowerCheckWitness,
};
use crate::r1cs::{R1CSInstance, R1CSWitness};
use crate::relation::{fold_commitment, fold_scalar, FoldedInstance, FoldedWitness};
use crate::traits::{Commitment, Engine, Group};
use crate::transcript_laws::on_the_line;
use crate::weight_table::{fold_seq, fold_slices, WeightTable};
use crate::zerofold_nifs::{fold, FoldedState};
use crate::zerofold_transcript::{entries_on_the_line, pc_on_the_line};

verus! {

/// A folded scalar lies on the line. At zero it is the first scalar, at one the second.
pub proof fn law_scalars_fold<F: Field>(a: &F, b: &F, r: &F, x: F)
    requires
        call_ensures(fold_scalar::<F>, (a, b, r), x),
    ensures
        x.val() == (a.val() + r.val() * (b.val() - a.val())) % F::modulus(),
        r.val() == 0 ==> x.val() == a.val(),
        r.val() == 1 ==> x.val() == b.val(),
{
    a.lemma_val();
    b.lemma_val();
    vstd::arithmetic::div_mod::lemma_small_mod(a.val() as nat, F::modulus() as nat);
    vstd::arithmetic::div_mod::lemma_small_mod(b.val() as nat, F::modulus() as nat);
}

/// A folded commitment lies on the line. At zero it is the first commitment, at one the second.
pub proof fn law_commitments_fold<E: Engine>(a: &E::GE, b: &E::GE, r: &E::Scalar, c: E::GE)
    requires
        call_ensures(fold_commitment::<E>, (a, b, r), c),
    ensures
        c.log() == (a.log() + r.val() * (b.log() - a.log())) % E::Scalar::modulus(),
        r.val() == 0 ==> c.log() == a.log(),
        r.val() == 1 ==> c.log() == b.log(),
        c.coords() == E::GE::point(c.log()),
{
    a.lemma_log();
    b.lemma_log();
    let p = E::Scalar::modulus();
    vstd::arithmetic::div_mod::lemma_small_mod(a.log() as nat, p as nat);
    vstd::arithmetic::div_mod::lemma_small_mod(b.log() as nat, p as nat);
}

/// Folded vectors lie on the line, entry by entry. Of vectors of two lengths, the shorter one tells
/// how many entries there are.
pub proof fn law_vectors_fold<F: Field>(a: &[F], b: &[F], r: &F, out: Vec<F>, i: int)
    requires
        call_ensures(fold_slices::<F>, (a, b, r), out),
        0 <= i < a@.len(),
        0 <= i < b@.len(),
    ensures
        i < out@.len(),
        out@.len() == a@.len() || out@.len() == b@.len(),
        out@.len() <= a@.len(),
        out@.len() <= b@.len(),
        out@[i].val() == (a@[i].val() + r.val() * (b@[i].val() - a@[i].val())) % F::modulus(),
        r.val() == 0 ==> out@[i].val() == a@[i].val(),
        r.val() == 1 ==> out@[i].val() == b@[i].val(),
{
    assert(vals(out@)[i] == out@[i].val());
    assert(vals(out@).len() == out@.len());
    a@[i].lemma_val();
    b@[i].lemma_val();
    vstd::arithmetic::div_mod::lemma_small_mod(a@[i].val() as nat, F::modulus() as nat);
    vstd::arithmetic::div_mod::lemma_small_mod(b@[i].val() as nat, F::modulus() as nat);
}

/// Folded tables lie on the line, entries and randomness, and keep their split.
pub proof fn law_tables_fold<E: Engine>(
    a: &WeightTable<E>,
    b: &WeightTable<E>,
    r: &E::Scalar,
    t: WeightTable<E>,
)
    requires
        call_ensures(WeightTable::<E>::fold, (a, b, r), t),
        a@.len() == b@.len(),
    ensures
        entries_on_the_line(E::Scalar::modulus(), t@, a@, b@, r.val()),
        t.rand() == (a.rand() + r.val() * (b.rand() - a.rand())) % E::Scalar::modulus(),
        t.split() == a.split(),
{
    assert(t@ == t.model().data);
}

/// Folding commutes with committing: the fold of two commitments is the commitment to the fold of
/// their vectors, under the fold of their randomness.
pub proof fn law_fold_of_commitments<E: Engine>(
    key: &CommitmentKey<E>,
    v: (&[E::Scalar], &[E::Scalar]),
    r: (&E::Scalar, &E::Scalar),
    c: (Commitment<E>, Commitment<E>),
    at: &E::Scalar,
    folded: (&Vec<E::Scalar>, &E::Scalar, Commitment<E>),
    s: &[E::Scalar],
    d: Commitment<E>,
)
    requires
        call_ensures(CommitmentKey::<E>::commit, (key, v.0, r.0), c.0),
        call_ensures(CommitmentKey::<E>::commit, (key, v.1, r.1), c.1),
        v.0@.len() == v.1@.len(),
        v.0@.len() <= key.bases().len(),
        call_ensures(fold_slices::<E::Scalar>, (v.0, v.1, at), *folded.0),
        call_ensures(fold_scalar::<E::Scalar>, (r.0, r.1, at), *folded.1),
        call_ensures(fold_commitment::<E>, (&c.0, &c.1, at), folded.2),
        s@ == folded.0@,
        call_ensures(CommitmentKey::<E>::commit, (key, s, folded.1), d),
    ensures
        folded.2.log() == d.log(),
        folded.2.coords() == d.coords(),
{
    let p = E::Scalar::modulus();
    E::Scalar::lemma_modulus();
    let (a, b) = (vals(v.0@), vals(v.1@));
    let t = at.val();
    let l = lerp_seq(a, b, t);
    let w = fold_seq(p, a, b, t);
    assert(vals(s@) == w);
    lemma_commit_homomorphic(p, key.bases(), key.blind(), a, r.0.val(), b, r.1.val(), t);
    let (x, y) = (
        commit_log(key.bases(), key.blind(), a, r.0.val()),
        commit_log(key.bases(), key.blind(), b, r.1.val()),
    );
    lemma_mod(p, x);
    lemma_mod(p, y);
    crate::arith::lemma_cong_lerp(p, c.0.log(), c.1.log(), t, x, y, t);
    assert((1 - t) * x + t * y == lerp(x, y, t)) by (nonlinear_arith)
        requires
            lerp(x, y, t) == x + t * (y - x),
    ;
    let f = |i: int| w[i] * key.bases()[i];
    let g = |i: int| l[i] * key.bases()[i];
    assert forall|i: int| 0 <= i < w.len() implies #[trigger] f(i) % p == g(i) % p by {
        lemma_mod(p, l[i]);
        lemma_cong_mul(p, w[i], key.bases()[i], l[i], key.bases()[i]);
    }
    crate::arith::lemma_sum_cong(p, f, g, 0, w.len() as int);
    let e = lerp(r.0.val(), r.1.val(), t);
    lemma_mod(p, e);
    lemma_cong_mul(p, e % p, key.blind(), e, key.blind());
    crate::arith::lemma_cong_add(
        p,
        (e % p) * key.blind(),
        crate::arith::sum(f, 0, w.len() as int),
        e * key.blind(),
        crate::arith::sum(g, 0, w.len() as int),
    );
}

/// A running instance folds with a fresh one: all its parts lie on the line, the scalar runs
/// towards one, and the claim is the given one.
pub proof fn law_instance_folds_with_a_fresh_one<E: Engine>(
    u1: &FoldedInstance<E>,
    u2: &R1CSInstance<E>,
    comm_E: &Commitment<E>,
    r_b: &E::Scalar,
    claim: &E::Scalar,
    r: Result<FoldedInstance<E>, NovaError>,
)
    requires
        call_ensures(FoldedInstance::<E>::fold, (u1, u2, comm_E, r_b, claim), r),
    ensures
        r is Ok <==> u1.X@.len() == u2.X@.len(),
        r matches Ok(u) ==> on_the_line(u, *u1, *u2, *comm_E, r_b.val()) && u.T.val()
            == claim.val(),
{
    if let Ok(u) = r {
        assert(u@.x == vals(u.X@));
        assert(u@.x.len() == u.X@.len());
        assert forall|i: int| 0 <= i < u.X@.len() implies (#[trigger] u.X@[i]).val() == (
        u1.X@[i].val() + r_b.val() * (u2.X@[i].val() - u1.X@[i].val())) % E::Scalar::modulus() by {
            assert(u@.x[i] == u.X@[i].val());
            assert(u1@.x[i] == u1.X@[i].val());
        }
    }
}

/// Two instances of the main relation fold: all parts lie on the line, but for the claim, which is
/// the given one.
pub proof fn law_instances_fold<E: Engine>(
    u1: &FoldedInstance<E>,
    u2: &FoldedInstance<E>,
    r_b: &E::Scalar,
    claim: &E::Scalar,
    u: FoldedInstance<E>,
)
    requires
        call_ensures(FoldedInstance::<E>::fold_with, (u1, u2, r_b, claim), u),
        u1.X@.len() == u2.X@.len(),
    ensures
        instance_on_the_line(u, *u1, *u2, r_b.val()),
        u.T.val() == claim.val(),
{
    assert(u@.x == vals(u.X@));
    assert(u@.x.len() == u.X@.len());
}

/// The parts of an instance of the main relation lie on the line, apart from the claim.
pub open spec fn instance_on_the_line<E: Engine>(
    u: FoldedInstance<E>,
    u1: FoldedInstance<E>,
    u2: FoldedInstance<E>,
    r: int,
) -> bool {
    let p = E::Scalar::modulus();
    &&& entries_on_the_line(p, vals(u.X@), vals(u1.X@), vals(u2.X@), r)
    &&& u.u.val() == (u1.u.val() + r * (u2.u.val() - u1.u.val())) % p
    &&& u.comm_W.log() == (u1.comm_W.log() + r * (u2.comm_W.log() - u1.comm_W.log())) % p
    &&& u.comm_E.log() == (u1.comm_E.log() + r * (u2.comm_E.log() - u1.comm_E.log())) % p
}

/// A running witness folds with a fresh one and a table of weights.
pub proof fn law_witness_folds_with_a_fresh_one<E: Engine>(
    w1: &FoldedWitness<E>,
    w2: &R1CSWitness<E>,
    table: &WeightTable<E>,
    r_b: &E::Scalar,
    r: Result<FoldedWitness<E>, NovaError>,
)
    requires
        call_ensures(FoldedWitness::<E>::fold, (w1, w2, table, r_b), r),
    ensures
        r is Ok <==> w1.W@.len() == w2.W@.len() && w1.E@.len() == table@.len(),
        r matches Ok(w) ==> {
            let p = E::Scalar::modulus();
            let t = r_b.val();
            &&& entries_on_the_line(p, vals(w.W@), vals(w1.W@), vals(w2.W@), t)
            &&& entries_on_the_line(p, w.E@, w1.E@, table@, t)
            &&& w.r_W.val() == (w1.r_W.val() + t * (w2.r_W.val() - w1.r_W.val())) % p
            &&& w.E.rand() == (w1.E.rand() + t * (table.rand() - w1.E.rand())) % p
            &&& w.E.split() == w1.E.split()
        },
{
    if let Ok(w) = r {
        assert(w@.w == vals(w.W@) && w@.e == w.E@);
        assert(w@.r_e == w.E.rand());
    }
}

/// Two witnesses of the main relation fold into one with the given table.
pub proof fn law_witnesses_fold<E: Engine>(
    w1: &FoldedWitness<E>,
    w2: &FoldedWitness<E>,
    table: WeightTable<E>,
    r_b: &E::Scalar,
    w: FoldedWitness<E>,
)
    requires
        call_ensures(FoldedWitness::<E>::fold_with, (w1, w2, table, r_b), w),
        w1.W@.len() == w2.W@.len(),
    ensures
        ({
            let p = E::Scalar::modulus();
            let t = r_b.val();
            &&& entries_on_the_line(p, vals(w.W@), vals(w1.W@), vals(w2.W@), t)
            &&& w.r_W.val() == (w1.r_W.val() + t * (w2.r_W.val() - w1.r_W.val())) % p
            &&& w.E@ == table@
            &&& w.E.rand() == table.rand()
            &&& w.E.split() == table.split()
        }),
{
    assert(w@.w == vals(w.W@) && w@.e == w.E@);
    assert(w@.r_e == w.E.rand() && w@.split == w.E.split());
}

/// A running power check folds with a fresh one.
pub proof fn law_power_check_folds_with_a_fresh_one<E: Engine>(
    u1: &FoldedPowerCheckInstance<E>,
    u2: &PowerCheckInstance<E>,
    r_b: &E::Scalar,
    comm_E: &Commitment<E>,
    claim: &E::Scalar,
    u: FoldedPowerCheckInstance<E>,
)
    requires
        call_ensures(FoldedPowerCheckInstance::<E>::fold, (u1, u2, r_b, comm_E, claim), u),
    ensures
        pc_on_the_line(u, *u1, *u2, *comm_E, r_b.val()),
        u.pc_sumcheck_claim.val() == claim.val(),
{
    assert(u@.tau == u.tau.val());
}

/// The parts of a power check lie on the line, apart from the claim.
pub open spec fn power_check_on_the_line<E: Engine>(
    u: FoldedPowerCheckInstance<E>,
    u1: FoldedPowerCheckInstance<E>,
    u2: FoldedPowerCheckInstance<E>,
    r: int,
) -> bool {
    let p = E::Scalar::modulus();
    &&& u.tau.val() == (u1.tau.val() + r * (u2.tau.val() - u1.tau.val())) % p
    &&& u.comm_witness.log() == (u1.comm_witness.log() + r * (u2.comm_witness.log()
        - u1.comm_witness.log())) % p
    &&& u.comm_weights.log() == (u1.comm_weights.log() + r * (u2.comm_weights.log()
        - u1.comm_weights.log())) % p
}

/// Two power checks fold.
pub proof fn law_power_checks_fold<E: Engine>(
    u1: &FoldedPowerCheckInstance<E>,
    u2: &FoldedPowerCheckInstance<E>,
    r_b: &E::Scalar,
    claim: &E::Scalar,
    u: FoldedPowerCheckInstance<E>,
)
    requires
        call_ensures(FoldedPowerCheckInstance::<E>::fold_with, (u1, u2, r_b, claim), u),
    ensures
        power_check_on_the_line(u, *u1, *u2, r_b.val()),
        u.pc_sumcheck_claim.val() == claim.val(),
{
    assert(u@.tau == u.tau.val());
}

/// The two tables of a power check lie on the line.
pub open spec fn tables_on_the_line<E: Engine>(
    w: FoldedPowerCheckWitness<E>,
    w1: FoldedPowerCheckWitness<E>,
    table: WeightTable<E>,
    weights: WeightTable<E>,
    r: int,
) -> bool {
    let p = E::Scalar::modulus();
    &&& entries_on_the_line(p, w.witness@, w1.witness@, table@, r)
    &&& entries_on_the_line(p, w.weights@, w1.weights@, weights@, r)
    &&& w.witness.rand() == (w1.witness.rand() + r * (table.rand() - w1.witness.rand())) % p
    &&& w.weights.rand() == (w1.weights.rand() + r * (weights.rand() - w1.weights.rand())) % p
    &&& w.witness.split() == w1.witness.split()
    &&& w.weights.split() == w1.weights.split()
}

/// The tables of a running power check fold with a fresh table and new weights.
pub proof fn law_power_check_tables_fold_with_fresh_ones<E: Engine>(
    w1: &FoldedPowerCheckWitness<E>,
    w2: &PowerCheckWitness<E>,
    weights: &WeightTable<E>,
    r_b: &E::Scalar,
    w: FoldedPowerCheckWitness<E>,
)
    requires
        call_ensures(FoldedPowerCheckWitness::<E>::fold, (w1, w2, weights, r_b), w),
        w1.witness@.len() == w2.powers@.len(),
        w1.weights@.len() == weights@.len(),
    ensures
        tables_on_the_line(w, *w1, w2.powers, *weights, r_b.val()),
{
    assert(w@.witness == w.witness.model() && w@.weights == w.weights.model());
}

/// The tables of two power checks fold.
pub proof fn law_power_check_tables_fold<E: Engine>(
    w1: &FoldedPowerCheckWitness<E>,
    w2: &FoldedPowerCheckWitness<E>,
    r_b: &E::Scalar,
    w: FoldedPowerCheckWitness<E>,
)
    requires
        call_ensures(FoldedPowerCheckWitness::<E>::fold_with, (w1, w2, r_b), w),
        w1.witness@.len() == w2.witness@.len(),
        w1.weights@.len() == w2.weights@.len(),
    ensures
        tables_on_the_line(w, *w1, w2.witness, w2.weights, r_b.val()),
{
    assert(w@.witness == w.witness.model() && w@.weights == w.weights.model());
}

/// Folding two states folds all their parts at one challenge: instances, witnesses, products and
/// tables. The claims are the given ones, each for its relation.
pub proof fn law_states_fold<E: Engine>(
    nsc1: (&FoldedInstance<E>, &FoldedWitness<E>),
    nsc2: (&FoldedInstance<E>, &FoldedWitness<E>),
    abc1: (&[E::Scalar], &[E::Scalar], &[E::Scalar]),
    abc2: (&[E::Scalar], &[E::Scalar], &[E::Scalar]),
    pc1: (&FoldedPowerCheckInstance<E>, &FoldedPowerCheckWitness<E>),
    pc2: (&FoldedPowerCheckInstance<E>, &FoldedPowerCheckWitness<E>),
    r_b: &E::Scalar,
    claim: &E::Scalar,
    claim_pc: &E::Scalar,
    s: FoldedState<E>,
)
    requires
        call_ensures(
            fold::<E>,
            (nsc1, nsc2, abc1, abc2, pc1, pc2, r_b, claim, claim_pc),
            s,
        ),
        nsc1.0.X@.len() == nsc2.0.X@.len(),
        nsc1.1.W@.len() == nsc2.1.W@.len(),
        nsc1.1.E@.len() == nsc2.1.E@.len(),
        abc1.0@.len() == abc2.0@.len(),
        abc1.1@.len() == abc2.1@.len(),
        abc1.2@.len() == abc2.2@.len(),
        pc1.1.witness@.len() == pc2.1.witness@.len(),
        pc1.1.weights@.len() == pc2.1.weights@.len(),
    ensures
        ({
            let p = E::Scalar::modulus();
            let t = r_b.val();
            let (w, w1, w2) = (s.nsc_witness, nsc1.1, nsc2.1);
            &&& instance_on_the_line(s.nsc_instance, *nsc1.0, *nsc2.0, t)
            &&& s.nsc_instance.T.val() == claim.val()
            &&& power_check_on_the_line(s.pc_instance, *pc1.0, *pc2.0, t)
            &&& s.pc_instance.pc_sumcheck_claim.val() == claim_pc.val()
            &&& entries_on_the_line(p, vals(w.W@), vals(w1.W@), vals(w2.W@), t)
            &&& entries_on_the_line(p, w.E@, w1.E@, w2.E@, t)
            &&& w.r_W.val() == (w1.r_W.val() + t * (w2.r_W.val() - w1.r_W.val())) % p
            &&& w.E.rand() == (w1.E.rand() + t * (w2.E.rand() - w1.E.rand())) % p
            &&& tables_on_the_line(s.pc_witness, *pc1.1, pc2.1.witness, pc2.1.weights, t)
            &&& entries_on_the_line(p, vals(s.Az@), vals(abc1.0@), vals(abc2.0@), t)
            &&& entries_on_the_line(p, vals(s.Bz@), vals(abc1.1@), vals(abc2.1@), t)
            &&& entries_on_the_line(p, vals(s.Cz@), vals(abc1.2@), vals(abc2.2@), t)
        }),
{
    let (u, w) = (s.nsc_instance, s.nsc_witness);
    assert(u@.x == vals(u.X@));
    assert(w@.w == vals(w.W@) && w@.e == w.E@ && w@.r_e == w.E.rand());
    assert(s.pc_instance@.tau == s.pc_instance.tau.val());
    assert(s.pc_witness@.witness == s.pc_witness.witness.model());
    assert(s.pc_witness@.weights == s.pc_witness.weights.model());
}

} // verus!
