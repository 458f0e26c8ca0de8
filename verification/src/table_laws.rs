//! What tables of powers are, what the residuals say of a table, and how structures are split.
use vstd::prelude::*;
use crate::arith::{lemma_cong_mul, lemma_mod, lemma_power_add, power};
use crate::commitment::CommitmentKey;
use crate::errors::NovaError;
use crate::field::{vals, Field};
use crate::math::{ceil_log2, pow2};
use crate::nested_sumcheck::{reconstruct_fresh_from_tau, ReconstructedFresh};
use crate::nifs_laws::is_table_of_powers;
use crate::power_check_laws::{
    law_power_table_valid, law_unit_table_is_powers_of_zero, law_valid_table_is_powers,
    table_valid,
};
use crate::power_check_relation::{
    generate_power_check_relation, pc_g, pc_g_at, pc_residual, pc_residual_at,
    power_check_with_randomness, FoldedPowerCheckInstance, FoldedPowerCheckWitness,
    PowerCheckInstance, PowerCheckStructure, PowerCheckWitness,
};
use crate::r1cs::{R1CSInstance, R1CSShape, R1CSWitness};
use crate::relation::{FoldedInstance, FoldedWitness, Structure};
use crate::traits::{Commitment, Engine, Group};
use crate::weight_table::{mod_seq, power_table, WeightTable};
use crate::zerofold_nifs::{setup_nsc, setup_nsc_pc, setup_zc_pc};

verus! {

/// A table of powers starts with one in both halves. Each entry of the first half is the scalar
/// times the one before, and the product of an entry of the second half and one of the first is a
/// power: that of `i left + j`.
pub proof fn law_table_of_powers<E: Engine>(
    tau: &E::Scalar,
    left: usize,
    right: usize,
    r: E::Scalar,
    t: WeightTable<E>,
    e: (&[E::Scalar], &[E::Scalar]),
    i: int,
    j: int,
)
    requires
        call_ensures(WeightTable::<E>::from_powers, (tau, left, right, r), t),
        call_ensures(WeightTable::<E>::e1, (&t,), e.0),
        call_ensures(WeightTable::<E>::e2, (&t,), e.1),
        0 <= j < left,
        0 <= i < right,
    ensures
        e.0@.len() == left,
        e.1@.len() == right,
        t.rand() == r.val(),
        e.0@[0].val() == 1,
        e.1@[0].val() == 1,
        j + 1 < left ==> e.0@[j + 1].val() == (e.0@[j].val() * tau.val()) % E::Scalar::modulus(),
        (e.1@[i].val() * e.0@[j].val()) % E::Scalar::modulus() == power(
            tau.val(),
            (i * left + j) as nat,
        ) % E::Scalar::modulus(),
        is_table_of_powers(e.0@ + e.1@, tau.val(), left as nat, right as nat),
{
    let p = E::Scalar::modulus();
    E::Scalar::lemma_modulus();
    let x = tau.val();
    let (l, n) = (left as int, right as int);
    assert forall|k: int| 0 <= k < l implies (#[trigger] e.0@[k]).val() == power(x, k as nat)
        % p by {
        assert(vals(e.0@)[k] == t@[k]);
    }
    assert forall|k: int| 0 <= k < n implies (#[trigger] e.1@[k]).val() == power(
        x,
        (k * l) as nat,
    ) % p by {
        assert(vals(e.1@)[k] == t@[l + k]);
    }
    vstd::arithmetic::div_mod::lemma_small_mod(1, p as nat);
    assert(0 * l == 0) by (nonlinear_arith);
    assert(e.0@[0].val() == power(x, 0) % p);
    assert(e.1@[0].val() == power(x, 0) % p);
    assert(0 <= i * l) by (nonlinear_arith)
        requires
            0 <= i,
            0 <= l,
    ;
    let (a, b) = (power(x, (i * l) as nat), power(x, j as nat));
    lemma_power_add(x, (i * l) as nat, j as nat);
    lemma_mod(p, a);
    lemma_mod(p, b);
    lemma_cong_mul(p, e.1@[i].val(), e.0@[j].val(), a, b);
    lemma_cong_mul(p, e.0@[j].val(), x, b, x);
    let v = e.0@ + e.1@;
    assert forall|k: int| l <= k < l + n implies (#[trigger] v[k]).val() == power(
        x,
        ((k - l) * l) as nat,
    ) % p by {
        assert(v[k] == e.1@[k - l]);
    }
}

/// The residual of a constraint by region: both halves start with one; each entry of the first half
/// is the scalar times the one before; the second entry of the second half is the scalar times the
/// last of the first half; the entries behind it are its multiples of the ones before.
pub proof fn law_residuals_by_region<F: Field>(
    i: usize,
    left: usize,
    e1: &[F],
    e2: &[F],
    tau: F,
    r: F,
)
    requires
        call_ensures(pc_residual_at::<F>, (i, left, e1, e2, tau), r),
        e1@.len() == left,
        left >= 1,
        i < left + e2@.len(),
    ensures
        ({
            let p = F::modulus();
            let k = i - left;
            &&& i == 0 ==> r.val() == (e1@[0].val() - 1) % p
            &&& 0 < i < left ==> r.val() == (e1@[i as int].val() - e1@[i - 1].val() * tau.val())
                % p
            &&& k == 0 ==> r.val() == (e2@[0].val() - 1) % p
            &&& k == 1 ==> r.val() == (e2@[1].val() - e1@[left - 1].val() * tau.val()) % p
            &&& k >= 2 ==> r.val() == (e2@[k].val() - e2@[1].val() * e2@[k - 1].val()) % p
        }),
{
    let k = i - left;
    let (a, b) = (vals(e1@), vals(e2@));
    assert(a[0] == e1@[0].val() && a[left - 1] == e1@[left - 1].val());
    if 0 < i < left {
        assert(a[i as int] == e1@[i as int].val() && a[i - 1] == e1@[i - 1].val());
    }
    if k >= 0 {
        assert(b[k] == e2@[k].val());
    }
    if k >= 2 {
        assert(b[k - 1] == e2@[k - 1].val() && b[1] == e2@[1].val());
    }
    let res = pc_residual(i as int, left as int, a, b, tau.val());
    assert(r.val() == res % F::modulus());
    let g = pc_g(i as int, left as int, a, b, tau.val());
    if i == 0 || k == 0 {
        assert(g.1 * g.2 == 1) by (nonlinear_arith)
            requires
                g.1 == 1,
                g.2 == 1,
        ;
    }
    if i == 0 {
        assert(res == a[0] - 1);
    } else if i < left {
        assert(res == a[i as int] - a[i - 1] * tau.val());
    } else if k == 0 {
        assert(res == b[0] - 1);
    } else if k == 1 {
        assert(res == b[1] - a[left - 1] * tau.val());
    } else {
        assert(res == b[k] - b[1] * b[k - 1]);
    }
}

/// The residual is the first of the three values of a constraint, less the product of the others.
pub proof fn law_residual_is_of_its_values<F: Field>(
    i: usize,
    left: usize,
    e1: &[F],
    e2: &[F],
    tau: F,
    r: F,
    g: (F, F, F),
)
    requires
        call_ensures(pc_residual_at::<F>, (i, left, e1, e2, tau), r),
        call_ensures(pc_g_at::<F>, (i, left, e1, e2, tau), g),
    ensures
        r.val() == (g.0.val() - g.1.val() * g.2.val()) % F::modulus(),
{
}

/// All residuals of a table vanish if and only if it is the table of the powers of the scalar.
pub proof fn law_residuals_vanish_on_powers_alone<F: Field>(
    left: usize,
    e1: &[F],
    e2: &[F],
    tau: F,
    r: Seq<F>,
)
    requires
        e1@.len() == left,
        left >= 1,
        r.len() == left + e2@.len(),
        left + e2@.len() <= usize::MAX,
        forall|i: usize|
            i < r.len() ==> call_ensures(
                pc_residual_at::<F>,
                (i, left, e1, e2, tau),
                #[trigger] r[i as int],
            ),
    ensures
        (forall|i: int| 0 <= i < r.len() ==> (#[trigger] r[i]).val() == 0) <==> (forall|j: int|
            0 <= j < left ==> (#[trigger] e1@[j]).val() == power(tau.val(), j as nat)
                % F::modulus()) && (forall|k: int|
            0 <= k < e2@.len() ==> (#[trigger] e2@[k]).val() == power(
                tau.val(),
                (k * left) as nat,
            ) % F::modulus()),
{
    let p = F::modulus();
    F::lemma_modulus();
    let (a, b, x, l) = (vals(e1@), vals(e2@), tau.val(), left as int);
    assert forall|i: int| 0 <= i < r.len() implies (#[trigger] r[i]).val() == pc_residual(
        i,
        l,
        a,
        b,
        x,
    ) % p by {
        assert(r[i] == r[(i as usize) as int]);
    }
    let powers = (forall|j: int|
        0 <= j < left ==> (#[trigger] e1@[j]).val() == power(x, j as nat) % p) && (forall|k: int|
        0 <= k < e2@.len() ==> (#[trigger] e2@[k]).val() == power(x, (k * left) as nat) % p);
    if forall|i: int| 0 <= i < r.len() ==> (#[trigger] r[i]).val() == 0 {
        assert forall|i: int| 0 <= i < a.len() + b.len() implies #[trigger] pc_residual(
            i,
            l,
            a,
            b,
            x,
        ) % p == 0 by {
            assert(r[i].val() == 0);
        }
        assert(table_valid(p, a, b, x));
        law_valid_table_is_powers(p, x, a, b);
        assert forall|j: int| 0 <= j < left implies (#[trigger] e1@[j]).val() == power(
            x,
            j as nat,
        ) % p by {
            e1@[j].lemma_val();
            assert(a[j] % p == power(x, j as nat) % p);
            vstd::arithmetic::div_mod::lemma_small_mod(a[j] as nat, p as nat);
        }
        assert forall|k: int| 0 <= k < e2@.len() implies (#[trigger] e2@[k]).val() == power(
            x,
            (k * left) as nat,
        ) % p by {
            e2@[k].lemma_val();
            assert(b[k] % p == power(x, (k * a.len()) as nat) % p);
            vstd::arithmetic::div_mod::lemma_small_mod(b[k] as nat, p as nat);
        }
    }
    if powers {
        let t = crate::weight_table::TableModel { data: a + b, rand: 0, split: left as nat };
        assert(t.data =~= mod_seq(p, power_table(x, left as nat, b.len()))) by {
            assert forall|i: int| 0 <= i < t.data.len() implies t.data[i] == mod_seq(
                p,
                power_table(x, left as nat, b.len()),
            )[i] by {
                if i < left {
                    assert(e1@[i].val() == power(x, i as nat) % p);
                } else {
                    assert(e2@[i - left].val() == power(x, ((i - left) * left) as nat) % p);
                }
            }
        }
        law_power_table_valid(p, x, left as nat, b.len(), t);
        assert(t.first() =~= a && t.second() =~= b);
        assert forall|i: int| 0 <= i < r.len() implies (#[trigger] r[i]).val() == 0 by {
            assert(pc_residual(i, a.len() as int, a, b, x) % p == 0);
        }
    }
}

/// A power check for a scalar has the table of its powers under the given randomness, is committed
/// to that table, and states the scalar.
pub proof fn law_power_check_of_a_scalar<E: Engine>(
    tau: &E::Scalar,
    left: usize,
    right: usize,
    ck: &CommitmentKey<E>,
    r: E::Scalar,
    out: (PowerCheckInstance<E>, PowerCheckWitness<E>),
    v: &[E::Scalar],
    c: Commitment<E>,
)
    requires
        call_ensures(power_check_with_randomness::<E>, (tau, left, right, ck, r), out),
        is_table_of_powers(v@, tau.val(), left as nat, right as nat),
        v@.len() <= ck.bases().len(),
        call_ensures(CommitmentKey::<E>::commit, (ck, v, &r), c),
    ensures
        out.0.tau.val() == tau.val(),
        out.0.comm_powers.log() == c.log(),
        out.0.comm_powers.coords() == c.coords(),
        out.1.powers@ == vals(v@),
        out.1.powers.rand() == r.val(),
        out.1.powers.split() == left,
{
    lemma_powers::<E>(tau.val(), left as nat, right as nat, v@);
}

/// A table of powers is the one that the contracts speak of.
proof fn lemma_powers<E: Engine>(x: int, left: nat, right: nat, v: Seq<E::Scalar>)
    requires
        is_table_of_powers(v, x, left, right),
    ensures
        mod_seq(E::Scalar::modulus(), power_table(x, left, right)) == vals(v),
{
    let e = mod_seq(E::Scalar::modulus(), power_table(x, left, right));
    assert forall|i: int| 0 <= i < e.len() implies e[i] == vals(v)[i] by {
        assert(vals(v)[i] == v[i].val());
    }
    assert(e =~= vals(v));
}

/// A power check under fresh randomness is one under the randomness that its table holds.
pub proof fn law_generated_power_check<E: Engine>(
    tau: &E::Scalar,
    left: usize,
    right: usize,
    ck: &CommitmentKey<E>,
    out: (PowerCheckInstance<E>, PowerCheckWitness<E>),
    v: &[E::Scalar],
    c: Commitment<E>,
)
    requires
        call_ensures(generate_power_check_relation::<E>, (tau, left, right, ck), out),
        is_table_of_powers(v@, tau.val(), left as nat, right as nat),
        v@.len() <= ck.bases().len(),
        call_ensures(WeightTable::<E>::commit, (&out.1.powers, ck), c),
    ensures
        out.0.tau.val() == tau.val(),
        out.0.comm_powers.log() == c.log(),
        out.1.powers@ == vals(v@),
        out.1.powers.split() == left,
{
    lemma_powers::<E>(tau.val(), left as nat, right as nat, v@);
}

/// The pairs that a challenge gives back are those of the conversion: fresh instances with the
/// given commitment, and the powers of the challenge for weights of both.
pub proof fn law_reconstruction<E: Engine>(
    s: &Structure<E>,
    zc: (&R1CSInstance<E>, &R1CSWitness<E>),
    zc_pc: (&PowerCheckInstance<E>, &PowerCheckWitness<E>),
    tau: &E::Scalar,
    comm_E: &Commitment<E>,
    r: Result<ReconstructedFresh<E>, NovaError>,
    v: &[E::Scalar],
)
    requires
        call_ensures(reconstruct_fresh_from_tau::<E>, (s, zc, zc_pc, tau, comm_E), r),
        s@.wf(),
        is_table_of_powers(v@, tau.val(), s@.left as nat, s@.right as nat),
    ensures
        r is Ok,
        ({
            let (u, w) = r->Ok_0.nsc;
            let (u_pc, w_pc) = r->Ok_0.nsc_pc;
            &&& u.comm_W.log() == zc.0.comm_W.log()
            &&& u.comm_E.log() == comm_E.log()
            &&& u.T.val() == 0
            &&& u.u.val() == 1
            &&& vals(u.X@) == vals(zc.0.X@)
            &&& vals(w.W@) == vals(zc.1.W@)
            &&& w.r_W.val() == zc.1.r_W.val()
            &&& w.E@ == vals(v@)
            &&& u_pc.pc_sumcheck_claim.val() == 0
            &&& u_pc.comm_witness.log() == zc_pc.0.comm_powers.log()
            &&& u_pc.comm_weights.log() == comm_E.log()
            &&& u_pc.tau.val() == zc_pc.0.tau.val()
            &&& w_pc.witness@ == zc_pc.1.powers@
            &&& w_pc.weights@ == vals(v@)
        }),
{
    lemma_powers::<E>(tau.val(), s@.left as nat, s@.right as nat, v@);
    let f = r->Ok_0;
    assert(f.nsc.0@.x == vals(f.nsc.0.X@));
    assert(f.nsc.1@.w == vals(f.nsc.1.W@));
    assert(f.nsc.1@.e == f.nsc.1.E@);
    assert(f.nsc_pc.1@.witness == f.nsc_pc.1.witness.model());
    assert(f.nsc_pc.1@.weights == f.nsc_pc.1.weights.model());
}

/// Fresh instances and witnesses have the parts that they are made of, the scalar one and the claim
/// zero.
pub proof fn law_fresh_pairs<E: Engine>(
    u: &R1CSInstance<E>,
    w: &R1CSWitness<E>,
    u_pc: &PowerCheckInstance<E>,
    w_pc: &PowerCheckWitness<E>,
    comm_E: &E::GE,
    table: WeightTable<E>,
    nsc: (FoldedInstance<E>, FoldedWitness<E>),
    nsc_pc: (FoldedPowerCheckInstance<E>, FoldedPowerCheckWitness<E>),
)
    requires
        call_ensures(FoldedInstance::<E>::from_r1cs, (u, comm_E), nsc.0),
        call_ensures(FoldedWitness::<E>::from_r1cs, (w, table), nsc.1),
        call_ensures(FoldedPowerCheckInstance::<E>::from_fresh_zc_pc, (u_pc, *comm_E), nsc_pc.0),
        call_ensures(FoldedPowerCheckWitness::<E>::from_fresh_zc_pc, (w_pc, table), nsc_pc.1),
    ensures
        nsc.0.comm_W == u.comm_W,
        nsc.0.comm_E == *comm_E,
        nsc.0.T.val() == 0,
        nsc.0.u.val() == 1,
        vals(nsc.0.X@) == vals(u.X@),
        vals(nsc.1.W@) == vals(w.W@),
        nsc.1.r_W.val() == w.r_W.val(),
        nsc.1.E.model() == table.model(),
        nsc_pc.0.pc_sumcheck_claim.val() == 0,
        nsc_pc.0.comm_witness == u_pc.comm_powers,
        nsc_pc.0.comm_weights == *comm_E,
        nsc_pc.0.tau == u_pc.tau,
        nsc_pc.1.witness.model() == w_pc.powers.model(),
        nsc_pc.1.weights.model() == table.model(),
{
    assert(nsc.0@.x == vals(nsc.0.X@));
    assert(nsc.1@.w == vals(nsc.1.W@));
    assert(nsc.1@.e == nsc.1.E@ && nsc.1@.r_e == nsc.1.E.rand() && nsc.1@.split
        == nsc.1.E.split());
    assert(nsc_pc.1@.witness == nsc_pc.1.witness.model());
    assert(nsc_pc.1@.weights == nsc_pc.1.weights.model());
}

/// Powers of two grow with their exponents.
proof fn lemma_powers_of_two_grow(a: nat, b: nat)
    requires
        a <= b,
    ensures
        1 <= power(2, a) <= power(2, b),
    decreases b,
{
    if a < b {
        lemma_powers_of_two_grow(a, (b - 1) as nat);
    } else if b > 0 {
        lemma_powers_of_two_grow((b - 1) as nat, (b - 1) as nat);
    }
}

/// The logarithm to the base two, rounded up, is the least exponent whose power of two reaches the
/// number.
pub proof fn law_ceil_log2(n: usize, ell: usize, k: nat)
    requires
        call_ensures(ceil_log2, (n,), ell),
        n <= usize::MAX / 2 + 1,
    ensures
        n <= power(2, k) <==> ell <= k,
{
    if ell <= k {
        lemma_powers_of_two_grow(ell as nat, k);
    } else {
        lemma_powers_of_two_grow(k, (ell - 1) as nat);
    }
}

/// The zeroth power of two is one, and every other is twice the one before.
pub proof fn law_pow2(k: usize, x: usize, y: usize)
    requires
        call_ensures(pow2, (k,), x),
        k > 0 ==> call_ensures(pow2, ((k - 1) as usize,), y),
    ensures
        k == 0 ==> x == 1,
        k > 0 ==> x == 2 * y,
{
}

/// A split of the least power of two that reaches a number into two halves, the first of which is
/// as long as the second or twice as long.
pub open spec fn splits_evenly(n: int, left: int, right: int) -> bool {
    &&& left == right || left == 2 * right
    &&& n <= left * right
    &&& left * right < 2 * n || left * right == 1
    &&& exists|k: nat| left * right == #[trigger] power(2, k)
}

/// What the exponents say of the halves.
proof fn lemma_splits_evenly(n: int, ell: nat)
    requires
        crate::math::is_ceil_log2(n, ell),
    ensures
        splits_evenly(n, power(2, (ell + 1) / 2), power(2, ell / 2)),
{
    let (a, b) = ((ell + 1) / 2, ell / 2);
    lemma_power_add(2, a, b);
    assert(a + b == ell);
    assert(power(2, a) * power(2, b) == power(2, ell));
    if a != b {
        assert(a == b + 1);
        assert(power(2, a) == power(2, b) * 2);
    }
    if ell > 0 {
        assert(power(2, ell) == power(2, (ell - 1) as nat) * 2);
    }
}

/// A structure keeps the matrices, the variables and the public inputs of the shape that it is made
/// of, and adds constraints without entries up to the least power of two, which it splits evenly.
pub proof fn law_structure_of_a_shape<E: Engine>(
    shape: &R1CSShape<E>,
    s: Structure<E>,
    left: usize,
    right: usize,
)
    requires
        call_ensures(Structure::<E>::new, (shape,), s),
        call_ensures(Structure::<E>::left, (&s,), left),
        call_ensures(Structure::<E>::right, (&s,), right),
    ensures
        s@.shape.a == shape@.a,
        s@.shape.b == shape@.b,
        s@.shape.c == shape@.c,
        s@.shape.num_vars == shape@.num_vars,
        s@.shape.num_io == shape@.num_io,
        s@.shape.num_cons == left * right,
        splits_evenly(shape@.num_cons as int, left as int, right as int),
{
    let ell = choose|ell: nat| #[trigger]
        crate::math::is_ceil_log2(shape@.num_cons as int, ell) && s@ == (
        crate::relation::StructureModel {
            shape: crate::r1cs::ShapeModel { num_cons: power(2, ell) as nat, ..shape@ },
            left: power(2, (ell + 1) / 2),
            right: power(2, ell / 2),
        });
    lemma_splits_evenly(shape@.num_cons as int, ell);
}

/// The power check of a structure has one constraint for each entry of the table, and splits their
/// number evenly.
pub proof fn law_power_check_structure<E: Engine>(
    left: usize,
    right: usize,
    s_pc: PowerCheckStructure,
    s: &Structure<E>,
    t_pc: PowerCheckStructure,
)
    requires
        call_ensures(PowerCheckStructure::new, (left, right), s_pc),
        call_ensures(PowerCheckStructure::from_main::<E>, (s,), t_pc),
    ensures
        s_pc.left == left,
        s_pc.right == right,
        s_pc.num_cons == left + right,
        splits_evenly(left + right, s_pc.left_pc as int, s_pc.right_pc as int),
        t_pc.left == s@.left,
        t_pc.right == s@.right,
        t_pc.num_cons == s@.left + s@.right,
        splits_evenly(s@.left + s@.right, t_pc.left_pc as int, t_pc.right_pc as int),
{
    let k = choose|ell: nat| #[trigger]
        crate::math::is_ceil_log2(left + right, ell) && s_pc.left_pc == power(2, (ell + 1) / 2)
            && s_pc.right_pc == power(2, ell / 2);
    lemma_splits_evenly(left + right, k);
    let k = choose|ell: nat| #[trigger]
        crate::math::is_ceil_log2(s@.left + s@.right, ell) && t_pc.left_pc == power(
            2,
            (ell + 1) / 2,
        ) && t_pc.right_pc == power(2, ell / 2);
    lemma_splits_evenly(s@.left + s@.right, k);
}

/// The power checks that folding starts with are those of the scalar zero, whose table of powers
/// has a one at the start of each half and zeros elsewhere. Their commitments are those to their
/// tables without randomness, and the running one has no weights.
pub proof fn law_power_checks_at_the_start<E: Engine>(
    ck: &CommitmentKey<E>,
    s_pc: &PowerCheckStructure,
    running: (FoldedPowerCheckInstance<E>, FoldedPowerCheckWitness<E>),
    fresh: (PowerCheckInstance<E>, PowerCheckWitness<E>),
    v: &[E::Scalar],
    c: (Commitment<E>, Commitment<E>, Commitment<E>),
)
    requires
        call_ensures(setup_nsc_pc::<E>, (ck, s_pc), running),
        call_ensures(setup_zc_pc::<E>, (ck, s_pc), fresh),
        s_pc.left >= 1,
        s_pc.right >= 1,
        s_pc.left + s_pc.right <= ck.bases().len(),
        is_table_of_powers(v@, 0, s_pc.left as nat, s_pc.right as nat),
        call_ensures(WeightTable::<E>::commit, (&running.1.witness, ck), c.0),
        call_ensures(WeightTable::<E>::commit, (&running.1.weights, ck), c.1),
        call_ensures(WeightTable::<E>::commit, (&fresh.1.powers, ck), c.2),
    ensures
        running.0.tau.val() == 0,
        running.0.pc_sumcheck_claim.val() == 0,
        running.0.comm_witness.log() == c.0.log(),
        running.0.comm_weights.log() == c.1.log(),
        running.1.witness@ == vals(v@),
        running.1.witness.rand() == 0,
        running.1.weights@.len() == s_pc.left + s_pc.right,
        forall|i: int|
            0 <= i < running.1.weights@.len() ==> #[trigger] running.1.weights@[i] == 0,
        running.1.weights.rand() == 0,
        fresh.0.tau.val() == 0,
        fresh.0.comm_powers.log() == c.2.log(),
        fresh.1.powers@ == vals(v@),
        fresh.1.powers.rand() == 0,
{
    let p = E::Scalar::modulus();
    E::Scalar::lemma_modulus();
    let (l, n) = (s_pc.left as nat, s_pc.right as nat);
    lemma_powers::<E>(0, l, n, v@);
    law_unit_table_is_powers_of_zero(l, n);
    let u = crate::power_check_relation::unit_table(l as int, n as int);
    vstd::arithmetic::div_mod::lemma_small_mod(0, p as nat);
    vstd::arithmetic::div_mod::lemma_small_mod(1, p as nat);
    assert(mod_seq(p, u) =~= u);
    assert(running.1@.witness == running.1.witness.model());
    assert(running.1@.weights == running.1.weights.model());
    assert(running.0@.tau == running.0.tau.val());
    assert(running.0@.claim == running.0.pc_sumcheck_claim.val());
}

/// The pair of the main relation that folding starts with is zero in all its parts, and so are its
/// products.
pub proof fn law_pair_at_the_start<E: Engine>(
    s: &Structure<E>,
    out: (
        FoldedInstance<E>,
        FoldedWitness<E>,
        (Vec<E::Scalar>, Vec<E::Scalar>, Vec<E::Scalar>),
    ),
    i: int,
)
    requires
        call_ensures(setup_nsc::<E>, (s,), out),
        s@.wf(),
    ensures
        out.0.T.val() == 0,
        out.0.u.val() == 0,
        out.0.comm_W.log() == 0,
        out.0.comm_E.log() == 0,
        out.0.X@.len() == s@.shape.num_io,
        0 <= i < out.0.X@.len() ==> out.0.X@[i].val() == 0,
        out.1.W@.len() == s@.shape.num_vars,
        0 <= i < out.1.W@.len() ==> out.1.W@[i].val() == 0,
        out.1.r_W.val() == 0,
        out.1.E@.len() == s@.left + s@.right,
        0 <= i < out.1.E@.len() ==> out.1.E@[i] == 0,
        out.1.E.rand() == 0,
        out.1.E.split() == s@.left,
        out.2.0@.len() == out.2.1@.len() == out.2.2@.len() == s@.shape.num_cons,
        0 <= i < out.2.0@.len() ==> out.2.0@[i].val() == 0 && out.2.1@[i].val() == 0
            && out.2.2@[i].val() == 0,
{
    let (u, w, abc) = out;
    assert(u@.x == vals(u.X@) && u@.x.len() == u.X@.len());
    assert(w@.w == vals(w.W@) && w@.w.len() == w.W@.len());
    assert(w@.e == w.E@ && w@.r_e == w.E.rand() && w@.split == w.E.split());
    assert(vals(abc.0@).len() == abc.0@.len());
    assert(vals(abc.1@).len() == abc.1@.len());
    assert(vals(abc.2@).len() == abc.2@.len());
    if 0 <= i < u.X@.len() {
        assert(u@.x[i] == u.X@[i].val());
    }
    if 0 <= i < w.W@.len() {
        assert(w@.w[i] == w.W@[i].val());
    }
    if 0 <= i < abc.0@.len() {
        assert(vals(abc.0@)[i] == abc.0@[i].val());
        assert(vals(abc.1@)[i] == abc.1@[i].val());
        assert(vals(abc.2@)[i] == abc.2@[i].val());
    }
}

} // verus!
