//! What the vectors, tables and sums are that folds are made of.
use vstd::prelude::*;
use crate::arith::{fadd, lemma_mod, lerp, power};
use crate::commitment::CommitmentKey;
use crate::conversion_laws::{in_a_row, lemma_in_a_row};
use crate::errors::NovaError;
use crate::field::{vals, Field};
use crate::nifs::multiply;
use crate::nifs_laws::is_table_of_powers;
use crate::power_check_relation::{unit_vec, FoldedPowerCheckInstance, FoldedPowerCheckWitness};
use crate::r1cs::{in_bounds, mat_row, mat_vec, MatrixModel, R1CSShape};
use crate::relation::{concat_z, zeros, Structure};
use crate::round_value_laws::{is_point, value_at};
use crate::sumcheck::{
    accum_contribution, add_acc, apply_rho_scaling, comb_powercheck, comb_r1cs, contributes,
    zero_acc, EvalAcc,
};
use crate::traits::{Commitment, Engine, Group};
use crate::weight_table::WeightTable;

verus! {

/// The witness, the scalar and the public input stand in a row.
pub proof fn law_row<F: Field>(w: &Vec<F>, u: F, x: &Vec<F>, z: Vec<F>)
    requires
        call_ensures(concat_z::<F>, (w, u, x), z),
    ensures
        in_a_row(z@, w@, u.val(), x@),
{
    assert forall|i: int| 0 <= i < z@.len() implies vals(z@)[i] == (#[trigger] z@[i]).val() by {}
    assert forall|i: int| w@.len() < i < z@.len() implies (#[trigger] z@[i]).val() == x@[i
        - w@.len() - 1].val() by {
        assert(vals(z@)[i] == z@[i].val());
    }
    assert forall|i: int| 0 <= i < w@.len() implies (#[trigger] z@[i]).val() == w@[i].val() by {
        assert(vals(z@)[i] == z@[i].val());
    }
    assert(vals(z@)[w@.len() as int] == z@[w@.len() as int].val());
}

/// Zeros are zero, and the unit table holds the powers of zero: a one in front of each half, and
/// zeros behind.
pub proof fn law_tables_at_the_start<F: Field>(
    n: usize,
    z: Vec<F>,
    left: usize,
    right: usize,
    v: Vec<F>,
)
    requires
        call_ensures(zeros::<F>, (n,), z),
        call_ensures(unit_vec::<F>, (left, right), v),
        left >= 1,
        right >= 1,
    ensures
        z@.len() == n,
        forall|i: int| 0 <= i < n ==> (#[trigger] z@[i]).val() == 0,
        v@.len() == left + right,
        forall|i: int|
            0 <= i < v@.len() ==> (#[trigger] v@[i]).val() == if i == 0 || i == left {
                1int
            } else {
                0int
            },
{
    assert forall|i: int| 0 <= i < n implies (#[trigger] z@[i]).val() == 0 by {
        assert(vals(z@)[i] == z@[i].val());
    }
    assert forall|i: int| 0 <= i < v@.len() implies (#[trigger] v@[i]).val() == if i == 0 || i
        == left {
        1int
    } else {
        0int
    } by {
        assert(vals(v@)[i] == v@[i].val());
    }
}

/// The table of a scalar is the table of powers, whatever its randomness.
pub proof fn law_table_of_a_scalar<E: Engine>(
    tau: &E::Scalar,
    left: usize,
    right: usize,
    t: WeightTable<E>,
    r: E::Scalar,
    s: WeightTable<E>,
    v: Seq<E::Scalar>,
)
    requires
        call_ensures(WeightTable::<E>::from_tau, (tau, left, right), t),
        call_ensures(WeightTable::<E>::from_powers, (tau, left, right, r), s),
        is_table_of_powers(v, tau.val(), left as nat, right as nat),
    ensures
        t@ == s@,
        t@ == vals(v),
        t.split() == left,
{
    assert forall|i: int| 0 <= i < v.len() implies t@[i] == vals(v)[i] by {
        assert(vals(v)[i] == v[i].val());
    }
    assert(t@ =~= vals(v));
}

/// A row behind those of the entries has no terms.
proof fn lemma_row_is_empty(m: MatrixModel, rows: int, cols: int, i: int, z: Seq<int>)
    requires
        in_bounds(m, rows, cols),
        i >= rows,
    ensures
        mat_row(m, z, i, m.len() as int) == 0,
{
    lemma_no_terms(m, rows, cols, i, z, m.len() as int);
}

/// The first `n` entries have no terms in such a row.
proof fn lemma_no_terms(m: MatrixModel, rows: int, cols: int, i: int, z: Seq<int>, n: int)
    requires
        in_bounds(m, rows, cols),
        i >= rows,
        0 <= n <= m.len(),
    ensures
        mat_row(m, z, i, n) == 0,
    decreases n,
{
    if n > 0 {
        lemma_no_terms(m, rows, cols, i, z, n - 1);
        assert(m[n - 1].0 < rows);
    }
}

/// A shape that is padded has the same products in its own rows, and zeros in those that were
/// added, if no entry stands behind its rows.
pub proof fn law_padding_adds_zeros<E: Engine>(
    s: &R1CSShape<E>,
    n: usize,
    padded: R1CSShape<E>,
    z: &[E::Scalar],
    abc: (Vec<E::Scalar>, Vec<E::Scalar>, Vec<E::Scalar>),
    more: (Vec<E::Scalar>, Vec<E::Scalar>, Vec<E::Scalar>),
    i: int,
)
    requires
        call_ensures(R1CSShape::<E>::pad_constraints, (s, n), padded),
        s@.num_cons <= n,
        s@.wf(),
        call_ensures(R1CSShape::<E>::multiply_vec, (s, z), Ok(abc)),
        call_ensures(R1CSShape::<E>::multiply_vec, (&padded, z), Ok(more)),
        0 <= i < n,
    ensures
        padded@.num_cons == n,
        padded@.num_vars == s@.num_vars,
        padded@.num_io == s@.num_io,
        i < s@.num_cons ==> more.0@[i].val() == abc.0@[i].val() && more.1@[i].val()
            == abc.1@[i].val() && more.2@[i].val() == abc.2@[i].val(),
        i >= s@.num_cons ==> more.0@[i].val() == 0 && more.1@[i].val() == 0 && more.2@[i].val()
            == 0,
{
    let p = E::Scalar::modulus();
    E::Scalar::lemma_modulus();
    vstd::arithmetic::div_mod::lemma_small_mod(0, p as nat);
    let (k, v) = (s@.num_cons, vals(z@));
    assert(more.0@[i].val() == mat_vec(s@.a, n as nat, v)[i] % p);
    assert(more.1@[i].val() == mat_vec(s@.b, n as nat, v)[i] % p);
    assert(more.2@[i].val() == mat_vec(s@.c, n as nat, v)[i] % p);
    if i < k {
        assert(abc.0@[i].val() == mat_vec(s@.a, k, v)[i] % p);
        assert(abc.1@[i].val() == mat_vec(s@.b, k, v)[i] % p);
        assert(abc.2@[i].val() == mat_vec(s@.c, k, v)[i] % p);
    } else {
        lemma_row_is_empty(s@.a, k as int, z@.len() as int, i, v);
        lemma_row_is_empty(s@.b, k as int, z@.len() as int, i, v);
        lemma_row_is_empty(s@.c, k as int, z@.len() as int, i, v);
    }
}

/// The products of a structure with a witness, a scalar and a public input are those of its shape
/// with these in a row.
pub proof fn law_products_of_a_row<E: Engine>(
    s: &Structure<E>,
    w: &Vec<E::Scalar>,
    u: E::Scalar,
    x: &Vec<E::Scalar>,
    r: Result<(Vec<E::Scalar>, Vec<E::Scalar>, Vec<E::Scalar>), NovaError>,
    shape: &R1CSShape<E>,
    z: &[E::Scalar],
    q: Result<(Vec<E::Scalar>, Vec<E::Scalar>, Vec<E::Scalar>), NovaError>,
)
    requires
        call_ensures(multiply::<E>, (s, w, u, x), r),
        shape@ == s@.shape,
        in_a_row(z@, w@, u.val(), x@),
        call_ensures(R1CSShape::<E>::multiply_vec, (shape, z), q),
    ensures
        r is Ok <==> q is Ok,
        r matches Err(e) ==> q == Err::<
            (Vec<E::Scalar>, Vec<E::Scalar>, Vec<E::Scalar>),
            NovaError,
        >(e),
        r matches Ok(abc) ==> {
            &&& vals(abc.0@) == vals(q->Ok_0.0@)
            &&& vals(abc.1@) == vals(q->Ok_0.1@)
            &&& vals(abc.2@) == vals(q->Ok_0.2@)
        },
{
    lemma_in_a_row(z@, w@, u.val(), x@);
    if let Ok(abc) = r {
        let k = q->Ok_0;
        assert(vals(abc.0@) =~= vals(k.0@));
        assert(vals(abc.1@) =~= vals(k.1@));
        assert(vals(abc.2@) =~= vals(k.2@));
    }
}

/// The instance of tables commits to each of them, and its claim and scalar are zero.
pub proof fn law_instance_of_tables<E: Engine>(
    ck: &CommitmentKey<E>,
    w: &FoldedPowerCheckWitness<E>,
    u: FoldedPowerCheckInstance<E>,
    c: (Commitment<E>, Commitment<E>),
)
    requires
        call_ensures(FoldedPowerCheckInstance::<E>::from_witness, (ck, w), u),
        w.witness@.len() <= ck.bases().len(),
        w.weights@.len() <= ck.bases().len(),
        call_ensures(WeightTable::<E>::commit, (&w.witness, ck), c.0),
        call_ensures(WeightTable::<E>::commit, (&w.weights, ck), c.1),
    ensures
        u.comm_witness.log() == c.0.log(),
        u.comm_weights.log() == c.1.log(),
        u.comm_witness.coords() == c.0.coords(),
        u.comm_weights.coords() == c.1.coords(),
        u.pc_sumcheck_claim.val() == 0,
        u.tau.val() == 0,
{
}

/// The values of a round start at zero, add up point by point, and are scaled at each point by the
/// equality polynomial of the challenge and that point.
pub proof fn law_round_values_add_and_scale<F: Field>(
    zero: EvalAcc<F>,
    x: EvalAcc<F>,
    y: EvalAcc<F>,
    both: EvalAcc<F>,
    rho: &F,
    scaled: EvalAcc<F>,
    t: int,
)
    requires
        call_ensures(zero_acc::<F>, (), zero),
        call_ensures(add_acc::<F>, (x, y), both),
        call_ensures(apply_rho_scaling::<F>, (x, rho), scaled),
        is_point(t),
    ensures
        value_at(zero, t).val() == 0,
        value_at(both, t).val() == (value_at(x, t).val() + value_at(y, t).val()) % F::modulus(),
        value_at(scaled, t).val() == (value_at(x, t).val() * ((1 - rho.val()) * (1 - t)
            + rho.val() * t)) % F::modulus(),
{
    let r = rho.val();
    assert((1 - r) * (1 - 0) + r * 0 == 1 - r) by (nonlinear_arith);
    assert((1 - r) * (1 - 2) + r * 2 == 3 * r - 1) by (nonlinear_arith);
    assert((1 - r) * (1 - 3) + r * 3 == 5 * r - 2) by (nonlinear_arith);
    assert((1 - r) * (1 - 4) + r * 4 == 7 * r - 3) by (nonlinear_arith);
    assert((1 - r) * (1 - 5) + r * 5 == 9 * r - 4) by (nonlinear_arith);
}

/// A constraint that is met contributes nothing, and one that is not contributes its weight times
/// what it is off by. The same holds of a power check.
pub proof fn law_met_constraints_contribute_nothing<F: Field>(
    w: F,
    a: F,
    b: F,
    c: F,
    r: F,
    pc: F,
)
    requires
        call_ensures(comb_r1cs::<F>, (w, a, b, c), r),
        call_ensures(comb_powercheck::<F>, (w, a, b, c), pc),
    ensures
        (a.val() * b.val()) % F::modulus() == c.val() ==> r.val() == 0,
        (b.val() * c.val()) % F::modulus() == a.val() ==> pc.val() == 0,
        w.val() == 1 ==> r.val() == (a.val() * b.val() - c.val()) % F::modulus(),
        w.val() == 1 ==> pc.val() == (a.val() - b.val() * c.val()) % F::modulus(),
        w.val() == 0 ==> r.val() == 0 && pc.val() == 0,
{
    let p = F::modulus();
    F::lemma_modulus();
    vstd::arithmetic::div_mod::lemma_small_mod(0, p as nat);
    let (u, x, y, z) = (w.val(), a.val(), b.val(), c.val());
    if (x * y) % p == z {
        lemma_mod(p, x * y);
        vstd::arithmetic::div_mod::lemma_mod_equivalence(x * y, z, p);
        crate::arith::lemma_cong_mul(p, u, x * y - z, u, 0);
        assert(u * 0 == 0) by (nonlinear_arith);
    }
    if (y * z) % p == x {
        lemma_mod(p, y * z);
        vstd::arithmetic::div_mod::lemma_mod_equivalence(x, y * z, p);
        crate::arith::lemma_cong_mul(p, u, x - y * z, u, 0);
        assert(u * 0 == 0) by (nonlinear_arith);
    }
    assert(1 * (x * y - z) == x * y - z && 0 * (x * y - z) == 0) by (nonlinear_arith);
    assert(1 * (x - y * z) == x - y * z && 0 * (x - y * z) == 0) by (nonlinear_arith);
}

/// One contribution adds at each point of a round what the combination gives for the four values on
/// their lines at that point.
pub proof fn law_contribution<F: Field, Comb: Fn(F, F, F, F) -> F>(
    acc: EvalAcc<F>,
    comb: Comb,
    low: (F, F, F, F),
    high: (F, F, F, F),
    r: EvalAcc<F>,
    f: spec_fn((int, int, int, int)) -> int,
    t: int,
)
    requires
        call_ensures(
            accum_contribution::<F, Comb>,
            (acc, comb, low.0, low.1, low.2, low.3, high.0, high.1, high.2, high.3),
            r,
        ),
        forall|c: (F, F, F, F), e: F| #[trigger]
            comb.ensures(c, e) ==> e.val() == f((c.0.val(), c.1.val(), c.2.val(), c.3.val())),
        is_point(t),
    ensures
        ({
            let p = F::modulus();
            value_at(r, t).val() == (value_at(acc, t).val() + f(
                (
                    (low.0.val() + t * (high.0.val() - low.0.val())) % p,
                    (low.1.val() + t * (high.1.val() - low.1.val())) % p,
                    (low.2.val() + t * (high.2.val() - low.2.val())) % p,
                    (low.3.val() + t * (high.3.val() - low.3.val())) % p,
                ),
            )) % p
        }),
{
    let p = F::modulus();
    assert(contributes(comb, low, high, t, value_at(acc, t), value_at(r, t)));
    let (c, e) = choose|c: (F, F, F, F), e: F| #[trigger]
        comb.ensures(c, e) && crate::arith::is(
            p,
            c.0.val(),
            lerp(low.0.val(), high.0.val(), t),
        ) && crate::arith::is(p, c.1.val(), lerp(low.1.val(), high.1.val(), t))
            && crate::arith::is(p, c.2.val(), lerp(low.2.val(), high.2.val(), t))
            && crate::arith::is(p, c.3.val(), lerp(low.3.val(), high.3.val(), t))
            && value_at(r, t).val() == fadd(p, value_at(acc, t).val(), e.val());
    assert(e.val() == f((c.0.val(), c.1.val(), c.2.val(), c.3.val())));
}

} // verus!
