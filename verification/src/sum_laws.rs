//! What holds of the sums that are claimed.
use vstd::prelude::*;
use crate::arith::{
    cong_seq, is, lemma_cong_add, lemma_cong_mul, lemma_index, lemma_mod, lemma_sum_cong,
    lemma_sum_ext, lemma_sum_linear, lemma_sum_null, lemma_sum_single, sum,
};
use crate::commitment::CommitmentKey;
use crate::commitment_laws::is_unit;
use crate::conversion_laws::{in_a_row, lemma_in_a_row};
use crate::errors::NovaError;
use crate::field::{vals, Field};
use crate::nested_sumcheck::{verify_nsc_claim_bruteforce, verify_nsc_pc_claim_bruteforce};
use crate::power_check_relation::{
    compute_pc_weighted_sum_bruteforce, pc_flat_term, pc_residual, pc_residual_at,
    FoldedPowerCheckInstance, FoldedPowerCheckWitness, PowerCheckStructure,
};
use crate::r1cs::R1CSShape;
use crate::relation::{claim_data, nested_sum, FoldedInstance, FoldedWitness, Structure};
use crate::sumcheck::{lemma_nsc_sum_cong, nsc_row, nsc_sum, nsc_term, NscData};
use crate::traits::{Commitment, Engine, Group};
use crate::weight_table::WeightTable;

verus! {

/// Data with the given weights.
spec fn data(e1: Seq<int>, e2: Seq<int>, a: Seq<int>, b: Seq<int>, c: Seq<int>) -> NscData {
    NscData { e: e1 + e2, az: a, bz: b, cz: c }
}

/// Under the unit weights of column `j` and row `i`, the nested sum is what constraint `i left + j`
/// leaves: the product of the first two vectors there, less the third.
pub proof fn law_unit_weights_pick_a_constraint<F: Field>(
    e1: &[F],
    e2: &[F],
    a: &[F],
    b: &[F],
    c: &[F],
    r: F,
    i: int,
    j: int,
)
    requires
        call_ensures(nested_sum::<F>, (e1, e2, a, b, c), r),
        a@.len() == e1@.len() * e2@.len(),
        b@.len() == a@.len(),
        c@.len() == a@.len(),
        is_unit(e1@, j),
        is_unit(e2@, i),
    ensures
        ({
            let k = i * e1@.len() + j;
            &&& 0 <= k < a@.len()
            &&& r.val() == (a@[k].val() * b@[k].val() - c@[k].val()) % F::modulus()
        }),
{
    let (left, right) = (e1@.len() as int, e2@.len() as int);
    let d = data(vals(e1@), vals(e2@), vals(a@), vals(b@), vals(c@));
    lemma_index(left, right, i, j);
    let k = i * left + j;
    let row = |q: int| nsc_term(left, d, i, q);
    assert forall|q: int| 0 <= q < left && q != j implies #[trigger] row(q) == 0 by {
        assert(d.e[q] == e1@[q].val());
    }
    lemma_sum_single(row, 0, left, j);
    assert(d.e[j] == e1@[j].val());
    assert(nsc_row(left, d, i, left) == row(j));
    let rows = |q: int| d.e[left + q] * nsc_row(left, d, q, left);
    assert forall|q: int| 0 <= q < right && q != i implies #[trigger] rows(q) == 0 by {
        assert(d.e[left + q] == e2@[q].val());
    }
    lemma_sum_single(rows, 0, right, i);
    assert(d.e[left + i] == e2@[i].val());
    assert(nsc_sum(left, right, d) == rows(i));
    assert(d.az[k] == a@[k].val() && d.bz[k] == b@[k].val() && d.cz[k] == c@[k].val());
}

/// The nested sum is linear in the weights of the columns, and in those of the rows.
pub proof fn law_nested_sum_is_linear_in_its_weights<F: Field>(
    e1: (&[F], &[F], &[F]),
    e2: (&[F], &[F], &[F]),
    a: &[F],
    b: &[F],
    c: &[F],
    by: int,
    r: (F, F, F),
    s: (F, F, F),
)
    requires
        call_ensures(nested_sum::<F>, (e1.0, e2.0, a, b, c), r.0),
        call_ensures(nested_sum::<F>, (e1.1, e2.0, a, b, c), r.1),
        call_ensures(nested_sum::<F>, (e1.2, e2.0, a, b, c), r.2),
        call_ensures(nested_sum::<F>, (e1.0, e2.0, a, b, c), s.0),
        call_ensures(nested_sum::<F>, (e1.0, e2.1, a, b, c), s.1),
        call_ensures(nested_sum::<F>, (e1.0, e2.2, a, b, c), s.2),
        a@.len() == e1.0@.len() * e2.0@.len(),
        b@.len() == a@.len(),
        c@.len() == a@.len(),
        e1.0@.len() == e1.1@.len() == e1.2@.len(),
        e2.0@.len() == e2.1@.len() == e2.2@.len(),
        forall|k: int|
            0 <= k < e1.0@.len() ==> (#[trigger] e1.2@[k]).val() == (e1.0@[k].val() + by
                * e1.1@[k].val()) % F::modulus(),
        forall|k: int|
            0 <= k < e2.0@.len() ==> (#[trigger] e2.2@[k]).val() == (e2.0@[k].val() + by
                * e2.1@[k].val()) % F::modulus(),
    ensures
        r.2.val() == (r.0.val() + by * r.1.val()) % F::modulus(),
        s.2.val() == (s.0.val() + by * s.1.val()) % F::modulus(),
{
    let p = F::modulus();
    F::lemma_modulus();
    let (left, right) = (e1.0@.len() as int, e2.0@.len() as int);
    let (x, y, z) = (vals(a@), vals(b@), vals(c@));
    let (f, g, h) = (vals(e1.0@), vals(e1.1@), vals(e1.2@));
    let (u, v, w) = (vals(e2.0@), vals(e2.1@), vals(e2.2@));
    assert forall|k: int| 0 <= k < left implies #[trigger] h[k] % p == (f[k] + by * g[k]) % p by {
        assert(h[k] == e1.2@[k].val());
        lemma_mod(p, f[k] + by * g[k]);
    }
    assert forall|k: int| 0 <= k < right implies #[trigger] w[k] % p == (u[k] + by * v[k]) % p by {
        assert(w[k] == e2.2@[k].val());
        lemma_mod(p, u[k] + by * v[k]);
    }
    lemma_linear_in_columns(p, left, right, f, g, h, u, x, y, z, by);
    lemma_linear_in_rows(p, left, right, f, u, v, w, x, y, z, by);
    let (n0, n1) = (
        nsc_sum(left, right, data(f, u, x, y, z)),
        nsc_sum(left, right, data(g, u, x, y, z)),
    );
    let n2 = nsc_sum(left, right, data(f, v, x, y, z));
    lemma_mod(p, n0);
    lemma_mod(p, n1);
    lemma_mod(p, n2);
    lemma_cong_mul(p, by, n1, by, r.1.val());
    lemma_cong_add(p, n0, by * n1, r.0.val(), by * r.1.val());
    lemma_cong_mul(p, by, n2, by, s.1.val());
    lemma_cong_add(p, n0, by * n2, s.0.val(), by * s.1.val());
}

proof fn lemma_linear_in_columns(
    p: int,
    left: int,
    right: int,
    f: Seq<int>,
    g: Seq<int>,
    h: Seq<int>,
    u: Seq<int>,
    x: Seq<int>,
    y: Seq<int>,
    z: Seq<int>,
    by: int,
)
    requires
        p > 0,
        f.len() == left,
        g.len() == left,
        h.len() == left,
        u.len() == right,
        forall|k: int| 0 <= k < left ==> #[trigger] h[k] % p == (f[k] + by * g[k]) % p,
    ensures
        nsc_sum(left, right, data(h, u, x, y, z)) % p == (nsc_sum(
            left,
            right,
            data(f, u, x, y, z),
        ) + by * nsc_sum(left, right, data(g, u, x, y, z))) % p,
{
    let (df, dg, dh) = (data(f, u, x, y, z), data(g, u, x, y, z), data(h, u, x, y, z));
    let rf = |i: int| df.e[left + i] * nsc_row(left, df, i, left);
    let rg = |i: int| dg.e[left + i] * nsc_row(left, dg, i, left);
    let rh = |i: int| dh.e[left + i] * nsc_row(left, dh, i, left);
    let rc = |i: int| 1 * rf(i) + by * rg(i);
    assert forall|i: int| 0 <= i < right implies #[trigger] rh(i) % p == rc(i) % p by {
        let tf = |j: int| nsc_term(left, df, i, j);
        let tg = |j: int| nsc_term(left, dg, i, j);
        let th = |j: int| nsc_term(left, dh, i, j);
        let tc = |j: int| 1 * tf(j) + by * tg(j);
        assert forall|j: int| 0 <= j < left implies #[trigger] th(j) % p == tc(j) % p by {
            let q = i * left + j;
            let m = x[q] * y[q] - z[q];
            lemma_cong_mul(p, h[j], m, f[j] + by * g[j], m);
            let (s, t) = (f[j], g[j]);
            assert((s + by * t) * m == s * m + by * (t * m)) by (nonlinear_arith);
            assert(df.e[j] == f[j] && dg.e[j] == g[j] && dh.e[j] == h[j]);
        }
        lemma_sum_cong(p, th, tc, 0, left);
        lemma_sum_linear(tf, tg, 1, by, 0, left);
        let (sf, sg, sh) = (sum(tf, 0, left), sum(tg, 0, left), sum(th, 0, left));
        let e = u[i];
        assert(df.e[left + i] == e && dg.e[left + i] == e && dh.e[left + i] == e);
        lemma_cong_mul(p, e, sh, e, sf + by * sg);
        assert(e * (sf + by * sg) == e * sf + by * (e * sg)) by (nonlinear_arith);
    }
    lemma_sum_cong(p, rh, rc, 0, right);
    lemma_sum_linear(rf, rg, 1, by, 0, right);
}

proof fn lemma_linear_in_rows(
    p: int,
    left: int,
    right: int,
    f: Seq<int>,
    u: Seq<int>,
    v: Seq<int>,
    w: Seq<int>,
    x: Seq<int>,
    y: Seq<int>,
    z: Seq<int>,
    by: int,
)
    requires
        p > 0,
        f.len() == left,
        u.len() == right,
        v.len() == right,
        w.len() == right,
        forall|k: int| 0 <= k < right ==> #[trigger] w[k] % p == (u[k] + by * v[k]) % p,
    ensures
        nsc_sum(left, right, data(f, w, x, y, z)) % p == (nsc_sum(
            left,
            right,
            data(f, u, x, y, z),
        ) + by * nsc_sum(left, right, data(f, v, x, y, z))) % p,
{
    let (du, dv, dw) = (data(f, u, x, y, z), data(f, v, x, y, z), data(f, w, x, y, z));
    let ru = |i: int| du.e[left + i] * nsc_row(left, du, i, left);
    let rv = |i: int| dv.e[left + i] * nsc_row(left, dv, i, left);
    let rw = |i: int| dw.e[left + i] * nsc_row(left, dw, i, left);
    let rc = |i: int| 1 * ru(i) + by * rv(i);
    assert forall|i: int| 0 <= i < right implies #[trigger] rw(i) % p == rc(i) % p by {
        let tu = |j: int| nsc_term(left, du, i, j);
        let tv = |j: int| nsc_term(left, dv, i, j);
        let tw = |j: int| nsc_term(left, dw, i, j);
        assert forall|j: int| 0 <= j < left implies #[trigger] tu(j) == tv(j) by {
            assert(du.e[j] == f[j] && dv.e[j] == f[j]);
        }
        assert forall|j: int| 0 <= j < left implies #[trigger] tu(j) == tw(j) by {
            assert(du.e[j] == f[j] && dw.e[j] == f[j]);
        }
        lemma_sum_ext(tu, tv, 0, left);
        lemma_sum_ext(tu, tw, 0, left);
        let m = sum(tu, 0, left);
        assert(du.e[left + i] == u[i] && dv.e[left + i] == v[i] && dw.e[left + i] == w[i]);
        let (s, t) = (u[i], v[i]);
        lemma_cong_mul(p, w[i], m, s + by * t, m);
        assert((s + by * t) * m == s * m + by * (t * m)) by (nonlinear_arith);
    }
    lemma_sum_cong(p, rw, rc, 0, right);
    lemma_sum_linear(ru, rv, 1, by, 0, right);
}

/// The claim of a pair is the nested sum of its weights, the two halves of the table, over the
/// products of the matrices with the witness, the scalar and the public input in a row.
pub proof fn law_claim_is_the_nested_sum<E: Engine>(
    s: &Structure<E>,
    u: &FoldedInstance<E>,
    w: &FoldedWitness<E>,
    t: E::Scalar,
    shape: &R1CSShape<E>,
    z: &[E::Scalar],
    abc: (Vec<E::Scalar>, Vec<E::Scalar>, Vec<E::Scalar>),
    e: (&[E::Scalar], &[E::Scalar]),
    v: (&[E::Scalar], &[E::Scalar], &[E::Scalar]),
    r: E::Scalar,
)
    requires
        call_ensures(Structure::<E>::claim, (s, u, w), Ok(t)),
        s@.wf(),
        w@.e.len() == s@.left + s@.right,
        w@.split == s@.left,
        shape@ == s@.shape,
        in_a_row(z@, w.W@, u.u.val(), u.X@),
        call_ensures(R1CSShape::<E>::multiply_vec, (shape, z), Ok(abc)),
        call_ensures(WeightTable::<E>::e1, (&w.E,), e.0),
        call_ensures(WeightTable::<E>::e2, (&w.E,), e.1),
        v.0@ == abc.0@,
        v.1@ == abc.1@,
        v.2@ == abc.2@,
        call_ensures(nested_sum::<E::Scalar>, (e.0, e.1, v.0, v.1, v.2), r),
    ensures
        t.val() == r.val(),
{
    let p = E::Scalar::modulus();
    E::Scalar::lemma_modulus();
    lemma_in_a_row(z@, w.W@, u.u.val(), u.X@);
    let d = claim_data(s@.shape, u@, w@);
    let f = data(vals(e.0@), vals(e.1@), vals(v.0@), vals(v.1@), vals(v.2@));
    assert(f.e =~= d.e);
    assert(cong_seq(p, d.az, f.az)) by {
        assert forall|i: int| 0 <= i < d.az.len() implies #[trigger] d.az[i] % p == f.az[i] % p by {
            assert(is(p, abc.0@[i].val(), d.az[i]));
            lemma_mod(p, d.az[i]);
        }
    }
    assert(cong_seq(p, d.bz, f.bz)) by {
        assert forall|i: int| 0 <= i < d.bz.len() implies #[trigger] d.bz[i] % p == f.bz[i] % p by {
            assert(is(p, abc.1@[i].val(), d.bz[i]));
            lemma_mod(p, d.bz[i]);
        }
    }
    assert(cong_seq(p, d.cz, f.cz)) by {
        assert forall|i: int| 0 <= i < d.cz.len() implies #[trigger] d.cz[i] % p == f.cz[i] % p by {
            assert(is(p, abc.2@[i].val(), d.cz[i]));
            lemma_mod(p, d.cz[i]);
        }
    }
    assert(cong_seq(p, d.e, f.e));
    lemma_nsc_sum_cong(p, s@.left, s@.right, d, f);
}

/// A pair is satisfied if and only if its parts have the lengths of the structure, the claim is the
/// one that the instance makes, and the commitments of the instance are those to the variables and
/// to the table.
pub proof fn law_satisfied_pairs<E: Engine>(
    s: &Structure<E>,
    ck: &CommitmentKey<E>,
    u: &FoldedInstance<E>,
    w: &FoldedWitness<E>,
    r: Result<(), NovaError>,
    t: E::Scalar,
    v: &[E::Scalar],
    c: Commitment<E>,
    d: Commitment<E>,
)
    requires
        call_ensures(Structure::<E>::is_sat, (s, ck, u, w), r),
        call_ensures(Structure::<E>::claim, (s, u, w), Ok(t)),
        v@ == w.W@,
        call_ensures(CommitmentKey::<E>::commit, (ck, v, &w.r_W), c),
        call_ensures(WeightTable::<E>::commit, (&w.E, ck), d),
        s@.shape.num_vars <= ck.bases().len(),
        s@.left + s@.right <= ck.bases().len(),
    ensures
        r is Ok <==> {
            &&& w.W@.len() == s@.shape.num_vars
            &&& u.X@.len() == s@.shape.num_io
            &&& w.E@.len() == s@.left + s@.right
            &&& w.E.split() == s@.left
            &&& u.T.val() == t.val()
            &&& u.comm_W.log() == c.log()
            &&& u.comm_E.log() == d.log()
        },
{
    assert(vals(v@) == w@.w);
}

/// Recomputing a claim accepts it if and only if it is the claim.
pub proof fn law_claims_are_recomputed<E: Engine>(
    s: &Structure<E>,
    u: &FoldedInstance<E>,
    w: &FoldedWitness<E>,
    t: Result<E::Scalar, NovaError>,
    r: Result<(), NovaError>,
)
    requires
        call_ensures(Structure::<E>::claim, (s, u, w), t),
        call_ensures(verify_nsc_claim_bruteforce::<E>, (s, u, w), r),
    ensures
        r is Ok <==> (t matches Ok(x) && x.val() == u.T.val()),
{
}

/// Under the unit weights of column `j` and row `i`, the weighted sum is the residual of constraint
/// `i left + j`, and zero if there is no such constraint.
pub proof fn law_unit_weights_pick_a_residual<F: Field>(
    e1: &[F],
    e2: &[F],
    tau: &F,
    wl: &[F],
    wr: &[F],
    r: F,
    i: int,
    j: int,
    k: usize,
    left: usize,
    x: F,
)
    requires
        call_ensures(compute_pc_weighted_sum_bruteforce::<F>, (e1, e2, tau, wl, wr), r),
        e1@.len() >= 1,
        e1@.len() == left,
        wl@.len() == left,
        e1@.len() + e2@.len() <= wl@.len() * wr@.len(),
        is_unit(wl@, j),
        is_unit(wr@, i),
        k == i * left + j,
        k < e1@.len() + e2@.len() ==> call_ensures(
            pc_residual_at::<F>,
            (k, left, e1, e2, *tau),
            x,
        ),
    ensures
        r.val() == if k < e1@.len() + e2@.len() {
            x.val()
        } else {
            0
        },
{
    let p = F::modulus();
    F::lemma_modulus();
    let n = (e1@.len() + e2@.len()) as int;
    let l = left as int;
    let (a, b, c, d, s) = (vals(wl@), vals(wr@), vals(e1@), vals(e2@), tau.val());
    let f = |q: int| pc_flat_term(l, a, b, c, d, s, q);
    assert forall|q: int| 0 <= q < n && q != k implies #[trigger] f(q) == 0 by {
        let (y, z) = (q / l, q % l);
        assert(q == l * (q / l) + q % l && 0 <= q % l < l && 0 <= q / l) by {
            vstd::arithmetic::div_mod::lemma_fundamental_div_mod(q, l);
            vstd::arithmetic::div_mod::lemma_mod_bound(q, l);
            vstd::arithmetic::div_mod::lemma_div_pos_is_pos(q, l);
        }
        assert(y < wr@.len()) by (nonlinear_arith)
            requires
                q == l * y + z,
                0 <= z,
                q < n,
                n <= l * wr@.len(),
                l >= 1,
        ;
        if y == i && z == j {
            assert(i * l == l * i) by (nonlinear_arith);
        }
        assert(a[z] == wl@[z].val() && b[y] == wr@[y].val());
        let res = pc_residual(q, l, c, d, s);
        assert(a[z] == 0 || b[y] == 0);
        assert(b[y] * a[z] == 0) by (nonlinear_arith)
            requires
                a[z] == 0 || b[y] == 0,
        ;
        assert(0 * res == 0) by (nonlinear_arith);
    }
    if k < n {
        lemma_sum_single(f, 0, n, k as int);
        assert(k as int / l == i && k as int % l == j) by {
            vstd::arithmetic::div_mod::lemma_fundamental_div_mod_converse(k as int, l, i, j);
        }
        assert(a[j] == wl@[j].val() && b[i] == wr@[i].val());
        let res = pc_residual(k as int, l, c, d, s);
        assert(f(k as int) == res) by {
            assert(1 * 1 * res == res) by (nonlinear_arith);
        }
    } else {
        lemma_sum_null(f, 0, n);
        vstd::arithmetic::div_mod::lemma_small_mod(0, p as nat);
    }
}

/// The weighted sum is linear in the weights of the columns, and in those of the rows.
pub proof fn law_weighted_sum_is_linear_in_its_weights<F: Field>(
    e1: &[F],
    e2: &[F],
    tau: &F,
    wl: (&[F], &[F], &[F]),
    wr: (&[F], &[F], &[F]),
    by: int,
    r: (F, F, F),
    s: (F, F, F),
)
    requires
        call_ensures(compute_pc_weighted_sum_bruteforce::<F>, (e1, e2, tau, wl.0, wr.0), r.0),
        call_ensures(compute_pc_weighted_sum_bruteforce::<F>, (e1, e2, tau, wl.1, wr.0), r.1),
        call_ensures(compute_pc_weighted_sum_bruteforce::<F>, (e1, e2, tau, wl.2, wr.0), r.2),
        call_ensures(compute_pc_weighted_sum_bruteforce::<F>, (e1, e2, tau, wl.0, wr.0), s.0),
        call_ensures(compute_pc_weighted_sum_bruteforce::<F>, (e1, e2, tau, wl.0, wr.1), s.1),
        call_ensures(compute_pc_weighted_sum_bruteforce::<F>, (e1, e2, tau, wl.0, wr.2), s.2),
        e1@.len() >= 1,
        wl.0@.len() == e1@.len(),
        wl.0@.len() == wl.1@.len() == wl.2@.len(),
        wr.0@.len() == wr.1@.len() == wr.2@.len(),
        e1@.len() + e2@.len() <= wl.0@.len() * wr.0@.len(),
        forall|k: int|
            0 <= k < wl.0@.len() ==> (#[trigger] wl.2@[k]).val() == (wl.0@[k].val() + by
                * wl.1@[k].val()) % F::modulus(),
        forall|k: int|
            0 <= k < wr.0@.len() ==> (#[trigger] wr.2@[k]).val() == (wr.0@[k].val() + by
                * wr.1@[k].val()) % F::modulus(),
    ensures
        r.2.val() == (r.0.val() + by * r.1.val()) % F::modulus(),
        s.2.val() == (s.0.val() + by * s.1.val()) % F::modulus(),
{
    let p = F::modulus();
    F::lemma_modulus();
    let n = (e1@.len() + e2@.len()) as int;
    let l = e1@.len() as int;
    let (c, d, tv) = (vals(e1@), vals(e2@), tau.val());
    let (a0, a1, a2) = (vals(wl.0@), vals(wl.1@), vals(wl.2@));
    let (b0, b1, b2) = (vals(wr.0@), vals(wr.1@), vals(wr.2@));
    let f00 = |q: int| pc_flat_term(l, a0, b0, c, d, tv, q);
    let f10 = |q: int| pc_flat_term(l, a1, b0, c, d, tv, q);
    let f20 = |q: int| pc_flat_term(l, a2, b0, c, d, tv, q);
    let f01 = |q: int| pc_flat_term(l, a0, b1, c, d, tv, q);
    let f02 = |q: int| pc_flat_term(l, a0, b2, c, d, tv, q);
    let g = |q: int| 1 * f00(q) + by * f10(q);
    let h = |q: int| 1 * f00(q) + by * f01(q);
    assert forall|q: int| 0 <= q < n implies #[trigger] f20(q) % p == g(q) % p && f02(q) % p == h(
        q,
    ) % p by {
        let (y, z) = (q / l, q % l);
        assert(q == l * (q / l) + q % l && 0 <= q % l < l && 0 <= q / l) by {
            vstd::arithmetic::div_mod::lemma_fundamental_div_mod(q, l);
            vstd::arithmetic::div_mod::lemma_mod_bound(q, l);
            vstd::arithmetic::div_mod::lemma_div_pos_is_pos(q, l);
        }
        let rows = wr.0@.len() as int;
        assert(y < rows) by (nonlinear_arith)
            requires
                q == l * y + z,
                0 <= z,
                q < n,
                n <= l * rows,
                l >= 1,
        ;
        let res = pc_residual(q, l, c, d, tv);
        assert(a2[z] == wl.2@[z].val() && b2[y] == wr.2@[y].val());
        let (s0, s1, t0, t1) = (a0[z], a1[z], b0[y], b1[y]);
        lemma_mod(p, s0 + by * s1);
        lemma_mod(p, t0 + by * t1);
        lemma_cong_mul(p, t0, a2[z], t0, s0 + by * s1);
        lemma_cong_mul(p, t0 * a2[z], res, t0 * (s0 + by * s1), res);
        assert(t0 * (s0 + by * s1) * res == t0 * s0 * res + by * (t0 * s1 * res))
            by (nonlinear_arith);
        lemma_cong_mul(p, b2[y], s0, t0 + by * t1, s0);
        lemma_cong_mul(p, b2[y] * s0, res, (t0 + by * t1) * s0, res);
        assert((t0 + by * t1) * s0 * res == t0 * s0 * res + by * (t1 * s0 * res))
            by (nonlinear_arith);
    }
    assert forall|q: int| 0 <= q < n implies #[trigger] f02(q) % p == h(q) % p by {
        assert(f20(q) % p == g(q) % p);
    }
    lemma_sum_cong(p, f20, g, 0, n);
    lemma_sum_cong(p, f02, h, 0, n);
    lemma_sum_linear(f00, f10, 1, by, 0, n);
    lemma_sum_linear(f00, f01, 1, by, 0, n);
    let (x, y, z) = (sum(f00, 0, n), sum(f10, 0, n), sum(f01, 0, n));
    lemma_mod(p, x);
    lemma_mod(p, y);
    lemma_mod(p, z);
    lemma_cong_mul(p, by, y, by, r.1.val());
    lemma_cong_add(p, x, by * y, r.0.val(), by * r.1.val());
    lemma_cong_mul(p, by, z, by, s.1.val());
    lemma_cong_add(p, x, by * z, s.0.val(), by * s.1.val());
}

/// Recomputing the claim of a power check accepts it if and only if it is the weighted sum of the
/// residuals of its table, under its weights.
pub proof fn law_power_check_claims_are_recomputed<E: Engine>(
    s_pc: &PowerCheckStructure,
    u: &FoldedPowerCheckInstance<E>,
    w: &FoldedPowerCheckWitness<E>,
    r: Result<(), NovaError>,
    e: (&[E::Scalar], &[E::Scalar]),
    v: (&[E::Scalar], &[E::Scalar]),
    t: E::Scalar,
)
    requires
        call_ensures(verify_nsc_pc_claim_bruteforce::<E>, (s_pc, u, w), r),
        s_pc.num_cons == s_pc.left + s_pc.right,
        w@.witness.splits(s_pc.left as int, s_pc.right as int),
        w@.weights.splits(s_pc.left as int, s_pc.right as int),
        call_ensures(WeightTable::<E>::e1, (&w.witness,), e.0),
        call_ensures(WeightTable::<E>::e2, (&w.witness,), e.1),
        call_ensures(WeightTable::<E>::e1, (&w.weights,), v.0),
        call_ensures(WeightTable::<E>::e2, (&w.weights,), v.1),
        call_ensures(
            compute_pc_weighted_sum_bruteforce::<E::Scalar>,
            (e.0, e.1, &u.tau, v.0, v.1),
            t,
        ),
    ensures
        r is Ok <==> u.pc_sumcheck_claim.val() == t.val(),
{
    assert(vals(e.0@) =~= w@.witness.first());
    assert(vals(e.1@) =~= w@.witness.second());
    assert(vals(v.0@) =~= w@.weights.first());
    assert(vals(v.1@) =~= w@.weights.second());
}

} // verus!
