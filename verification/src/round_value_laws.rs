//! What the values of a round are: those of the claimed sums on the line between two pairs, scaled
//! by the equality polynomial.
use vstd::prelude::*;
use crate::arith::{cong_seq, is, lemma_cong_mul, lemma_mod, lemma_sum_cong, lerp, lerp_seq, sum};
use crate::field::{vals, Field};
use crate::power_check_laws::{law_padded_sum_is_flat_sum, lemma_pc_residual_cong};
use crate::power_check_relation::{
    compute_pc_weighted_sum_bruteforce, pc_flat_sum, pc_flat_term, pc_residual,
    PowerCheckStructure,
};
use crate::relation::nested_sum;
use crate::sumcheck::{
    eq_poly, lemma_nsc_sum_cong, lerp_nsc, lerp_pc, nsc_sum, pc_data, pc_sum, prove_helper,
    prove_helper_pc, EvalAcc, NscData, PcData,
};
use crate::traits::Engine;
use crate::zerofold_transcript::entries_on_the_line;

verus! {

/// The points of a round where values are computed.
pub open spec fn is_point(t: int) -> bool {
    t == 0 || t == 2 || t == 3 || t == 4 || t == 5
}

/// The value of a round at one of its points.
pub open spec fn value_at<F: Field>(acc: EvalAcc<F>, t: int) -> F {
    if t == 0 {
        acc.0
    } else if t == 2 {
        acc.1
    } else if t == 3 {
        acc.2
    } else if t == 4 {
        acc.3
    } else {
        acc.4
    }
}

/// Entries on the line are congruent to those of the line itself.
proof fn lemma_line(p: int, out: Seq<int>, a: Seq<int>, b: Seq<int>, t: int)
    requires
        p > 0,
        entries_on_the_line(p, out, a, b, t),
    ensures
        cong_seq(p, lerp_seq(a, b, t), out),
{
    assert forall|i: int| 0 <= i < out.len() implies #[trigger] lerp_seq(a, b, t)[i] % p == out[i]
        % p by {
        assert(out[i] == (a[i] + t * (b[i] - a[i])) % p);
        lemma_mod(p, a[i] + t * (b[i] - a[i]));
    }
}

/// The value of the round of the main relation at a point is the nested sum of the weights and
/// products on the line between the two pairs at that point, times the equality polynomial of the
/// challenge and the point.
pub proof fn law_round_value_is_a_nested_sum<E: Engine>(
    rho: &E::Scalar,
    dims: (usize, usize),
    e1: &[E::Scalar],
    a1: &[E::Scalar],
    b1: &[E::Scalar],
    c1: &[E::Scalar],
    e2: &[E::Scalar],
    a2: &[E::Scalar],
    b2: &[E::Scalar],
    c2: &[E::Scalar],
    acc: EvalAcc<E::Scalar>,
    t: int,
    e: (&[E::Scalar], &[E::Scalar]),
    abc: (&[E::Scalar], &[E::Scalar], &[E::Scalar]),
    r: E::Scalar,
)
    requires
        call_ensures(prove_helper::<E>, (rho, dims, e1, a1, b1, c1, e2, a2, b2, c2), acc),
        e1@.len() == dims.0 + dims.1,
        a1@.len() == dims.0 * dims.1,
        b1@.len() == dims.0 * dims.1,
        c1@.len() == dims.0 * dims.1,
        is_point(t),
        e.0@.len() == dims.0,
        e.1@.len() == dims.1,
        entries_on_the_line(
            E::Scalar::modulus(),
            vals(e.0@) + vals(e.1@),
            vals(e1@),
            vals(e2@),
            t,
        ),
        entries_on_the_line(E::Scalar::modulus(), vals(abc.0@), vals(a1@), vals(a2@), t),
        entries_on_the_line(E::Scalar::modulus(), vals(abc.1@), vals(b1@), vals(b2@), t),
        entries_on_the_line(E::Scalar::modulus(), vals(abc.2@), vals(c1@), vals(c2@), t),
        call_ensures(nested_sum::<E::Scalar>, (e.0, e.1, abc.0, abc.1, abc.2), r),
    ensures
        value_at(acc, t).val() == (((1 - rho.val()) * (1 - t) + rho.val() * t) * r.val())
            % E::Scalar::modulus(),
{
    let p = E::Scalar::modulus();
    E::Scalar::lemma_modulus();
    let (left, right) = (dims.0 as int, dims.1 as int);
    let d1 = NscData { e: vals(e1@), az: vals(a1@), bz: vals(b1@), cz: vals(c1@) };
    let d2 = NscData { e: vals(e2@), az: vals(a2@), bz: vals(b2@), cz: vals(c2@) };
    let d = NscData {
        e: vals(e.0@) + vals(e.1@),
        az: vals(abc.0@),
        bz: vals(abc.1@),
        cz: vals(abc.2@),
    };
    let l = lerp_nsc(d1, d2, t);
    lemma_line(p, d.e, d1.e, d2.e, t);
    lemma_line(p, d.az, d1.az, d2.az, t);
    lemma_line(p, d.bz, d1.bz, d2.bz, t);
    lemma_line(p, d.cz, d1.cz, d2.cz, t);
    lemma_nsc_sum_cong(p, left, right, l, d);
    let eq = eq_poly(rho.val(), t);
    lemma_mod(p, nsc_sum(left, right, d));
    lemma_cong_mul(p, eq, nsc_sum(left, right, l), eq, r.val());
    assert(is(p, value_at(acc, t).val(), eq * nsc_sum(left, right, l)));
}

/// The weighted sum of residuals respects congruence.
proof fn lemma_flat_sum_cong(p: int, left: int, rows: int, n: int, d: PcData, f: PcData)
    requires
        p > 0,
        left >= 1,
        0 <= n <= left * rows,
        n == d.e1.len() + d.e2.len(),
        d.e1.len() == left,
        d.wl.len() == left,
        d.wr.len() == rows,
        cong_seq(p, d.wl, f.wl),
        cong_seq(p, d.wr, f.wr),
        cong_seq(p, d.e1, f.e1),
        cong_seq(p, d.e2, f.e2),
        d.tau % p == f.tau % p,
    ensures
        pc_flat_sum(left, d.wl, d.wr, d.e1, d.e2, d.tau, n) % p == pc_flat_sum(
            left,
            f.wl,
            f.wr,
            f.e1,
            f.e2,
            f.tau,
            n,
        ) % p,
{
    let g = |i: int| pc_flat_term(left, d.wl, d.wr, d.e1, d.e2, d.tau, i);
    let h = |i: int| pc_flat_term(left, f.wl, f.wr, f.e1, f.e2, f.tau, i);
    assert forall|i: int| 0 <= i < n implies #[trigger] g(i) % p == h(i) % p by {
        let (y, z) = (i / left, i % left);
        assert(i == left * (i / left) + i % left && 0 <= i % left < left && 0 <= i / left) by {
            vstd::arithmetic::div_mod::lemma_fundamental_div_mod(i, left);
            vstd::arithmetic::div_mod::lemma_mod_bound(i, left);
            vstd::arithmetic::div_mod::lemma_div_pos_is_pos(i, left);
        }
        assert(y < rows) by (nonlinear_arith)
            requires
                i == left * y + z,
                0 <= z,
                i < n,
                n <= left * rows,
                left >= 1,
        ;
        lemma_pc_residual_cong(p, i, d.e1, d.e2, f.e1, f.e2, d.tau, f.tau);
        assert(d.wl[z] % p == f.wl[z] % p);
        assert(d.wr[y] % p == f.wr[y] % p);
        lemma_cong_mul(p, d.wr[y], d.wl[z], f.wr[y], f.wl[z]);
        lemma_cong_mul(
            p,
            d.wr[y] * d.wl[z],
            pc_residual(i, left, d.e1, d.e2, d.tau),
            f.wr[y] * f.wl[z],
            pc_residual(i, left, f.e1, f.e2, f.tau),
        );
    }
    lemma_sum_cong(p, g, h, 0, n);
}

/// The value of the round of the power check at a point is the weighted sum of the residuals of the
/// table, weights and scalar on the line between the two pairs at that point, times the equality
/// polynomial of the challenge and the point.
pub proof fn law_power_check_round_value_is_a_weighted_sum<E: Engine>(
    rho: &E::Scalar,
    s_pc: &PowerCheckStructure,
    weights: ((&[E::Scalar], &[E::Scalar]), (&[E::Scalar], &[E::Scalar])),
    tables: ((&[E::Scalar], &[E::Scalar]), (&[E::Scalar], &[E::Scalar])),
    tau: (&E::Scalar, &E::Scalar),
    acc: EvalAcc<E::Scalar>,
    t: int,
    w: (&[E::Scalar], &[E::Scalar]),
    e: (&[E::Scalar], &[E::Scalar]),
    tau_t: &E::Scalar,
    r: E::Scalar,
)
    requires
        call_ensures(
            prove_helper_pc::<E>,
            (rho, s_pc, weights.0, weights.1, tables.0, tables.1, tau.0, tau.1),
            acc,
        ),
        s_pc.left >= 1,
        s_pc.num_cons == s_pc.left + s_pc.right,
        s_pc.num_cons <= s_pc.left * s_pc.right,
        is_point(t),
        w.0@.len() == s_pc.left,
        w.1@.len() == s_pc.right,
        e.0@.len() == s_pc.left,
        e.1@.len() == s_pc.right,
        entries_on_the_line(
            E::Scalar::modulus(),
            vals(w.0@),
            vals(weights.0.0@),
            vals(weights.1.0@),
            t,
        ),
        entries_on_the_line(
            E::Scalar::modulus(),
            vals(w.1@),
            vals(weights.0.1@),
            vals(weights.1.1@),
            t,
        ),
        entries_on_the_line(
            E::Scalar::modulus(),
            vals(e.0@),
            vals(tables.0.0@),
            vals(tables.1.0@),
            t,
        ),
        entries_on_the_line(
            E::Scalar::modulus(),
            vals(e.1@),
            vals(tables.0.1@),
            vals(tables.1.1@),
            t,
        ),
        tau_t.val() == (tau.0.val() + t * (tau.1.val() - tau.0.val())) % E::Scalar::modulus(),
        call_ensures(
            compute_pc_weighted_sum_bruteforce::<E::Scalar>,
            (e.0, e.1, tau_t, w.0, w.1),
            r,
        ),
    ensures
        value_at(acc, t).val() == (((1 - rho.val()) * (1 - t) + rho.val() * t) * r.val())
            % E::Scalar::modulus(),
{
    let p = E::Scalar::modulus();
    E::Scalar::lemma_modulus();
    let (left, right, n) = (s_pc.left as int, s_pc.right as int, s_pc.num_cons as int);
    let d1 = pc_data(weights.0, tables.0, *tau.0);
    let d2 = pc_data(weights.1, tables.1, *tau.1);
    let d = PcData {
        wl: vals(w.0@),
        wr: vals(w.1@),
        e1: vals(e.0@),
        e2: vals(e.1@),
        tau: tau_t.val(),
    };
    let l = lerp_pc(d1, d2, t);
    lemma_line(p, d.wl, d1.wl, d2.wl, t);
    lemma_line(p, d.wr, d1.wr, d2.wr, t);
    lemma_line(p, d.e1, d1.e1, d2.e1, t);
    lemma_line(p, d.e2, d1.e2, d2.e2, t);
    lemma_mod(p, lerp(d1.tau, d2.tau, t));
    law_padded_sum_is_flat_sum(left, right, n, l);
    lemma_flat_sum_cong(p, left, right, n, l, d);
    let flat = pc_flat_sum(left, d.wl, d.wr, d.e1, d.e2, d.tau, n);
    let eq = eq_poly(rho.val(), t);
    lemma_mod(p, flat);
    lemma_cong_mul(p, eq, pc_sum(left, right, n, l), eq, r.val());
    assert(is(p, value_at(acc, t).val(), eq * pc_sum(left, right, n, l)));
}

} // verus!
