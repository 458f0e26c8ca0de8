//! Laws of the sum-check round: what the round polynomials are, and which claim they leave.
use vstd::prelude::*;
use crate::arith::{
    fdiv, fmul, invertible, lemma_cong_mul, lemma_cong_sub, lemma_fdiv, lemma_index, lemma_mod,
    lerp, lerp_seq, sum,
};
use crate::degree::{
    is_poly, lemma_determined, lemma_poly_combine, lemma_poly_extend, lemma_poly_line,
    lemma_poly_sum, lemma_poly_times_line, member,
};
use crate::power_check_relation::pc_g;
use crate::sumcheck::{
    eq_poly, is_round_poly, lemma_pc_g_lerp, lerp_nsc, lerp_pc, nsc_row, nsc_shape, nsc_sum,
    nsc_term, pc_row, pc_shape, pc_sum, pc_term, NscData, PcData,
};
use crate::univariate::peval;

verus! {

/// The round function of the main relation: the equality polynomial times the nested sum.
pub open spec fn nsc_round(
    left: int,
    right: int,
    rho: int,
    d1: NscData,
    d2: NscData,
) -> spec_fn(int) -> int {
    |t: int| eq_poly(rho, t) * nsc_sum(left, right, lerp_nsc(d1, d2, t))
}

/// The round function of the power check: the equality polynomial times the weighted sum.
pub open spec fn pc_round(
    left: int,
    right: int,
    num_cons: int,
    rho: int,
    d1: PcData,
    d2: PcData,
) -> spec_fn(int) -> int {
    |t: int| eq_poly(rho, t) * pc_sum(left, right, num_cons, lerp_pc(d1, d2, t))
}

/// The equality polynomial is the line from `1 - rho` to `rho`.
proof fn lemma_eq_line(rho: int, t: int)
    ensures
        eq_poly(rho, t) == lerp(1 - rho, rho, t),
{
    assert((1 - rho) * (1 - t) + rho * t == (1 - rho) + t * (rho - (1 - rho))) by (nonlinear_arith);
}

/// A product of lines `a b - c` has three coefficients.
proof fn lemma_poly_gate(
    h: spec_fn(int) -> int,
    a: (int, int),
    b: (int, int),
    c: (int, int),
)
    requires
        forall|t: int| #[trigger] h(t) == lerp(a.0, a.1, t) * lerp(b.0, b.1, t) - lerp(
            c.0,
            c.1,
            t,
        ),
    ensures
        is_poly(h, 3),
{
    let fb = |t: int| lerp(b.0, b.1, t);
    let fc = |t: int| lerp(c.0, c.1, t);
    let ab = |t: int| lerp(a.0, a.1, t) * fb(t);
    lemma_poly_line(fb, b.0, b.1);
    lemma_poly_times_line(fb, ab, a.0, a.1, 2);
    lemma_poly_line(fc, c.0, c.1);
    lemma_poly_extend(fc, 2);
    lemma_poly_combine(ab, fc, h, 1, -1, 3);
}

/// The round function of the main relation has six coefficients.
pub proof fn lemma_nsc_round_is_poly(left: int, right: int, rho: int, d1: NscData, d2: NscData)
    requires
        left >= 0,
        right >= 0,
        nsc_shape(left, right, d1),
        nsc_shape(left, right, d2),
    ensures
        is_poly(nsc_round(left, right, rho, d1, d2), 6),
{
    let rows = |i: int, t: int|
        lerp_nsc(d1, d2, t).e[left + i] * nsc_row(left, lerp_nsc(d1, d2, t), i, left);
    assert forall|i: int| 0 <= i < right implies #[trigger] is_poly(member(rows, i), 5) by {
        let terms = |j: int, t: int| nsc_term(left, lerp_nsc(d1, d2, t), i, j);
        assert forall|j: int| 0 <= j < left implies #[trigger] is_poly(member(terms, j), 4) by {
            lemma_index(left, right, i, j);
            let k = i * left + j;
            let gate = |t: int|
                lerp(d1.az[k], d2.az[k], t) * lerp(d1.bz[k], d2.bz[k], t) - lerp(
                    d1.cz[k],
                    d2.cz[k],
                    t,
                );
            lemma_poly_gate(
                gate,
                (d1.az[k], d2.az[k]),
                (d1.bz[k], d2.bz[k]),
                (d1.cz[k], d2.cz[k]),
            );
            lemma_poly_times_line(gate, member(terms, j), d1.e[j], d2.e[j], 3);
        }
        let row = |t: int| nsc_row(left, lerp_nsc(d1, d2, t), i, left);
        assert forall|t: int| #[trigger] row(t) == sum(|j: int| terms(j, t), 0, left) by {
            crate::arith::lemma_sum_ext(
                |j: int| nsc_term(left, lerp_nsc(d1, d2, t), i, j),
                |j: int| terms(j, t),
                0,
                left,
            );
        }
        lemma_poly_sum(terms, row, 0, left, 4);
        lemma_poly_times_line(row, member(rows, i), d1.e[left + i], d2.e[left + i], 4);
    }
    let total = |t: int| nsc_sum(left, right, lerp_nsc(d1, d2, t));
    assert forall|t: int| #[trigger] total(t) == sum(|i: int| rows(i, t), 0, right) by {
        let d = lerp_nsc(d1, d2, t);
        crate::arith::lemma_sum_ext(
            |i: int| d.e[left + i] * nsc_row(left, d, i, left),
            |i: int| rows(i, t),
            0,
            right,
        );
    }
    lemma_poly_sum(rows, total, 0, right, 5);
    let h = nsc_round(left, right, rho, d1, d2);
    assert forall|t: int| #[trigger] h(t) == lerp(1 - rho, rho, t) * total(t) by {
        lemma_eq_line(rho, t);
    }
    lemma_poly_times_line(total, h, 1 - rho, rho, 5);
}

/// The round function of the power check has six coefficients.
pub proof fn lemma_pc_round_is_poly(
    left: int,
    right: int,
    num_cons: int,
    rho: int,
    d1: PcData,
    d2: PcData,
)
    requires
        left >= 0,
        right >= 0,
        num_cons <= left + right,
        pc_shape(left, right, d1),
        pc_shape(left, right, d2),
    ensures
        is_poly(pc_round(left, right, num_cons, rho, d1, d2), 6),
{
    let rows = |i: int, t: int|
        lerp_pc(d1, d2, t).wr[i] * pc_row(left, num_cons, lerp_pc(d1, d2, t), i, left);
    assert forall|i: int| 0 <= i < right implies #[trigger] is_poly(member(rows, i), 5) by {
        let terms = |j: int, t: int| pc_term(left, num_cons, lerp_pc(d1, d2, t), i, j);
        assert forall|j: int| 0 <= j < left implies #[trigger] is_poly(member(terms, j), 4) by {
            lemma_index(left, right, i, j);
            let k = i * left + j;
            let h = member(terms, j);
            if k < num_cons {
                let ga = pc_g(k, left, d1.e1, d1.e2, d1.tau);
                let gb = pc_g(k, left, d2.e1, d2.e2, d2.tau);
                let gate = |t: int|
                    lerp(ga.1, gb.1, t) * lerp(ga.2, gb.2, t) - lerp(ga.0, gb.0, t);
                lemma_poly_gate(gate, (ga.1, gb.1), (ga.2, gb.2), (ga.0, gb.0));
                assert forall|t: int| #[trigger] h(t) == lerp(-d1.wl[j], -d2.wl[j], t) * gate(t) by {
                    lemma_pc_g_lerp(
                        k,
                        left,
                        right,
                        d1.e1,
                        d1.e2,
                        d1.tau,
                        d2.e1,
                        d2.e2,
                        d2.tau,
                        t,
                    );
                    let (x, y, z, a, b) = (
                        lerp(ga.0, gb.0, t),
                        lerp(ga.1, gb.1, t),
                        lerp(ga.2, gb.2, t),
                        d1.wl[j],
                        d2.wl[j],
                    );
                    let (w, m) = (lerp(a, b, t), lerp(-a, -b, t));
                    assert(m == -w) by (nonlinear_arith)
                        requires
                            m == (-a) + t * ((-b) - (-a)),
                            w == a + t * (b - a),
                    ;
                    assert(w * (x - y * z) == m * (y * z - x)) by (nonlinear_arith)
                        requires
                            m == -w,
                    ;
                }
                lemma_poly_times_line(gate, h, -d1.wl[j], -d2.wl[j], 3);
            } else {
                let line = |t: int| lerp(0, 0, t);
                lemma_poly_line(line, 0, 0);
                lemma_poly_extend(line, 2);
                lemma_poly_extend(line, 3);
                assert forall|t: int| #[trigger] h(t) == 0 * line(t) + 0 * line(t) by {
                    assert(0 * line(t) == 0) by (nonlinear_arith);
                }
                lemma_poly_combine(line, line, h, 0, 0, 4);
            }
        }
        let row = |t: int| pc_row(left, num_cons, lerp_pc(d1, d2, t), i, left);
        assert forall|t: int| #[trigger] row(t) == sum(|j: int| terms(j, t), 0, left) by {
            crate::arith::lemma_sum_ext(
                |j: int| pc_term(left, num_cons, lerp_pc(d1, d2, t), i, j),
                |j: int| terms(j, t),
                0,
                left,
            );
        }
        lemma_poly_sum(terms, row, 0, left, 4);
        lemma_poly_times_line(row, member(rows, i), d1.wr[i], d2.wr[i], 4);
    }
    let total = |t: int| pc_sum(left, right, num_cons, lerp_pc(d1, d2, t));
    assert forall|t: int| #[trigger] total(t) == sum(|i: int| rows(i, t), 0, right) by {
        let d = lerp_pc(d1, d2, t);
        crate::arith::lemma_sum_ext(
            |i: int| d.wr[i] * pc_row(left, num_cons, d, i, left),
            |i: int| rows(i, t),
            0,
            right,
        );
    }
    lemma_poly_sum(rows, total, 0, right, 5);
    let h = pc_round(left, right, num_cons, rho, d1, d2);
    assert forall|t: int| #[trigger] h(t) == lerp(1 - rho, rho, t) * total(t) by {
        lemma_eq_line(rho, t);
    }
    lemma_poly_times_line(total, h, 1 - rho, rho, 5);
}

/// The data at the ends of a line are the data themselves.
proof fn lemma_lerp_ends(a: Seq<int>, b: Seq<int>)
    requires
        a.len() == b.len(),
    ensures
        lerp_seq(a, b, 0) == a,
        lerp_seq(a, b, 1) == b,
{
    assert forall|i: int| 0 <= i < a.len() implies #[trigger] lerp_seq(a, b, 0)[i] == a[i] by {
        let (x, y) = (a[i], b[i]);
        assert(x + 0 * (y - x) == x) by (nonlinear_arith);
    }
    assert(lerp_seq(a, b, 0) =~= a);
    assert(lerp_seq(a, b, 1) =~= b);
}

/// The claim of a round is the random linear combination of the two claims:
/// the round function at 0 and 1 adds up to `(1 - rho) T1 + rho T2`, where `T1` and `T2` are the
/// nested sums of the two instances.
pub proof fn law_nsc_claim_is_rlc(left: int, right: int, rho: int, d1: NscData, d2: NscData)
    requires
        left >= 0,
        right >= 0,
        nsc_shape(left, right, d1),
        nsc_shape(left, right, d2),
    ensures
        nsc_round(left, right, rho, d1, d2)(0) + nsc_round(left, right, rho, d1, d2)(1) == (1
            - rho) * nsc_sum(left, right, d1) + rho * nsc_sum(left, right, d2),
{
    lemma_lerp_ends(d1.e, d2.e);
    lemma_lerp_ends(d1.az, d2.az);
    lemma_lerp_ends(d1.bz, d2.bz);
    lemma_lerp_ends(d1.cz, d2.cz);
    assert(eq_poly(rho, 0) == 1 - rho && eq_poly(rho, 1) == rho) by {
        assert((1 - rho) * (1 - 0) + rho * 0 == 1 - rho) by (nonlinear_arith);
        assert((1 - rho) * (1 - 1) + rho * 1 == rho) by (nonlinear_arith);
    }
    assert(lerp_nsc(d1, d2, 0) == d1);
    assert(lerp_nsc(d1, d2, 1) == d2);
}

/// The claim of a power-check round is the random linear combination of the two claims:
/// the round function at 0 and 1 adds up to `(1 - rho) T1 + rho T2`, where `T1` and `T2` are the
/// weighted sums of the residuals of the two instances.
pub proof fn law_pc_claim_is_rlc(
    left: int,
    right: int,
    num_cons: int,
    rho: int,
    d1: PcData,
    d2: PcData,
)
    requires
        pc_shape(left, right, d1),
        pc_shape(left, right, d2),
    ensures
        pc_round(left, right, num_cons, rho, d1, d2)(0) + pc_round(
            left,
            right,
            num_cons,
            rho,
            d1,
            d2,
        )(1) == (1 - rho) * pc_sum(left, right, num_cons, d1) + rho * pc_sum(
            left,
            right,
            num_cons,
            d2,
        ),
{
    lemma_lerp_ends(d1.wl, d2.wl);
    lemma_lerp_ends(d1.wr, d2.wr);
    lemma_lerp_ends(d1.e1, d2.e1);
    lemma_lerp_ends(d1.e2, d2.e2);
    let (a, b) = (d1.tau, d2.tau);
    assert(a + 0 * (b - a) == a && a + 1 * (b - a) == b) by (nonlinear_arith);
    assert(eq_poly(rho, 0) == 1 - rho && eq_poly(rho, 1) == rho) by {
        assert((1 - rho) * (1 - 0) + rho * 0 == 1 - rho) by (nonlinear_arith);
        assert((1 - rho) * (1 - 1) + rho * 1 == rho) by (nonlinear_arith);
    }
    assert(lerp_pc(d1, d2, 0) == d1);
    assert(lerp_pc(d1, d2, 1) == d2);
}

/// A round polynomial for a true claim is the round function everywhere, not only at the points it
/// was interpolated at.
pub proof fn law_round_poly_everywhere(
    p: int,
    inv: int,
    poly: Seq<int>,
    claim: int,
    g: spec_fn(int) -> int,
    t: int,
)
    requires
        p > 1,
        (120 * inv) % p == 1,
        is_poly(g, 6),
        is_round_poly(p, poly, claim, g),
        claim % p == (g(0) + g(1)) % p,
    ensures
        peval(poly, t) % p == g(t) % p,
{
    assert(peval(poly, 1) % p == g(1) % p) by {
        let (a, b) = (peval(poly, 0), peval(poly, 1));
        lemma_cong_sub(p, a + b, a, g(0) + g(1), g(0));
    }
    assert forall|j: int| 0 <= j <= 5 implies #[trigger] peval(poly, j) % p == g(j) % p by {
        assert(j == 0 || j == 1 || j == 2 || j == 3 || j == 4 || j == 5);
    }
    lemma_determined(p, poly, g, inv, t);
}

/// The claim that a round leaves is the sum at the challenge: dividing the value of the polynomial
/// by that of the equality polynomial gives back the interpolated sum.
pub proof fn law_output_claim(p: int, value: int, eq: int, total: int)
    requires
        p > 1,
        invertible(p, eq),
        value % p == (eq * total) % p,
    ensures
        fdiv(p, value, eq) == total % p,
{
    let inv = choose|v: int| #[trigger] fmul(p, eq, v) == 1;
    lemma_mod(p, total);
    lemma_cong_mul(p, total % p, eq, total, eq);
    assert(total * eq == eq * total) by (nonlinear_arith);
    lemma_fdiv(p, value, eq, inv, total % p);
}

} // verus!
