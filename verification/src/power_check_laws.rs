//! Laws of the power check: which tables pass, and what folding preserves.
use vstd::prelude::*;
use crate::arith::{
    cong_seq, fdiv, invertible, is, lemma_cong_add, lemma_cong_mul, lemma_cong_sub, lemma_index,
    lemma_mod, lemma_power_add, lemma_sum_cong, lemma_sum_ext, lemma_sum_linear,
    lemma_sum_shift, lemma_sum_split, lemma_sum_zero, lerp, lerp_seq, power, sum,
};
use crate::commitment::commit_log;
use crate::fold_laws::{law_commitment_folds, lemma_mod_seq_cong};
use crate::power_check_relation::{
    fold_pc_instance, fold_pc_witness, pc_flat_sum, pc_flat_term, pc_g, pc_residual, unit_table,
    PcInstance, PcWitness,
};
use crate::round_laws::{
    law_output_claim, law_pc_claim_is_rlc, law_round_poly_everywhere, lemma_pc_round_is_poly,
    pc_round,
};
use crate::sumcheck::{
    eq_poly, is_round_poly, lerp_pc, pc_row, pc_rows, pc_shape, pc_sum, pc_term, PcData,
};
use crate::univariate::peval;
use crate::weight_table::{fold_table, mod_seq, power_table, TableModel};

verus! {

impl TableModel {
    /// The first half.
    pub open spec fn first(self) -> Seq<int> {
        self.data.subrange(0, self.split as int)
    }

    /// The second half.
    pub open spec fn second(self) -> Seq<int> {
        self.data.subrange(self.split as int, self.data.len() as int)
    }

    /// The halves have the given lengths.
    pub open spec fn splits(self, left: int, right: int) -> bool {
        self.split == left && self.data.len() == left + right
    }
}

/// Every constraint of the power check holds for the table, modulo `p`.
pub open spec fn table_valid(p: int, e1: Seq<int>, e2: Seq<int>, tau: int) -> bool {
    forall|i: int|
        0 <= i < e1.len() + e2.len() ==> #[trigger] pc_residual(i, e1.len() as int, e1, e2, tau) % p
            == 0
}

/// The residual depends only on the residues of the table.
pub proof fn lemma_pc_residual_cong(
    p: int,
    i: int,
    a1: Seq<int>,
    a2: Seq<int>,
    b1: Seq<int>,
    b2: Seq<int>,
    ta: int,
    tb: int,
)
    requires
        p > 0,
        a1.len() >= 1,
        cong_seq(p, a1, b1),
        cong_seq(p, a2, b2),
        ta % p == tb % p,
        0 <= i < a1.len() + a2.len(),
    ensures
        pc_residual(i, a1.len() as int, a1, a2, ta) % p == pc_residual(
            i,
            a1.len() as int,
            b1,
            b2,
            tb,
        ) % p,
{
    let left = a1.len() as int;
    let g = pc_g(i, left, a1, a2, ta);
    let h = pc_g(i, left, b1, b2, tb);
    assert(g.0 % p == h.0 % p) by {
        if i < left {
            assert(a1[i] % p == b1[i] % p);
        } else {
            assert(a2[i - left] % p == b2[i - left] % p);
        }
    }
    assert(g.1 % p == h.1 % p && g.2 % p == h.2 % p) by {
        if i == 0 || i == left {
        } else if i < left {
            assert(a1[i - 1] % p == b1[i - 1] % p);
        } else if i == left + 1 {
            assert(a1[left - 1] % p == b1[left - 1] % p);
        } else if i == left + 2 {
            assert(a2[1] % p == b2[1] % p);
        } else {
            assert(a2[1] % p == b2[1] % p);
            assert(a2[i - left - 1] % p == b2[i - left - 1] % p);
        }
    }
    lemma_cong_mul(p, g.1, g.2, h.1, h.2);
    lemma_cong_sub(p, g.0, g.1 * g.2, h.0, h.1 * h.2);
}

/// The halves of the table of powers of `tau`, before reduction.
pub open spec fn powers_first(tau: int, left: nat) -> Seq<int> {
    Seq::new(left, |i: int| power(tau, i as nat))
}

/// The second half of the table of powers of `tau`, before reduction.
pub open spec fn powers_second(tau: int, left: nat, right: nat) -> Seq<int> {
    Seq::new(right, |i: int| power(tau, (i * left) as nat))
}

/// The powers of `tau` themselves leave no residual.
proof fn lemma_powers_residual(tau: int, left: nat, right: nat, i: int)
    requires
        left >= 1,
        0 <= i < left + right,
    ensures
        pc_residual(
            i,
            left as int,
            powers_first(tau, left),
            powers_second(tau, left, right),
            tau,
        ) == 0,
{
    let e1 = powers_first(tau, left);
    let e2 = powers_second(tau, left, right);
    let g = pc_g(i, left as int, e1, e2, tau);
    assert(power(tau, 0) == 1);
    if i == 0 {
        assert(e1[0] == 1);
        assert(g == (1int, 1int, 1int));
        assert(1int * 1 == 1) by (nonlinear_arith);
        assert(g.0 == g.1 * g.2);
    } else if i < left {
        assert(e1[i] == power(tau, (i - 1) as nat) * tau);
        assert(g == (e1[i], e1[i - 1], tau));
        assert(e1[i - 1] == power(tau, (i - 1) as nat));
        assert(g.0 == g.1 * g.2);
    } else if i == left {
        assert(0 * left == 0) by (nonlinear_arith);
        assert(e2[0] == 1);
        assert(g == (1int, 1int, 1int));
        assert(1int * 1 == 1) by (nonlinear_arith);
        assert(g.0 == g.1 * g.2);
    } else if i == left + 1 {
        assert(g == (e2[1], e1[left - 1], tau));
        assert(1 * left == left) by (nonlinear_arith);
        assert(e2[1] == power(tau, left));
        assert(e1[left - 1] == power(tau, (left - 1) as nat));
        assert(power(tau, left) == power(tau, (left - 1) as nat) * tau);
        assert(g.0 == g.1 * g.2);
    } else {
        let k = i - left;
        assert(g == (e2[k], e2[1], e2[k - 1]));
        assert(1 * left == left) by (nonlinear_arith);
        assert(e2[1] == power(tau, left));
        assert(k * left == left + (k - 1) * left) by (nonlinear_arith);
        assert((k - 1) * left >= 0) by (nonlinear_arith)
            requires
                k >= 1,
                left >= 0,
        ;
        lemma_power_add(tau, left, ((k - 1) * left) as nat);
        assert(e2[k] == e2[1] * e2[k - 1]);
        assert(g.0 == g.1 * g.2);
    }    assert(pc_residual(i, left as int, e1, e2, tau) == g.0 - g.1 * g.2);
}

/// A fresh table of powers passes the check: all residuals vanish.
pub proof fn law_power_table_valid(p: int, tau: int, left: nat, right: nat, t: TableModel)
    requires
        p > 0,
        left >= 1,
        t.data == mod_seq(p, power_table(tau, left, right)),
        t.split == left,
    ensures
        table_valid(p, t.first(), t.second(), tau),
{
    let e1 = powers_first(tau, left);
    let e2 = powers_second(tau, left, right);
    vstd::arithmetic::div_mod::lemma_small_mod(0, p as nat);
    lemma_mod_seq_cong(p, e1);
    lemma_mod_seq_cong(p, e2);
    assert(t.first() =~= mod_seq(p, e1));
    assert(t.second() =~= mod_seq(p, e2));
    assert forall|i: int| 0 <= i < left + right implies #[trigger] pc_residual(
        i,
        left as int,
        t.first(),
        t.second(),
        tau,
    ) % p == 0 by {
        lemma_pc_residual_cong(p, i, t.first(), t.second(), e1, e2, tau, tau);
        lemma_powers_residual(tau, left, right, i);
    }
}

/// Only tables of powers pass the check, so that every other table leaves a nonzero residual.
pub proof fn law_valid_table_is_powers(p: int, tau: int, e1: Seq<int>, e2: Seq<int>)
    requires
        p > 0,
        e1.len() >= 1,
        table_valid(p, e1, e2, tau),
    ensures
        forall|i: int|
            0 <= i < e1.len() ==> #[trigger] e1[i] % p == power(tau, i as nat) % p,
        forall|k: int|
            0 <= k < e2.len() ==> #[trigger] e2[k] % p == power(tau, (k * e1.len()) as nat) % p,
{
    let left = e1.len() as int;
    assert forall|i: int| 0 <= i < left implies #[trigger] e1[i] % p == power(tau, i as nat) % p by {
        lemma_first_half(p, tau, e1, e2, i);
    }
    assert forall|k: int| 0 <= k < e2.len() implies #[trigger] e2[k] % p == power(
        tau,
        (k * left) as nat,
    ) % p by {
        lemma_second_half(p, tau, e1, e2, k);
    }
}

/// A vanishing residual is an equation.
proof fn lemma_residual_equation(p: int, g1: int, g2: int, g3: int)
    requires
        p > 0,
        (g1 - g2 * g3) % p == 0,
    ensures
        g1 % p == (g2 * g3) % p,
{
    vstd::arithmetic::div_mod::lemma_small_mod(0, p as nat);
    lemma_cong_add(p, g1 - g2 * g3, g2 * g3, 0, g2 * g3);
}

/// The chain in the first half.
proof fn lemma_first_half(p: int, tau: int, e1: Seq<int>, e2: Seq<int>, i: int)
    requires
        p > 0,
        table_valid(p, e1, e2, tau),
        0 <= i < e1.len(),
    ensures
        e1[i] % p == power(tau, i as nat) % p,
    decreases i,
{
    let left = e1.len() as int;
    assert(pc_residual(i, left, e1, e2, tau) % p == 0);
    let g = pc_g(i, left, e1, e2, tau);
    lemma_residual_equation(p, g.0, g.1, g.2);
    if i > 0 {
        lemma_first_half(p, tau, e1, e2, i - 1);
        lemma_cong_mul(p, e1[i - 1], tau, power(tau, (i - 1) as nat), tau);
    }
}

/// The chain in the second half.
proof fn lemma_second_half(p: int, tau: int, e1: Seq<int>, e2: Seq<int>, k: int)
    requires
        p > 0,
        e1.len() >= 1,
        table_valid(p, e1, e2, tau),
        0 <= k < e2.len(),
    ensures
        e2[k] % p == power(tau, (k * e1.len()) as nat) % p,
    decreases k,
{
    let left = e1.len() as int;
    let i = left + k;
    assert(pc_residual(i, left, e1, e2, tau) % p == 0);
    let g = pc_g(i, left, e1, e2, tau);
    lemma_residual_equation(p, g.0, g.1, g.2);
    if k == 0 {
        assert(0 * left == 0) by (nonlinear_arith);
    } else if k == 1 {
        lemma_first_half(p, tau, e1, e2, left - 1);
        lemma_cong_mul(p, e1[left - 1], tau, power(tau, (left - 1) as nat), tau);
        assert(1 * left == left) by (nonlinear_arith);
        assert(power(tau, left as nat) == power(tau, (left - 1) as nat) * tau);
    } else {
        lemma_second_half(p, tau, e1, e2, 1);
        lemma_second_half(p, tau, e1, e2, k - 1);
        assert(1 * left == left) by (nonlinear_arith);
        assert(k * left == left + (k - 1) * left) by (nonlinear_arith);
        assert((k - 1) * left >= 0) by (nonlinear_arith)
            requires
                k >= 1,
                left >= 0,
        ;
        lemma_power_add(tau, left as nat, ((k - 1) * left) as nat);
        lemma_cong_mul(
            p,
            e2[1],
            e2[k - 1],
            power(tau, left as nat),
            power(tau, ((k - 1) * left) as nat),
        );
    }
}

/// The table that is one at the start of both halves and zero elsewhere holds the powers of zero.
pub proof fn law_unit_table_is_powers_of_zero(left: nat, right: nat)
    requires
        left >= 1,
    ensures
        unit_table(left as int, right as int) == power_table(0, left, right),
{
    let (u, t) = (unit_table(left as int, right as int), power_table(0, left, right));
    assert forall|i: int| 0 <= i < left + right implies u[i] == t[i] by {
        if i < left {
            lemma_power_of_zero(i as nat);
        } else {
            let k = i - left;
            if k == 0 {
                assert(k * left == 0) by (nonlinear_arith)
                    requires
                        k == 0,
                ;
            } else {
                assert(k * left >= 1) by (nonlinear_arith)
                    requires
                        k >= 1,
                        left >= 1,
                ;
            }
            lemma_power_of_zero((k * left) as nat);
        }
    }
    assert(u =~= t);
}

/// The powers of zero.
proof fn lemma_power_of_zero(k: nat)
    ensures
        power(0, k) == if k == 0 {
            1int
        } else {
            0int
        },
{
    if k > 0 {
        let x = power(0, (k - 1) as nat);
        assert(x * 0 == 0) by (nonlinear_arith);
    }
}

/// The weighted sum of the residuals of a table that passes the check is zero, whatever the
/// weights.
pub proof fn law_weighted_sum_zero(p: int, left: int, right: int, d: PcData)
    requires
        p > 0,
        left >= 1,
        right >= 0,
        pc_shape(left, right, d),
        table_valid(p, d.e1, d.e2, d.tau),
    ensures
        pc_sum(left, right, left + right, d) % p == 0,
{
    vstd::arithmetic::div_mod::lemma_small_mod(0, p as nat);
    let n = left + right;
    let f = |i: int| d.wr[i] * pc_row(left, n, d, i, left);
    assert forall|i: int| 0 <= i < right implies #[trigger] f(i) % p == 0 by {
        let g = |j: int| pc_term(left, n, d, i, j);
        assert forall|j: int| 0 <= j < left implies #[trigger] g(j) % p == 0 by {
            lemma_index(left, right, i, j);
            let k = i * left + j;
            if k < n {
                let (w, r) = (d.wl[j], pc_residual(k, left, d.e1, d.e2, d.tau));
                assert(r % p == 0);
                lemma_cong_mul(p, w, r, w, 0);
                assert(w * 0 == 0) by (nonlinear_arith);
            }
        }
        lemma_sum_zero(p, g, 0, left);
        let (w, r) = (d.wr[i], pc_row(left, n, d, i, left));
        lemma_cong_mul(p, w, r, w, 0);
        assert(w * 0 == 0) by (nonlinear_arith);
    }
    lemma_sum_zero(p, f, 0, right);
}

/// The sum over the rows and columns of the padded domain is the sum over the constraints, if the
/// domain covers them: what lies past the last constraint does not count.
pub proof fn law_padded_sum_is_flat_sum(left: int, right: int, num_cons: int, d: PcData)
    requires
        left >= 1,
        right >= 0,
        0 <= num_cons <= left * right,
    ensures
        pc_sum(left, right, num_cons, d) == pc_flat_sum(
            left,
            d.wl,
            d.wr,
            d.e1,
            d.e2,
            d.tau,
            num_cons,
        ),
{
    let f = |i: int|
        if i < num_cons {
            pc_flat_term(left, d.wl, d.wr, d.e1, d.e2, d.tau, i)
        } else {
            0
        };
    lemma_rows_are_flat(left, num_cons, d, f, right);
    assert(right * left == left * right) by (nonlinear_arith);
    lemma_sum_split(f, 0, num_cons, left * right);
    lemma_sum_ext(
        f,
        |i: int| pc_flat_term(left, d.wl, d.wr, d.e1, d.e2, d.tau, i),
        0,
        num_cons,
    );
    lemma_zero_tail(f, num_cons, left * right);
}

/// The data agree up to weights of rows that lie past the last constraint.
pub open spec fn same_but_padding(left: int, num_cons: int, d: PcData, e: PcData) -> bool {
    &&& d.wl == e.wl
    &&& d.e1 == e.e1
    &&& d.e2 == e.e2
    &&& d.tau == e.tau
    &&& d.wr.len() == e.wr.len()
    &&& forall|i: int|
        0 <= i < d.wr.len() && i * left < num_cons ==> #[trigger] d.wr[i] == e.wr[i]
}

/// Padding does not count in a round: the round function runs over the constraints alone, and the
/// weights of rows past the last constraint do not change it.
pub proof fn law_padding_does_not_count(
    left: int,
    right: int,
    num_cons: int,
    rho: int,
    d: (PcData, PcData),
    e: (PcData, PcData),
    t: int,
)
    requires
        left >= 1,
        0 <= num_cons <= left * right,
        pc_shape(left, right, d.0),
        pc_shape(left, right, d.1),
        same_but_padding(left, num_cons, d.0, e.0),
        same_but_padding(left, num_cons, d.1, e.1),
    ensures
        ({
            let at = lerp_pc(d.0, d.1, t);
            pc_round(left, right, num_cons, rho, d.0, d.1)(t) == eq_poly(rho, t) * pc_flat_sum(
                left,
                at.wl,
                at.wr,
                at.e1,
                at.e2,
                at.tau,
                num_cons,
            )
        }),
        pc_round(left, right, num_cons, rho, d.0, d.1)(t) == pc_round(
            left,
            right,
            num_cons,
            rho,
            e.0,
            e.1,
        )(t),
{
    let (x, y) = (lerp_pc(d.0, d.1, t), lerp_pc(e.0, e.1, t));
    law_padded_sum_is_flat_sum(left, right, num_cons, x);
    law_padded_sum_is_flat_sum(left, right, num_cons, y);
    let f = |i: int| pc_flat_term(left, x.wl, x.wr, x.e1, x.e2, x.tau, i);
    let g = |i: int| pc_flat_term(left, y.wl, y.wr, y.e1, y.e2, y.tau, i);
    assert forall|i: int| 0 <= i < num_cons implies #[trigger] f(i) == g(i) by {
        let r = i / left;
        assert(0 <= r < right && r * left < num_cons) by (nonlinear_arith)
            requires
                left >= 1,
                0 <= i < num_cons,
                num_cons <= left * right,
                r == i / left,
        ;
        assert(d.0.wr[r] == e.0.wr[r] && d.1.wr[r] == e.1.wr[r]);
        assert(x.wr[r] == y.wr[r]);
    }
    lemma_sum_ext(f, g, 0, num_cons);
}

/// A sum of zeros is zero.
proof fn lemma_zero_tail(f: spec_fn(int) -> int, lo: int, hi: int)
    requires
        forall|i: int| lo <= i < hi ==> #[trigger] f(i) == 0,
    ensures
        sum(f, lo, hi) == 0,
    decreases hi - lo,
{
    if lo < hi {
        lemma_zero_tail(f, lo, hi - 1);
    }
}

/// The first `n` rows hold the first `n left` constraints.
proof fn lemma_rows_are_flat(
    left: int,
    num_cons: int,
    d: PcData,
    f: spec_fn(int) -> int,
    n: int,
)
    requires
        left >= 1,
        n >= 0,
        forall|i: int| #[trigger]
            f(i) == if i < num_cons {
                pc_flat_term(left, d.wl, d.wr, d.e1, d.e2, d.tau, i)
            } else {
                0
            },
    ensures
        pc_rows(left, num_cons, d, 0, n) == sum(f, 0, n * left),
    decreases n,
{
    if n == 0 {
        assert(0 * left == 0) by (nonlinear_arith);
    } else {
        let row = n - 1;
        lemma_rows_are_flat(left, num_cons, d, f, row);
        assert(n * left == row * left + left) by (nonlinear_arith)
            requires
                row == n - 1,
        ;
        assert(row * left >= 0) by (nonlinear_arith)
            requires
                row >= 0,
                left >= 1,
        ;
        lemma_sum_split(f, 0, row * left, n * left);
        let w = d.wr[row];
        let g = |j: int| pc_term(left, num_cons, d, row, j);
        let zero = |j: int| 0int;
        let h = |j: int| w * g(j) + 0 * zero(j);
        lemma_sum_linear(g, zero, w, 0, 0, left);
        assert forall|j: int| 0 <= j < left implies #[trigger] h(j) == f(j + row * left) by {
            let i = row * left + j;
            vstd::arithmetic::div_mod::lemma_fundamental_div_mod_converse(i, left, row, j);
            assert(left * row == row * left) by (nonlinear_arith);
            if i < num_cons {
                let (a, b) = (d.wl[j], pc_residual(i, left, d.e1, d.e2, d.tau));
                assert(w * (a * b) == (w * a) * b) by (nonlinear_arith);
            } else {
                assert(w * 0 == 0) by (nonlinear_arith);
            }
        }
        lemma_sum_shift(h, f, row * left, 0, left);
        let s = sum(zero, 0, left);
        assert(0 * s == 0) by (nonlinear_arith);
    }
}

/// The data of the sum that a folded power-check pair makes a claim about.
pub open spec fn pc_claim_data(w: PcWitness, tau: int) -> PcData {
    PcData {
        wl: w.weights.first(),
        wr: w.weights.second(),
        e1: w.witness.first(),
        e2: w.witness.second(),
        tau,
    }
}

/// The witness satisfies the instance of the power check: the tables have the dimensions of the
/// main relation, the claim is the weighted sum of residuals, and the commitments open to the
/// tables.
pub open spec fn pc_satisfied(
    p: int,
    left: int,
    right: int,
    ck: Seq<int>,
    h: int,
    u: PcInstance,
    w: PcWitness,
) -> bool {
    &&& w.witness.splits(left, right)
    &&& w.weights.splits(left, right)
    &&& is(p, u.claim, pc_sum(left, right, left + right, pc_claim_data(w, u.tau)))
    &&& is(p, u.comm_witness, commit_log(ck, h, w.witness.data, w.witness.rand))
    &&& is(p, u.comm_weights, commit_log(ck, h, w.weights.data, w.weights.rand))
}

/// The weighted sum depends only on the residues of its data.
pub proof fn lemma_pc_sum_cong(p: int, left: int, right: int, a: PcData, b: PcData)
    requires
        p > 0,
        left >= 1,
        right >= 0,
        pc_shape(left, right, a),
        cong_seq(p, a.wl, b.wl),
        cong_seq(p, a.wr, b.wr),
        cong_seq(p, a.e1, b.e1),
        cong_seq(p, a.e2, b.e2),
        a.tau % p == b.tau % p,
    ensures
        pc_sum(left, right, left + right, a) % p == pc_sum(left, right, left + right, b) % p,
{
    let n = left + right;
    let f = |i: int| a.wr[i] * pc_row(left, n, a, i, left);
    let g = |i: int| b.wr[i] * pc_row(left, n, b, i, left);
    assert forall|i: int| 0 <= i < right implies #[trigger] f(i) % p == g(i) % p by {
        let x = |j: int| pc_term(left, n, a, i, j);
        let y = |j: int| pc_term(left, n, b, i, j);
        assert forall|j: int| 0 <= j < left implies #[trigger] x(j) % p == y(j) % p by {
            lemma_index(left, right, i, j);
            let k = i * left + j;
            if k < n {
                lemma_pc_residual_cong(p, k, a.e1, a.e2, b.e1, b.e2, a.tau, b.tau);
                assert(a.wl[j] % p == b.wl[j] % p);
                lemma_cong_mul(
                    p,
                    a.wl[j],
                    pc_residual(k, left, a.e1, a.e2, a.tau),
                    b.wl[j],
                    pc_residual(k, left, b.e1, b.e2, b.tau),
                );
            }
        }
        lemma_sum_cong(p, x, y, 0, left);
        assert(a.wr[i] % p == b.wr[i] % p);
        lemma_cong_mul(
            p,
            a.wr[i],
            pc_row(left, n, a, i, left),
            b.wr[i],
            pc_row(left, n, b, i, left),
        );
    }
    lemma_sum_cong(p, f, g, 0, right);
}

/// The halves of a folded table are the interpolated halves.
pub proof fn lemma_folded_halves(p: int, a: TableModel, b: TableModel, left: int, right: int, r: int)
    requires
        p > 0,
        left >= 0,
        right >= 0,
        a.splits(left, right),
        b.splits(left, right),
    ensures
        fold_table(p, a, b, r).splits(left, right),
        cong_seq(p, fold_table(p, a, b, r).first(), lerp_seq(a.first(), b.first(), r)),
        cong_seq(p, fold_table(p, a, b, r).second(), lerp_seq(a.second(), b.second(), r)),
{
    let t = fold_table(p, a, b, r);
    let (l1, l2) = (
        lerp_seq(a.first(), b.first(), r),
        lerp_seq(a.second(), b.second(), r),
    );
    assert(t.first() =~= mod_seq(p, l1));
    assert(t.second() =~= mod_seq(p, l2));
    lemma_mod_seq_cong(p, l1);
    lemma_mod_seq_cong(p, l2);
}

/// The claim of a folded power-check pair is the weighted sum of the interpolated data.
pub proof fn law_folded_pc_claim(
    p: int,
    left: int,
    right: int,
    u1: PcInstance,
    w1: PcWitness,
    u2: PcInstance,
    w2: PcWitness,
    r: int,
    t_out: int,
)
    requires
        p > 0,
        left >= 1,
        right >= 0,
        w1.witness.splits(left, right),
        w1.weights.splits(left, right),
        w2.witness.splits(left, right),
        w2.weights.splits(left, right),
    ensures
        pc_sum(
            left,
            right,
            left + right,
            pc_claim_data(
                fold_pc_witness(p, w1, w2, r),
                fold_pc_instance(p, u1, u2, r, t_out).tau,
            ),
        ) % p == pc_sum(
            left,
            right,
            left + right,
            lerp_pc(pc_claim_data(w1, u1.tau), pc_claim_data(w2, u2.tau), r),
        ) % p,
{
    lemma_folded_halves(p, w1.witness, w2.witness, left, right, r);
    lemma_folded_halves(p, w1.weights, w2.weights, left, right, r);
    lemma_mod(p, lerp(u1.tau, u2.tau, r));
    lemma_pc_sum_cong(
        p,
        left,
        right,
        pc_claim_data(fold_pc_witness(p, w1, w2, r), fold_pc_instance(p, u1, u2, r, t_out).tau),
        lerp_pc(pc_claim_data(w1, u1.tau), pc_claim_data(w2, u2.tau), r),
    );
}

/// Folding preserves satisfaction of the power check: two satisfied pairs, folded with the claim
/// that an honest round polynomial leaves, give a satisfied pair.
pub proof fn law_pc_fold_satisfied(
    p: int,
    inv: int,
    left: int,
    right: int,
    ck: Seq<int>,
    h: int,
    u1: PcInstance,
    w1: PcWitness,
    u2: PcInstance,
    w2: PcWitness,
    rho: int,
    r: int,
    claim: int,
    poly: Seq<int>,
)
    requires
        p > 1,
        (120 * inv) % p == 1,
        left >= 1,
        right >= 0,
        pc_satisfied(p, left, right, ck, h, u1, w1),
        pc_satisfied(p, left, right, ck, h, u2, w2),
        claim % p == ((1 - rho) * u1.claim + rho * u2.claim) % p,
        is_round_poly(
            p,
            poly,
            claim,
            pc_round(
                left,
                right,
                left + right,
                rho,
                pc_claim_data(w1, u1.tau),
                pc_claim_data(w2, u2.tau),
            ),
        ),
        invertible(p, eq_poly(rho, r)),
    ensures
        pc_satisfied(
            p,
            left,
            right,
            ck,
            h,
            fold_pc_instance(p, u1, u2, r, fdiv(p, peval(poly, r), eq_poly(rho, r))),
            fold_pc_witness(p, w1, w2, r),
        ),
{
    let n = left + right;
    let (d1, d2) = (pc_claim_data(w1, u1.tau), pc_claim_data(w2, u2.tau));
    let g = pc_round(left, right, n, rho, d1, d2);
    let (t1, t2) = (pc_sum(left, right, n, d1), pc_sum(left, right, n, d2));
    let t_out = fdiv(p, peval(poly, r), eq_poly(rho, r));
    law_pc_claim_is_rlc(left, right, n, rho, d1, d2);
    lemma_mod(p, t1);
    lemma_mod(p, t2);
    lemma_cong_mul(p, 1 - rho, u1.claim, 1 - rho, t1);
    lemma_cong_mul(p, rho, u2.claim, rho, t2);
    lemma_cong_add(p, (1 - rho) * u1.claim, rho * u2.claim, (1 - rho) * t1, rho * t2);
    lemma_pc_round_is_poly(left, right, n, rho, d1, d2);
    law_round_poly_everywhere(p, inv, poly, claim, g, r);
    law_output_claim(
        p,
        peval(poly, r),
        eq_poly(rho, r),
        pc_sum(left, right, n, lerp_pc(d1, d2, r)),
    );
    law_folded_pc_claim(p, left, right, u1, w1, u2, w2, r, t_out);
    lemma_folded_halves(p, w1.witness, w2.witness, left, right, r);
    lemma_folded_halves(p, w1.weights, w2.weights, left, right, r);
    law_commitment_folds(
        p,
        ck,
        h,
        u1.comm_witness,
        w1.witness.data,
        w1.witness.rand,
        u2.comm_witness,
        w2.witness.data,
        w2.witness.rand,
        r,
    );
    law_commitment_folds(
        p,
        ck,
        h,
        u1.comm_weights,
        w1.weights.data,
        w1.weights.rand,
        u2.comm_weights,
        w2.weights.data,
        w2.weights.rand,
        r,
    );
}

} // verus!
