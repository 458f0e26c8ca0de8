//! The power-check relation: a table `[e1 || e2]` holds the powers of a scalar.
use vstd::prelude::*;
use crate::arith::{fmul, group_is, is, lemma_cong_sub, lemma_mod, lerp, power, sum};
use crate::commitment::{commit_log, CommitmentKey};
use crate::field::{lemma_seed, lemma_seed_const, vals, Field};
use crate::math::{ceil_log2, is_ceil_log2, lemma_split, pow2};
use crate::relation::{fold_commitment, fold_scalar, zeros, Structure};
use crate::ro::PoseidonRO;
use crate::traits::{zero_coords, Commitment, Engine, Group};
use crate::transcript::{absorb_commitment, point_elements, AbsorbInRO2Trait};
use crate::weight_table::{fold_table, mod_seq, power_table, TableModel, WeightTable};

verus! {

/// Metadata of the power-check relation.
#[derive(Clone, Copy, Debug, PartialEq, Eq)]
pub struct PowerCheckStructure {
    /// Length of the first half of the table.
    pub left: usize,
    /// Length of the second half of the table.
    pub right: usize,
    /// Number of constraints, `left + right`.
    pub num_cons: usize,
    /// Left half of the tensor split of the constraint index.
    pub left_pc: usize,
    /// Right half of the tensor split of the constraint index.
    pub right_pc: usize,
}

impl PowerCheckStructure {
    /// The structure for a table split into the given lengths. The constraint index is split into
    /// `2^ceil(ell/2)` and `2^floor(ell/2)`, where `2^ell` is the least power of two that covers
    /// the constraints.
    pub fn new(left: usize, right: usize) -> (r: Self)
        requires
            left + right <= usize::MAX / 2 + 1,
        ensures
            r.left == left,
            r.right == right,
            r.num_cons == left + right,
            exists|ell: nat| #[trigger]
                is_ceil_log2(left + right, ell) && r.left_pc == power(2, (ell + 1) / 2)
                    && r.right_pc == power(2, ell / 2),
            r.left_pc * r.right_pc >= r.num_cons,
            r.right_pc <= r.left_pc,
    {
        let num_cons: usize = left + right;
        let ell_pc = ceil_log2(num_cons);
        proof {
            lemma_split(ell_pc as nat);
            assert(is_ceil_log2(left + right, ell_pc as nat));
        }
        let left_pc = pow2((ell_pc + 1) / 2);
        let right_pc = pow2(ell_pc / 2);
        PowerCheckStructure { left, right, num_cons, left_pc, right_pc }
    }

    /// The structure for the table of a main relation.
    pub fn from_main<E: Engine>(S: &Structure<E>) -> (r: Self)
        requires
            S@.left + S@.right <= usize::MAX / 2 + 1,
        ensures
            r.left == S@.left,
            r.right == S@.right,
            r.num_cons == S@.left + S@.right,
            exists|ell: nat| #[trigger]
                is_ceil_log2(S@.left + S@.right, ell) && r.left_pc == power(2, (ell + 1) / 2)
                    && r.right_pc == power(2, ell / 2),
            r.left_pc * r.right_pc >= r.num_cons,
            r.right_pc <= r.left_pc,
    {
        Self::new(S.left(), S.right())
    }
}

/// The three values `(g1, g2, g3)` that the constraint at index `i` relates by `g1 = g2 * g3`.
pub open spec fn pc_g(i: int, left: int, e1: Seq<int>, e2: Seq<int>, tau: int) -> (int, int, int) {
    let g1 = if i < left {
        e1[i]
    } else {
        e2[i - left]
    };
    if i == 0 || i == left {
        (g1, 1, 1)
    } else if i < left {
        (g1, e1[i - 1], tau)
    } else if i == left + 1 {
        (g1, e1[left - 1], tau)
    } else if i == left + 2 {
        (g1, e2[1], e2[1])
    } else {
        (g1, e2[1], e2[i - left - 1])
    }
}

/// The residual `g1 - g2 * g3` of the constraint at index `i`.
pub open spec fn pc_residual(i: int, left: int, e1: Seq<int>, e2: Seq<int>, tau: int) -> int {
    let g = pc_g(i, left, e1, e2, tau);
    g.0 - g.1 * g.2
}

/// The values `(g1, g2, g3)` at index `i` of the table.
pub fn pc_g_at<F: Field>(i: usize, left: usize, e1: &[F], e2: &[F], tau: F) -> (r: (F, F, F))
    requires
        e1@.len() == left,
        i < left + e2@.len(),
        left + e2@.len() <= usize::MAX,
        left > 0 || i != 1,
    ensures
        (r.0.val(), r.1.val(), r.2.val()) == pc_g(
            i as int,
            left as int,
            vals(e1@),
            vals(e2@),
            tau.val(),
        ),
{
    let g1 = if i < left {
        e1[i]
    } else {
        e2[i - left]
    };
    if i == 0 {
        (g1, F::one(), F::one())
    } else if i < left {
        (g1, e1[i - 1], tau)
    } else if i == left {
        (g1, F::one(), F::one())
    } else if i == left + 1 {
        (g1, e1[left - 1], tau)
    } else if i == left + 2 {
        (g1, e2[1], e2[1])
    } else {
        (g1, e2[1], e2[i - left - 1])
    }
}

/// The residual `g1 - g2 * g3` at index `i` of the table.
pub fn pc_residual_at<F: Field>(i: usize, left: usize, e1: &[F], e2: &[F], tau: F) -> (r: F)
    requires
        e1@.len() == left,
        i < left + e2@.len(),
        left + e2@.len() <= usize::MAX,
        left > 0 || i != 1,
    ensures
        r.val() == pc_residual(i as int, left as int, vals(e1@), vals(e2@), tau.val())
            % F::modulus(),
{
    let (g1, g2, g3) = pc_g_at(i, left, e1, e2, tau);
    let r = g1.sub(g2.mul(g3));
    proof {
        F::lemma_modulus();
        lemma_mod(F::modulus(), g2.val() * g3.val());
        lemma_cong_sub(
            F::modulus(),
            g1.val(),
            fmul(F::modulus(), g2.val(), g3.val()),
            g1.val(),
            g2.val() * g3.val(),
        );
    }
    r
}

/// A fresh instance: the commitment to a table, and the scalar that it holds the powers of.
#[derive(Clone, Copy, Debug, PartialEq, Eq)]
pub struct PowerCheckInstance<E: Engine> {
    /// Commitment to the table.
    pub comm_powers: E::GE,
    /// The scalar.
    pub tau: E::Scalar,
}

/// A fresh witness: the table.
#[derive(Debug, PartialEq, Eq)]
pub struct PowerCheckWitness<E: Engine> {
    /// The table of powers.
    pub powers: WeightTable<E>,
}

impl<E: Engine> Clone for PowerCheckWitness<E> {
    fn clone(&self) -> (r: Self)
        ensures
            r.powers.model() == self.powers.model(),
    {
        PowerCheckWitness { powers: self.powers.clone() }
    }
}

/// A folded instance: a claim, the logarithms of two commitments, and the folded scalar.
pub struct PcInstance {
    pub claim: int,
    pub comm_witness: int,
    pub comm_weights: int,
    pub tau: int,
}

/// A folded witness: the table that is checked, and the weights of its constraints.
pub struct PcWitness {
    pub witness: TableModel,
    pub weights: TableModel,
}

/// The instance on the line through `u1` at 0 and `u2` at 1, at the point `r`, with a new claim.
pub open spec fn fold_pc_instance(
    p: int,
    u1: PcInstance,
    u2: PcInstance,
    r: int,
    t_out: int,
) -> PcInstance {
    PcInstance {
        claim: t_out,
        comm_witness: lerp(u1.comm_witness, u2.comm_witness, r) % p,
        comm_weights: lerp(u1.comm_weights, u2.comm_weights, r) % p,
        tau: lerp(u1.tau, u2.tau, r) % p,
    }
}

/// The witness on the line through `w1` at 0 and `w2` at 1, at the point `r`.
pub open spec fn fold_pc_witness(p: int, w1: PcWitness, w2: PcWitness, r: int) -> PcWitness {
    PcWitness {
        witness: fold_table(p, w1.witness, w2.witness, r),
        weights: fold_table(p, w1.weights, w2.weights, r),
    }
}

/// A folded instance of the power check.
#[derive(Clone, Copy, Debug, PartialEq, Eq)]
pub struct FoldedPowerCheckInstance<E: Engine> {
    /// The claimed value of the weighted sum of residuals.
    pub pc_sumcheck_claim: E::Scalar,
    /// Commitment to the table that is checked.
    pub comm_witness: E::GE,
    /// Commitment to the weights.
    pub comm_weights: E::GE,
    /// The folded scalar.
    pub tau: E::Scalar,
}

/// A folded witness of the power check.
#[derive(Debug, PartialEq, Eq)]
pub struct FoldedPowerCheckWitness<E: Engine> {
    /// The table that is checked.
    pub witness: WeightTable<E>,
    /// The weights of its constraints.
    pub weights: WeightTable<E>,
}

/// A fresh instance read as a folded one, with a commitment to weights attached.
pub open spec fn fresh_pc_instance<E: Engine>(
    u: PowerCheckInstance<E>,
    comm_weights: int,
) -> PcInstance {
    PcInstance {
        claim: 0,
        comm_witness: u.comm_powers.log(),
        comm_weights,
        tau: u.tau.val(),
    }
}

impl<E: Engine> FoldedPowerCheckInstance<E> {
    /// The mathematical instance.
    pub open spec fn view(self) -> PcInstance {
        PcInstance {
            claim: self.pc_sumcheck_claim.val(),
            comm_witness: self.comm_witness.log(),
            comm_weights: self.comm_weights.log(),
            tau: self.tau.val(),
        }
    }

    /// The instance that is zero throughout.
    pub fn default(S: &PowerCheckStructure) -> (r: Self)
        ensures
            r@ == (PcInstance { claim: 0, comm_witness: 0, comm_weights: 0, tau: 0 }),
            r.placed(),
            zero_coords(r.comm_witness.coords()),
            zero_coords(r.comm_weights.coords()),
    {
        FoldedPowerCheckInstance {
            pc_sumcheck_claim: E::Scalar::zero(),
            comm_witness: E::GE::identity(),
            comm_weights: E::GE::identity(),
            tau: E::Scalar::zero(),
        }
    }

    /// The fresh instance as a folded one: the claim is zero.
    pub fn from_fresh_zc_pc(zc_pc: &PowerCheckInstance<E>, comm_E: Commitment<E>) -> (r: Self)
        ensures
            r@ == fresh_pc_instance(*zc_pc, comm_E.log()),
            r.comm_witness == zc_pc.comm_powers,
            r.comm_weights == comm_E,
            r.tau == zc_pc.tau,
    {
        FoldedPowerCheckInstance {
            pc_sumcheck_claim: E::Scalar::zero(),
            comm_witness: zc_pc.comm_powers,
            comm_weights: comm_E,
            tau: zc_pc.tau,
        }
    }

    /// The instance with a zero claim and a zero scalar whose commitments open to the witness.
    pub fn from_witness(ck: &CommitmentKey<E>, W: &FoldedPowerCheckWitness<E>) -> (r: Self)
        requires
            W.witness@.len() <= ck.bases().len(),
            W.weights@.len() <= ck.bases().len(),
        ensures
            r.placed(),
            r@.claim == 0,
            r@.tau == 0,
            is(
                E::Scalar::modulus(),
                r@.comm_witness,
                commit_log(ck.bases(), ck.blind(), W.witness@, W.witness.rand()),
            ),
            is(
                E::Scalar::modulus(),
                r@.comm_weights,
                commit_log(ck.bases(), ck.blind(), W.weights@, W.weights.rand()),
            ),
    {
        FoldedPowerCheckInstance {
            pc_sumcheck_claim: E::Scalar::zero(),
            comm_witness: W.witness.commit(ck),
            comm_weights: W.weights.commit(ck),
            tau: E::Scalar::zero(),
        }
    }

    /// The commitments have the coordinates of their places in the group.
    pub open spec fn placed(self) -> bool {
        &&& self.comm_witness.coords() == E::GE::point(self.comm_witness.log())
        &&& self.comm_weights.coords() == E::GE::point(self.comm_weights.log())
    }

    /// Folds a fresh instance in, with a commitment to its weights.
    pub fn fold(
        &self,
        u2: &PowerCheckInstance<E>,
        r_b: &E::Scalar,
        comm_weights_new: &Commitment<E>,
        T_pc_out: &E::Scalar,
    ) -> (r: Self)
        ensures
            r@ == fold_pc_instance(
                E::Scalar::modulus(),
                self@,
                fresh_pc_instance(*u2, comm_weights_new.log()),
                r_b.val(),
                T_pc_out.val(),
            ),
            r.placed(),
    {
        let other = FoldedPowerCheckInstance::from_fresh_zc_pc(u2, *comm_weights_new);
        self.fold_with(&other, r_b, T_pc_out)
    }

    /// Folds another folded instance in.
    pub fn fold_with(&self, other: &Self, r_b: &E::Scalar, T_out: &E::Scalar) -> (r: Self)
        ensures
            r@ == fold_pc_instance(
                E::Scalar::modulus(),
                self@,
                other@,
                r_b.val(),
                T_out.val(),
            ),
            r.placed(),
    {
        FoldedPowerCheckInstance {
            pc_sumcheck_claim: *T_out,
            comm_witness: fold_commitment::<E>(&self.comm_witness, &other.comm_witness, r_b),
            comm_weights: fold_commitment::<E>(&self.comm_weights, &other.comm_weights, r_b),
            tau: fold_scalar(&self.tau, &other.tau, r_b),
        }
    }
}

/// The table of powers of zero: one at the start of both halves, zero elsewhere.
pub open spec fn unit_table(left: int, right: int) -> Seq<int> {
    Seq::new(
        (left + right) as nat,
        |i: int|
            if i == 0 || i == left {
                1int
            } else {
                0int
            },
    )
}

/// The table of powers of zero.
pub fn unit_vec<F: Field>(left: usize, right: usize) -> (r: Vec<F>)
    requires
        1 <= left,
        1 <= right,
        left + right <= usize::MAX,
    ensures
        vals(r@) == unit_table(left as int, right as int),
        r@.len() == left + right,
{
    let mut v: Vec<F> = zeros(left + right);
    proof {
        assert forall|i: int| 0 <= i < left + right implies #[trigger] v@[i].val() == 0 by {
            assert(vals(v@)[i] == 0);
        }
    }
    v.set(0, F::one());
    v.set(left, F::one());
    assert(vals(v@) =~= unit_table(left as int, right as int));
    v
}

impl<E: Engine> FoldedPowerCheckWitness<E> {
    /// The mathematical witness.
    pub open spec fn view(self) -> PcWitness {
        PcWitness { witness: self.witness.model(), weights: self.weights.model() }
    }

    /// The witness for the scalar zero: the table of its powers, which satisfies every constraint,
    /// with zero weights of the dimensions of the split constraint index.
    pub fn default(S: &PowerCheckStructure) -> (r: Self)
        requires
            1 <= S.left,
            1 <= S.right,
            S.left + S.right <= usize::MAX,
            S.left_pc + S.right_pc <= usize::MAX,
        ensures
            r@ == (PcWitness {
                witness: TableModel {
                    data: unit_table(S.left as int, S.right as int),
                    rand: 0,
                    split: S.left as nat,
                },
                weights: TableModel {
                    data: Seq::new((S.left_pc + S.right_pc) as nat, |i: int| 0int),
                    rand: 0,
                    split: S.left_pc as nat,
                },
            }),
    {
        let witness: Vec<E::Scalar> = unit_vec(S.left, S.right);
        let weights: Vec<E::Scalar> = zeros(S.left_pc + S.right_pc);
        FoldedPowerCheckWitness {
            witness: WeightTable::new(witness, E::Scalar::zero(), S.left),
            weights: WeightTable::new(weights, E::Scalar::zero(), S.left_pc),
        }
    }

    /// The fresh witness as a folded one, with weights attached.
    pub fn from_fresh_zc_pc(zc_pc: &PowerCheckWitness<E>, weights: WeightTable<E>) -> (r: Self)
        ensures
            r@ == (PcWitness { witness: zc_pc.powers.model(), weights: weights.model() }),
    {
        FoldedPowerCheckWitness { witness: zc_pc.powers.clone(), weights }
    }

    /// Folds a fresh witness in, with its weights.
    pub fn fold(
        &self,
        w2: &PowerCheckWitness<E>,
        weights_new: &WeightTable<E>,
        r_b: &E::Scalar,
    ) -> (r: Self)
        requires
            self.witness.split() == w2.powers.split(),
            self.weights.split() == weights_new.split(),
        ensures
            r@ == fold_pc_witness(
                E::Scalar::modulus(),
                self@,
                PcWitness { witness: w2.powers.model(), weights: weights_new.model() },
                r_b.val(),
            ),
    {
        FoldedPowerCheckWitness {
            witness: self.witness.fold(&w2.powers, r_b),
            weights: self.weights.fold(weights_new, r_b),
        }
    }

    /// Folds another folded witness in.
    pub fn fold_with(&self, other: &Self, r_b: &E::Scalar) -> (r: Self)
        requires
            self.witness.split() == other.witness.split(),
            self.weights.split() == other.weights.split(),
        ensures
            r@ == fold_pc_witness(E::Scalar::modulus(), self@, other@, r_b.val()),
    {
        FoldedPowerCheckWitness {
            witness: self.witness.fold(&other.witness, r_b),
            weights: self.weights.fold(&other.weights, r_b),
        }
    }
}

impl<E: Engine> Clone for FoldedPowerCheckWitness<E> {
    fn clone(&self) -> (r: Self)
        ensures
            r@ == self@,
    {
        FoldedPowerCheckWitness { witness: self.witness.clone(), weights: self.weights.clone() }
    }
}

impl<E: Engine> AbsorbInRO2Trait<E> for PowerCheckInstance<E> {
    open spec fn elements(&self) -> Seq<int> {
        point_elements(self.comm_powers.coords()).push(self.tau.val())
    }

    fn absorb_in_ro2(&self, ro: &mut PoseidonRO<E::Scalar>) {
        absorb_commitment::<E>(&self.comm_powers, ro);
        ro.absorb(self.tau);
        assert(ro@ =~= old(ro)@ + self.elements());
    }
}

impl<E: Engine> AbsorbInRO2Trait<E> for FoldedPowerCheckInstance<E> {
    open spec fn elements(&self) -> Seq<int> {
        (seq![self.pc_sumcheck_claim.val()] + point_elements(self.comm_witness.coords())
            + point_elements(self.comm_weights.coords())).push(self.tau.val())
    }

    fn absorb_in_ro2(&self, ro: &mut PoseidonRO<E::Scalar>) {
        ro.absorb(self.pc_sumcheck_claim);
        absorb_commitment::<E>(&self.comm_witness, ro);
        absorb_commitment::<E>(&self.comm_weights, ro);
        ro.absorb(self.tau);
        assert(ro@ =~= old(ro)@ + self.elements());
    }
}

/// The instance and the witness of the power check for the powers of `tau`, committed to under the
/// given randomness.
pub fn power_check_with_randomness<E: Engine>(
    tau: &E::Scalar,
    left: usize,
    right: usize,
    ck: &CommitmentKey<E>,
    r: E::Scalar,
) -> (out: (PowerCheckInstance<E>, PowerCheckWitness<E>))
    requires
        left + right <= usize::MAX,
        left + right <= ck.bases().len(),
    ensures
        out.1.powers.model() == (TableModel {
            data: mod_seq(
                E::Scalar::modulus(),
                power_table(tau.val(), left as nat, right as nat),
            ),
            rand: r.val(),
            split: left as nat,
        }),
        out.0.tau == *tau,
        is(
            E::Scalar::modulus(),
            out.0.comm_powers.log(),
            commit_log(ck.bases(), ck.blind(), out.1.powers@, r.val()),
        ),
        out.0.comm_powers.coords() == E::GE::point(out.0.comm_powers.log()),
{
    let powers = WeightTable::from_powers(tau, left, right, r);
    let comm_powers = powers.commit(ck);
    (PowerCheckInstance { comm_powers, tau: *tau }, PowerCheckWitness { powers })
}

/// The instance and the witness of the power check for the powers of `tau`, committed to under
/// fresh randomness.
pub fn generate_power_check_relation<E: Engine>(
    tau: &E::Scalar,
    left: usize,
    right: usize,
    ck: &CommitmentKey<E>,
) -> (out: (PowerCheckInstance<E>, PowerCheckWitness<E>))
    requires
        left + right <= usize::MAX,
        left + right <= ck.bases().len(),
    ensures
        out.1.powers@ == mod_seq(
            E::Scalar::modulus(),
            power_table(tau.val(), left as nat, right as nat),
        ),
        out.1.powers.split() == left,
        out.0.tau == *tau,
        is(
            E::Scalar::modulus(),
            out.0.comm_powers.log(),
            commit_log(ck.bases(), ck.blind(), out.1.powers@, out.1.powers.rand()),
        ),
        out.0.comm_powers.coords() == E::GE::point(out.0.comm_powers.log()),
{
    power_check_with_randomness(tau, left, right, ck, E::Scalar::random())
}

/// The term of constraint `i` in the weighted sum of residuals.
pub open spec fn pc_flat_term(
    left: int,
    wl: Seq<int>,
    wr: Seq<int>,
    e1: Seq<int>,
    e2: Seq<int>,
    tau: int,
    i: int,
) -> int {
    wr[i / left] * wl[i % left] * pc_residual(i, left, e1, e2, tau)
}

/// The sum over the first `n` constraints of the residual at `i` times the weights of row
/// `i / left` and column `i % left`.
pub open spec fn pc_flat_sum(
    left: int,
    wl: Seq<int>,
    wr: Seq<int>,
    e1: Seq<int>,
    e2: Seq<int>,
    tau: int,
    n: int,
) -> int {
    sum(|i: int| pc_flat_term(left, wl, wr, e1, e2, tau, i), 0, n)
}

/// The weighted sum of the residuals of a table, constraint by constraint.
pub fn compute_pc_weighted_sum_bruteforce<F: Field>(
    e1: &[F],
    e2: &[F],
    tau: &F,
    w_left: &[F],
    w_right: &[F],
) -> (r: F)
    requires
        e1@.len() >= 1,
        e1@.len() + e2@.len() <= usize::MAX,
        w_left@.len() == e1@.len(),
        e1@.len() + e2@.len() <= w_left@.len() * w_right@.len(),
    ensures
        is(
            F::modulus(),
            r.val(),
            pc_flat_sum(
                e1@.len() as int,
                vals(w_left@),
                vals(w_right@),
                vals(e1@),
                vals(e2@),
                tau.val(),
                (e1@.len() + e2@.len()) as int,
            ),
        ),
{
    let ghost p = F::modulus();
    let left = e1.len();
    let n: usize = left + e2.len();
    let ghost (wl, wr, a, b) = (vals(w_left@), vals(w_right@), vals(e1@), vals(e2@));
    let mut acc = F::zero();
    let mut i: usize = 0;
    proof {
        lemma_seed_const::<F>(0);
    }
    while i < n
        invariant
            i <= n,
            1 <= left,
            left == e1@.len(),
            left == w_left@.len(),
            n == left + e2@.len(),
            n <= w_left@.len() * w_right@.len(),
            p == F::modulus(),
            p > 0,
            wl == vals(w_left@),
            wr == vals(w_right@),
            a == vals(e1@),
            b == vals(e2@),
            is(p, acc.val(), pc_flat_sum(left as int, wl, wr, a, b, tau.val(), i as int)),
        decreases n - i,
    {
        let residual = pc_residual_at(i, left, e1, e2, *tau);
        let row = i / left;
        let col = i % left;
        proof {
            assert((i as int) / (left as int) < w_right@.len()) by (nonlinear_arith)
                requires
                    i < left * w_right@.len(),
                    left >= 1,
                    i >= 0,
            ;
        }
        let t = w_right[row].mul(w_left[col]).mul(residual);
        proof {
            broadcast use group_is;

            lemma_seed(w_right@[row as int]);
            lemma_seed(w_left@[col as int]);
            let res = pc_residual(i as int, left as int, a, b, tau.val());
            assert(is(p, residual.val(), res));
            assert(is(
                p,
                t.val(),
                (w_right@[row as int].val() * w_left@[col as int].val()) * res,
            ));
        }
        acc = acc.add(t);
        proof {
            broadcast use group_is;

        }
        i += 1;
    }
    acc
}

} // verus!
