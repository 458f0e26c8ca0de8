//! The nested sum-check relation that constraint systems are folded in.
use vstd::prelude::*;
use crate::arith::{
    cong_seq, fadd, group_is, is, lemma_is_self, lemma_mod, lemma_index, lerp, power,
};
use crate::commitment::{commit_log, CommitmentKey};
use crate::errors::NovaError;
use crate::field::{copy_vec, lemma_seed, lemma_seed_const, vals, Field};
use crate::math::{ceil_log2, is_ceil_log2, lemma_split, pow2};
use crate::r1cs::{mat_vec, R1CSInstance, R1CSShape, R1CSWitness, ShapeModel};
use crate::sumcheck::{lemma_nsc_sum_cong, nsc_row, nsc_rows, nsc_sum, nsc_term, NscData};
use crate::traits::{zero_coords, Commitment, Engine, Group};
use crate::weight_table::{fold_seq, fold_slices, fold_table, WeightTable};

verus! {

/// A folded instance: the logarithms of its commitments, its claim and its public part.
#[verifier::ext_equal]
pub struct NscInstance {
    pub comm_w: int,
    pub comm_e: int,
    pub t: int,
    pub u: int,
    pub x: Seq<int>,
}

/// A folded witness: the variables, the weights and their commitment randomness.
#[verifier::ext_equal]
pub struct NscWitness {
    pub w: Seq<int>,
    pub r_w: int,
    pub e: Seq<int>,
    pub r_e: int,
    pub split: nat,
}

/// The vector that the matrices are multiplied with: the witness, the constant, the public input.
pub open spec fn z_vec(w: Seq<int>, u: int, x: Seq<int>) -> Seq<int> {
    w.push(u) + x
}

/// The instance on the line through `u1` at 0 and `u2` at 1, at the point `r`, with a new claim.
pub open spec fn fold_instance(
    p: int,
    u1: NscInstance,
    u2: NscInstance,
    r: int,
    t_out: int,
) -> NscInstance {
    NscInstance {
        comm_w: lerp(u1.comm_w, u2.comm_w, r) % p,
        comm_e: lerp(u1.comm_e, u2.comm_e, r) % p,
        t: t_out,
        u: lerp(u1.u, u2.u, r) % p,
        x: fold_seq(p, u1.x, u2.x, r),
    }
}

/// The witness on the line through `w1` at 0 and `w2` at 1, at the point `r`.
pub open spec fn fold_witness(p: int, w1: NscWitness, w2: NscWitness, r: int) -> NscWitness {
    NscWitness {
        w: fold_seq(p, w1.w, w2.w, r),
        r_w: lerp(w1.r_w, w2.r_w, r) % p,
        e: fold_seq(p, w1.e, w2.e, r),
        r_e: lerp(w1.r_e, w2.r_e, r) % p,
        split: w1.split,
    }
}

/// The data of the sum that an instance and a witness make a claim about.
pub open spec fn claim_data(s: ShapeModel, u: NscInstance, w: NscWitness) -> NscData {
    let z = z_vec(w.w, u.u, u.x);
    NscData {
        e: w.e,
        az: mat_vec(s.a, s.num_cons, z),
        bz: mat_vec(s.b, s.num_cons, z),
        cz: mat_vec(s.c, s.num_cons, z),
    }
}

/// The mathematical structure of the relation: a shape, and the split of its constraint index.
pub struct StructureModel {
    pub shape: ShapeModel,
    pub left: int,
    pub right: int,
}

impl StructureModel {
    /// The split covers the constraints.
    pub open spec fn wf(self) -> bool {
        &&& self.shape.wf()
        &&& self.left >= 1
        &&& self.right >= 1
        &&& self.shape.num_cons == self.left * self.right
    }

    /// The instance and the witness have the lengths that the relation demands.
    pub open spec fn fits(self, u: NscInstance, w: NscWitness) -> bool {
        &&& w.w.len() == self.shape.num_vars
        &&& u.x.len() == self.shape.num_io
        &&& w.e.len() == self.left + self.right
        &&& w.split == self.left
    }

    /// The nested sum over the data of the instance and the witness.
    pub open spec fn claim(self, u: NscInstance, w: NscWitness) -> int {
        nsc_sum(self.left, self.right, claim_data(self.shape, u, w))
    }

    /// The witness satisfies the instance: the claim is the nested sum, and the commitments open
    /// to the witness.
    pub open spec fn satisfied(
        self,
        p: int,
        ck: Seq<int>,
        h: int,
        u: NscInstance,
        w: NscWitness,
    ) -> bool {
        &&& self.fits(u, w)
        &&& is(p, u.t, self.claim(u, w))
        &&& is(p, u.comm_w, commit_log(ck, h, w.w, w.r_w))
        &&& is(p, u.comm_e, commit_log(ck, h, w.e, w.r_e))
    }
}

/// The structure of the relation.
#[derive(Debug, PartialEq, Eq)]
pub struct Structure<E: Engine> {
    S: R1CSShape<E>,
    ell: usize,
    left: usize,
    right: usize,
}

impl<E: Engine> Structure<E> {
    /// The mathematical structure.
    pub closed spec fn view(self) -> StructureModel {
        StructureModel { shape: self.S@, left: self.left as int, right: self.right as int }
    }

    /// The split covers the constraints, and the indices can be counted.
    #[verifier::type_invariant]
    pub open spec fn inv(self) -> bool {
        &&& self@.wf()
        &&& self@.left + self@.right <= usize::MAX
        &&& self@.left * self@.right <= usize::MAX
        &&& self@.shape.cols() <= usize::MAX
    }

    /// The structure of a shape. The constraints are padded to a power of two `2^ell`, and the
    /// constraint index is split into `2^ceil(ell/2)` columns and `2^floor(ell/2)` rows.
    pub fn new(shape: &R1CSShape<E>) -> (r: Self)
        requires
            shape@.num_cons <= usize::MAX / 2 + 1,
        ensures
            exists|ell: nat| #[trigger]
                is_ceil_log2(shape@.num_cons as int, ell) && r@ == (StructureModel {
                    shape: ShapeModel { num_cons: power(2, ell) as nat, ..shape@ },
                    left: power(2, (ell + 1) / 2),
                    right: power(2, ell / 2),
                }),
            r@.wf(),
    {
        let ell = ceil_log2(shape.num_cons());
        proof {
            lemma_split(ell as nat);
            use_type_invariant(shape);
        }
        let left = pow2((ell + 1) / 2);
        let right = pow2(ell / 2);
        let n = pow2(ell);
        proof {
            lemma_sum_le_product(left as int, right as int);
        }
        let S = shape.pad_constraints(n);
        proof {
            use_type_invariant(&S);
            assert(is_ceil_log2(shape@.num_cons as int, ell as nat));
        }
        Structure { S, ell, left, right }
    }

    /// The number of columns of the constraint index.
    pub fn left(&self) -> (r: usize)
        ensures
            r == self@.left,
            r >= 1,
    {
        proof {
            use_type_invariant(self);
        }
        self.left
    }

    /// The number of rows of the constraint index.
    pub fn right(&self) -> (r: usize)
        ensures
            r == self@.right,
            r >= 1,
    {
        proof {
            use_type_invariant(self);
        }
        self.right
    }

    /// The shape, padded.
    pub fn shape(&self) -> (r: &R1CSShape<E>)
        ensures
            r@ == self@.shape,
    {
        &self.S
    }
}

/// A sum of positive integers exceeds their product by one at most.
proof fn lemma_sum_le_product(a: int, b: int)
    requires
        a >= 1,
        b >= 1,
    ensures
        a + b <= a * b + 1,
{
    assert(a + b <= a * b + 1) by (nonlinear_arith)
        requires
            a >= 1,
            b >= 1,
    ;
}

/// The scalar `(1 - r) a + r b`.
pub fn fold_scalar<F: Field>(a: &F, b: &F, r: &F) -> (x: F)
    ensures
        x.val() == lerp(a.val(), b.val(), r.val()) % F::modulus(),
{
    proof {
        broadcast use group_is;

        lemma_seed(*a);
        lemma_seed(*b);
        lemma_seed(*r);
        lemma_seed_const::<F>(1);
        let (x, y, t) = (a.val(), b.val(), r.val());
        assert((1 - t) * x + t * y == x + t * (y - x)) by (nonlinear_arith);
    }
    F::one().sub(*r).mul(*a).add(r.mul(*b))
}

/// The commitment `(1 - r) a + r b`.
pub fn fold_commitment<E: Engine>(a: &E::GE, b: &E::GE, r: &E::Scalar) -> (c: E::GE)
    ensures
        c.log() == lerp(a.log(), b.log(), r.val()) % E::Scalar::modulus(),
        c.coords() == E::GE::point(c.log()),
{
    proof {
        broadcast use group_is;

        lemma_seed(*r);
        lemma_seed_const::<E::Scalar>(1);
        a.lemma_log();
        b.lemma_log();
        lemma_is_self(E::Scalar::modulus(), a.log());
        lemma_is_self(E::Scalar::modulus(), b.log());
        let (x, y, t) = (a.log(), b.log(), r.val());
        assert(x * (1 - t) + y * t == x + t * (y - x)) by (nonlinear_arith);
    }
    let s = E::Scalar::one().sub(*r);
    a.scale(s).add(b.scale(*r))
}

/// The vector `[w, u, x]`.
pub fn concat_z<F: Field>(w: &Vec<F>, u: F, x: &Vec<F>) -> (z: Vec<F>)
    requires
        w@.len() + 1 + x@.len() <= usize::MAX,
    ensures
        vals(z@) == z_vec(vals(w@), u.val(), vals(x@)),
        z@.len() == w@.len() + 1 + x@.len(),
{
    let mut z = copy_vec(w);
    z.push(u);
    let mut i: usize = 0;
    while i < x.len()
        invariant
            i <= x@.len(),
            z@ == w@.push(u) + x@.take(i as int),
        decreases x@.len() - i,
    {
        z.push(x[i]);
        i += 1;
        assert(x@.take(i as int) =~= x@.take(i - 1).push(x@[i - 1]));
    }
    assert(x@.take(x@.len() as int) =~= x@);
    assert(vals(z@) =~= z_vec(vals(w@), u.val(), vals(x@)));
    z
}

/// A vector of zeros.
pub fn zeros<F: Field>(n: usize) -> (r: Vec<F>)
    ensures
        r@.len() == n,
        vals(r@) == Seq::new(n as nat, |i: int| 0int),
{
    let mut out: Vec<F> = Vec::new();
    let mut i: usize = 0;
    while i < n
        invariant
            i <= n,
            out@.len() == i,
            forall|k: int| 0 <= k < i ==> #[trigger] out@[k].val() == 0,
        decreases n - i,
    {
        out.push(F::zero());
        i += 1;
    }
    assert(vals(out@) =~= Seq::new(n as nat, |i: int| 0int));
    out
}

/// A folded instance of the relation.
#[derive(Debug, PartialEq, Eq)]
pub struct FoldedInstance<E: Engine> {
    /// Commitment to the witness.
    pub comm_W: E::GE,
    /// Commitment to the weight table.
    pub comm_E: E::GE,
    /// The claimed value of the nested sum.
    pub T: E::Scalar,
    /// The scalar in the place of the constant one.
    pub u: E::Scalar,
    /// The public input.
    pub X: Vec<E::Scalar>,
}

impl<E: Engine> FoldedInstance<E> {
    /// The mathematical instance.
    pub open spec fn view(self) -> NscInstance {
        NscInstance {
            comm_w: self.comm_W.log(),
            comm_e: self.comm_E.log(),
            t: self.T.val(),
            u: self.u.val(),
            x: vals(self.X@),
        }
    }

    /// The instance that is zero throughout.
    pub fn default(S: &Structure<E>) -> (r: Self)
        ensures
            r@ == (NscInstance {
                comm_w: 0,
                comm_e: 0,
                t: 0,
                u: 0,
                x: Seq::new(S@.shape.num_io, |i: int| 0int),
            }),
            r.placed(),
            zero_coords(r.comm_W.coords()),
            zero_coords(r.comm_E.coords()),
    {
        FoldedInstance {
            comm_W: E::GE::identity(),
            comm_E: E::GE::identity(),
            T: E::Scalar::zero(),
            u: E::Scalar::zero(),
            X: zeros(S.shape().num_io()),
        }
    }

    /// The fresh instance as a folded one: the claim is zero and the constant is one.
    pub fn from_r1cs(U: &R1CSInstance<E>, comm_E: &E::GE) -> (r: Self)
        ensures
            r@ == fresh_instance(*U, comm_E.log()),
            r.comm_W == U.comm_W,
            r.comm_E == *comm_E,
    {
        FoldedInstance {
            comm_W: U.comm_W,
            comm_E: *comm_E,
            T: E::Scalar::zero(),
            u: E::Scalar::one(),
            X: copy_vec(&U.X),
        }
    }

    /// The commitments have the coordinates of their places in the group.
    pub open spec fn placed(self) -> bool {
        &&& self.comm_W.coords() == E::GE::point(self.comm_W.log())
        &&& self.comm_E.coords() == E::GE::point(self.comm_E.log())
    }

    /// Folds a fresh instance in. The public inputs have to be of equal length.
    pub fn fold(
        &self,
        U2: &R1CSInstance<E>,
        comm_E: &Commitment<E>,
        r_b: &E::Scalar,
        T_out: &E::Scalar,
    ) -> (r: Result<Self, NovaError>)
        ensures
            r is Ok <==> self.X@.len() == U2.X@.len(),
            r matches Err(e) ==> e == NovaError::InvalidInputLength,
            r matches Ok(u) ==> u@ == fold_instance(
                E::Scalar::modulus(),
                self@,
                fresh_instance(*U2, comm_E.log()),
                r_b.val(),
                T_out.val(),
            ) && u.placed(),
    {
        if self.X.len() != U2.X.len() {
            return Err(NovaError::InvalidInputLength);
        }
        let other = FoldedInstance::from_r1cs(U2, comm_E);
        Ok(self.fold_with(&other, r_b, T_out))
    }

    /// Folds another folded instance in.
    pub fn fold_with(&self, other: &Self, r_b: &E::Scalar, T_out: &E::Scalar) -> (r: Self)
        ensures
            r@ == fold_instance(
                E::Scalar::modulus(),
                self@,
                other@,
                r_b.val(),
                T_out.val(),
            ),
            r.placed(),
    {
        let X = fold_slices(self.X.as_slice(), other.X.as_slice(), r_b);
        FoldedInstance {
            comm_W: fold_commitment::<E>(&self.comm_W, &other.comm_W, r_b),
            comm_E: fold_commitment::<E>(&self.comm_E, &other.comm_E, r_b),
            T: *T_out,
            u: fold_scalar(&self.u, &other.u, r_b),
            X,
        }
    }
}

impl<E: Engine> Clone for FoldedInstance<E> {
    fn clone(&self) -> (r: Self)
        ensures
            r@ == self@,
            r.comm_W == self.comm_W,
            r.comm_E == self.comm_E,
    {
        FoldedInstance {
            comm_W: self.comm_W,
            comm_E: self.comm_E,
            T: self.T,
            u: self.u,
            X: copy_vec(&self.X),
        }
    }
}

/// A fresh instance read as a folded one.
pub open spec fn fresh_instance<E: Engine>(u: R1CSInstance<E>, comm_e: int) -> NscInstance {
    NscInstance { comm_w: u.comm_W.log(), comm_e, t: 0, u: 1, x: vals(u.X@) }
}

/// A folded witness of the relation.
#[derive(Debug, PartialEq, Eq)]
pub struct FoldedWitness<E: Engine> {
    /// The variables.
    pub W: Vec<E::Scalar>,
    /// The randomness of the commitment to the variables.
    pub r_W: E::Scalar,
    /// The weight table.
    pub E: WeightTable<E>,
}

/// A fresh witness read as a folded one, with a weight table attached.
pub open spec fn fresh_witness<E: Engine>(w: R1CSWitness<E>, e: WeightTable<E>) -> NscWitness {
    NscWitness { w: vals(w.W@), r_w: w.r_W.val(), e: e@, r_e: e.rand(), split: e.split() }
}

impl<E: Engine> FoldedWitness<E> {
    /// The mathematical witness.
    pub open spec fn view(self) -> NscWitness {
        NscWitness {
            w: vals(self.W@),
            r_w: self.r_W.val(),
            e: self.E@,
            r_e: self.E.rand(),
            split: self.E.split(),
        }
    }

    /// The witness that is zero throughout.
    pub fn default(S: &Structure<E>) -> (r: Self)
        ensures
            r@ == (NscWitness {
                w: Seq::new(S@.shape.num_vars, |i: int| 0int),
                r_w: 0,
                e: Seq::new((S@.left + S@.right) as nat, |i: int| 0int),
                r_e: 0,
                split: S@.left as nat,
            }),
    {
        proof {
            use_type_invariant(S);
        }
        let (left, right) = (S.left(), S.right());
        let e: Vec<E::Scalar> = zeros(left + right);
        FoldedWitness {
            W: zeros(S.shape().num_vars()),
            r_W: E::Scalar::zero(),
            E: WeightTable::new(e, E::Scalar::zero(), left),
        }
    }

    /// The fresh witness as a folded one, with a weight table attached.
    pub fn from_r1cs(W: &R1CSWitness<E>, E: WeightTable<E>) -> (r: Self)
        ensures
            r@ == fresh_witness(*W, E),
    {
        FoldedWitness { W: copy_vec(&W.W), r_W: W.r_W, E }
    }

    /// Folds a fresh witness in, with its weight table. The lengths have to be equal.
    pub fn fold(&self, W2: &R1CSWitness<E>, E2: &WeightTable<E>, r_b: &E::Scalar) -> (r: Result<
        Self,
        NovaError,
    >)
        requires
            self.E.split() == E2.split(),
        ensures
            r is Ok <==> self.W@.len() == W2.W@.len() && self.E@.len() == E2@.len(),
            r matches Err(e) ==> e == NovaError::InvalidWitnessLength,
            r matches Ok(w) ==> w@ == fold_witness(
                E::Scalar::modulus(),
                self@,
                fresh_witness(*W2, *E2),
                r_b.val(),
            ),
    {
        if self.W.len() != W2.W.len() || self.E.len() != E2.len() {
            return Err(NovaError::InvalidWitnessLength);
        }
        let other = FoldedWitness::from_r1cs(W2, E2.clone());
        let folded = self.E.fold(E2, r_b);
        assert(folded.model() == fold_table(
            E::Scalar::modulus(),
            self.E.model(),
            E2.model(),
            r_b.val(),
        ));
        Ok(self.fold_with(&other, folded, r_b))
    }

    /// Folds another folded witness in, whose weight table was folded before.
    pub fn fold_with(&self, other: &Self, E: WeightTable<E>, r_b: &E::Scalar) -> (r: Self)
        ensures
            r@ == (NscWitness {
                e: E@,
                r_e: E.rand(),
                split: E.split(),
                ..fold_witness(E::Scalar::modulus(), self@, other@, r_b.val())
            }),
    {
        let W = fold_slices(self.W.as_slice(), other.W.as_slice(), r_b);
        FoldedWitness { W, r_W: fold_scalar(&self.r_W, &other.r_W, r_b), E }
    }
}

impl<E: Engine> Clone for FoldedWitness<E> {
    fn clone(&self) -> (r: Self)
        ensures
            r@ == self@,
    {
        FoldedWitness { W: copy_vec(&self.W), r_W: self.r_W, E: self.E.clone() }
    }
}

/// The nested sum over a weight table `[e1 || e2]`, term by term.
pub fn nested_sum<F: Field>(
    e1: &[F],
    e2: &[F],
    Az: &[F],
    Bz: &[F],
    Cz: &[F],
) -> (r: F)
    requires
        Az@.len() == e1@.len() * e2@.len(),
        Bz@.len() == Az@.len(),
        Cz@.len() == Az@.len(),
    ensures
        is(
            F::modulus(),
            r.val(),
            nsc_sum(
                e1@.len() as int,
                e2@.len() as int,
                (NscData {
                    e: vals(e1@) + vals(e2@),
                    az: vals(Az@),
                    bz: vals(Bz@),
                    cz: vals(Cz@),
                }),
            ),
        ),
{
    let ghost p = F::modulus();
    let ghost d = NscData {
        e: vals(e1@) + vals(e2@),
        az: vals(Az@),
        bz: vals(Bz@),
        cz: vals(Cz@),
    };
    let (left, right) = (e1.len(), e2.len());
    let size = Az.len();
    let mut acc = F::zero();
    let mut i: usize = 0;
    proof {
        lemma_seed_const::<F>(0);
    }
    while i < right
        invariant
            i <= right,
            left == e1@.len(),
            right == e2@.len(),
            size == left * right,
            Az@.len() == size,
            Bz@.len() == size,
            Cz@.len() == size,
            p == F::modulus(),
            p > 0,
            d == (NscData {
                e: vals(e1@) + vals(e2@),
                az: vals(Az@),
                bz: vals(Bz@),
                cz: vals(Cz@),
            }),
            is(p, acc.val(), nsc_rows(left as int, d, 0, i as int)),
        decreases right - i,
    {
        let ghost done = nsc_rows(left as int, d, 0, i as int);
        let w = e2[i];
        let mut j: usize = 0;
        proof {
            assert(w.val() * 0 == 0) by (nonlinear_arith);
        }
        while j < left
            invariant
                i < right,
                j <= left,
                left == e1@.len(),
                right == e2@.len(),
                size == left * right,
                Az@.len() == size,
                Bz@.len() == size,
                Cz@.len() == size,
                p == F::modulus(),
                p > 0,
                w == e2@[i as int],
                d == (NscData {
                    e: vals(e1@) + vals(e2@),
                    az: vals(Az@),
                    bz: vals(Bz@),
                    cz: vals(Cz@),
                }),
                is(
                    p,
                    acc.val(),
                    done + w.val() * nsc_row(left as int, d, i as int, j as int),
                ),
            decreases left - j,
        {
            proof {
                lemma_index(left as int, right as int, i as int, j as int);
            }
            let k: usize = i * left + j;
            let (v, a, b, c) = (e1[j], Az[k], Bz[k], Cz[k]);
            let t = w.mul(v).mul(a.mul(b).sub(c));
            proof {
                broadcast use group_is;

                lemma_seed(w);
                lemma_seed(v);
                lemma_seed(a);
                lemma_seed(b);
                lemma_seed(c);
                let x = a.val() * b.val() - c.val();
                assert(is(p, t.val(), (w.val() * v.val()) * x));
                let (wv, vv, s) = (
                    w.val(),
                    v.val(),
                    nsc_row(left as int, d, i as int, j as int),
                );
                assert(wv * s + (wv * vv) * x == wv * (s + vv * x)) by (nonlinear_arith);
                assert(d.e[j as int] == vv);
                assert(nsc_row(left as int, d, i as int, j + 1) == s + nsc_term(
                    left as int,
                    d,
                    i as int,
                    j as int,
                ));
                assert(is(
                    p,
                    fadd(p, acc.val(), t.val()),
                    (done + wv * s) + (wv * vv) * x,
                ));
            }
            acc = acc.add(t);
            j += 1;
        }
        proof {
            assert(d.e[left + i] == w.val());
        }
        i += 1;
    }
    acc
}

/// The products that stand in a claim, as they are computed, are congruent to the claim's data.
pub proof fn lemma_claim_data<E: Engine>(
    s: ShapeModel,
    u: NscInstance,
    w: NscWitness,
    abc: (Vec<E::Scalar>, Vec<E::Scalar>, Vec<E::Scalar>),
)
    requires
        ({
            let p = E::Scalar::modulus();
            let n = s.num_cons;
            let z = z_vec(w.w, u.u, u.x);
            &&& abc.0@.len() == n
            &&& abc.1@.len() == n
            &&& abc.2@.len() == n
            &&& forall|i: int| 0 <= i < n ==> is(
                p,
                #[trigger] abc.0@[i].val(),
                mat_vec(s.a, n, z)[i],
            )
            &&& forall|i: int| 0 <= i < n ==> is(
                p,
                #[trigger] abc.1@[i].val(),
                mat_vec(s.b, n, z)[i],
            )
            &&& forall|i: int| 0 <= i < n ==> is(
                p,
                #[trigger] abc.2@[i].val(),
                mat_vec(s.c, n, z)[i],
            )
        }),
    ensures
        cong_seq(E::Scalar::modulus(), vals(abc.0@), claim_data(s, u, w).az),
        cong_seq(E::Scalar::modulus(), vals(abc.1@), claim_data(s, u, w).bz),
        cong_seq(E::Scalar::modulus(), vals(abc.2@), claim_data(s, u, w).cz),
{
    let p = E::Scalar::modulus();
    E::Scalar::lemma_modulus();
    let d = claim_data(s, u, w);
    assert forall|i: int| 0 <= i < s.num_cons implies #[trigger] vals(abc.0@)[i] % p == d.az[i]
        % p by {
        assert(is(p, abc.0@[i].val(), d.az[i]));
        lemma_mod(p, d.az[i]);
    }
    assert forall|i: int| 0 <= i < s.num_cons implies #[trigger] vals(abc.1@)[i] % p == d.bz[i]
        % p by {
        assert(is(p, abc.1@[i].val(), d.bz[i]));
        lemma_mod(p, d.bz[i]);
    }
    assert forall|i: int| 0 <= i < s.num_cons implies #[trigger] vals(abc.2@)[i] % p == d.cz[i]
        % p by {
        assert(is(p, abc.2@[i].val(), d.cz[i]));
        lemma_mod(p, d.cz[i]);
    }
}

impl<E: Engine> Structure<E> {
    /// The nested sum over the data of the instance and the witness. A witness and a public input
    /// that do not fit the shape are refused.
    pub fn claim(&self, U: &FoldedInstance<E>, W: &FoldedWitness<E>) -> (r: Result<
        E::Scalar,
        NovaError,
    >)
        requires
            W.W@.len() + 1 + U.X@.len() <= usize::MAX,
            W@.e.len() == self@.left + self@.right,
            W@.split == self@.left,
        ensures
            r is Ok <==> W@.w.len() + 1 + U@.x.len() == self@.shape.cols(),
            r matches Err(e) ==> e == NovaError::InvalidWitnessLength,
            r matches Ok(t) ==> is(E::Scalar::modulus(), t.val(), self@.claim(U@, W@)),
    {
        proof {
            use_type_invariant(self);
        }
        let z = concat_z(&W.W, U.u, &U.X);
        match self.S.multiply_vec(z.as_slice()) {
            Ok(abc) => {
                let (e1, e2) = (W.E.e1(), W.E.e2());
                let t = nested_sum(
                    e1,
                    e2,
                    abc.0.as_slice(),
                    abc.1.as_slice(),
                    abc.2.as_slice(),
                );
                proof {
                    let p = E::Scalar::modulus();
                    E::Scalar::lemma_modulus();
                    lemma_claim_data::<E>(self@.shape, U@, W@, abc);
                    assert(vals(e1@) + vals(e2@) =~= W@.e);
                    let d = NscData {
                        e: W@.e,
                        az: vals(abc.0@),
                        bz: vals(abc.1@),
                        cz: vals(abc.2@),
                    };
                    lemma_nsc_sum_cong(
                        p,
                        self@.left,
                        self@.right,
                        d,
                        claim_data(self@.shape, U@, W@),
                    );
                }
                Ok(t)
            },
            Err(e) => Err(e),
        }
    }

    /// Checks that the witness satisfies the instance: the lengths fit, the claim is the nested
    /// sum, and the commitments open to the witness.
    pub fn is_sat(
        &self,
        ck: &CommitmentKey<E>,
        U: &FoldedInstance<E>,
        W: &FoldedWitness<E>,
    ) -> (r: Result<(), NovaError>)
        requires
            self@.shape.num_vars <= ck.bases().len(),
            self@.left + self@.right <= ck.bases().len(),
        ensures
            r is Ok <==> self@.satisfied(
                E::Scalar::modulus(),
                ck.bases(),
                ck.blind(),
                U@,
                W@,
            ),
            r matches Err(e) ==> if self@.fits(U@, W@) {
                e is UnSat
            } else {
                e == NovaError::InvalidWitnessLength
            },
    {
        proof {
            use_type_invariant(self);
        }
        if W.W.len() != self.S.num_vars() || U.X.len() != self.S.num_io() || W.E.left()
            != self.left || W.E.right() != self.right {
            return Err(NovaError::InvalidWitnessLength);
        }
        match self.claim(U, W) {
            Ok(t) => {
                if !t.equals(U.T) {
                    return Err(NovaError::UnSat { reason: "claim mismatch".to_string() });
                }
            },
            Err(e) => {
                return Err(e);
            },
        }
        let comm_W = ck.commit(W.W.as_slice(), &W.r_W);
        let comm_E = W.E.commit(ck);
        if !comm_W.equals(U.comm_W) || !comm_E.equals(U.comm_E) {
            return Err(NovaError::UnSat { reason: "commitment mismatch".to_string() });
        }
        Ok(())
    }
}

} // verus!
