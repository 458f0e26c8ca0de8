//! Rank-one constraint systems.
use vstd::prelude::*;
use crate::arith::{
    fmul, group_is, is, lemma_cong_mul, lemma_sum_cong, lemma_sum_ext, lemma_sum_linear,
    lerp_seq, sum,
};
use crate::errors::NovaError;
use crate::field::{lemma_seed, lemma_seed_const, vals, Field};
use crate::traits::{Engine, Group};

verus! {

/// A matrix as the sequence of its entries: row, column and value.
pub type MatrixModel = Seq<(int, int, int)>;

/// What entry `k` contributes to row `i` of the product with `z`.
pub open spec fn entry_term(m: MatrixModel, z: Seq<int>, i: int, k: int) -> int {
    if m[k].0 == i {
        m[k].2 * z[m[k].1]
    } else {
        0
    }
}

/// Row `i` of the product of the first `n` entries with the vector `z`.
pub open spec fn mat_row(m: MatrixModel, z: Seq<int>, i: int, n: int) -> int {
    sum(|k: int| entry_term(m, z, i, k), 0, n)
}

/// The product of the matrix with the vector `z`.
pub open spec fn mat_vec(m: MatrixModel, rows: nat, z: Seq<int>) -> Seq<int> {
    Seq::new(rows, |i: int| mat_row(m, z, i, m.len() as int))
}

/// All entries lie in a `rows x cols` matrix.
pub open spec fn in_bounds(m: MatrixModel, rows: int, cols: int) -> bool {
    forall|k: int|
        0 <= k < m.len() ==> 0 <= #[trigger] m[k].0 < rows && 0 <= m[k].1 < cols
}

/// Multiplication by a matrix is linear.
pub proof fn lemma_mat_vec_linear(m: MatrixModel, rows: nat, cols: int, z1: Seq<int>, z2: Seq<int>, t: int)
    requires
        in_bounds(m, rows as int, cols),
        z1.len() == cols,
        z2.len() == cols,
    ensures
        mat_vec(m, rows, lerp_seq(z1, z2, t)) == lerp_seq(
            mat_vec(m, rows, z1),
            mat_vec(m, rows, z2),
            t,
        ),
{
    let z = lerp_seq(z1, z2, t);
    let n = m.len() as int;
    assert forall|i: int| 0 <= i < rows implies mat_vec(m, rows, z)[i] == lerp_seq(
        mat_vec(m, rows, z1),
        mat_vec(m, rows, z2),
        t,
    )[i] by {
        let f = |k: int| entry_term(m, z1, i, k);
        let g = |k: int| entry_term(m, z2, i, k);
        let fl = |k: int| entry_term(m, z, i, k);
        let gl = |k: int| (1 - t) * f(k) + t * g(k);
        assert forall|k: int| 0 <= k < n implies #[trigger] fl(k) == gl(k) by {
            assert(0 <= m[k].0 < rows && 0 <= m[k].1 < cols);
            let (a, b, v) = (z1[m[k].1], z2[m[k].1], m[k].2);
            assert(v * (a + t * (b - a)) == (1 - t) * (v * a) + t * (v * b)) by (nonlinear_arith);
            assert((1 - t) * 0 + t * 0 == 0) by (nonlinear_arith);
        }
        lemma_sum_ext(fl, gl, 0, n);
        lemma_sum_linear(f, g, 1 - t, t, 0, n);
        let (a, b) = (sum(f, 0, n), sum(g, 0, n));
        assert((1 - t) * a + t * b == a + t * (b - a)) by (nonlinear_arith);
    }
    assert(mat_vec(m, rows, z) =~= lerp_seq(mat_vec(m, rows, z1), mat_vec(m, rows, z2), t));
}

/// Multiplication by a matrix respects congruence.
pub proof fn lemma_mat_vec_cong(p: int, m: MatrixModel, rows: nat, cols: int, z1: Seq<int>, z2: Seq<int>)
    requires
        p > 0,
        in_bounds(m, rows as int, cols),
        z1.len() == cols,
        z2.len() == cols,
        forall|i: int| 0 <= i < cols ==> #[trigger] z1[i] % p == z2[i] % p,
    ensures
        forall|i: int| 0 <= i < rows ==> #[trigger] mat_vec(m, rows, z1)[i] % p == mat_vec(
            m,
            rows,
            z2,
        )[i] % p,
{
    let n = m.len() as int;
    assert forall|i: int| 0 <= i < rows implies #[trigger] mat_vec(m, rows, z1)[i] % p == mat_vec(
        m,
        rows,
        z2,
    )[i] % p by {
        let f = |k: int| entry_term(m, z1, i, k);
        let g = |k: int| entry_term(m, z2, i, k);
        assert forall|k: int| 0 <= k < n implies #[trigger] f(k) % p == g(k) % p by {
            assert(0 <= m[k].0 < rows && 0 <= m[k].1 < cols);
            assert(z1[m[k].1] % p == z2[m[k].1] % p);
            lemma_cong_mul(p, m[k].2, z1[m[k].1], m[k].2, z2[m[k].1]);
        }
        lemma_sum_cong(p, f, g, 0, n);
    }
}

/// A sparse matrix.
#[derive(Clone, Debug, PartialEq, Eq)]
pub struct SparseMatrix<F> {
    entries: Vec<(usize, usize, F)>,
}

impl<F: Field> SparseMatrix<F> {
    /// The entries, with representatives for values.
    pub closed spec fn view(self) -> MatrixModel {
        Seq::new(
            self.entries@.len(),
            |k: int|
                (
                    self.entries@[k].0 as int,
                    self.entries@[k].1 as int,
                    self.entries@[k].2.val(),
                ),
        )
    }

    /// The matrix with the given entries: row, column and value.
    pub fn new(entries: &[(usize, usize, F)]) -> (r: Self)
        ensures
            r@ == Seq::new(
                entries@.len(),
                |k: int| (entries@[k].0 as int, entries@[k].1 as int, entries@[k].2.val()),
            ),
    {
        let mut out: Vec<(usize, usize, F)> = Vec::new();
        let mut i: usize = 0;
        while i < entries.len()
            invariant
                i <= entries@.len(),
                out@ == entries@.take(i as int),
            decreases entries@.len() - i,
        {
            out.push(entries[i]);
            i += 1;
            assert(entries@.take(i as int) =~= entries@.take(i - 1).push(entries@[i - 1]));
        }
        assert(entries@.take(entries@.len() as int) =~= entries@);
        SparseMatrix { entries: out }
    }

    /// Whether all entries lie in a `rows x cols` matrix.
    fn fits(&self, rows: usize, cols: usize) -> (r: bool)
        ensures
            r == in_bounds(self@, rows as int, cols as int),
    {
        let mut i: usize = 0;
        while i < self.entries.len()
            invariant
                i <= self.entries@.len(),
                forall|k: int|
                    0 <= k < i ==> 0 <= #[trigger] self@[k].0 < rows && 0 <= self@[k].1 < cols,
            decreases self.entries@.len() - i,
        {
            let e = self.entries[i];
            if e.0 >= rows || e.1 >= cols {
                assert(self@[i as int] == (e.0 as int, e.1 as int, e.2.val()));
                assert(!in_bounds(self@, rows as int, cols as int)) by {
                    let m = self@;
                    let k = i as int;
                    assert(k < m.len());
                    if in_bounds(m, rows as int, cols as int) {
                        assert(0 <= m[k].0 < rows && 0 <= m[k].1 < cols);
                    }
                }
                return false;
            }
            i += 1;
        }
        true
    }

    /// The entries again.
    fn duplicate(&self) -> (r: Self)
        ensures
            r@ == self@,
    {
        let r = Self::new(self.entries.as_slice());
        assert(r@ =~= self@);
        r
    }

    /// The product with a vector.
    fn multiply(&self, rows: usize, z: &[F]) -> (out: Vec<F>)
        requires
            in_bounds(self@, rows as int, z@.len() as int),
        ensures
            out@.len() == rows,
            forall|i: int| 0 <= i < rows ==> is(
                F::modulus(),
                #[trigger] out@[i].val(),
                mat_vec(self@, rows as nat, vals(z@))[i],
            ),
    {
        let ghost p = F::modulus();
        let ghost m = self@;
        let ghost zv = vals(z@);
        let mut out: Vec<F> = Vec::new();
        let mut i: usize = 0;
        proof {
            lemma_seed_const::<F>(0);
        }
        while i < rows
            invariant
                i <= rows,
                out@.len() == i,
                forall|k: int| 0 <= k < i ==> #[trigger] out@[k].val() == 0,
            decreases rows - i,
        {
            out.push(F::zero());
            i += 1;
        }
        let mut k: usize = 0;
        while k < self.entries.len()
            invariant
                k <= self.entries@.len(),
                m == self@,
                zv == vals(z@),
                p == F::modulus(),
                p > 0,
                in_bounds(m, rows as int, z@.len() as int),
                out@.len() == rows,
                forall|i: int| 0 <= i < rows ==> is(
                    p,
                    #[trigger] out@[i].val(),
                    mat_row(m, zv, i, k as int),
                ),
            decreases self.entries@.len() - k,
        {
            let e = self.entries[k];
            let ghost before = out@;
            proof {
                assert(m[k as int] == (e.0 as int, e.1 as int, e.2.val()));
                assert(0 <= m[k as int].0 < rows && 0 <= m[k as int].1 < z@.len());
            }
            let x = out[e.0].add(e.2.mul(z[e.1]));
            out.set(e.0, x);
            proof {
                broadcast use group_is;

                lemma_seed(e.2);
                lemma_seed(z@[e.1 as int]);
                assert(is(p, before[e.0 as int].val(), mat_row(m, zv, e.0 as int, k as int)));
                assert(is(
                    p,
                    fmul(p, e.2.val(), z@[e.1 as int].val()),
                    e.2.val() * z@[e.1 as int].val(),
                ));
                assert forall|i: int| 0 <= i < rows implies is(
                    p,
                    #[trigger] out@[i].val(),
                    mat_row(m, zv, i, k + 1),
                ) by {
                    assert(is(p, before[i].val(), mat_row(m, zv, i, k as int)));
                    assert(mat_row(m, zv, i, k + 1) == mat_row(m, zv, i, k as int) + entry_term(
                        m,
                        zv,
                        i,
                        k as int,
                    ));
                }
            }
            k += 1;
        }
        out
    }
}

/// The shape of a constraint system: its size and its three matrices.
pub struct ShapeModel {
    pub num_cons: nat,
    pub num_vars: nat,
    pub num_io: nat,
    pub a: MatrixModel,
    pub b: MatrixModel,
    pub c: MatrixModel,
}

impl ShapeModel {
    /// The number of columns: the witness, the constant and the public input.
    pub open spec fn cols(self) -> int {
        (self.num_vars + 1 + self.num_io) as int
    }

    /// The entries lie in the matrices.
    pub open spec fn wf(self) -> bool {
        &&& in_bounds(self.a, self.num_cons as int, self.cols())
        &&& in_bounds(self.b, self.num_cons as int, self.cols())
        &&& in_bounds(self.c, self.num_cons as int, self.cols())
    }
}

/// The shape of a constraint system.
#[derive(Debug, PartialEq, Eq)]
pub struct R1CSShape<E: Engine> {
    num_cons: usize,
    num_vars: usize,
    num_io: usize,
    A: SparseMatrix<E::Scalar>,
    B: SparseMatrix<E::Scalar>,
    C: SparseMatrix<E::Scalar>,
}

impl<E: Engine> R1CSShape<E> {
    /// The mathematical shape.
    pub closed spec fn view(self) -> ShapeModel {
        ShapeModel {
            num_cons: self.num_cons as nat,
            num_vars: self.num_vars as nat,
            num_io: self.num_io as nat,
            a: self.A@,
            b: self.B@,
            c: self.C@,
        }
    }

    /// The entries lie in the matrices, and the columns can be counted.
    #[verifier::type_invariant]
    pub open spec fn inv(self) -> bool {
        self@.wf() && self@.cols() <= usize::MAX
    }

    /// A shape from its parts. Entries outside the matrices are refused.
    pub fn new(
        num_cons: usize,
        num_vars: usize,
        num_io: usize,
        A: SparseMatrix<E::Scalar>,
        B: SparseMatrix<E::Scalar>,
        C: SparseMatrix<E::Scalar>,
    ) -> (r: Result<Self, NovaError>)
        requires
            num_vars + 1 + num_io <= usize::MAX,
        ensures
            ({
                let m = ShapeModel {
                    num_cons: num_cons as nat,
                    num_vars: num_vars as nat,
                    num_io: num_io as nat,
                    a: A@,
                    b: B@,
                    c: C@,
                };
                match r {
                    Ok(s) => m.wf() && s@ == m,
                    Err(e) => !m.wf() && e == NovaError::InvalidIndex,
                }
            }),
    {
        let cols = num_vars + 1 + num_io;
        if A.fits(num_cons, cols) && B.fits(num_cons, cols) && C.fits(num_cons, cols) {
            Ok(R1CSShape { num_cons, num_vars, num_io, A, B, C })
        } else {
            Err(NovaError::InvalidIndex)
        }
    }

    /// The number of constraints.
    pub fn num_cons(&self) -> (r: usize)
        ensures
            r == self@.num_cons,
    {
        self.num_cons
    }

    /// The number of witness variables.
    pub fn num_vars(&self) -> (r: usize)
        ensures
            r == self@.num_vars,
    {
        self.num_vars
    }

    /// The number of public inputs.
    pub fn num_io(&self) -> (r: usize)
        ensures
            r == self@.num_io,
    {
        self.num_io
    }

    /// The same constraints, followed by constraints without entries up to `num_cons`.
    pub fn pad_constraints(&self, num_cons: usize) -> (r: Self)
        requires
            self@.num_cons <= num_cons,
        ensures
            r@ == (ShapeModel { num_cons: num_cons as nat, ..self@ }),
    {
        proof {
            use_type_invariant(self);
        }
        let (A, B, C) = (self.A.duplicate(), self.B.duplicate(), self.C.duplicate());
        R1CSShape { num_cons, num_vars: self.num_vars, num_io: self.num_io, A, B, C }
    }

    /// The products of the three matrices with `z`, the witness, the constant and the public input
    /// in a row. A vector of another length is refused.
    pub fn multiply_vec(&self, z: &[E::Scalar]) -> (r: Result<
        (Vec<E::Scalar>, Vec<E::Scalar>, Vec<E::Scalar>),
        NovaError,
    >)
        ensures
            r is Ok <==> z@.len() == self@.cols(),
            r matches Err(e) ==> e == NovaError::InvalidWitnessLength,
            r matches Ok(abc) ==> {
                let p = E::Scalar::modulus();
                let n = self@.num_cons;
                &&& abc.0@.len() == n
                &&& abc.1@.len() == n
                &&& abc.2@.len() == n
                &&& forall|i: int| 0 <= i < n ==> is(
                    p,
                    #[trigger] abc.0@[i].val(),
                    mat_vec(self@.a, n, vals(z@))[i],
                )
                &&& forall|i: int| 0 <= i < n ==> is(
                    p,
                    #[trigger] abc.1@[i].val(),
                    mat_vec(self@.b, n, vals(z@))[i],
                )
                &&& forall|i: int| 0 <= i < n ==> is(
                    p,
                    #[trigger] abc.2@[i].val(),
                    mat_vec(self@.c, n, vals(z@))[i],
                )
            },
    {
        proof {
            use_type_invariant(self);
        }
        if z.len() != self.num_vars + 1 + self.num_io {
            return Err(NovaError::InvalidWitnessLength);
        }
        let az = self.A.multiply(self.num_cons, z);
        let bz = self.B.multiply(self.num_cons, z);
        let cz = self.C.multiply(self.num_cons, z);
        Ok((az, bz, cz))
    }
}

/// A fresh instance: a commitment to the witness, and the public input.
#[derive(Clone, Debug, PartialEq, Eq)]
pub struct R1CSInstance<E: Engine> {
    pub comm_W: E::GE,
    pub X: Vec<E::Scalar>,
}

/// A fresh witness, with the randomness of its commitment.
#[derive(Clone, Debug, PartialEq, Eq)]
pub struct R1CSWitness<E: Engine> {
    pub W: Vec<E::Scalar>,
    pub r_W: E::Scalar,
}

} // verus!
