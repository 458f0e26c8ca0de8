//! What holds of every product with the matrices of a shape.
use vstd::prelude::*;
use crate::arith::{
    lemma_cong_add, lemma_cong_mul, lemma_mod, lemma_sum_cong, lemma_sum_ext, lemma_sum_linear,
    sum,
};
use crate::errors::NovaError;
use crate::field::{vals, Field};
use crate::r1cs::{entry_term, in_bounds, mat_vec, MatrixModel, R1CSShape, SparseMatrix};
use crate::traits::Engine;

verus! {

/// The value of entry `k`, if it stands in row `i` and column `j`.
pub open spec fn cell_term(m: MatrixModel, i: int, j: int, k: int) -> int {
    if m[k].0 == i && m[k].1 == j {
        m[k].2
    } else {
        0
    }
}

/// The values of the entries of the matrix in row `i` and column `j`, added up.
pub open spec fn cell(m: MatrixModel, i: int, j: int) -> int {
    sum(|k: int| cell_term(m, i, j, k), 0, m.len() as int)
}

/// The matrix `n` is the matrix `m` with one more entry.
pub open spec fn has_one_more(m: MatrixModel, n: MatrixModel, e: (int, int, int)) -> bool {
    &&& n.len() == m.len() + 1
    &&& forall|k: int| 0 <= k < m.len() ==> #[trigger] n[k] == m[k]
    &&& n[m.len() as int] == e
}

/// With one more entry in row `e.0`, the product differs by its value times what stands in its
/// column, in its row, and nowhere else.
proof fn lemma_one_more(
    m: MatrixModel,
    n: MatrixModel,
    e: (int, int, int),
    rows: nat,
    z: Seq<int>,
    i: int,
)
    requires
        has_one_more(m, n, e),
        0 <= i < rows,
    ensures
        mat_vec(n, rows, z)[i] == mat_vec(m, rows, z)[i] + if i == e.0 {
            e.2 * z[e.1]
        } else {
            0
        },
{
    let f = |k: int| entry_term(m, z, i, k);
    let g = |k: int| entry_term(n, z, i, k);
    let len = m.len() as int;
    assert forall|k: int| 0 <= k < len implies #[trigger] f(k) == g(k) by {
        assert(n[k] == m[k]);
    }
    lemma_sum_ext(f, g, 0, len);
    assert(mat_vec(m, rows, z)[i] == sum(f, 0, len));
    assert(mat_vec(n, rows, z)[i] == sum(g, 0, len + 1));
    assert(sum(g, 0, len + 1) == sum(g, 0, len) + g(len));
}

/// The same in the field.
proof fn lemma_one_more_in_field(
    p: int,
    m: MatrixModel,
    n: MatrixModel,
    e: (int, int, int),
    rows: nat,
    z: Seq<int>,
    i: int,
)
    requires
        p > 0,
        has_one_more(m, n, e),
        0 <= i < rows,
    ensures
        mat_vec(n, rows, z)[i] % p == (mat_vec(m, rows, z)[i] % p + if i == e.0 {
            e.2 * z[e.1]
        } else {
            0
        }) % p,
{
    lemma_one_more(m, n, e, rows, z, i);
    let a = mat_vec(m, rows, z)[i];
    lemma_mod(p, a);
    let d = if i == e.0 {
        e.2 * z[e.1]
    } else {
        0
    };
    lemma_cong_add(p, a, d, a % p, d);
}

/// A matrix without entries has the product zero.
pub proof fn law_no_entries_give_zero<E: Engine>(
    s: &R1CSShape<E>,
    z: &[E::Scalar],
    out: (Vec<E::Scalar>, Vec<E::Scalar>, Vec<E::Scalar>),
    i: int,
)
    requires
        call_ensures(R1CSShape::<E>::multiply_vec, (s, z), Ok(out)),
        0 <= i < s@.num_cons,
    ensures
        s@.a.len() == 0 ==> out.0@[i].val() == 0,
        s@.b.len() == 0 ==> out.1@[i].val() == 0,
        s@.c.len() == 0 ==> out.2@[i].val() == 0,
{
    E::Scalar::lemma_modulus();
    vstd::arithmetic::div_mod::lemma_small_mod(0, E::Scalar::modulus() as nat);
    assert(out.0@[i].val() == mat_vec(s@.a, s@.num_cons, vals(z@))[i] % E::Scalar::modulus());
    assert(out.1@[i].val() == mat_vec(s@.b, s@.num_cons, vals(z@))[i] % E::Scalar::modulus());
    assert(out.2@[i].val() == mat_vec(s@.c, s@.num_cons, vals(z@))[i] % E::Scalar::modulus());
}

/// Where one shape has an entry more than another at the end of a matrix, the products with a
/// vector differ by the value of the entry times what stands in its column, in its row, and nowhere
/// else.
pub proof fn law_one_more_entry<E: Engine>(
    s: &R1CSShape<E>,
    t: &R1CSShape<E>,
    z: &[E::Scalar],
    out: (Vec<E::Scalar>, Vec<E::Scalar>, Vec<E::Scalar>),
    more: (Vec<E::Scalar>, Vec<E::Scalar>, Vec<E::Scalar>),
    e: (int, int, int),
    i: int,
)
    requires
        call_ensures(R1CSShape::<E>::multiply_vec, (s, z), Ok(out)),
        call_ensures(R1CSShape::<E>::multiply_vec, (t, z), Ok(more)),
        s@.num_cons == t@.num_cons,
        0 <= i < s@.num_cons,
        0 <= e.1 < z@.len(),
    ensures
        ({
            let p = E::Scalar::modulus();
            let d = if i == e.0 {
                e.2 * z@[e.1].val()
            } else {
                0
            };
            &&& has_one_more(s@.a, t@.a, e) ==> more.0@[i].val() == (out.0@[i].val() + d) % p
            &&& has_one_more(s@.b, t@.b, e) ==> more.1@[i].val() == (out.1@[i].val() + d) % p
            &&& has_one_more(s@.c, t@.c, e) ==> more.2@[i].val() == (out.2@[i].val() + d) % p
        }),
{
    let p = E::Scalar::modulus();
    let (n, v) = (s@.num_cons, vals(z@));
    E::Scalar::lemma_modulus();
    assert(v[e.1] == z@[e.1].val());
    assert(out.0@[i].val() == mat_vec(s@.a, n, v)[i] % p);
    assert(out.1@[i].val() == mat_vec(s@.b, n, v)[i] % p);
    assert(out.2@[i].val() == mat_vec(s@.c, n, v)[i] % p);
    assert(more.0@[i].val() == mat_vec(t@.a, n, v)[i] % p);
    assert(more.1@[i].val() == mat_vec(t@.b, n, v)[i] % p);
    assert(more.2@[i].val() == mat_vec(t@.c, n, v)[i] % p);
    if has_one_more(s@.a, t@.a, e) {
        lemma_one_more_in_field(p, s@.a, t@.a, e, n, v, i);
    }
    if has_one_more(s@.b, t@.b, e) {
        lemma_one_more_in_field(p, s@.b, t@.b, e, n, v, i);
    }
    if has_one_more(s@.c, t@.c, e) {
        lemma_one_more_in_field(p, s@.c, t@.c, e, n, v, i);
    }
}

/// The vector is one at place `j`, and zero elsewhere.
pub open spec fn is_column<F: Field>(z: Seq<F>, j: int) -> bool {
    &&& 0 <= j < z.len()
    &&& forall|k: int|
        0 <= k < z.len() ==> (#[trigger] z[k]).val() == if k == j {
            1int
        } else {
            0int
        }
}

/// A row of a product with a unit vector adds up the entries of that row and column.
proof fn lemma_column(m: MatrixModel, rows: nat, cols: int, z: Seq<int>, i: int, j: int)
    requires
        in_bounds(m, rows as int, cols),
        z.len() == cols,
        0 <= i < rows,
        forall|k: int|
            0 <= k < cols ==> #[trigger] z[k] == if k == j {
                1int
            } else {
                0int
            },
    ensures
        mat_vec(m, rows, z)[i] == cell(m, i, j),
{
    let f = |k: int| entry_term(m, z, i, k);
    let g = |k: int| cell_term(m, i, j, k);
    assert forall|k: int| 0 <= k < m.len() implies #[trigger] f(k) == g(k) by {
        assert(0 <= m[k].0 < rows && 0 <= m[k].1 < cols);
        let v = m[k].2;
        assert(v * 1 == v && v * 0 == 0) by (nonlinear_arith);
    }
    lemma_sum_ext(f, g, 0, m.len() as int);
}

/// The product with the unit vector of a column is that column: in each row, the values of all
/// entries of that row and column, added up.
pub proof fn law_unit_vector_gives_its_column<E: Engine>(
    s: &R1CSShape<E>,
    z: &[E::Scalar],
    out: (Vec<E::Scalar>, Vec<E::Scalar>, Vec<E::Scalar>),
    i: int,
    j: int,
)
    requires
        call_ensures(R1CSShape::<E>::multiply_vec, (s, z), Ok(out)),
        s@.wf(),
        0 <= i < s@.num_cons,
        is_column(z@, j),
    ensures
        out.0@[i].val() == cell(s@.a, i, j) % E::Scalar::modulus(),
        out.1@[i].val() == cell(s@.b, i, j) % E::Scalar::modulus(),
        out.2@[i].val() == cell(s@.c, i, j) % E::Scalar::modulus(),
{
    let p = E::Scalar::modulus();
    let (n, v) = (s@.num_cons, vals(z@));
    assert forall|k: int| 0 <= k < v.len() implies #[trigger] v[k] == if k == j {
        1int
    } else {
        0int
    } by {
        assert(v[k] == z@[k].val());
    }
    lemma_column(s@.a, n, s@.cols(), v, i, j);
    lemma_column(s@.b, n, s@.cols(), v, i, j);
    lemma_column(s@.c, n, s@.cols(), v, i, j);
    assert(out.0@[i].val() == mat_vec(s@.a, n, v)[i] % p);
    assert(out.1@[i].val() == mat_vec(s@.b, n, v)[i] % p);
    assert(out.2@[i].val() == mat_vec(s@.c, n, v)[i] % p);
}

/// A row of a product with a combination of vectors is the combination of the rows.
proof fn lemma_combination(
    p: int,
    m: MatrixModel,
    rows: nat,
    cols: int,
    z: (Seq<int>, Seq<int>, Seq<int>),
    by: int,
    i: int,
)
    requires
        p > 0,
        in_bounds(m, rows as int, cols),
        z.0.len() == cols,
        z.1.len() == cols,
        z.2.len() == cols,
        0 <= i < rows,
        forall|k: int| 0 <= k < cols ==> #[trigger] z.2[k] == (z.0[k] + by * z.1[k]) % p,
    ensures
        mat_vec(m, rows, z.2)[i] % p == (mat_vec(m, rows, z.0)[i] % p + by * (mat_vec(
            m,
            rows,
            z.1,
        )[i] % p)) % p,
{
    let f = |k: int| entry_term(m, z.0, i, k);
    let g = |k: int| entry_term(m, z.1, i, k);
    let h = |k: int| entry_term(m, z.2, i, k);
    let fg = |k: int| 1 * f(k) + by * g(k);
    let len = m.len() as int;
    assert forall|k: int| 0 <= k < len implies #[trigger] h(k) % p == fg(k) % p by {
        assert(0 <= m[k].0 < rows && 0 <= m[k].1 < cols);
        let (v, x, y) = (m[k].2, z.0[m[k].1], z.1[m[k].1]);
        assert(z.2[m[k].1] == (x + by * y) % p);
        lemma_mod(p, x + by * y);
        lemma_cong_mul(p, v, (x + by * y) % p, v, x + by * y);
        assert(v * (x + by * y) == v * x + by * (v * y)) by (nonlinear_arith);
        assert(by * 0 == 0) by (nonlinear_arith);
    }
    lemma_sum_cong(p, h, fg, 0, len);
    lemma_sum_linear(f, g, 1, by, 0, len);
    let (s, t) = (sum(f, 0, len), sum(g, 0, len));
    lemma_mod(p, s);
    lemma_mod(p, t);
    lemma_cong_mul(p, by, t, by, t % p);
    lemma_cong_add(p, s, by * t, s % p, by * (t % p));
    assert(mat_vec(m, rows, z.0)[i] == s);
    assert(mat_vec(m, rows, z.1)[i] == t);
    assert(mat_vec(m, rows, z.2)[i] == sum(h, 0, len));
}

/// The product with a combination of two vectors is the same combination of their products.
pub proof fn law_products_combine<E: Engine>(
    s: &R1CSShape<E>,
    z: (&[E::Scalar], &[E::Scalar], &[E::Scalar]),
    by: int,
    x: (Vec<E::Scalar>, Vec<E::Scalar>, Vec<E::Scalar>),
    y: (Vec<E::Scalar>, Vec<E::Scalar>, Vec<E::Scalar>),
    out: (Vec<E::Scalar>, Vec<E::Scalar>, Vec<E::Scalar>),
    i: int,
)
    requires
        call_ensures(R1CSShape::<E>::multiply_vec, (s, z.0), Ok(x)),
        call_ensures(R1CSShape::<E>::multiply_vec, (s, z.1), Ok(y)),
        call_ensures(R1CSShape::<E>::multiply_vec, (s, z.2), Ok(out)),
        s@.wf(),
        0 <= i < s@.num_cons,
        forall|k: int|
            0 <= k < z.2@.len() ==> (#[trigger] z.2@[k]).val() == (z.0@[k].val() + by
                * z.1@[k].val()) % E::Scalar::modulus(),
    ensures
        out.0@[i].val() == (x.0@[i].val() + by * y.0@[i].val()) % E::Scalar::modulus(),
        out.1@[i].val() == (x.1@[i].val() + by * y.1@[i].val()) % E::Scalar::modulus(),
        out.2@[i].val() == (x.2@[i].val() + by * y.2@[i].val()) % E::Scalar::modulus(),
{
    let p = E::Scalar::modulus();
    E::Scalar::lemma_modulus();
    let n = s@.num_cons;
    let v = (vals(z.0@), vals(z.1@), vals(z.2@));
    assert forall|k: int| 0 <= k < s@.cols() implies #[trigger] v.2[k] == (v.0[k] + by * v.1[k])
        % p by {
        assert(v.2[k] == z.2@[k].val());
    }
    lemma_combination(p, s@.a, n, s@.cols(), v, by, i);
    lemma_combination(p, s@.b, n, s@.cols(), v, by, i);
    lemma_combination(p, s@.c, n, s@.cols(), v, by, i);
    assert(x.0@[i].val() == mat_vec(s@.a, n, v.0)[i] % p);
    assert(x.1@[i].val() == mat_vec(s@.b, n, v.0)[i] % p);
    assert(x.2@[i].val() == mat_vec(s@.c, n, v.0)[i] % p);
    assert(y.0@[i].val() == mat_vec(s@.a, n, v.1)[i] % p);
    assert(y.1@[i].val() == mat_vec(s@.b, n, v.1)[i] % p);
    assert(y.2@[i].val() == mat_vec(s@.c, n, v.1)[i] % p);
    assert(out.0@[i].val() == mat_vec(s@.a, n, v.2)[i] % p);
    assert(out.1@[i].val() == mat_vec(s@.b, n, v.2)[i] % p);
    assert(out.2@[i].val() == mat_vec(s@.c, n, v.2)[i] % p);
}

/// A shape has the entries that it was made from, each matrix its own.
pub proof fn law_shape_keeps_its_entries<E: Engine>(
    e: (
        &[(usize, usize, E::Scalar)],
        &[(usize, usize, E::Scalar)],
        &[(usize, usize, E::Scalar)],
    ),
    m: (SparseMatrix<E::Scalar>, SparseMatrix<E::Scalar>, SparseMatrix<E::Scalar>),
    num_cons: usize,
    num_vars: usize,
    num_io: usize,
    s: R1CSShape<E>,
    k: int,
)
    requires
        call_ensures(SparseMatrix::<E::Scalar>::new, (e.0,), m.0),
        call_ensures(SparseMatrix::<E::Scalar>::new, (e.1,), m.1),
        call_ensures(SparseMatrix::<E::Scalar>::new, (e.2,), m.2),
        call_ensures(
            R1CSShape::<E>::new,
            (num_cons, num_vars, num_io, m.0, m.1, m.2),
            Ok::<R1CSShape<E>, NovaError>(s),
        ),
        num_vars + 1 + num_io <= usize::MAX,
    ensures
        s@.a.len() == e.0@.len(),
        s@.b.len() == e.1@.len(),
        s@.c.len() == e.2@.len(),
        0 <= k < e.0@.len() ==> s@.a[k] == (
            e.0@[k].0 as int,
            e.0@[k].1 as int,
            e.0@[k].2.val(),
        ),
        0 <= k < e.1@.len() ==> s@.b[k] == (
            e.1@[k].0 as int,
            e.1@[k].1 as int,
            e.1@[k].2.val(),
        ),
        0 <= k < e.2@.len() ==> s@.c[k] == (
            e.2@[k].0 as int,
            e.2@[k].1 as int,
            e.2@[k].2.val(),
        ),
        s@.num_cons == num_cons,
        s@.num_vars == num_vars,
        s@.num_io == num_io,
{
}

} // verus!
