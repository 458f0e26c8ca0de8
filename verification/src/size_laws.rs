//! What the sizes and parts are that values report.
use vstd::prelude::*;
use crate::commitment::CommitmentKey;
use crate::errors::NovaError;
use crate::field::{vals, Field};
use crate::frontend::{Index, LinearCombination, Variable};
use crate::num::AllocatedNum;
use crate::r1cs::{R1CSShape, SparseMatrix};
use crate::relation::Structure;
use crate::traits::Engine;
use crate::weight_table::WeightTable;

verus! {

/// A shape reports the sizes that it was made with, and pads to the number of constraints that it
/// is asked for and keeps its other sizes.
pub proof fn law_shapes_report_their_sizes<E: Engine>(
    sizes: (usize, usize, usize),
    m: (SparseMatrix<E::Scalar>, SparseMatrix<E::Scalar>, SparseMatrix<E::Scalar>),
    s: R1CSShape<E>,
    n: usize,
    padded: R1CSShape<E>,
    r: (usize, usize, usize),
    q: (usize, usize, usize),
)
    requires
        call_ensures(
            R1CSShape::<E>::new,
            (sizes.0, sizes.1, sizes.2, m.0, m.1, m.2),
            Ok::<R1CSShape<E>, NovaError>(s),
        ),
        sizes.0 <= n,
        call_ensures(R1CSShape::<E>::pad_constraints, (&s, n), padded),
        call_ensures(R1CSShape::<E>::num_cons, (&s,), r.0),
        call_ensures(R1CSShape::<E>::num_vars, (&s,), r.1),
        call_ensures(R1CSShape::<E>::num_io, (&s,), r.2),
        call_ensures(R1CSShape::<E>::num_cons, (&padded,), q.0),
        call_ensures(R1CSShape::<E>::num_vars, (&padded,), q.1),
        call_ensures(R1CSShape::<E>::num_io, (&padded,), q.2),
    ensures
        r == sizes,
        q == (n, sizes.1, sizes.2),
{
}

/// A structure splits all constraints of its shape, which is that of the shape that it was made of,
/// with as many variables and public inputs and at least as many constraints.
pub proof fn law_structures_report_their_split<E: Engine>(
    shape: &R1CSShape<E>,
    s: Structure<E>,
    split: (usize, usize),
    padded: &R1CSShape<E>,
    r: (usize, usize, usize),
)
    requires
        call_ensures(Structure::<E>::new, (shape,), s),
        call_ensures(Structure::<E>::left, (&s,), split.0),
        call_ensures(Structure::<E>::right, (&s,), split.1),
        call_ensures(Structure::<E>::shape, (&s,), padded),
        call_ensures(R1CSShape::<E>::num_cons, (padded,), r.0),
        call_ensures(R1CSShape::<E>::num_vars, (padded,), r.1),
        call_ensures(R1CSShape::<E>::num_io, (padded,), r.2),
    ensures
        r.0 == split.0 * split.1,
        split.0 >= 1,
        split.1 >= 1,
        r.1 == shape@.num_vars,
        r.2 == shape@.num_io,
        padded@.a == shape@.a,
        padded@.b == shape@.b,
        padded@.c == shape@.c,
{
}

/// A table has the entries that it was made with, its halves are cut where it was told, and its
/// length is that of both halves.
pub proof fn law_tables_report_their_parts<E: Engine>(
    data: Vec<E::Scalar>,
    r: E::Scalar,
    left: usize,
    t: WeightTable<E>,
    halves: (&[E::Scalar], &[E::Scalar]),
    all: &[E::Scalar],
    n: usize,
    empty: bool,
    i: int,
)
    requires
        call_ensures(WeightTable::<E>::new, (data, r, left), t),
        left <= data@.len(),
        call_ensures(WeightTable::<E>::e1, (&t,), halves.0),
        call_ensures(WeightTable::<E>::e2, (&t,), halves.1),
        call_ensures(WeightTable::<E>::as_slice, (&t,), all),
        call_ensures(WeightTable::<E>::len, (&t,), n),
        call_ensures(WeightTable::<E>::is_empty, (&t,), empty),
        0 <= i < data@.len(),
    ensures
        n == data@.len(),
        halves.0@.len() == left,
        halves.0@.len() + halves.1@.len() == n,
        all@.len() == n,
        all@[i].val() == data@[i].val(),
        i < left ==> halves.0@[i].val() == data@[i].val(),
        i >= left ==> halves.1@[i - left].val() == data@[i].val(),
        !empty,
        t.rand() == r.val(),
{
    assert(vals(data@).len() == data@.len());
    assert(vals(all@)[i] == vals(data@)[i]);
    if i < left {
        assert(vals(halves.0@)[i] == vals(data@)[i]);
    } else {
        assert(vals(halves.1@)[i - left] == vals(data@)[i]);
    }
}

/// A commitment key has as many bases as it was asked for.
pub proof fn law_keys_report_their_size<E: Engine>(
    domain: &str,
    n: usize,
    ck: CommitmentKey<E>,
    r: usize,
)
    requires
        call_ensures(CommitmentKey::<E>::setup, (domain, n), ck),
        call_ensures(CommitmentKey::<E>::len, (&ck,), r),
    ensures
        r == n,
{
}

/// A combination has no terms at first and one after the first term. A second term for the same
/// variable adds none, and one for another variable adds one.
pub proof fn law_combinations_report_their_terms<F: Field>(
    zero: LinearCombination<F>,
    c: (F, F),
    v: (Variable, Variable),
    one: LinearCombination<F>,
    two: LinearCombination<F>,
    n: (usize, usize, usize),
    empty: (bool, bool),
)
    requires
        call_ensures(LinearCombination::<F>::zero, (), zero),
        call_ensures(LinearCombination::<F>::add_term, (zero, c.0, v.0), one),
        call_ensures(LinearCombination::<F>::add_term, (one, c.1, v.1), two),
        call_ensures(LinearCombination::<F>::len, (&zero,), n.0),
        call_ensures(LinearCombination::<F>::len, (&one,), n.1),
        call_ensures(LinearCombination::<F>::len, (&two,), n.2),
        call_ensures(LinearCombination::<F>::is_empty, (&zero,), empty.0),
        call_ensures(LinearCombination::<F>::is_empty, (&two,), empty.1),
    ensures
        n.0 == 0,
        n.1 == 1,
        n.2 == if v.0 == v.1 {
            1int
        } else {
            2int
        },
        empty == (true, false),
{
    assert(crate::frontend::mentions(one@, v.1) <==> crate::frontend::mentions(zero@, v.1) || v.1
        == v.0);
    assert(!crate::frontend::mentions(zero@, v.0));
    assert(!crate::frontend::mentions(zero@, v.1));
}

/// A variable gives back its place, and a number its value and its variable.
pub proof fn law_variables_report_their_places<F: Field>(
    place: Index,
    v: Variable,
    back: Index,
    n: &AllocatedNum<F>,
    w: Variable,
    x: Option<F>,
    a: Seq<int>,
)
    requires
        call_ensures(Variable::new_unchecked, (place,), v),
        call_ensures(Variable::get_unchecked, (&v,), back),
        call_ensures(AllocatedNum::<F>::get_variable, (n,), w),
        call_ensures(AllocatedNum::<F>::get_value, (n,), x),
    ensures
        back == place,
        crate::frontend_laws::value_of(w, a) == n.at(a),
        x == n.value,
{
}

} // verus!
