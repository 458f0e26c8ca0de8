//! The weight table `[e1 || e2]` that the main relation and the power check share.
use std::sync::Arc;
use vstd::prelude::*;
use vstd::slice::slice_subrange;
use crate::arith::{group_is, is, lemma_power_add, lerp, power};
use crate::commitment::{commit_log, CommitmentKey};
use crate::field::{lemma_seed, lemma_seed_const, vals, Field};
use crate::traits::{Commitment, Engine, Group};

verus! {

/// `Arc::clone`: a second owner of the same value.
#[verifier::external_body]
fn share<T>(a: &Arc<T>) -> (r: Arc<T>)
    ensures
        r == *a,
{
    Arc::clone(a)
}

/// Entrywise reduction modulo `p`.
pub open spec fn mod_seq(p: int, s: Seq<int>) -> Seq<int> {
    Seq::new(s.len(), |i: int| s[i] % p)
}

/// The vector on the line through `a` at 0 and `b` at 1, at the point `r`, reduced modulo `p`. Where
/// the vectors differ in length, the longer one is cut.
pub open spec fn fold_seq(p: int, a: Seq<int>, b: Seq<int>, r: int) -> Seq<int> {
    Seq::new(
        if a.len() <= b.len() {
            a.len()
        } else {
            b.len()
        },
        |i: int| lerp(a[i], b[i], r) % p,
    )
}

/// The table of powers of `tau`: `tau^j` at place `j` of the first half, `tau^(i left)` at place
/// `i` of the second.
pub open spec fn power_table(tau: int, left: nat, right: nat) -> Seq<int> {
    Seq::new(
        left + right,
        |i: int|
            if i < left {
                power(tau, i as nat)
            } else {
                power(tau, ((i - left) * left) as nat)
            },
    )
}

/// A table: its entries, the randomness of its commitment, and the length of its first half.
#[verifier::ext_equal]
pub struct TableModel {
    pub data: Seq<int>,
    pub rand: int,
    pub split: nat,
}

/// The table on the line through `a` at 0 and `b` at 1, at the point `r`.
pub open spec fn fold_table(p: int, a: TableModel, b: TableModel, r: int) -> TableModel {
    TableModel {
        data: fold_seq(p, a.data, b.data, r),
        rand: lerp(a.rand, b.rand, r) % p,
        split: a.split,
    }
}

/// Weights in tensor form, with the randomness of their commitment.
#[derive(Debug, PartialEq, Eq)]
pub struct WeightTable<E: Engine> {
    data: Arc<Vec<E::Scalar>>,
    r: E::Scalar,
    left: usize,
}

impl<E: Engine> WeightTable<E> {
    /// The representatives of the entries.
    pub closed spec fn view(self) -> Seq<int> {
        vals(self.data@)
    }

    /// The representative of the commitment randomness.
    pub closed spec fn rand(self) -> int {
        self.r.val()
    }

    /// The split point, the length of the first half.
    pub closed spec fn split(self) -> nat {
        self.left as nat
    }

    /// The mathematical table.
    pub open spec fn model(self) -> TableModel {
        TableModel { data: self@, rand: self.rand(), split: self.split() }
    }

    #[verifier::type_invariant]
    spec fn inv(self) -> bool {
        self.left <= self.data@.len()
    }

    /// The first half of the entries.
    pub open spec fn first(self) -> Seq<int> {
        self@.subrange(0, self.split() as int)
    }

    /// The second half of the entries.
    pub open spec fn second(self) -> Seq<int> {
        self@.subrange(self.split() as int, self@.len() as int)
    }

    /// A table from its entries.
    pub fn new(data: Vec<E::Scalar>, r: E::Scalar, left: usize) -> (t: Self)
        requires
            left <= data@.len(),
        ensures
            t@ == vals(data@),
            t.rand() == r.val(),
            t.split() == left,
    {
        WeightTable { data: Arc::new(data), r, left }
    }

    /// The first half.
    pub fn e1(&self) -> (s: &[E::Scalar])
        ensures
            vals(s@) == self.first(),
            s@.len() == self.split(),
    {
        proof {
            use_type_invariant(self);
        }
        let s = slice_subrange(self.data.as_slice(), 0, self.left);
        assert(vals(s@) =~= self.first());
        s
    }

    /// The second half.
    pub fn e2(&self) -> (s: &[E::Scalar])
        ensures
            vals(s@) == self.second(),
            s@.len() == self@.len() - self.split(),
    {
        proof {
            use_type_invariant(self);
        }
        let s = slice_subrange(self.data.as_slice(), self.left, self.data.len());
        assert(vals(s@) =~= self.second());
        s
    }

    /// The split point, the length of the first half.
    pub fn left(&self) -> (n: usize)
        ensures
            n == self.split(),
            n <= self@.len(),
    {
        proof {
            use_type_invariant(self);
        }
        self.left
    }

    /// The length of the second half.
    pub fn right(&self) -> (n: usize)
        ensures
            n == self@.len() - self.split(),
    {
        proof {
            use_type_invariant(self);
        }
        self.data.len() - self.left
    }

    /// All entries.
    pub fn as_slice(&self) -> (s: &[E::Scalar])
        ensures
            vals(s@) == self@,
            s@.len() == self@.len(),
    {
        self.data.as_slice()
    }

    /// The commitment randomness.
    pub fn r(&self) -> (r: E::Scalar)
        ensures
            r.val() == self.rand(),
    {
        self.r
    }

    /// The number of entries.
    pub fn len(&self) -> (n: usize)
        ensures
            n == self@.len(),
    {
        self.data.len()
    }

    /// Whether there are no entries.
    pub fn is_empty(&self) -> (b: bool)
        ensures
            b == (self@.len() == 0),
    {
        self.data.len() == 0
    }

    /// The table on the line through `self` at 0 and `other` at 1, at the point `r_b`. Where the
    /// tables differ in length, the longer one is cut.
    pub fn fold(&self, other: &Self, r_b: &E::Scalar) -> (t: Self)
        requires
            self.split() == other.split(),
        ensures
            t.model() == fold_table(
                E::Scalar::modulus(),
                self.model(),
                other.model(),
                r_b.val(),
            ),
    {
        proof {
            use_type_invariant(self);
            use_type_invariant(other);
        }
        let folded = fold_slices(self.data.as_slice(), other.data.as_slice(), r_b);
        let one = E::Scalar::one();
        let r = one.sub(*r_b).mul(self.r).add(r_b.mul(other.r));
        proof {
            broadcast use group_is;

            lemma_seed(*r_b);
            lemma_seed(self.r);
            lemma_seed(other.r);
            lemma_seed_const::<E::Scalar>(1);
            let (a, b, t) = (self.r.val(), other.r.val(), r_b.val());
            assert((1 - t) * a + t * b == a + t * (b - a)) by (nonlinear_arith);
        }
        WeightTable::new(folded, r, self.left)
    }

    /// The commitment to the table.
    pub fn commit(&self, ck: &CommitmentKey<E>) -> (c: Commitment<E>)
        requires
            self@.len() <= ck.bases().len(),
        ensures
            is(
                E::Scalar::modulus(),
                c.log(),
                commit_log(ck.bases(), ck.blind(), self@, self.rand()),
            ),
            c.coords() == E::GE::point(c.log()),
    {
        ck.commit(self.data.as_slice(), &self.r)
    }

    /// The table of powers of `tau` under the given randomness.
    pub fn from_powers(tau: &E::Scalar, left: usize, right: usize, r: E::Scalar) -> (t: Self)
        requires
            left + right <= usize::MAX,
        ensures
            t@ == mod_seq(
                E::Scalar::modulus(),
                power_table(tau.val(), left as nat, right as nat),
            ),
            t.rand() == r.val(),
            t.split() == left,
    {
        let ghost p = E::Scalar::modulus();
        let mut data: Vec<E::Scalar> = Vec::new();
        let mut cur = E::Scalar::one();
        let mut j: usize = 0;
        proof {
            lemma_seed(*tau);
            lemma_seed_const::<E::Scalar>(1);
        }
        while j < left
            invariant
                j <= left,
                p == E::Scalar::modulus(),
                p > 0,
                is(p, tau.val(), tau.val()),
                data@.len() == j,
                is(p, cur.val(), power(tau.val(), j as nat)),
                forall|k: int| 0 <= k < j ==> is(
                    p,
                    #[trigger] data@[k].val(),
                    power(tau.val(), k as nat),
                ),
            decreases left - j,
        {
            data.push(cur);
            proof {
                broadcast use group_is;

            }
            cur = cur.mul(*tau);
            j += 1;
        }
        let step = cur;
        let mut cur = E::Scalar::one();
        let mut i: usize = 0;
        proof {
            assert(0 * left == 0) by (nonlinear_arith);
        }
        while i < right
            invariant
                i <= right,
                p == E::Scalar::modulus(),
                p > 0,
                data@.len() == left + i,
                is(p, step.val(), power(tau.val(), left as nat)),
                is(p, cur.val(), power(tau.val(), (i * left) as nat)),
                forall|k: int| 0 <= k < left ==> is(
                    p,
                    #[trigger] data@[k].val(),
                    power(tau.val(), k as nat),
                ),
                forall|k: int| left <= k < left + i ==> is(
                    p,
                    #[trigger] data@[k].val(),
                    power(tau.val(), ((k - left) * left) as nat),
                ),
            decreases right - i,
        {
            data.push(cur);
            proof {
                broadcast use group_is;

                assert(0 <= i * left) by (nonlinear_arith);
                assert((i + 1) * left == i * left + left) by (nonlinear_arith);
                lemma_power_add(tau.val(), (i * left) as nat, left as nat);
            }
            cur = cur.mul(step);
            i += 1;
        }
        proof {
            assert(vals(data@) =~= mod_seq(
                p,
                power_table(tau.val(), left as nat, right as nat),
            ));
        }
        WeightTable::new(data, r, left)
    }

    /// The table of powers of `tau` under fresh randomness.
    pub fn from_tau(tau: &E::Scalar, left: usize, right: usize) -> (t: Self)
        requires
            left + right <= usize::MAX,
        ensures
            t@ == mod_seq(
                E::Scalar::modulus(),
                power_table(tau.val(), left as nat, right as nat),
            ),
            t.split() == left,
    {
        Self::from_powers(tau, left, right, E::Scalar::random())
    }
}

impl<E: Engine> Clone for WeightTable<E> {
    fn clone(&self) -> (t: Self)
        ensures
            t@ == self@,
            t.rand() == self.rand(),
            t.split() == self.split(),
    {
        proof {
            use_type_invariant(self);
        }
        WeightTable { data: share(&self.data), r: self.r, left: self.left }
    }
}

/// The vector on the line through `v1` at 0 and `v2` at 1, at the point `r_b`. Where the vectors
/// differ in length, the longer one is cut.
pub fn fold_slices<F: Field>(v1: &[F], v2: &[F], r_b: &F) -> (r: Vec<F>)
    ensures
        vals(r@) == fold_seq(F::modulus(), vals(v1@), vals(v2@), r_b.val()),
        r@.len() == if v1@.len() <= v2@.len() {
            v1@.len()
        } else {
            v2@.len()
        },
{
    let ghost p = F::modulus();
    let n = if v1.len() <= v2.len() {
        v1.len()
    } else {
        v2.len()
    };
    let mut out: Vec<F> = Vec::new();
    let mut i: usize = 0;
    proof {
        lemma_seed(*r_b);
    }
    while i < n
        invariant
            i <= n,
            n <= v1@.len(),
            n <= v2@.len(),
            p == F::modulus(),
            p > 0,
            is(p, r_b.val(), r_b.val()),
            out@.len() == i,
            forall|k: int| 0 <= k < i ==> is(
                p,
                #[trigger] out@[k].val(),
                lerp(v1@[k].val(), v2@[k].val(), r_b.val()),
            ),
        decreases n - i,
    {
        let (a, b) = (v1[i], v2[i]);
        proof {
            broadcast use group_is;

            lemma_seed(a);
            lemma_seed(b);
        }
        out.push(a.add(r_b.mul(b.sub(a))));
        i += 1;
    }
    proof {
        assert(vals(out@) =~= fold_seq(p, vals(v1@), vals(v2@), r_b.val()));
    }
    out
}

} // verus!
