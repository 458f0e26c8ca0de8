//! Vector commitments: linear combinations of the bases of a key.
use vstd::prelude::*;
use crate::arith::{fadd, group_is, is, lemma_sum_ext, lemma_sum_linear, lerp, lerp_seq, sum};
use crate::field::{lemma_seed, vals, Field};
use crate::traits::{Commitment, Engine, Group};

verus! {

/// The lowest `n` bytes of `x`, least significant first.
pub open spec fn le_bytes(x: int, n: nat) -> Seq<u8>
    decreases n,
{
    if n == 0 {
        Seq::empty()
    } else {
        seq![(x % 256) as u8] + le_bytes(x / 256, (n - 1) as nat)
    }
}

/// The logarithm of the commitment to `v` under randomness `r`, before reduction.
pub open spec fn commit_log(ck: Seq<int>, h: int, v: Seq<int>, r: int) -> int {
    r * h + sum(|i: int| v[i] * ck[i], 0, v.len() as int)
}

/// A commitment key: one base per entry, and one for the randomness.
pub struct CommitmentKey<E: Engine> {
    ck: Vec<E::GE>,
    h: E::GE,
}

/// The eight bytes of an index, least significant first.
fn index_bytes(i: usize) -> (r: Vec<u8>)
    ensures
        r@ == le_bytes(i as int, 8),
{
    let mut out: Vec<u8> = Vec::new();
    let mut x: usize = i;
    let mut k: usize = 0;
    while k < 8
        invariant
            k <= 8,
            out@ + le_bytes(x as int, (8 - k) as nat) == le_bytes(i as int, 8),
        decreases 8 - k,
    {
        let ghost before = out@;
        out.push((x % 256) as u8);
        assert(out@ + le_bytes(x as int / 256, (8 - k - 1) as nat) =~= before + le_bytes(
            x as int,
            (8 - k) as nat,
        ));
        x = x / 256;
        k += 1;
    }
    assert(out@ + le_bytes(x as int, 0) =~= out@);
    out
}

impl<E: Engine> CommitmentKey<E> {
    /// The logarithms of the bases.
    pub closed spec fn bases(self) -> Seq<int> {
        Seq::new(self.ck@.len(), |i: int| self.ck@[i].log())
    }

    /// The logarithm of the base for the randomness.
    pub closed spec fn blind(self) -> int {
        self.h.log()
    }

    /// The coordinates of base `i`.
    pub closed spec fn base_coords(self, i: int) -> (Seq<u64>, Seq<u64>) {
        self.ck@[i].coords()
    }

    /// The coordinates of the base for the randomness.
    pub closed spec fn blind_coords(self) -> (Seq<u64>, Seq<u64>) {
        self.h.coords()
    }

    /// The logarithms of the bases are canonical.
    pub proof fn lemma_bases(self)
        ensures
            forall|i: int|
                0 <= i < self.bases().len() ==> 0 <= #[trigger] self.bases()[i]
                    < E::Scalar::modulus(),
            0 <= self.blind() < E::Scalar::modulus(),
    {
        self.h.lemma_log();
        assert forall|i: int| 0 <= i < self.bases().len() implies 0 <= #[trigger] self.bases()[i]
            < E::Scalar::modulus() by {
            self.ck@[i].lemma_log();
        }
    }

    /// A key with `n` bases. Base `i` is the hash of the index `i` under the domain, and the base
    /// for the randomness that of the empty message.
    pub fn setup(domain: &str, n: usize) -> (r: Self)
        requires
            domain@.len() <= 56,
        ensures
            r.bases().len() == n,
            forall|i: int| 0 <= i < n ==> #[trigger] r.base_coords(i) == E::GE::hashed(
                domain@,
                le_bytes(i, 8),
            ),
            r.blind_coords() == E::GE::hashed(domain@, Seq::empty()),
            forall|i: int| 0 <= i < n ==> #[trigger] r.base_coords(i) == E::GE::point(
                r.bases()[i],
            ),
            r.blind_coords() == E::GE::point(r.blind()),
    {
        let empty: Vec<u8> = Vec::new();
        let h = E::GE::hash_to_group(domain, empty.as_slice());
        let mut ck: Vec<E::GE> = Vec::new();
        let mut i: usize = 0;
        while i < n
            invariant
                i <= n,
                domain@.len() <= 56,
                ck@.len() == i,
                forall|k: int| 0 <= k < i ==> #[trigger] ck@[k].coords() == E::GE::hashed(
                    domain@,
                    le_bytes(k, 8),
                ),
                forall|k: int| 0 <= k < i ==> #[trigger] ck@[k].coords() == E::GE::point(
                    ck@[k].log(),
                ),
            decreases n - i,
        {
            let msg = index_bytes(i);
            ck.push(E::GE::hash_to_group(domain, msg.as_slice()));
            i += 1;
        }
        assert(empty@ =~= Seq::<u8>::empty());
        CommitmentKey { ck, h }
    }

    /// The number of bases.
    pub fn len(&self) -> (r: usize)
        ensures
            r == self.bases().len(),
    {
        self.ck.len()
    }

    /// The commitment to a vector under some randomness.
    pub fn commit(&self, v: &[E::Scalar], r: &E::Scalar) -> (c: Commitment<E>)
        requires
            v@.len() <= self.bases().len(),
        ensures
            is(
                E::Scalar::modulus(),
                c.log(),
                commit_log(self.bases(), self.blind(), vals(v@), r.val()),
            ),
            c.coords() == E::GE::point(c.log()),
    {
        let ghost p = E::Scalar::modulus();
        let mut acc = self.h.scale(*r);
        proof {
            broadcast use group_is;

            lemma_seed(*r);
            self.h.lemma_log();
            crate::arith::lemma_is_self(p, self.h.log());
            assert(self.h.log() * r.val() == r.val() * self.h.log()) by (nonlinear_arith);
        }
        let mut i: usize = 0;
        while i < v.len()
            invariant
                i <= v@.len(),
                v@.len() <= self.ck@.len(),
                p == E::Scalar::modulus(),
                p > 0,
                acc.coords() == E::GE::point(acc.log()),
                is(
                    p,
                    acc.log(),
                    r.val() * self.blind() + sum(
                        |k: int| vals(v@)[k] * self.bases()[k],
                        0,
                        i as int,
                    ),
                ),
            decreases v@.len() - i,
        {
            let g = self.ck[i];
            let x = v[i];
            let t = g.scale(x);
            proof {
                broadcast use group_is;

                lemma_seed(x);
                g.lemma_log();
                crate::arith::lemma_is_self(p, g.log());
                assert(is(p, t.log(), g.log() * x.val()));
                assert(g.log() * x.val() == x.val() * g.log()) by (nonlinear_arith);
                assert(vals(v@)[i as int] == x.val());
                assert(self.bases()[i as int] == g.log());
                let s = sum(|k: int| vals(v@)[k] * self.bases()[k], 0, i as int);
                assert(is(
                    p,
                    fadd(p, acc.log(), t.log()),
                    (r.val() * self.blind() + s) + x.val() * g.log(),
                ));
            }
            acc = acc.add(t);
            i += 1;
        }
        acc
    }
}

/// Commitments are homomorphic: the commitment to a vector on the line from `v1` to `v2`, under
/// randomness on the line from `r1` to `r2`, is the same combination of the two commitments.
pub proof fn lemma_commit_homomorphic(
    p: int,
    ck: Seq<int>,
    h: int,
    v1: Seq<int>,
    r1: int,
    v2: Seq<int>,
    r2: int,
    t: int,
)
    requires
        p > 0,
        v1.len() == v2.len(),
    ensures
        commit_log(ck, h, lerp_seq(v1, v2, t), lerp(r1, r2, t)) == (1 - t) * commit_log(
            ck,
            h,
            v1,
            r1,
        ) + t * commit_log(ck, h, v2, r2),
{
    let n = v1.len() as int;
    let f = |i: int| v1[i] * ck[i];
    let g = |i: int| v2[i] * ck[i];
    let l = lerp_seq(v1, v2, t);
    let fl = |i: int| l[i] * ck[i];
    let gl = |i: int| (1 - t) * f(i) + t * g(i);
    assert forall|i: int| 0 <= i < n implies #[trigger] fl(i) == gl(i) by {
        let (a, b, c) = (v1[i], v2[i], ck[i]);
        assert((a + t * (b - a)) * c == (1 - t) * (a * c) + t * (b * c)) by (nonlinear_arith);
    }
    lemma_sum_ext(fl, gl, 0, n);
    lemma_sum_linear(f, g, 1 - t, t, 0, n);
    let (s1, s2) = (sum(f, 0, n), sum(g, 0, n));
    assert((r1 + t * (r2 - r1)) * h + ((1 - t) * s1 + t * s2) == (1 - t) * (r1 * h + s1) + t * (r2
        * h + s2)) by (nonlinear_arith);
}

} // verus!
