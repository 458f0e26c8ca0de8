//! What holds of every commitment.
use vstd::prelude::*;
use crate::arith::{
    lemma_cong_add, lemma_cong_mul, lemma_mod, lemma_sum_cong, lemma_sum_ext, lemma_sum_linear,
    lemma_sum_null, lemma_sum_single, lemma_sum_split, sum,
};
use crate::commitment::{le_bytes, CommitmentKey};
use crate::field::{vals, Field};
use crate::traits::{Commitment, Engine, Group};
use crate::weight_table::WeightTable;

verus! {

/// The entry at place `i` is one, and all others are zero.
pub open spec fn is_unit<F: Field>(v: Seq<F>, i: int) -> bool {
    &&& 0 <= i < v.len()
    &&& forall|k: int|
        0 <= k < v.len() ==> (#[trigger] v[k]).val() == if k == i {
            1int
        } else {
            0int
        }
}

/// The commitment to the unit vector of a place, without randomness, is the base of that place.
pub proof fn law_unit_vector_gives_its_base<E: Engine>(
    key: &CommitmentKey<E>,
    v: &[E::Scalar],
    r: &E::Scalar,
    c: Commitment<E>,
    i: int,
)
    requires
        call_ensures(CommitmentKey::<E>::commit, (key, v, r), c),
        v@.len() <= key.bases().len(),
        r.val() == 0,
        is_unit(v@, i),
    ensures
        c.log() == key.bases()[i],
        c.coords() == E::GE::point(key.bases()[i]),
{
    let p = E::Scalar::modulus();
    let n = v@.len() as int;
    let f = |k: int| vals(v@)[k] * key.bases()[k];
    assert forall|k: int| 0 <= k < n && k != i implies #[trigger] f(k) == 0 by {
        assert(v@[k].val() == 0);
    }
    lemma_sum_single(f, 0, n, i);
    assert(v@[i].val() == 1);
    key.lemma_bases();
    assert(0 * key.blind() == 0) by (nonlinear_arith);
    vstd::arithmetic::div_mod::lemma_small_mod(key.bases()[i] as nat, p as nat);
}

/// The commitment to a vector of zeros under randomness one is the base for the randomness.
pub proof fn law_randomness_has_its_base<E: Engine>(
    key: &CommitmentKey<E>,
    v: &[E::Scalar],
    r: &E::Scalar,
    c: Commitment<E>,
)
    requires
        call_ensures(CommitmentKey::<E>::commit, (key, v, r), c),
        v@.len() <= key.bases().len(),
        r.val() == 1,
        forall|k: int| 0 <= k < v@.len() ==> (#[trigger] v@[k]).val() == 0,
    ensures
        c.log() == key.blind(),
        c.coords() == E::GE::point(key.blind()),
{
    let p = E::Scalar::modulus();
    let f = |k: int| vals(v@)[k] * key.bases()[k];
    assert forall|k: int| 0 <= k < v@.len() implies #[trigger] f(k) == 0 by {
        assert(v@[k].val() == 0);
    }
    lemma_sum_null(f, 0, v@.len() as int);
    key.lemma_bases();
    vstd::arithmetic::div_mod::lemma_small_mod(key.blind() as nat, p as nat);
}

/// The commitment to a sum of vectors, under the sum of their randomness, is the sum of their
/// commitments.
pub proof fn law_commitments_add<E: Engine>(
    key: &CommitmentKey<E>,
    v: (&[E::Scalar], &[E::Scalar], &[E::Scalar]),
    r: (&E::Scalar, &E::Scalar, &E::Scalar),
    c: (Commitment<E>, Commitment<E>, Commitment<E>),
)
    requires
        call_ensures(CommitmentKey::<E>::commit, (key, v.0, r.0), c.0),
        call_ensures(CommitmentKey::<E>::commit, (key, v.1, r.1), c.1),
        call_ensures(CommitmentKey::<E>::commit, (key, v.2, r.2), c.2),
        v.0@.len() == v.1@.len() == v.2@.len(),
        v.0@.len() <= key.bases().len(),
        r.2.val() == (r.0.val() + r.1.val()) % E::Scalar::modulus(),
        forall|k: int|
            0 <= k < v.0@.len() ==> (#[trigger] v.2@[k]).val() == (v.0@[k].val() + v.1@[k].val())
                % E::Scalar::modulus(),
    ensures
        c.2.log() == (c.0.log() + c.1.log()) % E::Scalar::modulus(),
{
    let p = E::Scalar::modulus();
    let n = v.0@.len() as int;
    E::Scalar::lemma_modulus();
    let f = |k: int| vals(v.0@)[k] * key.bases()[k];
    let g = |k: int| vals(v.1@)[k] * key.bases()[k];
    let h = |k: int| vals(v.2@)[k] * key.bases()[k];
    let fg = |k: int| 1 * f(k) + 1 * g(k);
    assert forall|k: int| 0 <= k < n implies #[trigger] h(k) % p == fg(k) % p by {
        let (x, y, b) = (v.0@[k].val(), v.1@[k].val(), key.bases()[k]);
        assert(v.2@[k].val() == (x + y) % p);
        lemma_mod(p, x + y);
        lemma_cong_mul(p, (x + y) % p, b, x + y, b);
        assert((x + y) * b == x * b + y * b) by (nonlinear_arith);
    }
    lemma_sum_cong(p, h, fg, 0, n);
    lemma_sum_linear(f, g, 1, 1, 0, n);
    let (s, t) = (sum(f, 0, n), sum(g, 0, n));
    let (a, b, d) = (r.0.val(), r.1.val(), key.blind());
    lemma_mod(p, a + b);
    lemma_cong_mul(p, (a + b) % p, d, a + b, d);
    assert((a + b) * d == a * d + b * d) by (nonlinear_arith);
    lemma_cong_add(p, r.2.val() * d, sum(h, 0, n), a * d + b * d, s + t);
    lemma_mod(p, a * d + s);
    lemma_mod(p, b * d + t);
    lemma_cong_add(p, c.0.log(), c.1.log(), a * d + s, b * d + t);
}

/// The commitment to a multiple of a vector, under the same multiple of its randomness, is the
/// multiple of its commitment.
pub proof fn law_commitments_scale<E: Engine>(
    key: &CommitmentKey<E>,
    v: (&[E::Scalar], &[E::Scalar]),
    r: (&E::Scalar, &E::Scalar),
    c: (Commitment<E>, Commitment<E>),
    by: int,
)
    requires
        call_ensures(CommitmentKey::<E>::commit, (key, v.0, r.0), c.0),
        call_ensures(CommitmentKey::<E>::commit, (key, v.1, r.1), c.1),
        v.0@.len() == v.1@.len(),
        v.0@.len() <= key.bases().len(),
        r.1.val() == (by * r.0.val()) % E::Scalar::modulus(),
        forall|k: int|
            0 <= k < v.0@.len() ==> (#[trigger] v.1@[k]).val() == (by * v.0@[k].val())
                % E::Scalar::modulus(),
    ensures
        c.1.log() == (by * c.0.log()) % E::Scalar::modulus(),
{
    let p = E::Scalar::modulus();
    let n = v.0@.len() as int;
    E::Scalar::lemma_modulus();
    let f = |k: int| vals(v.0@)[k] * key.bases()[k];
    let h = |k: int| vals(v.1@)[k] * key.bases()[k];
    let fs = |k: int| by * f(k) + 0 * f(k);
    assert forall|k: int| 0 <= k < n implies #[trigger] h(k) % p == fs(k) % p by {
        let (x, b) = (v.0@[k].val(), key.bases()[k]);
        assert(v.1@[k].val() == (by * x) % p);
        lemma_mod(p, by * x);
        lemma_cong_mul(p, (by * x) % p, b, by * x, b);
        assert((by * x) * b == by * (x * b)) by (nonlinear_arith);
    }
    lemma_sum_cong(p, h, fs, 0, n);
    lemma_sum_linear(f, f, by, 0, 0, n);
    let s = sum(f, 0, n);
    let (a, d) = (r.0.val(), key.blind());
    lemma_mod(p, by * a);
    lemma_cong_mul(p, (by * a) % p, d, by * a, d);
    assert((by * a) * d == by * (a * d)) by (nonlinear_arith);
    lemma_cong_add(p, r.1.val() * d, sum(h, 0, n), by * (a * d), by * s);
    assert(by * (a * d) + by * s == by * (a * d + s)) by (nonlinear_arith);
    lemma_mod(p, a * d + s);
    lemma_cong_mul(p, by, c.0.log(), by, a * d + s);
}

/// Where two vectors differ in one entry alone, their commitments differ by the difference times
/// the base of that entry.
pub proof fn law_an_entry_weighs_its_base<E: Engine>(
    key: &CommitmentKey<E>,
    v: (&[E::Scalar], &[E::Scalar]),
    r: &E::Scalar,
    c: (Commitment<E>, Commitment<E>),
    i: int,
)
    requires
        call_ensures(CommitmentKey::<E>::commit, (key, v.0, r), c.0),
        call_ensures(CommitmentKey::<E>::commit, (key, v.1, r), c.1),
        v.0@.len() == v.1@.len(),
        v.0@.len() <= key.bases().len(),
        0 <= i < v.0@.len(),
        forall|k: int|
            0 <= k < v.0@.len() && k != i ==> (#[trigger] v.1@[k]).val() == v.0@[k].val(),
    ensures
        (c.1.log() - c.0.log()) % E::Scalar::modulus() == ((v.1@[i].val() - v.0@[i].val())
            * key.bases()[i]) % E::Scalar::modulus(),
{
    let p = E::Scalar::modulus();
    let n = v.0@.len() as int;
    E::Scalar::lemma_modulus();
    let f = |k: int| vals(v.0@)[k] * key.bases()[k];
    let g = |k: int| vals(v.1@)[k] * key.bases()[k];
    let d = |k: int| 1 * g(k) + (-1) * f(k);
    assert forall|k: int| 0 <= k < n && k != i implies #[trigger] d(k) == 0 by {
        assert(v.1@[k].val() == v.0@[k].val());
    }
    lemma_sum_single(d, 0, n, i);
    lemma_sum_linear(g, f, 1, -1, 0, n);
    let (x, y, b) = (v.0@[i].val(), v.1@[i].val(), key.bases()[i]);
    assert(y * b - x * b == (y - x) * b) by (nonlinear_arith);
    let (s, t, h) = (sum(f, 0, n), sum(g, 0, n), r.val() * key.blind());
    lemma_mod(p, h + s);
    lemma_mod(p, h + t);
    crate::arith::lemma_cong_sub(p, c.1.log(), c.0.log(), h + t, h + s);
}

/// Zeros behind a vector do not change its commitment.
pub proof fn law_zeros_weigh_nothing<E: Engine>(
    key: &CommitmentKey<E>,
    v: (&[E::Scalar], &[E::Scalar]),
    r: &E::Scalar,
    c: (Commitment<E>, Commitment<E>),
)
    requires
        call_ensures(CommitmentKey::<E>::commit, (key, v.0, r), c.0),
        call_ensures(CommitmentKey::<E>::commit, (key, v.1, r), c.1),
        v.0@.len() <= v.1@.len() <= key.bases().len(),
        forall|k: int| 0 <= k < v.0@.len() ==> (#[trigger] v.1@[k]).val() == v.0@[k].val(),
        forall|k: int| v.0@.len() <= k < v.1@.len() ==> (#[trigger] v.1@[k]).val() == 0,
    ensures
        c.0.log() == c.1.log(),
{
    let (n, m) = (v.0@.len() as int, v.1@.len() as int);
    let f = |k: int| vals(v.0@)[k] * key.bases()[k];
    let g = |k: int| vals(v.1@)[k] * key.bases()[k];
    assert forall|k: int| 0 <= k < n implies #[trigger] f(k) == g(k) by {
        assert(v.1@[k].val() == v.0@[k].val());
    }
    assert forall|k: int| n <= k < m implies #[trigger] g(k) == 0 by {
        assert(v.1@[k].val() == 0);
    }
    lemma_sum_ext(f, g, 0, n);
    lemma_sum_null(g, n, m);
    lemma_sum_split(g, 0, n, m);
}

/// A table is committed to as the vector of its entries under its own randomness.
pub proof fn law_table_is_committed_as_its_entries<E: Engine>(
    key: &CommitmentKey<E>,
    table: &WeightTable<E>,
    v: &[E::Scalar],
    r: &E::Scalar,
    c: (Commitment<E>, Commitment<E>),
)
    requires
        call_ensures(WeightTable::<E>::commit, (table, key), c.0),
        call_ensures(CommitmentKey::<E>::commit, (key, v, r), c.1),
        call_ensures(WeightTable::<E>::as_slice, (table,), v),
        call_ensures(WeightTable::<E>::r, (table,), *r),
        v@.len() <= key.bases().len(),
    ensures
        c.0.log() == c.1.log(),
        c.0.coords() == c.1.coords(),
{
}

/// The bytes whose value in base 256 is `x` are the bytes of `x`.
proof fn lemma_le_bytes(x: int, b: Seq<u8>, rest: int)
    requires
        b.len() > 0,
        x == b[0] + 256 * rest,
    ensures
        le_bytes(x, b.len()) == seq![b[0]] + le_bytes(rest, (b.len() - 1) as nat),
{
    assert(x % 256 == b[0] && x / 256 == rest);
}

/// Base `i` of a key is the hash of the eight bytes of `i`, least significant first, and the
/// commitment to the unit vector of `i` without randomness is that point. So two keys of one domain
/// agree where both have bases.
pub proof fn law_bases_are_hashes_of_their_indices<E: Engine>(
    domain: &str,
    n: usize,
    key: CommitmentKey<E>,
    v: &[E::Scalar],
    r: &E::Scalar,
    c: Commitment<E>,
    i: int,
    b: Seq<u8>,
)
    requires
        call_ensures(CommitmentKey::<E>::setup, (domain, n), key),
        call_ensures(CommitmentKey::<E>::commit, (&key, v, r), c),
        v@.len() <= n,
        r.val() == 0,
        is_unit(v@, i),
        b.len() == 8,
        i == b[0] + 256 * (b[1] + 256 * (b[2] + 256 * (b[3] + 256 * (b[4] + 256 * (b[5] + 256 * (
        b[6] + 256 * b[7])))))),
    ensures
        key.bases().len() == n,
        c.coords() == E::GE::hashed(domain@, b),
{
    law_unit_vector_gives_its_base(&key, v, r, c, i);
    let x7 = b[7] as int;
    let x6 = b[6] + 256 * x7;
    let x5 = b[5] + 256 * x6;
    let x4 = b[4] + 256 * x5;
    let x3 = b[3] + 256 * x4;
    let x2 = b[2] + 256 * x3;
    let x1 = b[1] + 256 * x2;
    lemma_le_bytes(i, b, x1);
    lemma_le_bytes(x1, b.skip(1), x2);
    lemma_le_bytes(x2, b.skip(2), x3);
    lemma_le_bytes(x3, b.skip(3), x4);
    lemma_le_bytes(x4, b.skip(4), x5);
    lemma_le_bytes(x5, b.skip(5), x6);
    lemma_le_bytes(x6, b.skip(6), x7);
    lemma_le_bytes(x7, b.skip(7), 0);
    assert(le_bytes(i, 8) =~= b);
    assert(key.base_coords(i) == E::GE::point(key.bases()[i]));
}

/// The base for the randomness is the hash of the empty message.
pub proof fn law_blind_is_the_hash_of_nothing<E: Engine>(
    domain: &str,
    n: usize,
    key: CommitmentKey<E>,
    v: &[E::Scalar],
    r: &E::Scalar,
    c: Commitment<E>,
)
    requires
        call_ensures(CommitmentKey::<E>::setup, (domain, n), key),
        call_ensures(CommitmentKey::<E>::commit, (&key, v, r), c),
        v@.len() <= n,
        r.val() == 1,
        forall|k: int| 0 <= k < v@.len() ==> (#[trigger] v@[k]).val() == 0,
    ensures
        c.coords() == E::GE::hashed(domain@, Seq::empty()),
{
    law_randomness_has_its_base(&key, v, r, c);
}

} // verus!
