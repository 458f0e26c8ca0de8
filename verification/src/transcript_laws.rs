//! What each challenge is drawn from, element by element.
use vstd::prelude::*;
use crate::arith::power;
use crate::field::{vals, Field};
use crate::r1cs::R1CSInstance;
use crate::relation::FoldedInstance;
use crate::ro::{poseidon, PoseidonModel, PoseidonRO};
use crate::traits::{Engine, Group};
use crate::transcript::{absorb_commitment, point_elements, AbsorbInRO2Trait};
use crate::univariate::peval;

verus! {

/// The low 128 bits of the hash of a transcript.
pub open spec fn drawn(p: int, m: PoseidonModel, t: Seq<int>) -> int {
    poseidon(p, m, t) % power(2, 128)
}

/// From place `at` on, the transcript holds a point: the four limbs of one coordinate, those of the
/// other, and one for the identity, whose limbs are all zero, and zero for every other point.
pub open spec fn holds_point(t: Seq<int>, at: int, c: (Seq<u64>, Seq<u64>)) -> bool {
    &&& t[at] == c.0[0] && t[at + 1] == c.0[1] && t[at + 2] == c.0[2] && t[at + 3] == c.0[3]
    &&& t[at + 4] == c.1[0] && t[at + 5] == c.1[1] && t[at + 6] == c.1[2] && t[at + 7] == c.1[3]
    &&& t[at + 8] == if c.0[0] == 0 && c.0[1] == 0 && c.0[2] == 0 && c.0[3] == 0 && c.1[0] == 0
        && c.1[1] == 0 && c.1[2] == 0 && c.1[3] == 0 {
        1int
    } else {
        0int
    }
}

/// From place `at` on, the transcript holds field elements.
pub open spec fn holds_scalars<F: Field>(t: Seq<int>, at: int, v: Seq<F>) -> bool {
    forall|i: int| 0 <= i < v.len() ==> t[at + i] == (#[trigger] v[i]).val()
}

/// From place `at` on, the transcript holds the given numbers.
pub open spec fn holds_numbers(t: Seq<int>, at: int, v: Seq<int>) -> bool {
    forall|i: int| 0 <= i < v.len() ==> t[at + i] == #[trigger] v[i]
}

/// A transcript that holds a point at the places of a sequence of nine elements holds its elements.
pub proof fn lemma_point<E: Engine>(t: Seq<int>, at: int, c: E::GE)
    requires
        0 <= at,
        at + 9 <= t.len(),
        holds_point(t, at, c.coords()),
    ensures
        t.subrange(at, at + 9) == point_elements(c.coords()),
{
    c.lemma_coords();
    let k = c.coords();
    let zero = k.0[0] == 0 && k.0[1] == 0 && k.0[2] == 0 && k.0[3] == 0 && k.1[0] == 0 && k.1[1]
        == 0 && k.1[2] == 0 && k.1[3] == 0;
    assert(crate::traits::all_zero(k) == zero) by {
        if zero {
            assert forall|i: int| 0 <= i < k.0.len() implies k.0[i] == 0 by {
                assert(i == 0 || i == 1 || i == 2 || i == 3);
            }
            assert forall|i: int| 0 <= i < k.1.len() implies k.1[i] == 0 by {
                assert(i == 0 || i == 1 || i == 2 || i == 3);
            }
        }
    }
    let s = t.subrange(at, at + 9);
    let e = point_elements(k);
    assert forall|i: int| 0 <= i < 9 implies s[i] == e[i] by {
        assert(i == 0 || i == 1 || i == 2 || i == 3 || i == 4 || i == 5 || i == 6 || i == 7 || i
            == 8);
    }
    assert(s =~= e);
}

/// Points that stand at the same places of one transcript have the same coordinates.
pub proof fn law_transcripts_tell_points<E: Engine>(t: Seq<int>, at: int, c: E::GE, d: E::GE)
    requires
        holds_point(t, at, c.coords()),
        holds_point(t, at, d.coords()),
    ensures
        c.coords() == d.coords(),
{
    c.lemma_coords();
    d.lemma_coords();
    assert(c.coords().0 =~= d.coords().0);
    assert(c.coords().1 =~= d.coords().1);
}

/// Absorbing a commitment appends its nine elements.
pub proof fn law_commitment_is_absorbed<E: Engine>(
    c: &E::GE,
    ro: &mut PoseidonRO<E::Scalar>,
    t: Seq<int>,
)
    requires
        call_ensures(absorb_commitment::<E>, (c, ro), ()),
        t.len() == old(ro)@.len() + 9,
        t.take(old(ro)@.len() as int) == old(ro)@,
        holds_point(t, old(ro)@.len() as int, c.coords()),
    ensures
        final(ro)@ == t,
{
    let n = old(ro)@.len() as int;
    lemma_point::<E>(t, n, *c);
    assert(t =~= t.take(n) + t.subrange(n, n + 9));
}

/// The transcript of the first challenge of a fold: the digest and the fresh instance, its
/// commitment and its public input.
pub open spec fn starts_with<E: Engine>(t: Seq<int>, digest: int, u: R1CSInstance<E>) -> bool {
    &&& t.len() >= 10 + u.X@.len()
    &&& t[0] == digest
    &&& holds_point(t, 1, u.comm_W.coords())
    &&& holds_scalars(t, 10, u.X@)
}

/// The transcript of a challenge behind a commitment: the hash before it, and the commitment.
pub open spec fn holds_commitment<E: Engine>(t: Seq<int>, before: int, c: E::GE) -> bool {
    &&& t.len() == 10
    &&& t[0] == before
    &&& holds_point(t, 1, c.coords())
}

/// The transcript of a challenge behind a polynomial: the hash before it, and all coefficients.
pub open spec fn holds_polynomial(t: Seq<int>, before: int, poly: Seq<int>) -> bool {
    &&& t.len() == 1 + poly.len()
    &&& t[0] == before
    &&& holds_numbers(t, 1, poly)
}

/// Equal transcripts hold the same digest and the same fresh instance, if the public inputs have
/// the same length.
pub proof fn law_transcripts_tell_instances<E: Engine>(
    t: Seq<int>,
    digest: int,
    u: R1CSInstance<E>,
    other: int,
    v: R1CSInstance<E>,
)
    requires
        starts_with(t, digest, u),
        starts_with(t, other, v),
        u.X@.len() == v.X@.len(),
    ensures
        digest == other,
        u.comm_W.coords() == v.comm_W.coords(),
        vals(u.X@) == vals(v.X@),
{
    law_transcripts_tell_points::<E>(t, 1, u.comm_W, v.comm_W);
    assert forall|i: int| 0 <= i < u.X@.len() implies vals(u.X@)[i] == vals(v.X@)[i] by {
        assert(t[10 + i] == u.X@[i].val());
        assert(t[10 + i] == v.X@[i].val());
    }
    assert(vals(u.X@) =~= vals(v.X@));
}

/// Equal transcripts hold the same polynomial behind the same hash.
pub proof fn law_transcripts_tell_polynomials(
    t: Seq<int>,
    before: int,
    poly: Seq<int>,
    other: int,
    q: Seq<int>,
)
    requires
        holds_polynomial(t, before, poly),
        holds_polynomial(t, other, q),
    ensures
        before == other,
        poly == q,
{
    assert forall|i: int| 0 <= i < poly.len() implies poly[i] == q[i] by {
        assert(t[1 + i] == poly[i]);
        assert(t[1 + i] == q[i]);
    }
    assert(poly =~= q);
}

/// A folded instance lies on the line from the running one to the fresh one, at the point `r`.
pub open spec fn on_the_line<E: Engine>(
    u: FoldedInstance<E>,
    u1: FoldedInstance<E>,
    u2: R1CSInstance<E>,
    comm_E: E::GE,
    r: int,
) -> bool {
    let p = E::Scalar::modulus();
    &&& u.u.val() == (u1.u.val() + r * (1 - u1.u.val())) % p
    &&& u.X@.len() == u1.X@.len() == u2.X@.len()
    &&& forall|i: int|
        0 <= i < u.X@.len() ==> (#[trigger] u.X@[i]).val() == (u1.X@[i].val() + r * (
        u2.X@[i].val() - u1.X@[i].val())) % p
    &&& u.comm_W.log() == (u1.comm_W.log() + r * (u2.comm_W.log() - u1.comm_W.log())) % p
    &&& u.comm_E.log() == (u1.comm_E.log() + r * (comm_E.log() - u1.comm_E.log())) % p
}

/// What is left of a claim, times the equality polynomial at the challenges, is the value of the
/// round polynomial at the folding challenge.
pub open spec fn left_of(p: int, poly: Seq<int>, rho: int, r: int, claim: int) -> bool {
    &&& 0 <= claim < p
    &&& (claim * ((1 - rho) * (1 - r) + rho * r)) % p == peval(poly, r) % p
}

/// The transcript of the first challenge is the sequence that the contracts speak of.
pub proof fn lemma_starts<E: Engine>(t: Seq<int>, digest: int, u: R1CSInstance<E>)
    requires
        starts_with(t, digest, u),
    ensures
        t.take(10 + u.X@.len() as int) == seq![digest] + <R1CSInstance<
            E,
        > as AbsorbInRO2Trait<E>>::elements(&u),
{
    lemma_point::<E>(t, 1, u.comm_W);
    let n = 10 + u.X@.len() as int;
    let e = seq![digest] + <R1CSInstance<E> as AbsorbInRO2Trait<E>>::elements(&u);
    assert(e.len() == n) by {
        u.comm_W.lemma_coords();
    }
    assert forall|i: int| 0 <= i < n implies t[i] == e[i] by {
        if 1 <= i < 10 {
            assert(t.subrange(1, 10)[i - 1] == t[i]);
        } else if i >= 10 {
            assert(t[10 + (i - 10)] == u.X@[i - 10].val());
            assert(e[i] == vals(u.X@)[i - 10]);
        }
    }
    assert(t.take(n) =~= e);
}

/// The transcript behind a commitment is the sequence that the contracts speak of.
pub proof fn lemma_behind_commitment<E: Engine>(t: Seq<int>, before: int, c: E::GE)
    requires
        holds_commitment::<E>(t, before, c),
    ensures
        t == seq![before] + point_elements(c.coords()),
{
    lemma_point::<E>(t, 1, c);
    assert(t =~= seq![before] + t.subrange(1, 10));
}

/// The sequence that the contracts speak of holds the commitment.
pub proof fn lemma_elements_held<E: Engine>(t: Seq<int>, before: int, c: E::GE)
    requires
        t == seq![before] + point_elements(c.coords()),
    ensures
        holds_commitment::<E>(t, before, c),
{
    c.lemma_coords();
    let k = c.coords();
    let zero = k.0[0] == 0 && k.0[1] == 0 && k.0[2] == 0 && k.0[3] == 0 && k.1[0] == 0 && k.1[1]
        == 0 && k.1[2] == 0 && k.1[3] == 0;
    assert(crate::traits::all_zero(k) == zero) by {
        if zero {
            assert forall|i: int| 0 <= i < k.0.len() implies k.0[i] == 0 by {
                assert(i == 0 || i == 1 || i == 2 || i == 3);
            }
            assert forall|i: int| 0 <= i < k.1.len() implies k.1[i] == 0 by {
                assert(i == 0 || i == 1 || i == 2 || i == 3);
            }
        }
    }
}

/// The transcript behind a polynomial is the sequence that the contracts speak of.
pub proof fn lemma_behind_polynomial(t: Seq<int>, before: int, poly: Seq<int>)
    requires
        holds_polynomial(t, before, poly),
    ensures
        t == seq![before] + poly,
{
    let e = seq![before] + poly;
    assert forall|i: int| 0 <= i < t.len() implies t[i] == e[i] by {
        if i > 0 {
            assert(t[1 + (i - 1)] == poly[i - 1]);
        }
    }
    assert(t =~= e);
}

} // verus!
