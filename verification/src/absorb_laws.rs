//! What absorbing a value leaves in a transcript, element by element.
use vstd::prelude::*;
use crate::field::Field;
use crate::power_check_relation::{FoldedPowerCheckInstance, PowerCheckInstance};
use crate::r1cs::R1CSInstance;
use crate::ro::PoseidonRO;
use crate::traits::{Engine, Group};
use crate::transcript::{point_elements, AbsorbInRO2Trait};
use crate::transcript_laws::{holds_numbers, holds_point, holds_scalars};
use crate::univariate::UniPoly;

verus! {

/// The transcript goes on behind what it held before, and is `n` elements longer.
pub open spec fn grows_by(t: Seq<int>, before: Seq<int>, n: int) -> bool {
    &&& t.len() == before.len() + n
    &&& forall|i: int| 0 <= i < before.len() ==> #[trigger] t[i] == before[i]
}

/// The elements of a point are held at the places where they stand.
proof fn lemma_held<E: Engine>(t: Seq<int>, at: int, c: E::GE)
    requires
        0 <= at,
        at + 9 <= t.len(),
        t.subrange(at, at + 9) == point_elements(c.coords()),
    ensures
        holds_point(t, at, c.coords()),
{
    c.lemma_coords();
    let k = c.coords();
    let s = t.subrange(at, at + 9);
    assert(s[0] == t[at] && s[1] == t[at + 1] && s[2] == t[at + 2] && s[3] == t[at + 3]);
    assert(s[4] == t[at + 4] && s[5] == t[at + 5] && s[6] == t[at + 6] && s[7] == t[at + 7]);
    assert(s[8] == t[at + 8]);
    let zero = k.0[0] == 0 && k.0[1] == 0 && k.0[2] == 0 && k.0[3] == 0 && k.1[0] == 0 && k.1[1]
        == 0 && k.1[2] == 0 && k.1[3] == 0;
    assert(crate::traits::all_zero(k) == zero) by {
        if zero {
            assert forall|i: int| 0 <= i < k.0.len() implies k.0[i] == 0 by {
                assert(i == 0 || i == 1 || i == 2 || i == 3);
            }
            assert forall|i: int| 0 <= i < k.1.len() implies k.1[i] == 0 by {
                assert(i == 0 || i == 1 || i == 2 || i == 3);
            }
        }
    }
    assert(s[0] == k.0[0] && s[1] == k.0[1] && s[2] == k.0[2] && s[3] == k.0[3]);
    assert(s[4] == k.1[0] && s[5] == k.1[1] && s[6] == k.1[2] && s[7] == k.1[3]);
}

/// Absorbing a fresh instance appends its commitment and then its public input.
pub proof fn law_instance_is_absorbed<E: Engine>(
    u: &R1CSInstance<E>,
    ro: &mut PoseidonRO<E::Scalar>,
)
    requires
        call_ensures(<R1CSInstance<E> as AbsorbInRO2Trait<E>>::absorb_in_ro2, (u, ro), ()),
    ensures
        grows_by(final(ro)@, old(ro)@, 9int + u.X@.len()),
        holds_point(final(ro)@, old(ro)@.len() as int, u.comm_W.coords()),
        holds_scalars(final(ro)@, old(ro)@.len() + 9int, u.X@),
        final(ro).params() == old(ro).params(),
{
    let (t, n) = (final(ro)@, old(ro)@.len() as int);
    u.comm_W.lemma_coords();
    assert(t.subrange(n, n + 9) =~= point_elements(u.comm_W.coords()));
    lemma_held::<E>(t, n, u.comm_W);
}

/// Absorbing a power check appends its commitment and then its scalar.
pub proof fn law_power_check_is_absorbed<E: Engine>(
    u: &PowerCheckInstance<E>,
    ro: &mut PoseidonRO<E::Scalar>,
)
    requires
        call_ensures(<PowerCheckInstance<E> as AbsorbInRO2Trait<E>>::absorb_in_ro2, (u, ro), ()),
    ensures
        grows_by(final(ro)@, old(ro)@, 10),
        holds_point(final(ro)@, old(ro)@.len() as int, u.comm_powers.coords()),
        final(ro)@[old(ro)@.len() + 9int] == u.tau.val(),
        final(ro).params() == old(ro).params(),
{
    let (t, n) = (final(ro)@, old(ro)@.len() as int);
    u.comm_powers.lemma_coords();
    assert(t.subrange(n, n + 9) =~= point_elements(u.comm_powers.coords()));
    lemma_held::<E>(t, n, u.comm_powers);
}

/// Absorbing a folded power check appends its claim, the commitment to its table, the commitment to
/// its weights and its scalar, in this order.
pub proof fn law_folded_power_check_is_absorbed<E: Engine>(
    u: &FoldedPowerCheckInstance<E>,
    ro: &mut PoseidonRO<E::Scalar>,
)
    requires
        call_ensures(
            <FoldedPowerCheckInstance<E> as AbsorbInRO2Trait<E>>::absorb_in_ro2,
            (u, ro),
            (),
        ),
    ensures
        grows_by(final(ro)@, old(ro)@, 20),
        final(ro)@[old(ro)@.len() as int] == u.pc_sumcheck_claim.val(),
        holds_point(final(ro)@, old(ro)@.len() + 1int, u.comm_witness.coords()),
        holds_point(final(ro)@, old(ro)@.len() + 10int, u.comm_weights.coords()),
        final(ro)@[old(ro)@.len() + 19int] == u.tau.val(),
        final(ro).params() == old(ro).params(),
{
    let (t, n) = (final(ro)@, old(ro)@.len() as int);
    u.comm_witness.lemma_coords();
    u.comm_weights.lemma_coords();
    assert(t.subrange(n + 1, n + 10) =~= point_elements(u.comm_witness.coords()));
    assert(t.subrange(n + 10, n + 19) =~= point_elements(u.comm_weights.coords()));
    lemma_held::<E>(t, n + 1, u.comm_witness);
    lemma_held::<E>(t, n + 10, u.comm_weights);
}

/// Absorbing a polynomial appends all its coefficients.
pub proof fn law_polynomial_is_absorbed<E: Engine>(
    u: &UniPoly<E::Scalar>,
    ro: &mut PoseidonRO<E::Scalar>,
)
    requires
        call_ensures(<UniPoly<E::Scalar> as AbsorbInRO2Trait<E>>::absorb_in_ro2, (u, ro), ()),
    ensures
        grows_by(final(ro)@, old(ro)@, u@.len() as int),
        holds_numbers(final(ro)@, old(ro)@.len() as int, u@),
        final(ro).params() == old(ro).params(),
{
}

} // verus!
