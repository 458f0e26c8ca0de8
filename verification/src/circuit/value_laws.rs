//! Which values the variables of a circuit take, and what its folds demand of them.
use vstd::prelude::*;
use crate::circuit::point::AllocatedNonnativePoint;
use crate::circuit::power_check_relation::{
    AllocatedFoldedPowerCheckInstance, AllocatedPowerCheckInstance,
};
use crate::circuit::relation::{fold_num, AllocatedFoldedInstance, AllocatedNonnativeR1CSInstance};
use crate::circuit::univariate::AllocatedUniPoly;
use crate::circuit::zerofold_nifs::AllocatedZeroFoldNIFS;
use crate::errors::SynthesisError;
use crate::field::{vals, Field};
use crate::frontend::{agrees, new_hold, ConstraintSystem};
use crate::gadgets::{at_all, digits, le_bits_to_num, to_bits_le_strict};
use crate::num::AllocatedNum;
use crate::power_check_relation::{FoldedPowerCheckInstance, PowerCheckInstance};
use crate::r1cs::R1CSInstance;
use crate::relation::FoldedInstance;
use crate::traits::{Engine, Group};
use crate::transcript::point_elements;
use crate::univariate::{lemma_peval_cong, peval, UniPoly};
use crate::weight_table::mod_seq;
use crate::zerofold_nifs::ZeroFoldNIFS;

verus! {

/// The numbers have the values of the limbs of both coordinates, and the mark is one for the
/// identity, whose limbs are all zero, and zero for every other point.
pub open spec fn shows_point<E: Engine>(
    c: AllocatedNonnativePoint<E>,
    a: Seq<int>,
    k: (Seq<u64>, Seq<u64>),
) -> bool {
    &&& c.x@.len() == 4
    &&& c.y@.len() == 4
    &&& forall|i: int| 0 <= i < 4 ==> (#[trigger] c.x@[i]).at(a) == k.0[i]
    &&& forall|i: int| 0 <= i < 4 ==> (#[trigger] c.y@[i]).at(a) == k.1[i]
    &&& c.is_infinity.at(a) == if k.0[0] == 0 && k.0[1] == 0 && k.0[2] == 0 && k.0[3] == 0
        && k.1[0] == 0 && k.1[1] == 0 && k.1[2] == 0 && k.1[3] == 0 {
        1int
    } else {
        0int
    }
}

/// The numbers have the given values, one by one.
pub open spec fn shows<F: Field>(v: Seq<AllocatedNum<F>>, a: Seq<int>, x: Seq<F>) -> bool {
    &&& v.len() == x.len()
    &&& forall|i: int| 0 <= i < v.len() ==> (#[trigger] v[i]).at(a) == x[i].val()
}

/// Values that are equal as sequences are equal one by one.
proof fn lemma_shows<F: Field>(v: Seq<AllocatedNum<F>>, a: Seq<int>, x: Seq<F>)
    requires
        at_all(v, a) == vals(x),
    ensures
        shows(v, a, x),
{
    assert(at_all(v, a).len() == v.len() && vals(x).len() == x.len());
    assert forall|i: int| 0 <= i < v.len() implies (#[trigger] v[i]).at(a) == x[i].val() by {
        assert(at_all(v, a)[i] == vals(x)[i]);
        assert(at_all(v, a)[i] == v[i].at(a));
        assert(vals(x)[i] == x[i].val());
    }
}

/// Values that are those of a point are shown one by one.
proof fn lemma_shows_point<E: Engine>(c: AllocatedNonnativePoint<E>, a: Seq<int>, g: E::GE)
    requires
        c.x@.len() == 4,
        c.y@.len() == 4,
        at_all(c.elements(), a) == point_elements(g.coords()),
    ensures
        shows_point(c, a, g.coords()),
{
    g.lemma_coords();
    let k = g.coords();
    let (s, e) = (at_all(c.elements(), a), point_elements(k));
    assert forall|i: int| 0 <= i < 4 implies (#[trigger] c.x@[i]).at(a) == k.0[i] by {
        assert(s[i] == e[i]);
    }
    assert forall|i: int| 0 <= i < 4 implies (#[trigger] c.y@[i]).at(a) == k.1[i] by {
        assert(s[4 + i] == e[4 + i]);
    }
    assert(s[8] == e[8]);
    let zero = k.0[0] == 0 && k.0[1] == 0 && k.0[2] == 0 && k.0[3] == 0 && k.1[0] == 0 && k.1[1]
        == 0 && k.1[2] == 0 && k.1[3] == 0;
    assert(crate::traits::all_zero(k) == zero) by {
        if zero {
            assert forall|i: int| 0 <= i < k.0.len() implies k.0[i] == 0 by {
                assert(i == 0 || i == 1 || i == 2 || i == 3);
            }
            assert forall|i: int| 0 <= i < k.1.len() implies k.1[i] == 0 by {
                assert(i == 0 || i == 1 || i == 2 || i == 3);
            }
        }
    }
}

/// The variables of a fresh instance record its commitment and its public input.
pub proof fn law_fresh_instance_is_recorded<E: Engine>(
    cs: &mut ConstraintSystem<E::Scalar>,
    num_io: usize,
    inst: &R1CSInstance<E>,
    u: AllocatedNonnativeR1CSInstance<E>,
    a: Seq<int>,
)
    requires
        call_ensures(
            AllocatedNonnativeR1CSInstance::<E>::allocate,
            (cs, num_io, Some(inst)),
            Ok::<AllocatedNonnativeR1CSInstance<E>, SynthesisError>(u),
        ),
        inst.X@.len() == num_io,
        agrees(a, final(cs)@),
    ensures
        shows_point(u.comm_W, a, inst.comm_W.coords()),
        shows(u.X@, a, inst.X@),
{
    inst.comm_W.lemma_coords();
    let s = at_all(u.elements(), a);
    assert(at_all(u.comm_W.elements(), a) =~= s.take(9));
    assert(s.take(9) =~= point_elements(inst.comm_W.coords()));
    assert(at_all(u.X@, a) =~= s.skip(9));
    assert(s.skip(9) =~= vals(inst.X@));
    lemma_shows_point(u.comm_W, a, inst.comm_W);
    lemma_shows(u.X@, a, inst.X@);
}

/// The variables of a running instance record its commitments, its claim, its scalar and its public
/// input.
pub proof fn law_running_instance_is_recorded<E: Engine>(
    cs: &mut ConstraintSystem<E::Scalar>,
    num_io: usize,
    inst: &FoldedInstance<E>,
    u: AllocatedFoldedInstance<E>,
    a: Seq<int>,
)
    requires
        call_ensures(
            AllocatedFoldedInstance::<E>::allocate,
            (cs, num_io, Some(inst)),
            Ok::<AllocatedFoldedInstance<E>, SynthesisError>(u),
        ),
        inst.X@.len() == num_io,
        agrees(a, final(cs)@),
    ensures
        shows_point(u.comm_W, a, inst.comm_W.coords()),
        shows_point(u.comm_E, a, inst.comm_E.coords()),
        u.T.at(a) == inst.T.val(),
        u.u.at(a) == inst.u.val(),
        shows(u.X@, a, inst.X@),
{
    lemma_shows_point(u.comm_W, a, inst.comm_W);
    lemma_shows_point(u.comm_E, a, inst.comm_E);
    lemma_shows(u.X@, a, inst.X@);
}

/// The variables of a fresh power check record its commitment and its scalar.
pub proof fn law_fresh_power_check_is_recorded<E: Engine>(
    cs: &mut ConstraintSystem<E::Scalar>,
    inst: &PowerCheckInstance<E>,
    u: AllocatedPowerCheckInstance<E>,
    a: Seq<int>,
)
    requires
        call_ensures(
            AllocatedPowerCheckInstance::<E>::allocate,
            (cs, Some(inst)),
            Ok::<AllocatedPowerCheckInstance<E>, SynthesisError>(u),
        ),
        agrees(a, final(cs)@),
    ensures
        shows_point(u.comm_powers, a, inst.comm_powers.coords()),
        u.tau.at(a) == inst.tau.val(),
{
    inst.comm_powers.lemma_coords();
    let s = at_all(u.elements(), a);
    assert(at_all(u.comm_powers.elements(), a) =~= s.take(9));
    assert(s.take(9) =~= point_elements(inst.comm_powers.coords()));
    assert(s[9] == inst.tau.val());
    lemma_shows_point(u.comm_powers, a, inst.comm_powers);
}

/// The variables of a running power check record its claim, its commitments and its scalar.
pub proof fn law_running_power_check_is_recorded<E: Engine>(
    cs: &mut ConstraintSystem<E::Scalar>,
    inst: &FoldedPowerCheckInstance<E>,
    u: AllocatedFoldedPowerCheckInstance<E>,
    a: Seq<int>,
)
    requires
        call_ensures(
            AllocatedFoldedPowerCheckInstance::<E>::allocate,
            (cs, Some(inst)),
            Ok::<AllocatedFoldedPowerCheckInstance<E>, SynthesisError>(u),
        ),
        agrees(a, final(cs)@),
    ensures
        u.pc_sumcheck_claim.at(a) == inst.pc_sumcheck_claim.val(),
        shows_point(u.comm_witness, a, inst.comm_witness.coords()),
        shows_point(u.comm_weights, a, inst.comm_weights.coords()),
        u.tau.at(a) == inst.tau.val(),
{
    inst.comm_witness.lemma_coords();
    inst.comm_weights.lemma_coords();
    let s = at_all(u.elements(), a);
    assert(s[0] == u.pc_sumcheck_claim.at(a));
    assert(at_all(u.comm_witness.elements(), a) =~= s.subrange(1, 10));
    assert(s.subrange(1, 10) =~= point_elements(inst.comm_witness.coords()));
    assert(at_all(u.comm_weights.elements(), a) =~= s.subrange(10, 19));
    assert(s.subrange(10, 19) =~= point_elements(inst.comm_weights.coords()));
    assert(s[19] == inst.tau.val());
    lemma_shows_point(u.comm_witness, a, inst.comm_witness);
    lemma_shows_point(u.comm_weights, a, inst.comm_weights);
}

/// The variables of a proof record its commitment and the coefficients of both polynomials, each in
/// its own place, up to the given degree.
pub proof fn law_proof_is_recorded<E: Engine>(
    cs: &mut ConstraintSystem<E::Scalar>,
    nifs: &ZeroFoldNIFS<E>,
    degree: usize,
    u: AllocatedZeroFoldNIFS<E>,
    a: Seq<int>,
    i: int,
)
    requires
        call_ensures(
            AllocatedZeroFoldNIFS::<E>::allocate,
            (cs, Some(nifs), degree),
            Ok::<AllocatedZeroFoldNIFS<E>, SynthesisError>(u),
        ),
        degree < nifs.poly_nsc@.len(),
        degree < nifs.poly_pc@.len(),
        agrees(a, final(cs)@),
        0 <= i <= degree,
    ensures
        shows_point(u.comm_E, a, nifs.comm_E.coords()),
        u.poly_nsc.coeffs@.len() == degree + 1,
        u.poly_pc.coeffs@.len() == degree + 1,
        u.poly_nsc.coeffs@[i].at(a) == nifs.poly_nsc@[i],
        u.poly_pc.coeffs@[i].at(a) == nifs.poly_pc@[i],
{
    lemma_shows_point(u.comm_E, a, nifs.comm_E);
    assert(u.poly_nsc.at(a)[i] == nifs.poly_nsc@.take(degree + 1)[i]);
    assert(u.poly_pc.at(a)[i] == nifs.poly_pc@.take(degree + 1)[i]);
}

/// The variables of a point record its coordinates and its mark as they are given. Every assignment
/// that satisfies the constraints has zero or one for the mark, if the field has no zero divisors.
pub proof fn law_point_is_recorded<E: Engine>(
    cs: &mut ConstraintSystem<E::Scalar>,
    c: ([u64; 4], [u64; 4], bool),
    u: AllocatedNonnativePoint<E>,
    a: Seq<int>,
    i: int,
)
    requires
        call_ensures(
            AllocatedNonnativePoint::<E>::allocate,
            (cs, Some(c)),
            Ok::<AllocatedNonnativePoint<E>, SynthesisError>(u),
        ),
        0 <= i < 4,
    ensures
        agrees(a, final(cs)@) ==> u.x@[i].at(a) == c.0@[i] && u.y@[i].at(a) == c.1@[i]
            && u.is_infinity.at(a) == if c.2 {
            1int
        } else {
            0int
        },
        new_hold(E::Scalar::modulus(), old(cs)@, final(cs)@, a) <==> (u.is_infinity.at(a) * (1
            - u.is_infinity.at(a))) % E::Scalar::modulus() == 0,
{
    if agrees(a, final(cs)@) {
        let s = at_all(u.elements(), a);
        assert(s[i] == u.x@[i].at(a));
        assert(s[4 + i] == u.y@[i].at(a));
        assert(s[8] == u.is_infinity.at(a));
    }
}

/// A default point is demanded to be the identity: all limbs are zero, and the mark is one.
pub proof fn law_default_point_is_the_identity<E: Engine>(
    cs: &mut ConstraintSystem<E::Scalar>,
    u: AllocatedNonnativePoint<E>,
    a: Seq<int>,
)
    requires
        call_ensures(
            AllocatedNonnativePoint::<E>::default,
            (cs,),
            Ok::<AllocatedNonnativePoint<E>, SynthesisError>(u),
        ),
    ensures
        new_hold(E::Scalar::modulus(), old(cs)@, final(cs)@, a) <==> {
            &&& forall|i: int|
                0 <= i < 4 ==> (#[trigger] u.x@[i]).at(a) % E::Scalar::modulus() == 0
            &&& forall|i: int|
                0 <= i < 4 ==> (#[trigger] u.y@[i]).at(a) % E::Scalar::modulus() == 0
            &&& u.is_infinity.at(a) % E::Scalar::modulus() == 1
        },
{
    let p = E::Scalar::modulus();
    let s = mod_seq(p, u.at(a));
    let e = crate::circuit::point::identity_elements();
    assert forall|i: int| 0 <= i < 4 implies s[i] == (#[trigger] u.x@[i]).at(a) % p by {}
    assert forall|i: int| 0 <= i < 4 implies s[4 + i] == (#[trigger] u.y@[i]).at(a) % p by {}
    assert(s[8] == u.is_infinity.at(a) % p);
    if s == e {
        assert forall|i: int| 0 <= i < 4 implies (#[trigger] u.x@[i]).at(a) % p == 0 by {
            assert(s[i] == e[i]);
        }
        assert forall|i: int| 0 <= i < 4 implies (#[trigger] u.y@[i]).at(a) % p == 0 by {
            assert(s[4 + i] == e[4 + i]);
        }
    }
    if (forall|i: int| 0 <= i < 4 ==> (#[trigger] u.x@[i]).at(a) % p == 0) && (forall|i: int|
        0 <= i < 4 ==> (#[trigger] u.y@[i]).at(a) % p == 0) && u.is_infinity.at(a) % p == 1 {
        assert forall|i: int| 0 <= i < 9 implies s[i] == e[i] by {
            if i < 4 {
                assert(u.x@[i].at(a) % p == 0);
            } else if i < 8 {
                assert(u.y@[i - 4].at(a) % p == 0);
            }
        }
        assert(s =~= e);
    }
}

/// A folded number is demanded to lie on the line.
pub proof fn law_number_folds<F: Field>(
    cs: &mut ConstraintSystem<F>,
    x: &AllocatedNum<F>,
    y: &AllocatedNum<F>,
    r: &AllocatedNum<F>,
    out: AllocatedNum<F>,
    a: Seq<int>,
)
    requires
        call_ensures(fold_num::<F>, (cs, x, y, r), out),
    ensures
        new_hold(F::modulus(), old(cs)@, final(cs)@, a) <==> out.at(a) % F::modulus() == (x.at(a)
            + r.at(a) * (y.at(a) - x.at(a))) % F::modulus(),
{
}

/// An instance in a circuit folds with a fresh one: the scalar towards one and the public inputs
/// are demanded to lie on the line, and the claim and the commitments are the given ones.
pub proof fn law_instance_in_a_circuit_folds<E: Engine>(
    u1: &AllocatedFoldedInstance<E>,
    cs: &mut ConstraintSystem<E::Scalar>,
    u2: &AllocatedNonnativeR1CSInstance<E>,
    r_b: &AllocatedNum<E::Scalar>,
    claim: &AllocatedNum<E::Scalar>,
    comm: (&AllocatedNonnativePoint<E>, &AllocatedNonnativePoint<E>),
    u: AllocatedFoldedInstance<E>,
    a: Seq<int>,
)
    requires
        call_ensures(
            AllocatedFoldedInstance::<E>::fold,
            (u1, cs, u2, r_b, claim, comm.0, comm.1),
            Ok::<AllocatedFoldedInstance<E>, SynthesisError>(u),
        ),
        u1.X@.len() == u2.X@.len(),
    ensures
        u.T == *claim,
        u.X@.len() == u1.X@.len(),
        at_all(u.comm_W.elements(), a) == at_all(comm.0.elements(), a),
        at_all(u.comm_E.elements(), a) == at_all(comm.1.elements(), a),
        new_hold(E::Scalar::modulus(), old(cs)@, final(cs)@, a) <==> {
            let p = E::Scalar::modulus();
            let r = r_b.at(a);
            &&& u.u.at(a) % p == (u1.u.at(a) + r * (1 - u1.u.at(a))) % p
            &&& forall|i: int|
                0 <= i < u1.X@.len() ==> (#[trigger] u.X@[i]).at(a) % p == (u1.X@[i].at(a) + r * (
                u2.X@[i].at(a) - u1.X@[i].at(a))) % p
        },
{
    let p = E::Scalar::modulus();
    let r = r_b.at(a);
    let x = mod_seq(p, at_all(u.X@, a));
    let l = mod_seq(p, crate::arith::lerp_seq(at_all(u1.X@, a), at_all(u2.X@, a), r));
    assert forall|i: int| 0 <= i < u1.X@.len() implies x[i] == (#[trigger] u.X@[i]).at(a) % p
        && l[i] == (u1.X@[i].at(a) + r * (u2.X@[i].at(a) - u1.X@[i].at(a))) % p by {
        assert(at_all(u1.X@, a)[i] == u1.X@[i].at(a));
        assert(at_all(u2.X@, a)[i] == u2.X@[i].at(a));
    }
    if x == l {
        assert forall|i: int| 0 <= i < u1.X@.len() implies (#[trigger] u.X@[i]).at(a) % p == (
        u1.X@[i].at(a) + r * (u2.X@[i].at(a) - u1.X@[i].at(a))) % p by {
            assert(x[i] == l[i]);
        }
    }
    if forall|i: int|
        0 <= i < u1.X@.len() ==> (#[trigger] u.X@[i]).at(a) % p == (u1.X@[i].at(a) + r * (
        u2.X@[i].at(a) - u1.X@[i].at(a))) % p {
        assert forall|i: int| 0 <= i < x.len() implies x[i] == l[i] by {
            assert(x[i] == u.X@[i].at(a) % p);
        }
        assert(x =~= l);
    }
}

/// A power check in a circuit folds with another: the scalar is demanded to lie on the line, and
/// the claim and the commitments are the given ones.
pub proof fn law_power_check_in_a_circuit_folds<E: Engine>(
    u1: &AllocatedFoldedPowerCheckInstance<E>,
    cs: &mut ConstraintSystem<E::Scalar>,
    u2: &AllocatedFoldedPowerCheckInstance<E>,
    r_b: &AllocatedNum<E::Scalar>,
    claim: &AllocatedNum<E::Scalar>,
    comm: (&AllocatedNonnativePoint<E>, &AllocatedNonnativePoint<E>),
    u: AllocatedFoldedPowerCheckInstance<E>,
    a: Seq<int>,
)
    requires
        call_ensures(
            AllocatedFoldedPowerCheckInstance::<E>::fold,
            (u1, cs, u2, r_b, claim, comm.0, comm.1),
            Ok::<AllocatedFoldedPowerCheckInstance<E>, SynthesisError>(u),
        ),
    ensures
        u.pc_sumcheck_claim == *claim,
        at_all(u.comm_witness.elements(), a) == at_all(comm.0.elements(), a),
        at_all(u.comm_weights.elements(), a) == at_all(comm.1.elements(), a),
        new_hold(E::Scalar::modulus(), old(cs)@, final(cs)@, a) <==> u.tau.at(a)
            % E::Scalar::modulus() == (u1.tau.at(a) + r_b.at(a) * (u2.tau.at(a) - u1.tau.at(a)))
            % E::Scalar::modulus(),
{
}

/// A polynomial in a circuit has the value of the one outside, if its coefficients and the point
/// do, under every assignment that satisfies the constraints.
pub proof fn law_polynomial_in_a_circuit_agrees<E: Engine>(
    poly: &AllocatedUniPoly<E>,
    cs: &mut ConstraintSystem<E::Scalar>,
    x: &AllocatedNum<E::Scalar>,
    v: AllocatedNum<E::Scalar>,
    outside: &UniPoly<E::Scalar>,
    y: &E::Scalar,
    w: E::Scalar,
    a: Seq<int>,
)
    requires
        call_ensures(
            AllocatedUniPoly::<E>::evaluate,
            (poly, cs, x),
            Ok::<AllocatedNum<E::Scalar>, SynthesisError>(v),
        ),
        call_ensures(UniPoly::<E::Scalar>::evaluate, (outside, y), w),
        poly.coeffs@.len() == outside@.len(),
        forall|i: int|
            0 <= i < outside@.len() ==> (#[trigger] poly.coeffs@[i]).at(a) % E::Scalar::modulus()
                == outside@[i] % E::Scalar::modulus(),
        x.at(a) % E::Scalar::modulus() == y.val() % E::Scalar::modulus(),
        new_hold(E::Scalar::modulus(), old(cs)@, final(cs)@, a),
    ensures
        v.at(a) % E::Scalar::modulus() == w.val(),
{
    let p = E::Scalar::modulus();
    E::Scalar::lemma_modulus();
    let c = poly.at(a);
    assert forall|i: int| 0 <= i < c.len() implies #[trigger] c[i] % p == outside@[i] % p by {
        assert(c[i] == poly.coeffs@[i].at(a));
    }
    lemma_peval_cong(p, c, outside@, x.at(a), y.val());
}

/// What is demanded of a polynomial and a claim in a circuit is that the values outside at zero and
/// at one add up to the claim.
pub proof fn law_claim_in_a_circuit_agrees<E: Engine>(
    poly: &AllocatedUniPoly<E>,
    cs: &mut ConstraintSystem<E::Scalar>,
    claim: &AllocatedNum<E::Scalar>,
    outside: &UniPoly<E::Scalar>,
    u: E::Scalar,
    v: E::Scalar,
    a: Seq<int>,
)
    requires
        call_ensures(
            AllocatedUniPoly::<E>::check_poly_zero_poly_one_with,
            (poly, cs, claim),
            (),
        ),
        call_ensures(UniPoly::<E::Scalar>::eval_at_zero, (outside,), u),
        call_ensures(UniPoly::<E::Scalar>::eval_at_one, (outside,), v),
        poly.coeffs@.len() == outside@.len(),
        forall|i: int|
            0 <= i < outside@.len() ==> (#[trigger] poly.coeffs@[i]).at(a) % E::Scalar::modulus()
                == outside@[i] % E::Scalar::modulus(),
    ensures
        new_hold(E::Scalar::modulus(), old(cs)@, final(cs)@, a) <==> (u.val() + v.val())
            % E::Scalar::modulus() == claim.at(a) % E::Scalar::modulus(),
{
    let p = E::Scalar::modulus();
    E::Scalar::lemma_modulus();
    let c = poly.at(a);
    assert forall|i: int| 0 <= i < c.len() implies #[trigger] c[i] % p == outside@[i] % p by {
        assert(c[i] == poly.coeffs@[i].at(a));
    }
    lemma_peval_cong(p, c, outside@, 0, 0);
    lemma_peval_cong(p, c, outside@, 1, 1);
    let (e, f) = (peval(c, 0), peval(c, 1));
    crate::arith::lemma_mod(p, e);
    crate::arith::lemma_mod(p, f);
    crate::arith::lemma_cong_add(p, u.val(), v.val(), e, f);
}

/// The digits of a number in a circuit are zeros and ones, and are those of the number outside, if
/// it has the same value: there is one way to write a number with digits.
pub proof fn law_digits_in_a_circuit_agree<F: Field>(
    cs: &mut ConstraintSystem<F>,
    x: &AllocatedNum<F>,
    d: Vec<AllocatedNum<F>>,
    y: F,
    e: Vec<bool>,
    a: Seq<int>,
    i: int,
)
    requires
        call_ensures(to_bits_le_strict::<F>, (cs, x), d),
        call_ensures(F::to_le_bits, (y,), e),
        x.at(a) % F::modulus() == y.val(),
        new_hold(F::modulus(), old(cs)@, final(cs)@, a),
        0 <= i < 256,
    ensures
        d@.len() == 256,
        d@[i].at(a) % F::modulus() == if e@[i] {
            1int
        } else {
            0int
        },
{
    let p = F::modulus();
    let b = digits(p, at_all(d@, a));
    crate::packing::lemma_bits_unique(b, e@);
    assert(at_all(d@, a)[i] == d@[i].at(a));
    assert(b[i] == e@[i]);
}

/// The number of digits in a circuit is demanded to be their sum, each weighted by twice the weight
/// of the one before, from one on.
pub proof fn law_digits_are_weighed<F: Field>(
    cs: &mut ConstraintSystem<F>,
    d: &Vec<AllocatedNum<F>>,
    x: AllocatedNum<F>,
    a: Seq<int>,
)
    requires
        call_ensures(le_bits_to_num::<F>, (cs, d), x),
    ensures
        new_hold(F::modulus(), old(cs)@, final(cs)@, a) <==> x.at(a) % F::modulus()
            == crate::arith::sum(
            |i: int| crate::arith::power(2, i as nat) * at_all(d@, a)[i],
            0,
            d@.len() as int,
        ) % F::modulus(),
{
}

} // verus!
