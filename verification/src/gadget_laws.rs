//! What the numbers of a circuit are bound to.
use vstd::prelude::*;
use crate::arith::{fmul, lemma_cong_mul, no_zero_divisors};
use crate::errors::SynthesisError;
use crate::field::Field;
use crate::frontend::{agrees, new_hold, ConstraintSystem, CsModel};
use crate::gadgets::{alloc_bit, alloc_constant, alloc_zero};
use crate::num::{assign, enforce_product, fresh, mul_add, product, quotient_num, AllocatedNum, Lin};

verus! {

/// A new number is bound to nothing: every assignment satisfies what was added with it. It has the
/// value that is given where there is a witness.
pub proof fn law_fresh_number_is_free<F: Field>(
    cs: &mut ConstraintSystem<F>,
    value: Option<F>,
    r: AllocatedNum<F>,
    a: Seq<int>,
)
    requires
        call_ensures(fresh::<F>, (cs, value), r),
    ensures
        new_hold(F::modulus(), old(cs)@, final(cs)@, a),
        old(cs)@.witness && agrees(a, final(cs)@) ==> r.at(a) == value->0.val(),
        final(cs)@.aux.len() == old(cs)@.aux.len() + 1,
{
}

/// A constant is bound to its value, and zero to zero, under every assignment, and so they are for
/// the values that the system records.
pub proof fn law_constants_are_bound<F: Field>(
    cs: &mut ConstraintSystem<F>,
    c: F,
    r: AllocatedNum<F>,
    ds: &mut ConstraintSystem<F>,
    z: AllocatedNum<F>,
    a: Seq<int>,
)
    requires
        call_ensures(alloc_constant::<F>, (cs, c), r),
        call_ensures(alloc_zero::<F>, (ds,), z),
    ensures
        new_hold(F::modulus(), old(cs)@, final(cs)@, a) <==> r.at(a) % F::modulus() == c.val(),
        agrees(a, final(cs)@) ==> r.at(a) % F::modulus() == c.val(),
        new_hold(F::modulus(), old(ds)@, final(ds)@, a) <==> z.at(a) % F::modulus() == 0,
        agrees(a, final(ds)@) ==> z.at(a) % F::modulus() == 0,
{
}

/// Without divisors of zero, a number times its difference to one vanishes for zero and one alone.
proof fn lemma_digit(p: int, x: int)
    requires
        p > 1,
        no_zero_divisors(p),
    ensures
        (x * (1 - x)) % p == 0 <==> x % p == 0 || x % p == 1,
{
    vstd::arithmetic::div_mod::lemma_small_mod(0, p as nat);
    vstd::arithmetic::div_mod::lemma_small_mod(1, p as nat);
    vstd::arithmetic::div_mod::lemma_mod_equivalence(1, x, p);
    if (x * (1 - x)) % p == 0 {
        assert(fmul(p, x, 1 - x) == 0);
    }
    if x % p == 0 {
        lemma_cong_mul(p, x, 1 - x, 0, 1 - x);
        assert(0 * (1 - x) == 0) by (nonlinear_arith);
    }
    if x % p == 1 {
        lemma_cong_mul(p, x, 1 - x, x, 0);
        assert(x * 0 == 0) by (nonlinear_arith);
    }
}

/// A digit is bound to zero and one, and to nothing else, and has the value that is given where
/// there is a witness.
pub proof fn law_digit_is_bound<F: Field>(
    cs: &mut ConstraintSystem<F>,
    value: Option<bool>,
    r: AllocatedNum<F>,
    a: Seq<int>,
)
    requires
        call_ensures(alloc_bit::<F>, (cs, value), r),
    ensures
        new_hold(F::modulus(), old(cs)@, final(cs)@, a) <==> r.at(a) % F::modulus() == 0
            || r.at(a) % F::modulus() == 1,
        agrees(a, final(cs)@) && old(cs)@.witness ==> r.at(a) == if value->0 {
            1int
        } else {
            0int
        },
{
    F::lemma_modulus();
    F::lemma_no_zero_divisors();
    lemma_digit(F::modulus(), r.at(a));
}

/// Products, sums and copies are bound to the values of what they are made of, under every
/// assignment, and so they are for the values that the system records.
pub proof fn law_results_are_bound<F: Field>(
    cs: (
        &mut ConstraintSystem<F>,
        &mut ConstraintSystem<F>,
        &mut ConstraintSystem<F>,
        &mut ConstraintSystem<F>,
    ),
    x: &Lin<F>,
    y: &Lin<F>,
    z: &Lin<F>,
    r: (AllocatedNum<F>, AllocatedNum<F>, AllocatedNum<F>),
    a: Seq<int>,
)
    requires
        call_ensures(product::<F>, (cs.0, x, y), r.0),
        call_ensures(mul_add::<F>, (cs.1, x, y, z), r.1),
        call_ensures(assign::<F>, (cs.2, x), r.2),
        call_ensures(enforce_product::<F>, (cs.3, x, y, z), ()),
    ensures
        ({
            let p = F::modulus();
            let (u, v, w) = (x.at(a), y.at(a), z.at(a));
            &&& new_hold(p, old(cs.0)@, final(cs.0)@, a) <==> r.0.at(a) % p == (u * v) % p
            &&& agrees(a, final(cs.0)@) ==> r.0.at(a) % p == (u * v) % p
            &&& new_hold(p, old(cs.1)@, final(cs.1)@, a) <==> r.1.at(a) % p == (u * v + w) % p
            &&& agrees(a, final(cs.1)@) ==> r.1.at(a) % p == (u * v + w) % p
            &&& new_hold(p, old(cs.2)@, final(cs.2)@, a) <==> r.2.at(a) % p == u % p
            &&& agrees(a, final(cs.2)@) ==> r.2.at(a) % p == u % p
            &&& new_hold(p, old(cs.3)@, final(cs.3)@, a) <==> (u * v) % p == w % p
        }),
{
}

/// A quotient is bound to be, times its divisor, what was divided. There is none where the recorded
/// divisor is zero.
pub proof fn law_quotient_is_bound<F: Field>(
    cs: &mut ConstraintSystem<F>,
    x: &AllocatedNum<F>,
    y: &AllocatedNum<F>,
    r: Result<AllocatedNum<F>, SynthesisError>,
    a: Seq<int>,
)
    requires
        call_ensures(quotient_num::<F>, (cs, x, y), r),
    ensures
        r matches Ok(q) ==> (new_hold(F::modulus(), old(cs)@, final(cs)@, a) <==> (q.at(a)
            * y.at(a)) % F::modulus() == x.at(a) % F::modulus()),
        r matches Ok(q) ==> (agrees(a, final(cs)@) ==> (q.at(a) * y.at(a)) % F::modulus() == x.at(a)
            % F::modulus()),
        r is Err <==> old(cs)@.witness && y.value->0.val() == 0,
        r matches Err(e) ==> e == SynthesisError::DivisionByZero,
{
}

/// A combination of numbers starts at nothing or at a constant, and each term adds its multiple of
/// its number, under every assignment.
pub proof fn law_combinations_add_up<F: Field>(
    cs: &ConstraintSystem<F>,
    c: F,
    n: &AllocatedNum<F>,
    zero: Lin<F>,
    constant: Lin<F>,
    var: Lin<F>,
    m: Ghost<CsModel>,
    l: Lin<F>,
    sums: (Lin<F>, Lin<F>, Lin<F>),
    a: Seq<int>,
)
    requires
        call_ensures(Lin::<F>::zero, (cs,), zero),
        call_ensures(Lin::<F>::constant, (cs, c), constant),
        call_ensures(Lin::<F>::var, (cs, n), var),
        call_ensures(Lin::<F>::plus, (l, m, n), sums.0),
        call_ensures(Lin::<F>::minus, (l, m, n), sums.1),
        call_ensures(Lin::<F>::plus_multiple, (l, m, c, n), sums.2),
    ensures
        zero.at(a) % F::modulus() == 0,
        constant.at(a) % F::modulus() == c.val(),
        var.at(a) % F::modulus() == n.at(a) % F::modulus(),
        sums.0.at(a) % F::modulus() == (l.at(a) + n.at(a)) % F::modulus(),
        sums.1.at(a) % F::modulus() == (l.at(a) - n.at(a)) % F::modulus(),
        sums.2.at(a) % F::modulus() == (l.at(a) + c.val() * n.at(a)) % F::modulus(),
{
    F::lemma_modulus();
    vstd::arithmetic::div_mod::lemma_small_mod(0, F::modulus() as nat);
}

} // verus!
