//! What holds of every polynomial.
use vstd::prelude::*;
use crate::arith::{fadd, fmul, lemma_cong_add, lemma_cong_mul, lemma_mod, power, sum};
use crate::errors::NovaError;
use crate::field::{vals, Field};
use crate::nifs_laws::lemma_left_of;
use crate::sumcheck::output_claim;
use crate::transcript_laws::left_of;
use crate::univariate::{coeff, combine, lemma_peval_combine, lemma_peval_cong, peval, UniPoly};

verus! {

/// The value of a polynomial with one more coefficient.
pub proof fn lemma_peval_push(c: Seq<int>, v: int, x: int)
    ensures
        peval(c.push(v), x) == peval(c, x) + v * power(x, c.len()),
    decreases c.len(),
{
    let d = c.push(v);
    if c.len() == 0 {
        assert(peval(d.drop_first(), x) == 0) by {
            assert(d.drop_first().len() == 0);
        }
        assert(x * 0 == 0) by (nonlinear_arith);
        assert(v * 1 == v) by (nonlinear_arith);
    } else {
        lemma_peval_push(c.drop_first(), v, x);
        assert(d.drop_first() =~= c.drop_first().push(v));
        let (e, k) = (peval(c.drop_first(), x), power(x, (c.len() - 1) as nat));
        assert(x * (e + v * k) == x * e + v * (k * x)) by (nonlinear_arith);
    }
}

/// A polynomial without coefficients is zero everywhere. One more coefficient at the end adds its
/// multiple of the power of the point whose exponent is the number of coefficients before it.
pub proof fn law_coefficients_weigh_powers<F: Field>(
    a: &UniPoly<F>,
    b: &UniPoly<F>,
    x: &F,
    u: F,
    v: F,
)
    requires
        call_ensures(UniPoly::<F>::evaluate, (a, x), u),
        call_ensures(UniPoly::<F>::evaluate, (b, x), v),
    ensures
        a@.len() == 0 ==> u.val() == 0,
        b@.len() == a@.len() + 1 && b@.take(a@.len() as int) == a@ ==> v.val() == (u.val()
            + b@[a@.len() as int] * power(x.val(), a@.len())) % F::modulus(),
{
    let p = F::modulus();
    F::lemma_modulus();
    vstd::arithmetic::div_mod::lemma_small_mod(0, p as nat);
    if b@.len() == a@.len() + 1 && b@.take(a@.len() as int) == a@ {
        let c = b@[a@.len() as int];
        assert(b@ =~= a@.push(c));
        lemma_peval_push(a@, c, x.val());
        let (e, d) = (peval(a@, x.val()), c * power(x.val(), a@.len()));
        lemma_mod(p, e);
        lemma_cong_add(p, e, d, u.val(), d);
    }
}

/// The coefficients are those that the polynomial was made of, and are handed out as they are.
pub proof fn law_coefficients_are_kept<F: Field>(v: Vec<F>, a: UniPoly<F>, s: &[F])
    requires
        call_ensures(UniPoly::<F>::from_coeffs, (v,), a),
        call_ensures(UniPoly::<F>::coeffs, (&a,), s),
    ensures
        s@.len() == v@.len(),
        forall|i: int| 0 <= i < v@.len() ==> (#[trigger] s@[i]).val() == v@[i].val(),
{
    assert(vals(s@) == vals(v@));
    assert(vals(s@).len() == s@.len() && vals(v@).len() == v@.len());
    assert forall|i: int| 0 <= i < v@.len() implies (#[trigger] s@[i]).val() == v@[i].val() by {
        assert(vals(s@)[i] == s@[i].val());
        assert(vals(v@)[i] == v@[i].val());
    }
}

/// The value at one of the first `n` coefficients is their sum.
proof fn lemma_at_one(c: Seq<int>, n: int)
    requires
        0 <= n <= c.len(),
    ensures
        peval(c.take(n), 1) == sum(|i: int| c[i], 0, n),
    decreases n,
{
    if n > 0 {
        lemma_at_one(c, n - 1);
        assert(c.take(n) =~= c.take(n - 1).push(c[n - 1]));
        lemma_peval_push(c.take(n - 1), c[n - 1], 1);
        lemma_power_of_one((n - 1) as nat);
    }
}

/// The powers of one are one.
proof fn lemma_power_of_one(k: nat)
    ensures
        power(1, k) == 1,
    decreases k,
{
    if k > 0 {
        lemma_power_of_one((k - 1) as nat);
    }
}

/// The value at zero is the first coefficient, the value at one is the sum of all, and both are
/// what evaluation at zero and at one gives.
pub proof fn law_values_at_zero_and_one<F: Field>(a: &UniPoly<F>, u: F, v: F, x: &F, e: F)
    requires
        call_ensures(UniPoly::<F>::eval_at_zero, (a,), u),
        call_ensures(UniPoly::<F>::eval_at_one, (a,), v),
        call_ensures(UniPoly::<F>::evaluate, (a, x), e),
        a@.len() > 0,
    ensures
        u.val() == a@[0] % F::modulus(),
        v.val() == sum(|i: int| a@[i], 0, a@.len() as int) % F::modulus(),
        x.val() == 0 ==> e.val() == u.val(),
        x.val() == 1 ==> e.val() == v.val(),
{
    lemma_at_one(a@, a@.len() as int);
    assert(a@.take(a@.len() as int) =~= a@);
    assert(0 * peval(a@.drop_first(), 0) == 0) by (nonlinear_arith);
}

/// Zeros behind the coefficients do not change values.
proof fn lemma_peval_padded(c: Seq<int>, d: Seq<int>, x: int)
    requires
        c.len() <= d.len(),
        d.take(c.len() as int) == c,
        forall|i: int| c.len() <= i < d.len() ==> #[trigger] d[i] == 0,
    ensures
        peval(d, x) == peval(c, x),
    decreases d.len(),
{
    if c.len() == d.len() {
        assert(d.take(d.len() as int) =~= d);
    } else {
        let n = d.len() - 1;
        assert(d.take(n).take(c.len() as int) =~= d.take(c.len() as int));
        lemma_peval_padded(c, d.take(n), x);
        assert(d =~= d.take(n).push(d[n]));
        lemma_peval_push(d.take(n), d[n], x);
        assert(0 * power(x, d.take(n).len()) == 0) by (nonlinear_arith);
    }
}

/// The values of a sum are the sums of the values, whatever the lengths, and the values of a
/// multiple are the multiples of the values.
pub proof fn law_values_add_and_scale<F: Field>(
    a: &UniPoly<F>,
    b: &UniPoly<F>,
    by: &F,
    added: UniPoly<F>,
    scaled: UniPoly<F>,
    x: &F,
    u: F,
    v: F,
    w: F,
    y: F,
)
    requires
        call_ensures(UniPoly::<F>::add, (a, b), added),
        call_ensures(UniPoly::<F>::scaled, (a, by), scaled),
        call_ensures(UniPoly::<F>::evaluate, (a, x), u),
        call_ensures(UniPoly::<F>::evaluate, (b, x), v),
        call_ensures(UniPoly::<F>::evaluate, (&added, x), w),
        call_ensures(UniPoly::<F>::evaluate, (&scaled, x), y),
    ensures
        w.val() == (u.val() + v.val()) % F::modulus(),
        y.val() == (u.val() * by.val()) % F::modulus(),
        added@.len() >= a@.len(),
        added@.len() >= b@.len(),
        added@.len() == a@.len() || added@.len() == b@.len(),
        scaled@.len() == a@.len(),
{
    let p = F::modulus();
    let t = x.val();
    F::lemma_modulus();
    let n = added@.len();
    let s = Seq::new(n, |i: int| coeff(a@, i));
    let r = Seq::new(n, |i: int| coeff(b@, i));
    assert(s.take(a@.len() as int) =~= a@);
    assert(r.take(b@.len() as int) =~= b@);
    lemma_peval_padded(a@, s, t);
    lemma_peval_padded(b@, r, t);
    let c = combine(1, s, 1, r);
    assert forall|i: int| 0 <= i < n implies #[trigger] added@[i] % p == c[i] % p by {
        assert(added@[i] == fadd(p, s[i], r[i]));
        lemma_mod(p, s[i] + r[i]);
    }
    lemma_peval_cong(p, added@, c, t, t);
    lemma_peval_combine(1, s, 1, r, t);
    let (f, g) = (peval(a@, t), peval(b@, t));
    lemma_mod(p, f);
    lemma_mod(p, g);
    lemma_cong_add(p, f, g, u.val(), v.val());
    let k = combine(by.val(), a@, 0, a@);
    assert forall|i: int| 0 <= i < scaled@.len() implies #[trigger] scaled@[i] % p == k[i] % p by {
        assert(scaled@[i] == fmul(p, a@[i], by.val()));
        lemma_mod(p, a@[i] * by.val());
        let z = a@[i];
        assert(by.val() * z + 0 * z == z * by.val()) by (nonlinear_arith);
    }
    lemma_peval_cong(p, scaled@, k, t, t);
    lemma_peval_combine(by.val(), a@, 0, a@, t);
    assert(by.val() * f + 0 * f == f * by.val()) by (nonlinear_arith);
    lemma_cong_mul(p, f, by.val(), u.val(), by.val());
}

/// Coefficient by coefficient, a sum adds, and a multiple multiplies.
pub proof fn law_coefficients_add_and_scale<F: Field>(
    a: &UniPoly<F>,
    b: &UniPoly<F>,
    by: &F,
    added: UniPoly<F>,
    scaled: UniPoly<F>,
    i: int,
)
    requires
        call_ensures(UniPoly::<F>::add, (a, b), added),
        call_ensures(UniPoly::<F>::scaled, (a, by), scaled),
        0 <= i < a@.len(),
        0 <= i < b@.len(),
    ensures
        added@[i] == (a@[i] + b@[i]) % F::modulus(),
        scaled@[i] == (a@[i] * by.val()) % F::modulus(),
{
}

/// The polynomial through values takes them: at `j`, value `j`. It has as many coefficients as
/// there are values.
pub proof fn law_interpolation_takes_the_values<F: Field>(
    v: &[F],
    a: UniPoly<F>,
    x: &F,
    u: F,
    j: int,
)
    requires
        call_ensures(UniPoly::<F>::from_evals, (v,), a),
        call_ensures(UniPoly::<F>::evaluate, (&a, x), u),
        0 <= j < v@.len(),
        x.val() == j,
    ensures
        u.val() == v@[j].val(),
        a@.len() == v@.len(),
{
}

/// What is left of a claim, times the equality polynomial, is the value of the round polynomial;
/// there is none if and only if the equality polynomial vanishes.
pub proof fn law_claim_that_is_left<F: Field>(
    poly: &UniPoly<F>,
    rho: &F,
    r_b: &F,
    r: Result<F, NovaError>,
    u: F,
)
    requires
        call_ensures(output_claim::<F>, (poly, rho, r_b), r),
        call_ensures(UniPoly::<F>::evaluate, (poly, r_b), u),
    ensures
        ({
            let p = F::modulus();
            let (x, y) = (rho.val(), r_b.val());
            &&& r is Ok <==> ((1 - x) * (1 - y) + x * y) % p != 0
            &&& r matches Ok(t) ==> (t.val() * ((1 - x) * (1 - y) + x * y)) % p == u.val()
            &&& r matches Err(e) ==> e == NovaError::DivideByZero
        }),
{
    F::lemma_modulus();
    if r is Ok {
        lemma_left_of(F::modulus(), poly@, rho.val(), r_b.val());
        assert(left_of(F::modulus(), poly@, rho.val(), r_b.val(), r->Ok_0.val()));
    }
}

} // verus!
