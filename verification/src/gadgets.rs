//! Constants and binary digits inside a circuit.
use vstd::prelude::*;
use crate::arith::{
    fmul, group_is, is, lemma_cong_add, lemma_cong_mul, lemma_cong_sub, lemma_mod,
    no_zero_divisors, power, sum,
};
use crate::field::{bits_value, lemma_seed_const, Field};
use crate::frontend::{agrees, lemma_chain, lemma_zero_diff, new_hold, ConstraintSystem, CsModel};
use crate::num::{assign, complete, enforce_product, fresh, mul_add, AllocatedNum, Lin};
use crate::packing::lemma_bits_unique;
use crate::ro::lemma_bits_bound;
use crate::weight_table::mod_seq;

verus! {

/// A variable that equals a constant.
pub fn alloc_constant<F: Field>(cs: &mut ConstraintSystem<F>, c: F) -> (r: AllocatedNum<F>)
    requires
        old(cs)@.wf(),
    ensures
        old(cs)@.extended_by(final(cs)@),
        final(cs)@.aux.len() == old(cs)@.aux.len() + 1,
        final(cs)@.constraints.len() == old(cs)@.constraints.len() + 1,
        r.sits(old(cs)@.aux.len() as int),
        r.wf(final(cs)@),
        forall|a: Seq<int>| #[trigger]
            new_hold(F::modulus(), old(cs)@, final(cs)@, a) <==> r.at(a) % F::modulus() == c.val(),
        complete(F::modulus(), old(cs)@, final(cs)@),
{
    let x = Lin::constant(cs, c);
    assign(cs, &x)
}

/// A variable that equals zero.
pub fn alloc_zero<F: Field>(cs: &mut ConstraintSystem<F>) -> (r: AllocatedNum<F>)
    requires
        old(cs)@.wf(),
    ensures
        old(cs)@.extended_by(final(cs)@),
        final(cs)@.aux.len() == old(cs)@.aux.len() + 1,
        final(cs)@.constraints.len() == old(cs)@.constraints.len() + 1,
        r.sits(old(cs)@.aux.len() as int),
        r.wf(final(cs)@),
        forall|a: Seq<int>| #[trigger]
            new_hold(F::modulus(), old(cs)@, final(cs)@, a) <==> r.at(a) % F::modulus() == 0,
        complete(F::modulus(), old(cs)@, final(cs)@),
{
    let ghost p = F::modulus();
    let value = if cs.has_witness() {
        Some(F::zero())
    } else {
        None
    };
    let r = fresh(cs, value);
    let ghost s1 = cs@;
    let x = Lin::var(cs, &r);
    let y = Lin::constant(cs, F::one());
    let z = Lin::zero(cs);
    enforce_product(cs, &x, &y, &z);
    proof {
        lemma_seed_const::<F>(0);
        lemma_seed_const::<F>(1);
        lemma_chain(p, old(cs)@, s1, cs@);
        r.lemma_grow(s1, cs@);
        assert forall|a: Seq<int>| #[trigger] new_hold(p, old(cs)@, cs@, a) <==> r.at(a) % p
            == 0 by {
            assert(new_hold(p, old(cs)@, s1, a));
            lemma_cong_mul(p, x.at(a), y.at(a), r.at(a), 1);
        }
        assert forall|a: Seq<int>| #[trigger] agrees(a, cs@) implies new_hold(
            p,
            old(cs)@,
            cs@,
            a,
        ) by {
            r.lemma_at(s1, a);
            lemma_cong_mul(p, x.at(a), y.at(a), 0, 1);
            assert(new_hold(p, s1, cs@, a));
            assert(new_hold(p, old(cs)@, s1, a));
        }
    }
    r
}

/// The constraint of a digit.
pub open spec fn bit_row(p: int, t: int) -> bool {
    (t * (1 - t)) % p == 0
}

/// A variable that is zero or one. Its constraint says that its product with its complement
/// vanishes.
pub fn alloc_bit<F: Field>(cs: &mut ConstraintSystem<F>, value: Option<bool>) -> (r: AllocatedNum<F>)
    requires
        old(cs)@.wf(),
        old(cs)@.witness ==> value is Some,
    ensures
        old(cs)@.extended_by(final(cs)@),
        final(cs)@.aux.len() == old(cs)@.aux.len() + 1,
        final(cs)@.constraints.len() == old(cs)@.constraints.len() + 1,
        r.sits(old(cs)@.aux.len() as int),
        r.wf(final(cs)@),
        old(cs)@.witness ==> r.value is Some && r.value->0.val() == (if value->0 {
            1int
        } else {
            0
        }),
        forall|a: Seq<int>| #[trigger]
            new_hold(F::modulus(), old(cs)@, final(cs)@, a) <==> bit_row(F::modulus(), r.at(a)),
        complete(F::modulus(), old(cs)@, final(cs)@),
{
    let ghost p = F::modulus();
    let v = match value {
        Some(b) => if b {
            Some(F::one())
        } else {
            Some(F::zero())
        },
        None => None,
    };
    let r = fresh(cs, v);
    let ghost s1 = cs@;
    let one = Lin::constant(cs, F::one());
    let x = one.minus(Ghost(cs@), &r);
    let y = Lin::var(cs, &r);
    let z = Lin::zero(cs);
    enforce_product(cs, &x, &y, &z);
    proof {
        lemma_seed_const::<F>(0);
        lemma_seed_const::<F>(1);
        lemma_chain(p, old(cs)@, s1, cs@);
        r.lemma_grow(s1, cs@);
        assert forall|a: Seq<int>| x.at(a) % p == (1 - r.at(a)) % p && #[trigger] y.at(a) % p
            == r.at(a) % p by {
            lemma_cong_sub(p, one.at(a), r.at(a), 1, r.at(a));
            assert(x.at(a) % p == (one.at(a) - r.at(a)) % p);
        }
        assert forall|a: Seq<int>| #[trigger] new_hold(p, old(cs)@, cs@, a) <==> (r.at(a) * (1
            - r.at(a))) % p == 0 by {
            assert(new_hold(p, old(cs)@, s1, a));
            lemma_cong_mul(p, x.at(a), y.at(a), 1 - r.at(a), r.at(a));
            let t = r.at(a);
            assert((1 - t) * t == t * (1 - t)) by (nonlinear_arith);
        }
        assert forall|a: Seq<int>| #[trigger] agrees(a, cs@) implies new_hold(
            p,
            old(cs)@,
            cs@,
            a,
        ) by {
            r.lemma_at(s1, a);
            lemma_cong_mul(p, x.at(a), y.at(a), 1 - r.at(a), r.at(a));
            let t = r.at(a);
            assert((1 - t) * t == 0) by (nonlinear_arith)
                requires
                    t == 0 || t == 1,
            ;
            assert(new_hold(p, s1, cs@, a));
            assert(new_hold(p, old(cs)@, s1, a));
        }
    }
    r
}

/// The variables are all of the system.
pub open spec fn all_wf<F: Field>(v: Seq<AllocatedNum<F>>, cs: CsModel) -> bool {
    forall|i: int| 0 <= i < v.len() ==> (#[trigger] v[i]).wf(cs)
}

/// What is known of variables stays true when the system grows.
pub proof fn lemma_all_grow<F: Field>(v: Seq<AllocatedNum<F>>, s: CsModel, t: CsModel)
    requires
        all_wf(v, s),
        s.extended_by(t),
    ensures
        all_wf(v, t),
{
    assert forall|i: int| 0 <= i < v.len() implies (#[trigger] v[i]).wf(t) by {
        v[i].lemma_grow(s, t);
    }
}

/// The values of the variables under an assignment.
pub open spec fn at_all<F: Field>(v: Seq<AllocatedNum<F>>, a: Seq<int>) -> Seq<int> {
    Seq::new(v.len(), |i: int| v[i].at(a))
}

/// The values of `k` private variables from variable `n` on.
pub open spec fn slots(a: Seq<int>, n: int, k: nat) -> Seq<int> {
    Seq::new(k, |i: int| a[n + i])
}

/// The variables are private variables in a row, from variable `n` on.
pub open spec fn sit_from<F: Field>(v: Seq<AllocatedNum<F>>, n: int) -> bool {
    forall|i: int| 0 <= i < v.len() ==> (#[trigger] v[i]).sits(n + i)
}

/// Variables in a row have the values of their places.
pub proof fn lemma_slots<F: Field>(v: Seq<AllocatedNum<F>>, n: int, a: Seq<int>)
    requires
        sit_from(v, n),
    ensures
        at_all(v, a) == slots(a, n, v.len()),
{
    assert forall|i: int| 0 <= i < v.len() implies at_all(v, a)[i] == slots(a, n, v.len())[i] by {
        assert(v[i].sits(n + i));
    }
    assert(at_all(v, a) =~= slots(a, n, v.len()));
}

/// The binary digits that the values stand for modulo `p`.
pub open spec fn digits(p: int, x: Seq<int>) -> Seq<bool> {
    Seq::new(x.len(), |i: int| x[i] % p == 1)
}

/// The values are all zero or one modulo `p`.
pub open spec fn all_binary(p: int, x: Seq<int>) -> bool {
    forall|i: int| 0 <= i < x.len() ==> #[trigger] x[i] % p == 0 || x[i] % p == 1
}

/// The values weighted with the powers of two.
pub open spec fn weighted(x: Seq<int>, n: int) -> int {
    sum(|i: int| power(2, i as nat) * x[i], 0, n)
}

/// For binary values the weighted sum is the number that their digits stand for.
pub proof fn lemma_weighted(p: int, x: Seq<int>, n: int)
    requires
        p > 1,
        all_binary(p, x),
        0 <= n <= x.len(),
    ensures
        weighted(x, n) % p == bits_value(digits(p, x).take(n)) % p,
    decreases n,
{
    let f = |i: int| power(2, i as nat) * x[i];
    if n > 0 {
        lemma_weighted(p, x, n - 1);
        let d = digits(p, x);
        assert(d.take(n).drop_last() =~= d.take(n - 1));
        let b: int = if d[n - 1] {
            1
        } else {
            0
        };
        assert(x[n - 1] % p == b);
        vstd::arithmetic::div_mod::lemma_small_mod(b as nat, p as nat);
        let w = power(2, (n - 1) as nat);
        lemma_cong_mul(p, w, x[n - 1], w, b);
        assert(w * 1 == w && w * 0 == 0);
        lemma_cong_add(p, weighted(x, n - 1), f(n - 1), bits_value(d.take(n - 1)), w * b);
    } else {
        assert(digits(p, x).take(0).len() == 0);
    }
}

/// The combination of variables weighted with the powers of two.
fn weigh<F: Field>(cs: &ConstraintSystem<F>, bits: &Vec<AllocatedNum<F>>) -> (r: Lin<F>)
    requires
        cs@.wf(),
        all_wf(bits@, cs@),
    ensures
        r.wf(cs@),
        forall|a: Seq<int>| #[trigger]
            r.at(a) % F::modulus() == weighted(at_all(bits@, a), bits@.len() as int) % F::modulus(),
{
    let ghost p = F::modulus();
    let mut acc = Lin::zero(cs);
    let mut coeff = F::one();
    let mut i: usize = 0;
    proof {
        lemma_seed_const::<F>(1);
    }
    while i < bits.len()
        invariant
            i <= bits@.len(),
            p == F::modulus(),
            p > 1,
            cs@.wf(),
            all_wf(bits@, cs@),
            acc.wf(cs@),
            is(p, coeff.val(), power(2, i as nat)),
            forall|a: Seq<int>| #[trigger]
                acc.at(a) % p == weighted(at_all(bits@, a), i as int) % p,
        decreases bits@.len() - i,
    {
        let ghost before = acc;
        let ghost c = coeff;
        acc = acc.plus_multiple(Ghost(cs@), coeff, &bits[i]);
        coeff = coeff.add(coeff);
        proof {
            broadcast use group_is;

            lemma_mod(p, power(2, i as nat));
            assert forall|a: Seq<int>| #[trigger] acc.at(a) % p == weighted(
                at_all(bits@, a),
                i + 1,
            ) % p by {
                let x = at_all(bits@, a);
                let v = x[i as int];
                lemma_cong_mul(p, c.val(), v, power(2, i as nat), v);
                lemma_cong_add(
                    p,
                    before.at(a),
                    c.val() * v,
                    weighted(x, i as int),
                    power(2, i as nat) * v,
                );
            }
        }
        i += 1;
    }
    acc
}

/// The number whose little-endian binary digits the variables are.
pub fn le_bits_to_num<F: Field>(cs: &mut ConstraintSystem<F>, bits: &Vec<AllocatedNum<F>>) -> (r:
    AllocatedNum<F>)
    requires
        old(cs)@.wf(),
        all_wf(bits@, old(cs)@),
    ensures
        old(cs)@.extended_by(final(cs)@),
        final(cs)@.aux.len() == old(cs)@.aux.len() + 1,
        final(cs)@.constraints.len() == old(cs)@.constraints.len() + 1,
        r.sits(old(cs)@.aux.len() as int),
        r.wf(final(cs)@),
        forall|a: Seq<int>| #[trigger]
            new_hold(F::modulus(), old(cs)@, final(cs)@, a) <==> r.at(a) % F::modulus() == weighted(
                at_all(bits@, a),
                bits@.len() as int,
            ) % F::modulus(),
        forall|a: Seq<int>| #[trigger]
            new_hold(F::modulus(), old(cs)@, final(cs)@, a) && all_binary(
                F::modulus(),
                at_all(bits@, a),
            ) ==> r.at(a) % F::modulus() == bits_value(digits(F::modulus(), at_all(bits@, a)))
                % F::modulus(),
        complete(F::modulus(), old(cs)@, final(cs)@),
{
    let ghost p = F::modulus();
    let x = weigh(cs, bits);
    let r = assign(cs, &x);
    proof {
        lemma_seed_const::<F>(1);
        assert forall|a: Seq<int>| #[trigger]
            new_hold(p, old(cs)@, cs@, a) && all_binary(p, at_all(bits@, a)) implies r.at(a) % p
            == bits_value(digits(p, at_all(bits@, a))) % p by {
            let v = at_all(bits@, a);
            lemma_weighted(p, v, v.len() as int);
            assert(digits(p, v).take(v.len() as int) =~= digits(p, v));
        }
    }
    r
}

/// One step of comparing binary numbers from the lowest digit up.
proof fn lemma_compare_step(b: Seq<bool>, m: Seq<bool>, i: int)
    requires
        0 <= i < b.len(),
        i < m.len(),
    ensures
        bits_value(b.take(i + 1)) <= bits_value(m.take(i + 1)) <==> (if b[i] == m[i] {
            bits_value(b.take(i)) <= bits_value(m.take(i))
        } else {
            m[i]
        }),
{
    assert(b.take(i + 1).drop_last() =~= b.take(i));
    assert(m.take(i + 1).drop_last() =~= m.take(i));
    lemma_bits_bound(b.take(i));
    lemma_bits_bound(m.take(i));
}

/// The flag after one more digit, where the flag says whether the lower digits are at most those of
/// the bound.
pub open spec fn compare_step(bound: bool, flag: int, x: int) -> int {
    if bound {
        x * (flag - 1) + 1
    } else {
        flag * (1 - x)
    }
}

/// Flag `i + 1` follows from flag `i`, where the flags sit from variable `n` on.
pub open spec fn compare_row(
    p: int,
    n: int,
    x: Seq<int>,
    bound: Seq<bool>,
    a: Seq<int>,
    i: int,
) -> bool {
    a[n + i + 1] % p == compare_step(bound[i], a[n + i], x[i]) % p
}

/// The constraints of a comparison of the first `k` digits.
pub open spec fn compare_rows(
    p: int,
    n: int,
    x: Seq<int>,
    bound: Seq<bool>,
    a: Seq<int>,
    k: int,
) -> bool {
    &&& a[n] % p == 1
    &&& forall|i: int| 0 <= i < k ==> #[trigger] compare_row(p, n, x, bound, a, i)
}

/// Whether the number whose binary digits the variables are is at most the given one: the variable
/// that is returned is one if so and zero if not.
fn at_most<F: Field>(
    cs: &mut ConstraintSystem<F>,
    bits: &Vec<AllocatedNum<F>>,
    bound: &Vec<bool>,
) -> (r: AllocatedNum<F>)
    requires
        old(cs)@.wf(),
        all_wf(bits@, old(cs)@),
        bits@.len() == bound@.len(),
    ensures
        old(cs)@.extended_by(final(cs)@),
        final(cs)@.aux.len() == old(cs)@.aux.len() + 1 + bits@.len(),
        final(cs)@.constraints.len() == old(cs)@.constraints.len() + 1 + bits@.len(),
        r.sits((old(cs)@.aux.len() + bits@.len()) as int),
        forall|a: Seq<int>| #[trigger]
            new_hold(F::modulus(), old(cs)@, final(cs)@, a) <==> compare_rows(
                F::modulus(),
                old(cs)@.aux.len() as int,
                at_all(bits@, a),
                bound@,
                a,
                bits@.len() as int,
            ),
        r.wf(final(cs)@),
        forall|a: Seq<int>| #[trigger]
            new_hold(F::modulus(), old(cs)@, final(cs)@, a) && all_binary(
                F::modulus(),
                at_all(bits@, a),
            ) ==> r.at(a) % F::modulus() == (if bits_value(
                digits(F::modulus(), at_all(bits@, a)),
            ) <= bits_value(bound@) {
                1int
            } else {
                0
            }),
        complete(F::modulus(), old(cs)@, final(cs)@),
{
    let ghost p = F::modulus();
    let ghost s0 = cs@;
    let mut flag = alloc_constant(cs, F::one());
    let mut i: usize = 0;
    proof {
        lemma_seed_const::<F>(1);
        lemma_all_grow(bits@, s0, cs@);
        assert(bound@.take(0).len() == 0);
        assert forall|a: Seq<int>| #[trigger] new_hold(p, s0, cs@, a) implies flag.at(a) % p == (
        if bits_value(digits(p, at_all(bits@, a)).take(0)) <= bits_value(bound@.take(0)) {
            1int
        } else {
            0
        }) by {
            assert(digits(p, at_all(bits@, a)).take(0).len() == 0);
        }
    }
    while i < bits.len()
        invariant
            i <= bits@.len(),
            bits@.len() == bound@.len(),
            p == F::modulus(),
            p > 1,
            cs@.wf(),
            s0.extended_by(cs@),
            all_wf(bits@, cs@),
            flag.wf(cs@),
            complete(p, s0, cs@),
            cs@.aux.len() == s0.aux.len() + 1 + i,
            cs@.constraints.len() == s0.constraints.len() + 1 + i,
            flag.sits(s0.aux.len() + i),
            forall|a: Seq<int>| #[trigger]
                new_hold(p, s0, cs@, a) <==> compare_rows(
                    p,
                    s0.aux.len() as int,
                    at_all(bits@, a),
                    bound@,
                    a,
                    i as int,
                ),
            forall|a: Seq<int>| #[trigger]
                new_hold(p, s0, cs@, a) && all_binary(p, at_all(bits@, a)) ==> flag.at(a) % p == (
                if bits_value(digits(p, at_all(bits@, a)).take(i as int)) <= bits_value(
                    bound@.take(i as int),
                ) {
                    1int
                } else {
                    0
                }),
        decreases bits@.len() - i,
    {
        let ghost s1 = cs@;
        let ghost f = flag;
        let b = bits[i];
        let one = Lin::constant(cs, F::one());
        if bound[i] {
            // b (f - 1) + 1
            let x = Lin::var(cs, &b);
            let minus_one = Lin::constant(cs, F::zero().sub(F::one()));
            let y = minus_one.plus(Ghost(cs@), &flag);
            flag = mul_add(cs, &x, &y, &one);
            proof {
                lemma_chain(p, s0, s1, cs@);
                assert forall|a: Seq<int>| #[trigger] new_hold(p, s1, cs@, a) <==> flag.at(a) % p
                    == compare_step(true, f.at(a), b.at(a)) % p by {
                    lemma_seed_const::<F>(1);
                    lemma_seed_const::<F>(0);
                    lemma_mod(p, 0 - 1);
                    lemma_cong_add(p, minus_one.at(a), f.at(a), -1, f.at(a));
                    lemma_cong_mul(p, x.at(a), y.at(a), b.at(a), f.at(a) - 1);
                    lemma_cong_add(
                        p,
                        x.at(a) * y.at(a),
                        one.at(a),
                        b.at(a) * (f.at(a) - 1),
                        1,
                    );
                }
                assert forall|a: Seq<int>| #[trigger]
                    new_hold(p, s0, cs@, a) && all_binary(p, at_all(bits@, a)) implies flag.at(a)
                    % p == (if bits_value(digits(p, at_all(bits@, a)).take(i + 1)) <= bits_value(
                    bound@.take(i + 1),
                ) {
                    1int
                } else {
                    0
                }) by {
                    let v = at_all(bits@, a);
                    assert(v[i as int] % p == 0 || v[i as int] % p == 1);
                    lemma_compare_step(digits(p, v), bound@, i as int);
                    assert(new_hold(p, s1, cs@, a) && new_hold(p, s0, s1, a));
                    lemma_mod(p, 0 - 1);
                    lemma_cong_add(p, minus_one.at(a), f.at(a), -1, f.at(a));
                    lemma_seed_const::<F>(1);
                    lemma_seed_const::<F>(0);
                    let (bv, fv) = (v[i as int] % p, f.at(a) % p);
                    lemma_mod(p, v[i as int]);
                    lemma_mod(p, f.at(a));
                    lemma_cong_add(p, -1, f.at(a), -1, fv);
                    lemma_cong_mul(p, x.at(a), y.at(a), bv, fv - 1);
                    lemma_cong_add(p, x.at(a) * y.at(a), one.at(a), bv * (fv - 1), 1);
                    assert(bv * (fv - 1) + 1 == (if bv == 1 {
                        fv
                    } else {
                        1
                    })) by (nonlinear_arith)
                        requires
                            bv == 0 || bv == 1,
                    ;
                }
            }
        } else {
            // f (1 - b)
            let x = Lin::var(cs, &flag);
            let y = one.minus(Ghost(cs@), &b);
            let z = Lin::zero(cs);
            flag = mul_add(cs, &x, &y, &z);
            proof {
                lemma_chain(p, s0, s1, cs@);
                assert forall|a: Seq<int>| #[trigger] new_hold(p, s1, cs@, a) <==> flag.at(a) % p
                    == compare_step(false, f.at(a), b.at(a)) % p by {
                    lemma_seed_const::<F>(1);
                    lemma_cong_sub(p, one.at(a), b.at(a), 1, b.at(a));
                    lemma_cong_mul(p, x.at(a), y.at(a), f.at(a), 1 - b.at(a));
                }
                assert forall|a: Seq<int>| #[trigger]
                    new_hold(p, s0, cs@, a) && all_binary(p, at_all(bits@, a)) implies flag.at(a)
                    % p == (if bits_value(digits(p, at_all(bits@, a)).take(i + 1)) <= bits_value(
                    bound@.take(i + 1),
                ) {
                    1int
                } else {
                    0
                }) by {
                    let v = at_all(bits@, a);
                    assert(v[i as int] % p == 0 || v[i as int] % p == 1);
                    lemma_compare_step(digits(p, v), bound@, i as int);
                    assert(new_hold(p, s1, cs@, a) && new_hold(p, s0, s1, a));
                    lemma_seed_const::<F>(1);
                    lemma_seed_const::<F>(0);
                    let (bv, fv) = (v[i as int] % p, f.at(a) % p);
                    lemma_mod(p, v[i as int]);
                    lemma_mod(p, f.at(a));
                    lemma_cong_sub(p, one.at(a), b.at(a), 1, bv);
                    lemma_cong_mul(p, x.at(a), y.at(a), fv, 1 - bv);
                    assert(fv * (1 - bv) == (if bv == 1 {
                        0
                    } else {
                        fv
                    })) by (nonlinear_arith)
                        requires
                            bv == 0 || bv == 1,
                    ;
                }
            }
        }
        proof {
            lemma_all_grow(bits@, s1, cs@);
            assert forall|a: Seq<int>| #[trigger] agrees(a, cs@) implies new_hold(
                p,
                s0,
                cs@,
                a,
            ) by {
                assert(agrees(a, s1));
                assert(new_hold(p, s0, s1, a) && new_hold(p, s1, cs@, a));
            }
            let n = s0.aux.len() as int;
            assert forall|a: Seq<int>| #[trigger] new_hold(p, s0, cs@, a) <==> compare_rows(
                p,
                n,
                at_all(bits@, a),
                bound@,
                a,
                i + 1,
            ) by {
                let x = at_all(bits@, a);
                assert(new_hold(p, s1, cs@, a) <==> compare_row(p, n, x, bound@, a, i as int));
                if compare_rows(p, n, x, bound@, a, i + 1) {
                    assert(compare_row(p, n, x, bound@, a, i as int));
                }
            }
        }
        i += 1;
    }
    proof {
        assert(bound@.take(bound@.len() as int) =~= bound@);
        assert forall|a: Seq<int>| #[trigger]
            new_hold(p, s0, cs@, a) && all_binary(p, at_all(bits@, a)) implies flag.at(a) % p == (
        if bits_value(digits(p, at_all(bits@, a))) <= bits_value(bound@) {
            1int
        } else {
            0
        }) by {
            let d = digits(p, at_all(bits@, a));
            assert(d.take(d.len() as int) =~= d);
        }
    }
    flag
}

/// Recorded values are residues.
pub proof fn lemma_recorded_residues<F: Field>(
    v: Seq<AllocatedNum<F>>,
    cs: CsModel,
    a: Seq<int>,
    residues: Seq<int>,
)
    requires
        cs.wf(),
        all_wf(v, cs),
        agrees(a, cs),
        mod_seq(F::modulus(), at_all(v, a)) == residues,
    ensures
        at_all(v, a) == residues,
{
    let x = at_all(v, a);
    assert forall|i: int| 0 <= i < v.len() implies #[trigger] x[i] == residues[i] by {
        assert(v[i].wf(cs));
        v[i].lemma_at(cs, a);
        let y = v[i].value->0;
        y.lemma_val();
        vstd::arithmetic::div_mod::lemma_small_mod(y.val() as nat, F::modulus() as nat);
        assert(mod_seq(F::modulus(), x)[i] == x[i] % F::modulus());
    }
    assert(mod_seq(F::modulus(), x).len() == x.len());
    assert(x =~= residues);
}

/// The digit as a number.
pub open spec fn digit(b: bool) -> int {
    if b {
        1
    } else {
        0
    }
}

/// What vanishes with its complement as a factor is zero or one.
pub proof fn lemma_bit_row(p: int, t: int)
    requires
        p > 1,
        no_zero_divisors(p),
    ensures
        bit_row(p, t) <==> t % p == 0 || t % p == 1,
{
    vstd::arithmetic::div_mod::lemma_small_mod(1, p as nat);
    vstd::arithmetic::div_mod::lemma_small_mod(0, p as nat);
    if (t * (1 - t)) % p == 0 {
        assert(fmul(p, t, 1 - t) == 0);
        if (1 - t) % p == 0 {
            lemma_zero_diff(p, 1, t);
        }
    }
    if t % p == 0 {
        lemma_cong_mul(p, t, 1 - t, 0, 1 - t);
        assert(0 * (1 - t) == 0) by (nonlinear_arith);
    }
    if t % p == 1 {
        lemma_cong_sub(p, 1, t, 1, 1);
        lemma_cong_mul(p, t, 1 - t, t, 0);
        assert(t * 0 == 0) by (nonlinear_arith);
    }
}

/// Variables that are zero or one, with the given values.
fn alloc_bits<F: Field>(cs: &mut ConstraintSystem<F>, n: usize, values: Option<Vec<bool>>) -> (r: Vec<
    AllocatedNum<F>,
>)
    requires
        old(cs)@.wf(),
        old(cs)@.witness ==> values is Some && values->0@.len() == n,
    ensures
        old(cs)@.extended_by(final(cs)@),
        final(cs)@.aux.len() == old(cs)@.aux.len() + n,
        final(cs)@.constraints.len() == old(cs)@.constraints.len() + n,
        r@.len() == n,
        sit_from(r@, old(cs)@.aux.len() as int),
        all_wf(r@, final(cs)@),
        forall|a: Seq<int>| #[trigger]
            new_hold(F::modulus(), old(cs)@, final(cs)@, a) <==> all_binary(
                F::modulus(),
                at_all(r@, a),
            ),
        forall|a: Seq<int>| #[trigger]
            agrees(a, final(cs)@) ==> forall|i: int|
                0 <= i < n ==> #[trigger] at_all(r@, a)[i] == digit(values->0@[i]),
        complete(F::modulus(), old(cs)@, final(cs)@),
{
    let ghost p = F::modulus();
    let ghost s0 = cs@;
    let mut r: Vec<AllocatedNum<F>> = Vec::new();
    let mut i: usize = 0;
    proof {
        F::lemma_modulus();
        F::lemma_no_zero_divisors();
    }
    while i < n
        invariant
            i <= n,
            p == F::modulus(),
            p > 1,
            no_zero_divisors(p),
            cs@.wf(),
            s0.extended_by(cs@),
            s0.witness ==> values is Some && values->0@.len() == n,
            r@.len() == i,
            cs@.aux.len() == s0.aux.len() + i,
            cs@.constraints.len() == s0.constraints.len() + i,
            sit_from(r@, s0.aux.len() as int),
            all_wf(r@, cs@),
            complete(p, s0, cs@),
            s0.witness ==> forall|j: int|
                0 <= j < i ==> (#[trigger] r@[j]).value is Some && r@[j].value->0.val() == digit(
                    values->0@[j],
                ),
            forall|a: Seq<int>| #[trigger]
                new_hold(p, s0, cs@, a) <==> all_binary(p, at_all(r@, a)),
        decreases n - i,
    {
        let ghost s1 = cs@;
        let ghost before = r@;
        let value = match &values {
            Some(v) => if i < v.len() {
                Some(v[i])
            } else {
                None
            },
            None => None,
        };
        let b = alloc_bit(cs, value);
        r.push(b);
        i += 1;
        proof {
            lemma_chain(p, s0, s1, cs@);
            lemma_all_grow(before, s1, cs@);
            assert forall|a: Seq<int>| #[trigger] agrees(a, cs@) implies new_hold(
                p,
                s0,
                cs@,
                a,
            ) by {
                assert(agrees(a, s1));
                assert(new_hold(p, s0, s1, a) && new_hold(p, s1, cs@, a));
            }
            assert forall|a: Seq<int>| #[trigger] new_hold(p, s0, cs@, a) <==> all_binary(
                p,
                at_all(r@, a),
            ) by {
                let t = b.at(a);
                let (u, v) = (at_all(before, a), at_all(r@, a));
                lemma_bit_row(p, t);
                assert(v[i - 1] == t);
                if all_binary(p, v) {
                    assert forall|j: int| 0 <= j < u.len() implies #[trigger] u[j] % p == 0 || u[j]
                        % p == 1 by {
                        assert(v[j] == u[j]);
                    }
                    assert(new_hold(p, s0, s1, a) && new_hold(p, s1, cs@, a));
                }
                if new_hold(p, s0, cs@, a) {
                    assert(new_hold(p, s0, s1, a) && new_hold(p, s1, cs@, a));
                    assert forall|j: int| 0 <= j < v.len() implies #[trigger] v[j] % p == 0 || v[j]
                        % p == 1 by {
                        if j < i - 1 {
                            assert(u[j] == v[j]);
                        }
                    }
                }
            }
        }
    }
    proof {
        assert forall|a: Seq<int>| #[trigger] agrees(a, cs@) implies forall|j: int|
            0 <= j < n ==> #[trigger] at_all(r@, a)[j] == digit(values->0@[j]) by {
            assert forall|j: int| 0 <= j < n implies #[trigger] at_all(r@, a)[j] == digit(
                values->0@[j],
            ) by {
                assert(r@[j].value is Some);
                r@[j].lemma_at(cs@, a);
            }
        }
    }
    r
}

/// The binary digits of the greatest canonical representative.
pub open spec fn top_digits(p: int) -> Seq<bool> {
    choose|b: Seq<bool>| b.len() == 256 && #[trigger] bits_value(b) == p - 1
}

/// The number of private variables of a binary expansion: the digits, and the flags of their
/// comparison.
pub open spec fn bits_vars() -> int {
    513
}

/// The constraints of the binary expansion of `x` whose digits sit from variable `n` on: they are
/// digits, they add up, and they stand for a canonical representative.
pub open spec fn bits_rows(p: int, n: int, x: int, a: Seq<int>) -> bool {
    let b = slots(a, n, 256);
    &&& all_binary(p, b)
    &&& weighted(b, 256) % p == x % p
    &&& compare_rows(p, n + 256, b, top_digits(p), a, 256)
    &&& a[n + 512] % p == 1
}

/// The little-endian binary digits of the canonical representative of a variable.
pub fn to_bits_le_strict<F: Field>(cs: &mut ConstraintSystem<F>, x: &AllocatedNum<F>) -> (r: Vec<
    AllocatedNum<F>,
>)
    requires
        old(cs)@.wf(),
        x.wf(old(cs)@),
    ensures
        old(cs)@.extended_by(final(cs)@),
        r@.len() == 256,
        final(cs)@.aux.len() == old(cs)@.aux.len() + bits_vars(),
        sit_from(r@, old(cs)@.aux.len() as int),
        forall|a: Seq<int>| #[trigger]
            new_hold(F::modulus(), old(cs)@, final(cs)@, a) <==> bits_rows(
                F::modulus(),
                old(cs)@.aux.len() as int,
                x.at(a),
                a,
            ),
        all_wf(r@, final(cs)@),
        forall|a: Seq<int>| #[trigger]
            new_hold(F::modulus(), old(cs)@, final(cs)@, a) ==> {
                &&& all_binary(F::modulus(), at_all(r@, a))
                &&& bits_value(digits(F::modulus(), at_all(r@, a))) == x.at(a) % F::modulus()
            },
        complete(F::modulus(), old(cs)@, final(cs)@),
{
    let ghost p = F::modulus();
    let ghost s0 = cs@;
    let values = match x.value {
        Some(v) => Some(v.to_le_bits()),
        None => None,
    };
    let top = F::zero().sub(F::one());
    let bound = top.to_le_bits();
    proof {
        lemma_seed_const::<F>(0);
        lemma_seed_const::<F>(1);
        lemma_mod(p, 0 - 1);
        assert(top.val() == p - 1) by {
            vstd::arithmetic::div_mod::lemma_mod_add_multiples_vanish(-1, p);
            vstd::arithmetic::div_mod::lemma_small_mod((p - 1) as nat, p as nat);
        }
        if s0.witness {
            let i = x.variable.0->Aux_0;
            assert(s0.aux[i as int] is Some);
        }
    }
    let r = alloc_bits(cs, 256, values);
    let ghost s1 = cs@;
    proof {
        x.lemma_grow(s0, s1);
    }
    let sum_lin = weigh(cs, &r);
    let one = Lin::constant(cs, F::one());
    let x_lin = Lin::var(cs, x);
    enforce_product(cs, &sum_lin, &one, &x_lin);
    let ghost s2 = cs@;
    proof {
        lemma_all_grow(r@, s1, s2);
    }
    let flag = at_most(cs, &r, &bound);
    let ghost s3 = cs@;
    let flag_lin = Lin::var(cs, &flag);
    let one2 = Lin::constant(cs, F::one());
    let one3 = Lin::constant(cs, F::one());
    enforce_product(cs, &flag_lin, &one2, &one3);
    proof {
        let s4 = cs@;
        lemma_chain(p, s0, s1, s2);
        lemma_chain(p, s0, s2, s3);
        lemma_chain(p, s0, s3, s4);
        lemma_chain(p, s2, s3, s4);
        lemma_all_grow(r@, s2, s4);
        assert(bound@ == top_digits(p)) by {
            assert(bits_value(bound@) == p - 1);
            lemma_bits_unique(bound@, top_digits(p));
        }
        let n = s0.aux.len() as int;
        assert forall|a: Seq<int>| #[trigger] new_hold(p, s0, s4, a) <==> bits_rows(
            p,
            n,
            x.at(a),
            a,
        ) by {
            lemma_slots(r@, n, a);
            let v = at_all(r@, a);
            lemma_cong_mul(p, sum_lin.at(a), one.at(a), weighted(v, 256), 1);
            lemma_cong_mul(p, flag_lin.at(a), one2.at(a), flag.at(a), 1);
            assert(new_hold(p, s0, s4, a) <==> new_hold(p, s0, s3, a) && new_hold(p, s3, s4, a));
            assert(new_hold(p, s0, s3, a) <==> new_hold(p, s0, s2, a) && new_hold(p, s2, s3, a));
            assert(new_hold(p, s0, s2, a) <==> new_hold(p, s0, s1, a) && new_hold(p, s1, s2, a));
            assert(new_hold(p, s1, s2, a) <==> weighted(v, 256) % p == x.at(a) % p);
            assert(new_hold(p, s3, s4, a) <==> a[n + 512] % p == 1);
        }
        assert forall|a: Seq<int>| #[trigger] new_hold(p, s0, s4, a) implies {
            &&& all_binary(p, at_all(r@, a))
            &&& bits_value(digits(p, at_all(r@, a))) == x.at(a) % p
        } by {
            assert(new_hold(p, s0, s3, a) && new_hold(p, s3, s4, a));
            assert(new_hold(p, s0, s2, a) && new_hold(p, s2, s3, a));
            assert(new_hold(p, s0, s1, a) && new_hold(p, s1, s2, a));
            let v = at_all(r@, a);
            let d = digits(p, v);
            lemma_weighted(p, v, 256);
            assert(d.take(256) =~= d);
            lemma_bits_bound(d);
            lemma_cong_mul(p, sum_lin.at(a), one.at(a), weighted(v, 256), 1);
            lemma_cong_mul(p, flag_lin.at(a), one2.at(a), flag.at(a), 1);
            assert(flag.at(a) % p == 1);
            assert(bits_value(d) <= p - 1);
            vstd::arithmetic::div_mod::lemma_small_mod(bits_value(d) as nat, p as nat);
        }
        assert forall|a: Seq<int>| #[trigger] agrees(a, s4) implies new_hold(p, s0, s4, a) by {
            assert(agrees(a, s3) && agrees(a, s2) && agrees(a, s1));
            let v = at_all(r@, a);
            let d = digits(p, v);
            let given = values->0@;
            x.lemma_at(s1, a);
            x.value->0.lemma_val();
            assert forall|i: int| 0 <= i < v.len() implies #[trigger] v[i] % p == digit(
                given[i],
            ) by {
                vstd::arithmetic::div_mod::lemma_small_mod(digit(given[i]) as nat, p as nat);
            }
            assert(all_binary(p, v));
            assert(d =~= given);
            lemma_weighted(p, v, 256);
            assert(d.take(256) =~= d);
            lemma_cong_mul(p, sum_lin.at(a), one.at(a), weighted(v, 256), 1);
            assert(new_hold(p, s0, s1, a));
            assert(new_hold(p, s1, s2, a));
            assert(new_hold(p, s2, s3, a));
            assert(flag.at(a) % p == 1);
            lemma_cong_mul(p, flag_lin.at(a), one2.at(a), flag.at(a), 1);
            assert(new_hold(p, s3, s4, a));
        }
    }
    r
}

} // verus!
