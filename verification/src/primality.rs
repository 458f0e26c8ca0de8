//! Prime numbers: what follows from primality, and how it is shown.
use vstd::prelude::*;
use vstd::arithmetic::div_mod::{
    lemma_fundamental_div_mod, lemma_mod_bound, lemma_mod_multiples_basic,
    lemma_mod_multiples_vanish, lemma_small_mod,
};
use crate::arith::{
    fmul, lemma_cong_mul, lemma_cong_power, lemma_cong_sub, lemma_mod,
    lemma_power_add, no_zero_divisors, power,
};

verus! {

/// The number has no divisor between one and itself.
pub open spec fn is_prime(q: int) -> bool {
    &&& q > 1
    &&& forall|d: int| 1 < d < q ==> #[trigger] (q % d) != 0
}

/// A multiple is divisible.
proof fn lemma_multiple(d: int, k: int)
    requires
        d > 0,
    ensures
        (d * k) % d == 0,
        (k * d) % d == 0,
{
    lemma_mod_multiples_basic(k, d);
    assert(d * k == k * d) by (nonlinear_arith);
}

/// Divisibility is transitive.
proof fn lemma_divides_trans(a: int, b: int, c: int)
    requires
        a > 0,
        b > 0,
        b % a == 0,
        c % b == 0,
    ensures
        c % a == 0,
{
    lemma_fundamental_div_mod(b, a);
    lemma_fundamental_div_mod(c, b);
    let (k, l) = (b / a, c / b);
    assert(c == a * (k * l)) by (nonlinear_arith)
        requires
            b == a * k,
            c == b * l,
    ;
    lemma_multiple(a, k * l);
}

/// The greatest common divisor of two numbers as a combination of them.
proof fn lemma_bezout(a: int, b: int) -> (r: (int, int, int))
    requires
        a > 0,
        b >= 0,
    ensures
        r.0 > 0,
        a % r.0 == 0,
        b % r.0 == 0,
        a * r.1 + b * r.2 == r.0,
    decreases b,
{
    if b == 0 {
        lemma_multiple(a, 1);
        lemma_small_mod(0, a as nat);
        assert(a * 1 + b * 0 == a);
        (a, 1, 0)
    } else {
        lemma_mod_bound(a, b);
        lemma_fundamental_div_mod(a, b);
        let (q, m) = (a / b, a % b);
        let (g, u, v) = lemma_bezout(b, m);
        lemma_fundamental_div_mod(b, g);
        lemma_fundamental_div_mod(m, g);
        let (k, l) = (b / g, m / g);
        assert(a == g * (k * q + l)) by (nonlinear_arith)
            requires
                a == b * q + m,
                b == g * k,
                m == g * l,
        ;
        lemma_multiple(g, k * q + l);
        assert(a * v + b * (u - q * v) == b * u + m * v) by (nonlinear_arith)
            requires
                a == b * q + m,
        ;
        (g, v, u - q * v)
    }
}

/// What a prime does not divide has an inverse modulo the prime.
pub proof fn lemma_prime_inverse(q: int, x: int) -> (u: int)
    requires
        is_prime(q),
        x % q != 0,
    ensures
        (x * u) % q == 1,
{
    lemma_mod(q, x);
    let m = x % q;
    let (g, u, v) = lemma_bezout(q, m);
    lemma_fundamental_div_mod(m, g);
    lemma_fundamental_div_mod(q, g);
    assert(g <= m) by (nonlinear_arith)
        requires
            m == g * (m / g),
            m > 0,
            g > 0,
    ;
    if g > 1 {
        assert(q % g != 0);
    }
    // q u + m v = 1
    lemma_mod_multiples_vanish(u, m * v, q);
    lemma_small_mod(1, q as nat);
    lemma_cong_mul(q, x, v, m, v);
    v
}

/// A prime that divides a product divides a factor.
pub proof fn lemma_euclid(q: int, x: int, y: int)
    requires
        is_prime(q),
        (x * y) % q == 0,
    ensures
        x % q == 0 || y % q == 0,
{
    if x % q != 0 {
        let u = lemma_prime_inverse(q, x);
        lemma_small_mod(0, q as nat);
        lemma_small_mod(1, q as nat);
        lemma_cong_mul(q, x * y, u, 0, u);
        lemma_cong_mul(q, x * u, y, 1, y);
        assert((x * y) * u == (x * u) * y) by (nonlinear_arith);
    }
}

/// Modulo a prime there are no zero divisors.
pub proof fn law_prime_modulus(q: int)
    requires
        is_prime(q),
    ensures
        no_zero_divisors(q),
{
    assert forall|x: int, y: int| #[trigger] fmul(q, x, y) == 0 implies x % q == 0 || y % q
        == 0 by {
        lemma_euclid(q, x, y);
    }
}

/// A prime that divides a power divides its base.
pub proof fn lemma_prime_divides_power(q: int, x: int, k: nat)
    requires
        is_prime(q),
        power(x, k) % q == 0,
    ensures
        x % q == 0,
    decreases k,
{
    if k == 0 {
        lemma_small_mod(1, q as nat);
    } else {
        lemma_euclid(q, power(x, (k - 1) as nat), x);
        if power(x, (k - 1) as nat) % q == 0 {
            lemma_prime_divides_power(q, x, (k - 1) as nat);
        }
    }
}

/// A prime that divides a prime is that prime.
pub proof fn lemma_prime_divides_prime(q: int, r: int)
    requires
        is_prime(q),
        is_prime(r),
        r % q == 0,
    ensures
        q == r,
{
    if q > r {
        lemma_small_mod(r as nat, q as nat);
    } else if q < r {
        assert(r % q != 0);
    }
}

/// The least divisor above `d`, given that there is none below.
proof fn lemma_least_divisor_from(n: int, d: int) -> (q: int)
    requires
        2 <= d <= n,
        forall|k: int| 1 < k < d ==> #[trigger] (n % k) != 0,
    ensures
        is_prime(q),
        n % q == 0,
        q == n || q * q <= n,
    decreases n - d,
{
    if n % d == 0 {
        assert forall|k: int| 1 < k < d implies #[trigger] (d % k) != 0 by {
            if d % k == 0 {
                lemma_divides_trans(k, d, n);
                assert(n % k != 0);
            }
        }
        lemma_fundamental_div_mod(n, d);
        let m = n / d;
        assert(m >= 1) by (nonlinear_arith)
            requires
                n == d * m,
                n >= 2,
                d >= 2,
        ;
        if m == 1 {
            assert(d * 1 == d);
        } else {
            if m < d {
                lemma_multiple(m, d);
                assert(n % m != 0);
            }
            assert(d * d <= n) by (nonlinear_arith)
                requires
                    n == d * m,
                    m >= d,
                    d >= 2,
            ;
        }
        d
    } else {
        if d == n {
            lemma_multiple(n, 1);
        }
        lemma_least_divisor_from(n, d + 1)
    }
}

/// Every number above one has a prime divisor, which is the number itself or at most its square
/// root.
pub proof fn lemma_least_divisor(n: int) -> (q: int)
    requires
        n >= 2,
    ensures
        is_prime(q),
        n % q == 0,
        q == n || q * q <= n,
{
    lemma_least_divisor_from(n, 2)
}

/// The least positive exponent that takes `h` to one modulo `q`.
proof fn lemma_order(q: int, h: int, t: nat) -> (s: nat)
    requires
        q > 1,
        t >= 1,
        power(h, t) % q == 1,
    ensures
        1 <= s <= t,
        power(h, s) % q == 1,
        forall|k: nat| 1 <= k < s ==> #[trigger] power(h, k) % q != 1,
    decreases t,
{
    if exists|k: nat| 1 <= k < t && #[trigger] power(h, k) % q == 1 {
        let k = choose|k: nat| 1 <= k < t && #[trigger] power(h, k) % q == 1;
        lemma_order(q, h, k)
    } else {
        t
    }
}

/// Powers of powers multiply exponents.
pub proof fn lemma_power_mul(x: int, a: nat, b: nat)
    ensures
        power(x, a * b) == power(power(x, a), b),
    decreases b,
{
    if b == 0 {
        assert(a * b == 0) by (nonlinear_arith)
            requires
                b == 0,
        ;
    } else {
        let c = (b - 1) as nat;
        lemma_power_mul(x, a, c);
        lemma_power_add(x, a * c, a);
        assert(a * c + a == a * b) by (nonlinear_arith)
            requires
                c == b - 1,
        ;
    }
}

/// One to any power is one.
proof fn lemma_power_one(k: nat)
    ensures
        power(1, k) == 1,
    decreases k,
{
    if k > 0 {
        lemma_power_one((k - 1) as nat);
    }
}

/// A multiple of an exponent that leads to one leads to one.
proof fn lemma_power_multiple(q: int, h: int, s: nat, k: nat)
    requires
        q > 1,
        power(h, s) % q == 1,
    ensures
        power(h, s * k) % q == 1,
{
    lemma_power_mul(h, s, k);
    lemma_small_mod(1, q as nat);
    lemma_cong_power(q, power(h, s), 1, k);
    lemma_power_one(k);
}

/// The order divides every exponent that leads to one.
proof fn lemma_order_divides(q: int, h: int, s: nat, t: nat)
    requires
        q > 1,
        s >= 1,
        power(h, s) % q == 1,
        forall|k: nat| 1 <= k < s ==> #[trigger] power(h, k) % q != 1,
        power(h, t) % q == 1,
    ensures
        t % s == 0,
{
    lemma_fundamental_div_mod(t as int, s as int);
    lemma_mod_bound(t as int, s as int);
    let (k, r) = ((t / s) as nat, (t % s) as nat);
    lemma_power_multiple(q, h, s, k);
    lemma_power_add(h, s * k, r);
    lemma_small_mod(1, q as nat);
    lemma_cong_mul(q, power(h, s * k), power(h, r), 1, power(h, r));
    assert(s * k + r == t);
    if r >= 1 {
        assert(power(h, r) % q != 1);
    }
}

/// As many distinct residues that are not zero as the order says, and so the order is below the
/// modulus.
proof fn lemma_order_bound(q: int, h: int, s: nat)
    requires
        is_prime(q),
        s >= 1,
        power(h, s) % q == 1,
        forall|k: nat| 1 <= k < s ==> #[trigger] power(h, k) % q != 1,
    ensures
        s <= q - 1,
{
    let residues = Seq::new(s, |i: int| power(h, i as nat) % q);
    assert forall|i: nat| i < s implies #[trigger] power(h, i) % q != 0 by {
        if power(h, i) % q == 0 {
            let j = (s - i) as nat;
            lemma_power_add(h, i, j);
            lemma_small_mod(0, q as nat);
            lemma_cong_mul(q, power(h, i), power(h, j), 0, power(h, j));
            assert(i + j == s);
        }
    }
    assert forall|i: int, j: int| 0 <= i < s && 0 <= j < s && i != j implies residues[i]
        != residues[j] by {
        if residues[i] == residues[j] {
            let (a, b) = if i < j {
                (i as nat, j as nat)
            } else {
                (j as nat, i as nat)
            };
            let k = (b - a) as nat;
            let (x, y) = (power(h, a), power(h, k));
            lemma_power_add(h, a, k);
            assert(a + k == b);
            assert(x % q != 0);
            let u = lemma_prime_inverse(q, x);
            lemma_small_mod(1, q as nat);
            // x y is congruent to x.
            lemma_cong_mul(q, x * y, u, x, u);
            assert((x * y) * u == (x * u) * y) by (nonlinear_arith);
            lemma_cong_mul(q, x * u, y, 1, y);
            assert(power(h, k) % q != 1);
        }
    }
    residues.unique_seq_to_set();
    let range = vstd::set_lib::set_int_range(1, q);
    vstd::set_lib::lemma_int_range(1, q);
    assert(residues.to_set().subset_of(range)) by {
        assert forall|x: int| residues.to_set().contains(x) implies range.contains(x) by {
            let i = choose|i: int| 0 <= i < s && residues[i] == x;
            lemma_mod_bound(power(h, i as nat), q);
            assert(power(h, i as nat) % q != 0);
        }
    }
    vstd::set_lib::lemma_len_subset(residues.to_set(), range);
}

/// The number has an inverse modulo `n`.
pub open spec fn has_inverse(n: int, x: int) -> bool {
    exists|u: int| #[trigger] fmul(n, x, u) == 1
}

/// What has an inverse modulo a number does not vanish modulo its divisors.
proof fn lemma_inverse_mod_divisor(n: int, q: int, x: int)
    requires
        n > 1,
        q > 1,
        n % q == 0,
        has_inverse(n, x),
    ensures
        x % q != 0,
{
    let u = choose|u: int| #[trigger] fmul(n, x, u) == 1;
    lemma_residue_of_divisor(n, q, x * u);
    lemma_small_mod(1, q as nat);
    if x % q == 0 {
        lemma_small_mod(0, q as nat);
        lemma_cong_mul(q, x, u, 0, u);
    }
}

/// Reducing modulo a number and then modulo a divisor comes to reducing modulo the divisor.
proof fn lemma_residue_of_divisor(n: int, q: int, x: int)
    requires
        n > 0,
        q > 0,
        n % q == 0,
    ensures
        (x % n) % q == x % q,
{
    lemma_fundamental_div_mod(x, n);
    lemma_fundamental_div_mod(n, q);
    let (a, b) = (x / n, n / q);
    assert(x == q * (b * a) + x % n) by (nonlinear_arith)
        requires
            x == n * a + x % n,
            n == q * b,
    ;
    lemma_mod_multiples_vanish(b * a, x % n, q);
}

/// Pocklington's criterion: where the factored part `f` of `n - 1` is above the square root of `n`,
/// and a base `g` passes a test for every prime divisor of it, `n` is prime.
pub proof fn lemma_pocklington(n: int, g: int, f: nat, r: nat)
    requires
        n > 1,
        n - 1 == f * r,
        f * f > n,
        power(g, (n - 1) as nat) % n == 1,
        forall|c: int| #[trigger]
            is_prime(c) && f as int % c == 0 ==> has_inverse(
                n,
                power(g, ((n - 1) / c) as nat) - 1,
            ),
    ensures
        is_prime(n),
{
    let q = lemma_least_divisor(n);
    if q != n {
        let h = power(g, r);
        lemma_power_mul(g, r, f);
        assert(r * f == f * r) by (nonlinear_arith);
        lemma_residue_of_divisor(n, q, power(g, (n - 1) as nat));
        lemma_small_mod(1, q as nat);
        assert(power(h, f) % q == 1);
        assert(f >= 1) by (nonlinear_arith)
            requires
                f * f > n,
                n > 1,
                f >= 0,
        ;
        let s = lemma_order(q, h, f);
        lemma_order_divides(q, h, s, f);
        if s < f {
            lemma_fundamental_div_mod(f as int, s as int);
            let m = f as int / s as int;
            assert(m >= 2) by (nonlinear_arith)
                requires
                    f == s * m,
                    s < f,
                    s >= 1,
            ;
            let c = lemma_least_divisor(m);
            lemma_fundamental_div_mod(m, c);
            let k = m / c;
            assert(k >= 0) by (nonlinear_arith)
                requires
                    m == c * k,
                    m >= 2,
                    c >= 1,
            ;
            // f = s c k, and so the exponent (n - 1) / c is a multiple of s r.
            assert(f == c * (s * k)) by (nonlinear_arith)
                requires
                    f == s * m,
                    m == c * k,
            ;
            lemma_multiple(c, s * k);
            assert(n - 1 == c * ((s * k) * r)) by (nonlinear_arith)
                requires
                    n - 1 == f * r,
                    f == c * (s * k),
            ;
            let e = ((s * k) * r) as int;
            vstd::arithmetic::div_mod::lemma_div_multiples_vanish(e, c);
            assert((n - 1) / c == e);
            assert(has_inverse(n, power(g, e as nat) - 1));
            lemma_inverse_mod_divisor(n, q, power(g, e as nat) - 1);
            lemma_power_multiple(q, h, s, k as nat);
            lemma_power_mul(g, r, s * k as nat);
            assert(r * (s * k as nat) == (s * k) * r) by (nonlinear_arith)
                requires
                    k >= 0,
            ;
            lemma_cong_sub(q, power(g, e as nat), 1, 1, 1);
            lemma_small_mod(0, q as nat);
        }
        lemma_order_bound(q, h, f);
        assert(q * q > n) by (nonlinear_arith)
            requires
                f <= q - 1,
                f * f > n,
                f >= 1,
        ;
    }
}

/// A number without divisors up to its square root is prime.
pub proof fn lemma_trial_division(n: int, hi: int)
    requires
        n > 1,
        hi * hi > n,
        hi > 0,
        forall|d: int| 2 <= d < hi ==> #[trigger] (n % d) != 0,
    ensures
        is_prime(n),
{
    let q = lemma_least_divisor(n);
    if q != n {
        assert(q < hi) by (nonlinear_arith)
            requires
                q * q <= n,
                hi * hi > n,
                hi > 0,
        ;
        assert(n % q != 0);
    }
}

} // verus!
