//! The order of the scalar field is prime: a chain of certificates, each of which rests on the
//! primality of a divisor of its number less one, down to primes that trial division shows. A
//! power is raised by squaring and multiplying, and each step names its quotient and remainder.
use vstd::prelude::*;
use vstd::arithmetic::div_mod::{lemma_mod_multiples_vanish, lemma_small_mod};
use crate::arith::{
    fmul, lemma_cong_mul, lemma_cong_power, lemma_cong_sub, lemma_mod, lemma_power_add,
    no_zero_divisors, power,
};
use crate::bn254::scalar_modulus;
use crate::primality::{
    has_inverse, is_prime, law_prime_modulus, lemma_euclid, lemma_pocklington, lemma_power_mul,
    lemma_prime_divides_power, lemma_prime_divides_prime, lemma_trial_division,
};

verus! {

/// The power of `g` with the exponent `e` leaves `x` modulo `n`.
#[verifier::opaque]
spec fn remains(n: int, g: int, e: nat, x: int) -> bool {
    power(g, e) % n == x
}

/// The base itself.
proof fn lemma_start(n: int, g: int)
    requires
        0 <= g < n,
    ensures
        remains(n, g, 1, g),
{
    reveal(remains);
    reveal_with_fuel(power, 2);
    lemma_small_mod(g as nat, n as nat);
}

/// Squaring doubles the exponent.
proof fn lemma_square(n: int, g: int, e: nat, x: int, q: int, y: int) -> (r: nat)
    requires
        remains(n, g, e, x),
        x * x == q * n + y,
        0 <= y < n,
    ensures
        r == 2 * e,
        remains(n, g, r, y),
{
    reveal(remains);
    lemma_mod(n, power(g, e));
    lemma_power_add(g, e, e);
    lemma_cong_mul(n, power(g, e), power(g, e), x, x);
    assert(q * n == n * q) by (nonlinear_arith);
    lemma_mod_multiples_vanish(q, y, n);
    lemma_small_mod(y as nat, n as nat);
    2 * e
}

/// Multiplying by the base adds one to the exponent.
proof fn lemma_times(n: int, g: int, e: nat, x: int, q: int, y: int) -> (r: nat)
    requires
        remains(n, g, e, x),
        x * g == q * n + y,
        0 <= y < n,
    ensures
        r == e + 1,
        remains(n, g, r, y),
{
    reveal(remains);
    lemma_mod(n, power(g, e));
    lemma_cong_mul(n, power(g, e), g, x, g);
    assert(q * n == n * q) by (nonlinear_arith);
    lemma_mod_multiples_vanish(q, y, n);
    lemma_small_mod(y as nat, n as nat);
    e + 1
}

/// A power of a power.
proof fn lemma_power_chain(n: int, g: int, a: nat, h: int, k: nat)
    requires
        n > 1,
        power(g, a) % n == h,
    ensures
        power(g, a * k) % n == power(h, k) % n,
{
    lemma_mod(n, power(g, a));
    lemma_power_mul(g, a, k);
    lemma_cong_power(n, power(g, a), h, k);
}

/// A power less one with its inverse.
proof fn lemma_invertible(n: int, g: int, e: nat, y: int, u: int, q: int)
    requires
        n > 1,
        power(g, e) % n == y,
        (y - 1) * u == q * n + 1,
    ensures
        has_inverse(n, power(g, e) - 1),
{
    lemma_mod(n, power(g, e));
    lemma_cong_sub(n, power(g, e), 1, y, 1);
    lemma_cong_mul(n, power(g, e) - 1, u, y - 1, u);
    assert(q * n == n * q) by (nonlinear_arith);
    lemma_mod_multiples_vanish(q, 1, n);
    lemma_small_mod(1, n as nat);
    assert(fmul(n, power(g, e) - 1, u) == 1);
}

/// A small prime.
proof fn lemma_853()
    ensures
        is_prime(853),
{
    assert(853int % 2 != 0);
    assert(853int % 3 != 0);
    assert(853int % 4 != 0);
    assert(853int % 5 != 0);
    assert(853int % 6 != 0);
    assert(853int % 7 != 0);
    assert(853int % 8 != 0);
    assert(853int % 9 != 0);
    assert(853int % 10 != 0);
    assert(853int % 11 != 0);
    assert(853int % 12 != 0);
    assert(853int % 13 != 0);
    assert(853int % 14 != 0);
    assert(853int % 15 != 0);
    assert(853int % 16 != 0);
    assert(853int % 17 != 0);
    assert(853int % 18 != 0);
    assert(853int % 19 != 0);
    assert(853int % 20 != 0);
    assert(853int % 21 != 0);
    assert(853int % 22 != 0);
    assert(853int % 23 != 0);
    assert(853int % 24 != 0);
    assert(853int % 25 != 0);
    assert(853int % 26 != 0);
    assert(853int % 27 != 0);
    assert(853int % 28 != 0);
    assert(853int % 29 != 0);
    assert forall|d: int| 2 <= d < 30 implies #[trigger] (853int % d) != 0 by {
        assert(
            d == 2 || d == 3 || d == 4 || d == 5 || d == 6 || d == 7 || d == 8
            || d == 9 || d == 10 || d == 11 || d == 12 || d == 13 || d == 14 ||
            d == 15 || d == 16 || d == 17 || d == 18 || d == 19 || d == 20 || d
            == 21 || d == 22 || d == 23 || d == 24 || d == 25 || d == 26 || d ==
            27 || d == 28 || d == 29
        );
    }
    lemma_trial_division(853, 30);
}

/// A small prime.
proof fn lemma_983()
    ensures
        is_prime(983),
{
    assert(983int % 2 != 0);
    assert(983int % 3 != 0);
    assert(983int % 4 != 0);
    assert(983int % 5 != 0);
    assert(983int % 6 != 0);
    assert(983int % 7 != 0);
    assert(983int % 8 != 0);
    assert(983int % 9 != 0);
    assert(983int % 10 != 0);
    assert(983int % 11 != 0);
    assert(983int % 12 != 0);
    assert(983int % 13 != 0);
    assert(983int % 14 != 0);
    assert(983int % 15 != 0);
    assert(983int % 16 != 0);
    assert(983int % 17 != 0);
    assert(983int % 18 != 0);
    assert(983int % 19 != 0);
    assert(983int % 20 != 0);
    assert(983int % 21 != 0);
    assert(983int % 22 != 0);
    assert(983int % 23 != 0);
    assert(983int % 24 != 0);
    assert(983int % 25 != 0);
    assert(983int % 26 != 0);
    assert(983int % 27 != 0);
    assert(983int % 28 != 0);
    assert(983int % 29 != 0);
    assert(983int % 30 != 0);
    assert(983int % 31 != 0);
    assert forall|d: int| 2 <= d < 32 implies #[trigger] (983int % d) != 0 by {
        assert(
            d == 2 || d == 3 || d == 4 || d == 5 || d == 6 || d == 7 || d == 8
            || d == 9 || d == 10 || d == 11 || d == 12 || d == 13 || d == 14 ||
            d == 15 || d == 16 || d == 17 || d == 18 || d == 19 || d == 20 || d
            == 21 || d == 22 || d == 23 || d == 24 || d == 25 || d == 26 || d ==
            27 || d == 28 || d == 29 || d == 30 || d == 31
        );
    }
    lemma_trial_division(983, 32);
}

/// A small prime.
proof fn lemma_1637()
    ensures
        is_prime(1637),
{
    assert(1637int % 2 != 0);
    assert(1637int % 3 != 0);
    assert(1637int % 4 != 0);
    assert(1637int % 5 != 0);
    assert(1637int % 6 != 0);
    assert(1637int % 7 != 0);
    assert(1637int % 8 != 0);
    assert(1637int % 9 != 0);
    assert(1637int % 10 != 0);
    assert(1637int % 11 != 0);
    assert(1637int % 12 != 0);
    assert(1637int % 13 != 0);
    assert(1637int % 14 != 0);
    assert(1637int % 15 != 0);
    assert(1637int % 16 != 0);
    assert(1637int % 17 != 0);
    assert(1637int % 18 != 0);
    assert(1637int % 19 != 0);
    assert(1637int % 20 != 0);
    assert(1637int % 21 != 0);
    assert(1637int % 22 != 0);
    assert(1637int % 23 != 0);
    assert(1637int % 24 != 0);
    assert(1637int % 25 != 0);
    assert(1637int % 26 != 0);
    assert(1637int % 27 != 0);
    assert(1637int % 28 != 0);
    assert(1637int % 29 != 0);
    assert(1637int % 30 != 0);
    assert(1637int % 31 != 0);
    assert(1637int % 32 != 0);
    assert(1637int % 33 != 0);
    assert(1637int % 34 != 0);
    assert(1637int % 35 != 0);
    assert(1637int % 36 != 0);
    assert(1637int % 37 != 0);
    assert(1637int % 38 != 0);
    assert(1637int % 39 != 0);
    assert(1637int % 40 != 0);
    assert forall|d: int| 2 <= d < 41 implies #[trigger] (1637int % d) != 0 by {
        assert(
            d == 2 || d == 3 || d == 4 || d == 5 || d == 6 || d == 7 || d == 8
            || d == 9 || d == 10 || d == 11 || d == 12 || d == 13 || d == 14 ||
            d == 15 || d == 16 || d == 17 || d == 18 || d == 19 || d == 20 || d
            == 21 || d == 22 || d == 23 || d == 24 || d == 25 || d == 26 || d ==
            27 || d == 28 || d == 29 || d == 30 || d == 31 || d == 32 || d == 33
            || d == 34 || d == 35 || d == 36 || d == 37 || d == 38 || d == 39 ||
            d == 40
        );
    }
    lemma_trial_division(1637, 41);
}

/// The power that the tests for the prime of nine digits start from.
proof fn lemma_nine_digits_base()
    ensures
        power(2int, 458nat) % 0x261e811bint == 0x21f889e1int,
{
    let (n, g) = (0x261e811bint, 2int);
    lemma_start(n, g);
    let e = 1nat;
    let e = lemma_square(n, g, e, 2int, 0int, 4int);
    let e = lemma_times(n, g, e, 4int, 0int, 8int);
    let e = lemma_square(n, g, e, 8int, 0int, 64int);
    let e = lemma_times(n, g, e, 64int, 0int, 128int);
    let e = lemma_square(n, g, e, 128int, 0int, 0x4000int);
    let e = lemma_square(n, g, e, 0x4000int, 0int, 0x10000000int);
    let e = lemma_square(n, g, e, 0x10000000int, 0x6b73d92int, 0x1189ef9aint);
    let e = lemma_times(n, g, e, 0x1189ef9aint, 0int, 0x2313df34int);
    let e = lemma_square(n, g, e, 0x2313df34int, 0x20475ddcint, 0x16b8e05cint);
    let e = lemma_square(n, g, e, 0x16b8e05cint, 0xd8b5701int, 0x1c3972f5int);
    let e = lemma_times(n, g, e, 0x1c3972f5int, 1int, 0x125464cfint);
    let e = lemma_square(n, g, e, 0x125464cfint, 0x8d05880int, 0x21f889e1int);
    assert(e == 458nat);
    reveal(remains);
}

/// The test for the prime of nine digits at its divisor 1637.
proof fn lemma_nine_digits_at_1637()
    ensures
        power(0x21f889e1int, 853nat) % 0x261e811bint == 0xed58fc3int,
{
    let (n, g) = (0x261e811bint, 0x21f889e1int);
    lemma_start(n, g);
    let e = 1nat;
    let e = lemma_square(n, g, e, 0x21f889e1int, 0x1e462412int, 0x83b7dbint);
    let e = lemma_times(n, g, e, 0x83b7dbint, 0x75624dint, 0x22609f5cint);
    let e = lemma_square(n, g, e, 0x22609f5cint, 0x1f00c3dcint, 0x14a4e4dcint);
    let e = lemma_square(n, g, e, 0x14a4e4dcint, 0xb2e212fint, 0x1c606e1bint);
    let e = lemma_times(n, g, e, 0x1c606e1bint, 0x1949e18fint, 0x229f5fa6int);
    let e = lemma_square(n, g, e, 0x229f5fa6int, 0x1f725a0aint, 0x12561696int);
    let e = lemma_square(n, g, e, 0x12561696int, 0x8d1f9beint, 0x11840adaint);
    let e = lemma_times(n, g, e, 0x11840adaint, 0xf9c116eint, 0x2e9ef00int);
    let e = lemma_square(n, g, e, 0x2e9ef00int, 0x3904c7int, 0x12633803int);
    let e = lemma_square(n, g, e, 0x12633803int, 0x8dea021int, 0x289cb8eint);
    let e = lemma_times(n, g, e, 0x289cb8eint, 0x24314d7int, 0x12d55c21int);
    let e = lemma_square(n, g, e, 0x12d55c21int, 0x94e13c6int, 0xbaae05fint);
    let e = lemma_square(n, g, e, 0xbaae05fint, 0x392389cint, 0x1397cecdint);
    let e = lemma_times(n, g, e, 0x1397cecdint, 0x1175f6deint, 0xed58fc3int);
    assert(e == 853nat);
    reveal(remains);
}

/// The test for the prime of nine digits at its divisor 853.
proof fn lemma_nine_digits_at_853()
    ensures
        power(0x21f889e1int, 1637nat) % 0x261e811bint == 0xf4320edint,
{
    let (n, g) = (0x261e811bint, 0x21f889e1int);
    lemma_start(n, g);
    let e = 1nat;
    let e = lemma_square(n, g, e, 0x21f889e1int, 0x1e462412int, 0x83b7dbint);
    let e = lemma_times(n, g, e, 0x83b7dbint, 0x75624dint, 0x22609f5cint);
    let e = lemma_square(n, g, e, 0x22609f5cint, 0x1f00c3dcint, 0x14a4e4dcint);
    let e = lemma_square(n, g, e, 0x14a4e4dcint, 0xb2e212fint, 0x1c606e1bint);
    let e = lemma_square(n, g, e, 0x1c606e1bint, 0x151fca4eint, 0x232b929fint);
    let e = lemma_times(n, g, e, 0x232b929fint, 0x1f57c31dint, 0x10d1c3b0int);
    let e = lemma_square(n, g, e, 0x10d1c3b0int, 0x76bd74fint, 0x5d514abint);
    let e = lemma_times(n, g, e, 0x5d514abint, 0x53298c5int, 0x8974b84int);
    let e = lemma_square(n, g, e, 0x8974b84int, 0x1efa8e9int, 0x124c627dint);
    let e = lemma_square(n, g, e, 0x124c627dint, 0x8c8a662int, 0x1f9f02b3int);
    let e = lemma_square(n, g, e, 0x1f9f02b3int, 0x1a3b1603int, 0x23b473d8int);
    let e = lemma_times(n, g, e, 0x23b473d8int, 0x1fd1befdint, 0x8d5c729int);
    let e = lemma_square(n, g, e, 0x8d5c729int, 0x20c3946int, 0x1ad0742fint);
    let e = lemma_square(n, g, e, 0x1ad0742fint, 0x12dcaeeaint, 0x204443f3int);
    let e = lemma_times(n, g, e, 0x204443f3int, 0x1cc15852int, 0xf4320edint);
    assert(e == 1637nat);
    reveal(remains);
}

/// The test for the prime of nine digits at the whole exponent.
proof fn lemma_nine_digits_order()
    ensures
        power(0xf4320edint, 853nat) % 0x261e811bint == 1int,
{
    let (n, g) = (0x261e811bint, 0xf4320edint);
    lemma_start(n, g);
    let e = 1nat;
    let e = lemma_square(n, g, e, 0xf4320edint, 0x61c57f7int, 0x20075d5cint);
    let e = lemma_times(n, g, e, 0x20075d5cint, 0xcd2e097int, 0xc75273fint);
    let e = lemma_square(n, g, e, 0xc75273fint, 0x4123d50int, 0x1f687a11int);
    let e = lemma_square(n, g, e, 0x1f687a11int, 0x19e0ea64int, 0x25771895int);
    let e = lemma_times(n, g, e, 0x25771895int, 0xf0019f2int, 0x23e1b36bint);
    let e = lemma_square(n, g, e, 0x23e1b36bint, 0x21c6850dint, 0x353395aint);
    let e = lemma_square(n, g, e, 0x353395aint, 0x4a405aint, 0x671026int);
    let e = lemma_times(n, g, e, 0x671026int, 0x2943bcint, 0xddcd25aint);
    let e = lemma_square(n, g, e, 0xddcd25aint, 0x50a949bint, 0x125e004bint);
    let e = lemma_square(n, g, e, 0x125e004bint, 0x8d99838int, 0x7dcd011int);
    let e = lemma_times(n, g, e, 0x7dcd011int, 0x325e4d1int, 0x11174cb2int);
    let e = lemma_square(n, g, e, 0x11174cb2int, 0x7a9b2e6int, 0x15f66782int);
    let e = lemma_square(n, g, e, 0x15f66782int, 0xca75f5bint, 0x1053f46bint);
    let e = lemma_times(n, g, e, 0x1053f46bint, 0x689940aint, 1int);
    assert(e == 853nat);
    reveal(remains);
}

/// The prime of nine digits is prime.
proof fn lemma_nine_digits()
    ensures
        is_prime(0x261e811bint),
{
    let (n, g) = (0x261e811bint, 2int);
    assert(has_inverse(n, power(g, 0x5f612nat) - 1)) by {
        lemma_nine_digits_base();
        lemma_nine_digits_at_1637();
        lemma_power_chain(n, g, 458nat, 0x21f889e1int, 853nat);
        lemma_invertible(n, g, 0x5f612nat, 0xed58fc3int, 0x11aa936bint, 0x6dffa8fint);
    }
    assert(has_inverse(n, power(g, 0xb70b2nat) - 1)) by {
        lemma_nine_digits_base();
        lemma_nine_digits_at_853();
        lemma_power_chain(n, g, 458nat, 0x21f889e1int, 1637nat);
        lemma_invertible(n, g, 0xb70b2nat, 0xf4320edint, 0x121e58afint, 0x7411c29int);
    }
    assert(power(g, 0x261e811anat) % n == 1) by {
        lemma_nine_digits_base();
        lemma_nine_digits_at_853();
        lemma_power_chain(n, g, 458nat, 0x21f889e1int, 1637nat);
        lemma_nine_digits_order();
        lemma_power_chain(n, g, 0xb70b2nat, 0xf4320edint, 853nat);
    }
    assert forall|c: int| #[trigger] is_prime(c) && 0x154e89nat as int % c == 0 implies has_inverse(
        n,
        power(g, ((n - 1) / c) as nat) - 1,
    ) by {
        lemma_1637();
        lemma_853();
        lemma_euclid(c, 1637, 853);
        if 1637int % c == 0 {
            lemma_prime_divides_prime(c, 1637);
        } else {
            lemma_prime_divides_prime(c, 853);
        }
    }
    lemma_pocklington(n, g, 0x154e89nat, 458nat);
}

/// The test for the prime of seventeen digits at its large divisor.
proof fn lemma_seventeen_digits_base()
    ensures
        power(2int, 0x623818anat) % 0xea007c3431338fint == 0x1e8949ee7b99cfint,
{
    let (n, g) = (0xea007c3431338fint, 2int);
    lemma_start(n, g);
    let e = 1nat;
    let e = lemma_square(n, g, e, 2int, 0int, 4int);
    let e = lemma_times(n, g, e, 4int, 0int, 8int);
    let e = lemma_square(n, g, e, 8int, 0int, 64int);
    let e = lemma_square(n, g, e, 64int, 0int, 4096int);
    let e = lemma_square(n, g, e, 4096int, 0int, 0x1000000int);
    let e = lemma_square(n, g, e, 0x1000000int, 0int, 0x1000000000000int);
    let e = lemma_times(n, g, e, 0x1000000000000int, 0int, 0x2000000000000int);
    let e = lemma_square(n, g, e, 0x2000000000000int, 0x46043b1c170int, 0x779e2cffbba270int);
    let e = lemma_square(n, g, e, 0x779e2cffbba270int, 0x3d258bed0be353int, 0x67ae97afe16ca3int);
    let e = lemma_square(n, g, e, 0x67ae97afe16ca3int, 0x2df08ac5249a14int, 0x68e58906a7e29dint);
    let e = lemma_square(n, g, e, 0x68e58906a7e29dint, 0x2f05b3c68ea47cint, 0x451401cd40ff05int);
    let e = lemma_times(n, g, e, 0x451401cd40ff05int, 0int, 0x8a28039a81fe0aint);
    let e = lemma_square(n, g, e, 0x8a28039a81fe0aint, 0x519183e663f2aeint, 0x693999a3b09f32int);
    let e = lemma_times(n, g, e, 0x693999a3b09f32int, 0int, 0xd2733347613e64int);
    let e = lemma_square(n, g, e, 0xd2733347613e64int, 0xbd44c0b3c76576int, 0x7fef0045ce6826int);
    let e = lemma_times(n, g, e, 0x7fef0045ce6826int, 1int, 0x15dd84576b9cbdint);
    let e = lemma_square(n, g, e, 0x15dd84576b9cbdint, 0x20b0930833235int, 0x8206e53f8648eeint);
    let e = lemma_square(n, g, e, 0x8206e53f8648eeint, 0x484066cba3fc5dint, 0x7a0571f4413e51int);
    let e = lemma_square(n, g, e, 0x7a0571f4413e51int, 0x3fa0e5967ae508int, 0x564bc81b7ece29int);
    let e = lemma_square(n, g, e, 0x564bc81b7ece29int, 0x1fd315447d30a9int, 0x80e3216569292aint);
    let e = lemma_square(n, g, e, 0x80e3216569292aint, 0x46fd931cd54883int, 0xc5394d969e0b7int);
    assert(e == 0x188e0nat);
    let e = lemma_square(n, g, e, 0xc5394d969e0b7int, 0xa639e77c3021int, 0x8ec5a63184d62int);
    let e = lemma_square(n, g, e, 0x8ec5a63184d62int, 0x571c1d37889aint, 0xb89a91960e1d7eint);
    let e = lemma_times(n, g, e, 0xb89a91960e1d7eint, 1int, 0x8734a6f7eb076dint);
    let e = lemma_square(n, g, e, 0x8734a6f7eb076dint, 0x4e1f1930f2d59dint, 0x24bbb979148ab6int);
    let e = lemma_times(n, g, e, 0x24bbb979148ab6int, 0int, 0x497772f229156cint);
    let e = lemma_square(n, g, e, 0x497772f229156cint, 0x1710bc478258e3int, 0xc21be8056b05c3int);
    let e = lemma_square(n, g, e, 0xc21be8056b05c3int, 0xa10460e7f600e5int, 0xe560df2ab6139eint);
    let e = lemma_square(n, g, e, 0xe560df2ab6139eint, 0xe0d8a501efc92cint, 0x9f849272b7b1f0int);
    let e = lemma_square(n, g, e, 0x9f849272b7b1f0int, 0x6cbe137c4bd569int, 0x42f4aae9d4a059int);
    let e = lemma_times(n, g, e, 0x42f4aae9d4a059int, 0int, 0x85e955d3a940b2int);
    let e = lemma_square(n, g, e, 0x85e955d3a940b2int, 0x4ca2100e630324int, 0x294de33a8a8ea8int);
    let e = lemma_square(n, g, e, 0x294de33a8a8ea8int, 0x74a6c3f1f00b3int, 0xaa46c04ee6c143int);
    let e = lemma_times(n, g, e, 0xaa46c04ee6c143int, 1int, 0x6a8d04699c4ef7int);
    let e = lemma_square(n, g, e, 0x6a8d04699c4ef7int, 0x30845ddc3d765eint, 0x1e8949ee7b99cfint);
    assert(e == 0x623818anat);
    reveal(remains);
}

/// The test for the prime of seventeen digits at the whole exponent.
proof fn lemma_seventeen_digits_order()
    ensures
        power(0x1e8949ee7b99cfint, 0x261e811bnat) % 0xea007c3431338fint == 1int,
{
    let (n, g) = (0xea007c3431338fint, 0x1e8949ee7b99cfint);
    lemma_start(n, g);
    let e = 1nat;
    let e = lemma_square(n, g, e, 0x1e8949ee7b99cfint, 0x3fc1fbfa4564cint, 0x444e024ec9bcedint);
    let e = lemma_square(n, g, e, 0x444e024ec9bcedint, 0x13f02244cb7c05int, 0xca6465eb42ad9eint);
    let e = lemma_square(n, g, e, 0xca6465eb42ad9eint, 0xaf0d6a6e595b89int, 0xb9c4c44d780fdint);
    let e = lemma_times(n, g, e, 0xb9c4c44d780fdint, 0x183df65d5d97eint, 0x421f33f000ea31int);
    let e = lemma_square(n, g, e, 0x421f33f000ea31int, 0x12af1e1b10d666int, 0x61a03f7b998867int);
    let e = lemma_times(n, g, e, 0x61a03f7b998867int, 0xcbd62b0fa2157int, 0x9b5ffa4123e5b0int);
    let e = lemma_square(n, g, e, 0x9b5ffa4123e5b0int, 0x672ad9adb622b7int, 0xac1eaad9857fc7int);
    let e = lemma_square(n, g, e, 0xac1eaad9857fc7int, 0x7e9a3d13fab0afint, 0xe649ccead27df0int);
    let e = lemma_square(n, g, e, 0xe649ccead27df0int, 0xe2a233ffa6d26dint, 0xb65c5b26bbff1dint);
    let e = lemma_square(n, g, e, 0xb65c5b26bbff1dint, 0x8e1dbc247990a7int, 0xd9bb821ae8b700int);
    let e = lemma_square(n, g, e, 0xd9bb821ae8b700int, 0xca981c06884281int, 0x7443b078c326f1int);
    let e = lemma_times(n, g, e, 0x7443b078c326f1int, 0xf2c09fa49813cint, 0xcfb5bdab93615bint);
    let e = lemma_square(n, g, e, 0xcfb5bdab93615bint, 0xb85f3fc8c05683int, 0x9557cfe5c8aa2cint);
    let e = lemma_times(n, g, e, 0x9557cfe5c8aa2cint, 0x137d181a051f61int, 0x59639e226c0b65int);
    let e = lemma_square(n, g, e, 0x59639e226c0b65int, 0x222594f35f45c8int, 0x91a85389530321int);
    let e = lemma_times(n, g, e, 0x91a85389530321int, 0x1301f91f59dacfint, 0x99c5827e71ca0eint);
    let e = lemma_square(n, g, e, 0x99c5827e71ca0eint, 0x650c91dfc7aa27int, 0xb13f582f147fbint);
    let e = lemma_times(n, g, e, 0xb13f582f147fbint, 0x17214bb490c67int, 0x3e66ea8db9c46cint);
    let e = lemma_square(n, g, e, 0x3e66ea8db9c46cint, 0x10a414b0b70004int, 0xc486e176cfbf54int);
    let e = lemma_square(n, g, e, 0xc486e176cfbf54int, 0xa50dad1ac384f6int, 0x301103170c2c26int);
    let e = lemma_times(n, g, e, 0x301103170c2c26int, 0x645c0e146f674int, 0x39e8cbd8ba1eeint);
    let e = lemma_square(n, g, e, 0x39e8cbd8ba1eeint, 0xe54c00514d4int, 0x2b9a1658505ad8int);
    let e = lemma_square(n, g, e, 0x2b9a1658505ad8int, 0x81fd8f47ccdf7int, 0xd6e88a60365447int);
    assert(e == 0x130f4nat);
    let e = lemma_square(n, g, e, 0xd6e88a60365447int, 0xc55f6e4c05c3d3int, 0xb67c71f5143fd4int);
    let e = lemma_square(n, g, e, 0xb67c71f5143fd4int, 0x8e4fc45b41f15fint, 0x7d096634ef467fint);
    let e = lemma_square(n, g, e, 0x7d096634ef467fint, 0x42cfec063e22a6int, 0x946c1015294647int);
    let e = lemma_square(n, g, e, 0x946c1015294647int, 0x5e240b86fd5d27int, 0x88a26b9a7c19e8int);
    let e = lemma_square(n, g, e, 0x88a26b9a7c19e8int, 0x4fc802eb9a8238int, 0x65f68c8b673cf8int);
    let e = lemma_times(n, g, e, 0x65f68c8b673cf8int, 0xd4e46754b16b0int, 0x78f701b4ebc838int);
    let e = lemma_square(n, g, e, 0x78f701b4ebc838int, 0x3e88133ea10989int, 0xe3e1cf3b53edb9int);
    let e = lemma_square(n, g, e, 0xe3e1cf3b53edb9int, 0xddec1b5fc3d7d4int, 0x196fe366bd4445int);
    let e = lemma_square(n, g, e, 0x196fe366bd4445int, 0x2c3df26f6dd9fint, 0x757500329b41c8int);
    let e = lemma_square(n, g, e, 0x757500329b41c8int, 0x3af51b6798ebcfint, 0x9c57795512369fint);
    let e = lemma_times(n, g, e, 0x9c57795512369fint, 0x1466e60da95e1aint, 0xa1cf78126f730bint);
    let e = lemma_square(n, g, e, 0xa1cf78126f730bint, 0x6fe3fec663a79bint, 0xc1fdf9468361e4int);
    let e = lemma_times(n, g, e, 0xc1fdf9468361e4int, 0x1950aee65bebd5int, 0xd7639825304061int);
    let e = lemma_square(n, g, e, 0xd7639825304061int, 0xc641b5bb585921int, 0xca920e3b244852int);
    let e = lemma_square(n, g, e, 0xca920e3b244852int, 0xaf5c6e2ce7904cint, 0x511482f1d97bd0int);
    let e = lemma_times(n, g, e, 0x511482f1d97bd0int, 0xa94a3ab5f2477int, 0xb66e83919a59b7int);
    let e = lemma_square(n, g, e, 0xb66e83919a59b7int, 0x8e3a0ab2990f70int, 0x3bfdbe6799d141int);
    let e = lemma_times(n, g, e, 0x3bfdbe6799d141int, 0x7d41f53138b92int, 1int);
    assert(e == 0x261e811bnat);
    reveal(remains);
}

/// The prime of seventeen digits is prime.
proof fn lemma_seventeen_digits()
    ensures
        is_prime(0xea007c3431338fint),
{
    let (n, g) = (0xea007c3431338fint, 2int);
    assert(has_inverse(n, power(g, 0x623818anat) - 1)) by {
        lemma_seventeen_digits_base();
        lemma_invertible(n, g, 0x623818anat, 0x1e8949ee7b99cfint, 0x8aac914b371ee1int, 0x1218ad8faaa2a3int);
    }
    assert(power(g, 0xea007c3431338enat) % n == 1) by {
        lemma_seventeen_digits_base();
        lemma_seventeen_digits_order();
        lemma_power_chain(n, g, 0x623818anat, 0x1e8949ee7b99cfint, 0x261e811bnat);
    }
    assert forall|c: int| #[trigger] is_prime(c) && 0x261e811bnat as int % c == 0 implies has_inverse(
        n,
        power(g, ((n - 1) / c) as nat) - 1,
    ) by {
        lemma_nine_digits();
        lemma_prime_divides_prime(c, 0x261e811bint);
    }
    lemma_pocklington(n, g, 0x261e811bnat, 0x623818anat);
}

/// The test for the prime of twenty-nine digits at its large divisor.
#[verifier::rlimit(60)]
proof fn lemma_twenty_nine_digits_base()
    ensures
        power(2int, 0x30d8d2ea20nat) % 0x2ca6487cfcd795e8729527e1int == 0x19a3e92405bebb4bd6527e50int,
{
    let (n, g) = (0x2ca6487cfcd795e8729527e1int, 2int);
    lemma_start(n, g);
    let e = 1nat;
    let e = lemma_square(n, g, e, 2int, 0int, 4int);
    let e = lemma_times(n, g, e, 4int, 0int, 8int);
    let e = lemma_square(n, g, e, 8int, 0int, 64int);
    let e = lemma_square(n, g, e, 64int, 0int, 4096int);
    let e = lemma_square(n, g, e, 4096int, 0int, 0x1000000int);
    let e = lemma_square(n, g, e, 0x1000000int, 0int, 0x1000000000000int);
    let e = lemma_square(n, g, e, 0x1000000000000int, 5int, 0x20c0958f0fca1275c316389bint);
    let e = lemma_times(n, g, e, 0x20c0958f0fca1275c316389bint, 1int, 0x14dae2a122bc8f0313974955int);
    let e = lemma_square(n, g, e, 0x14dae2a122bc8f0313974955int, 0x9bdb32c7e7bbcfd4b2e5144int, 0x5a5d1d3acfb2f6f7e9ccd75int);
    let e = lemma_times(n, g, e, 0x5a5d1d3acfb2f6f7e9ccd75int, 0int, 0xb4ba3a759f65edefd399aeaint);
    let e = lemma_square(n, g, e, 0xb4ba3a759f65edefd399aeaint, 0x2db874a90954f6ee77e2968int, 0x133af9bf1620c024c639217cint);
    let e = lemma_square(n, g, e, 0x133af9bf1620c024c639217cint, 0x8484e1fad61f9bc6d51a12dint, 0x4e6d2cbe9b16817601bb083int);
    let e = lemma_times(n, g, e, 0x4e6d2cbe9b16817601bb083int, 0int, 0x9cda597d362d02ec0376106int);
    let e = lemma_square(n, g, e, 0x9cda597d362d02ec0376106int, 0x2270567660e517954c34a19int, 0x8d491e92804a3cd52de9d2bint);
    let e = lemma_times(n, g, e, 0x8d491e92804a3cd52de9d2bint, 0int, 0x11a923d25009479aa5bd3a56int);
    let e = lemma_square(n, g, e, 0x11a923d25009479aa5bd3a56int, 0x6fc4b407b92432690fb883aint, 0x82c4ee832a1dbee2fb183eaint);
    let e = lemma_square(n, g, e, 0x82c4ee832a1dbee2fb183eaint, 0x17efeff9c33a356055be395int, 0x16c40751762a158146598efint);
    let e = lemma_square(n, g, e, 0x16c40751762a158146598efint, 0xb9b929b76a97b3541559eint, 0xa0e6c46e78b6bc96c855d43int);
    let e = lemma_square(n, g, e, 0xa0e6c46e78b6bc96c855d43int, 0x243d535182bfce115f908d7int, 0x27e865a5fac4df796e3b3992int);
    let e = lemma_times(n, g, e, 0x27e865a5fac4df796e3b3992int, 1int, 0x232a82cef8b2290a69e14b43int);
    let e = lemma_square(n, g, e, 0x232a82cef8b2290a69e14b43int, 0x1bb264b31a5d1c69f1b1586fint, 0x287a19037cd6b1cfff3b0faint);
    let e = lemma_times(n, g, e, 0x287a19037cd6b1cfff3b0faint, 0int, 0x50f43206f9ad639ffe761f4int);
    let e = lemma_square(n, g, e, 0x50f43206f9ad639ffe761f4int, 0x92c6f2405ca367b0949073int, 0x195ff7d449524e1e64f567dint);
    assert(e == 0x186c6nat);
    let e = lemma_square(n, g, e, 0x195ff7d449524e1e64f567dint, 0xe6bbcb7fa24803616666bint, 0x1c2a3f9d8198ae2ee4cce7feint);
    let e = lemma_times(n, g, e, 0x1c2a3f9d8198ae2ee4cce7feint, 1int, 0xbae36be0659c6755704a81bint);
    let e = lemma_square(n, g, e, 0xbae36be0659c6755704a81bint, 0x30e40e4258e9b06eab001c8int, 0x166338ff77a549b4dadc6a11int);
    let e = lemma_square(n, g, e, 0x166338ff77a549b4dadc6a11int, 0xb39acaaeb35dcbe7c6a642dint, 0x15a36daf65b72fa386342e94int);
    let e = lemma_square(n, g, e, 0x15a36daf65b72fa386342e94int, 0xa7c8f0fd0a28ee04aa04d36int, 0x22f528059a855cbee5846f1aint);
    let e = lemma_times(n, g, e, 0x22f528059a855cbee5846f1aint, 1int, 0x1944078e383323955873b653int);
    let e = lemma_square(n, g, e, 0x1944078e383323955873b653int, 0xe4c0cc0e3ae56a28ed454eeint, 0x2089ee5590cc9a8b145737bbint);
    let e = lemma_square(n, g, e, 0x2089ee5590cc9a8b145737bbint, 0x17b684d8fea9db05d810fa5aint, 0x62a8da7e6744682ddca237fint);
    let e = lemma_times(n, g, e, 0x62a8da7e6744682ddca237fint, 0int, 0xc551b4fcce88d05bb9446feint);
    let e = lemma_square(n, g, e, 0xc551b4fcce88d05bb9446feint, 0x368029776dae9573fafa2abint, 0x276c7d455342ed80aeb2deb9int);
    let e = lemma_times(n, g, e, 0x276c7d455342ed80aeb2deb9int, 1int, 0x2232b20da9ae4518ead09591int);
    let e = lemma_square(n, g, e, 0x2232b20da9ae4518ead09591int, 0x1a316808d9e1472e4190eed4int, 0x197b602fde0d1658d9e7cdint);
    let e = lemma_times(n, g, e, 0x197b602fde0d1658d9e7cdint, 0int, 0x32f6c05fbc1a2cb1b3cf9aint);
    let e = lemma_square(n, g, e, 0x32f6c05fbc1a2cb1b3cf9aint, 0x3a2bd2047c5b7de8a6e4int, 0x2c473944cbd9b65c281afe40int);
    let e = lemma_square(n, g, e, 0x2c473944cbd9b65c281afe40int, 0x2be8f46e997630b408483555int, 0x133534d55e0f2cff75733d4bint);
    let e = lemma_times(n, g, e, 0x133534d55e0f2cff75733d4bint, 0int, 0x266a69aabc1e59feeae67a96int);
    let e = lemma_square(n, g, e, 0x266a69aabc1e59feeae67a96int, 0x210d5aaca497ed41c904705cint, 0x15a36c0d651fcfd300aa8b08int);
    let e = lemma_square(n, g, e, 0x15a36c0d651fcfd300aa8b08int, 0xa7c8d7aaa1a5e9be5bcbefaint, 0xeb4b202551c5151caa3c086int);
    let e = lemma_times(n, g, e, 0xeb4b202551c5151caa3c086int, 0int, 0x1d696404aa38a2a39547810cint);
    let e = lemma_square(n, g, e, 0x1d696404aa38a2a39547810cint, 0x135fc873a63ac250ebdaeb68int, 0x19d45c3ce78d16ebd4e75a28int);
    let e = lemma_square(n, g, e, 0x19d45c3ce78d16ebd4e75a28int, 0xef13772a1cac9820b11a785int, 0x2a413d8aa09ef172ee7da75bint);
    let e = lemma_square(n, g, e, 0x2a413d8aa09ef172ee7da75bint, 0x27fd13bbeb1f722cce131445int, 0x28265f7889a1f76834186b4int);
    let e = lemma_square(n, g, e, 0x28265f7889a1f76834186b4int, 0x241a8c7fb78f3b510c4b68int, 0x11e558924bf761a9775d028int);
    let e = lemma_times(n, g, e, 0x11e558924bf761a9775d028int, 0int, 0x23cab12497eec352eeba050int);
    assert(e == 0x186c69751nat);
    let e = lemma_square(n, g, e, 0x23cab12497eec352eeba050int, 0x1cb0f4ac41c9eb05ed450dint, 0x1d6e4eb57857e18421a46d93int);
    let e = lemma_square(n, g, e, 0x1d6e4eb57857e18421a46d93int, 0x136643400d3b9b9cbf10b4e0int, 0x2bcc2e8caa8f9d4ff9a16989int);
    let e = lemma_square(n, g, e, 0x2bcc2e8caa8f9d4ff9a16989int, 0x2af63dfa822b7b5cbe343303int, 0x1fd4e6002d561752456e60aeint);
    let e = lemma_square(n, g, e, 0x1fd4e6002d561752456e60aeint, 0x16b18712943807c5f547a2d9int, 0x25148b58acff5af41df8c68bint);
    let e = lemma_square(n, g, e, 0x25148b58acff5af41df8c68bint, 0x1ecb4dd758f5c9ad8b76b249int, 0x19a3e92405bebb4bd6527e50int);
    assert(e == 0x30d8d2ea20nat);
    reveal(remains);
}

/// The test for the prime of twenty-nine digits at the whole exponent.
#[verifier::rlimit(60)]
proof fn lemma_twenty_nine_digits_order()
    ensures
        power(0x19a3e92405bebb4bd6527e50int, 0xea007c3431338fnat) % 0x2ca6487cfcd795e8729527e1int == 1int,
{
    let (n, g) = (0x2ca6487cfcd795e8729527e1int, 0x19a3e92405bebb4bd6527e50int);
    lemma_start(n, g);
    let e = 1nat;
    let e = lemma_square(n, g, e, 0x19a3e92405bebb4bd6527e50int, 0xeb95dc3acfe0cedd41b7989int, 0x1c3ba0731838bf068f2c2897int);
    let e = lemma_times(n, g, e, 0x1c3ba0731838bf068f2c2897int, 0x103682620bdba4072b7dd9b4int, 0x1377743336b03795709a3dfcint);
    let e = lemma_square(n, g, e, 0x1377743336b03795709a3dfcint, 0x87cb87fe22068b2be04e23dint, 0x2315c9fdc5ca349889eeed73int);
    let e = lemma_times(n, g, e, 0x2315c9fdc5ca349889eeed73int, 0x1425d90b4b97ba4f1b41ed33int, 0x29dd6322677c53601f9b8f1dint);
    let e = lemma_square(n, g, e, 0x29dd6322677c53601f9b8f1dint, 0x2740f437802f2c02c04af08eint, 0x2a1ccadc2fe323cbf7f65a7bint);
    let e = lemma_square(n, g, e, 0x2a1ccadc2fe323cbf7f65a7bint, 0x27b834fe311fa1cb501b0a8dint, 0x1229a2367c3af89fe9edf62cint);
    let e = lemma_times(n, g, e, 0x1229a2367c3af89fe9edf62cint, 0xa6e14b1ee0060af782ff509int, 0x1e1b137ff36a324a4ae6d9d7int);
    let e = lemma_square(n, g, e, 0x1e1b137ff36a324a4ae6d9d7int, 0x144ca2dd4bf1dee9d202bc86int, 0xb447ed7839e5ced0e9416cbint);
    let e = lemma_square(n, g, e, 0xb447ed7839e5ced0e9416cbint, 0x2d7eb20695dc8c453c02ed5int, 0xc5de839651988f891bae8c4int);
    let e = lemma_times(n, g, e, 0xc5de839651988f891bae8c4int, 0x71a0aae4f2113594133ae6dint, 0x1cfc319e15305a5bb2514c73int);
    let e = lemma_square(n, g, e, 0x1cfc319e15305a5bb2514c73int, 0x12d0f717f813853e86abe4b1int, 0x2a2849632887881fe9aa8518int);
    let e = lemma_square(n, g, e, 0x2a2849632887881fe9aa8518int, 0x27cde69b3318294579850bf5int, 0x59be5bf25ef4f4c96b71cebint);
    let e = lemma_square(n, g, e, 0x59be5bf25ef4f4c96b71cebint, 0xb4616fd816a319ce96ed38int, 0x75c33d0907400032cdc3981int);
    let e = lemma_square(n, g, e, 0x75c33d0907400032cdc3981int, 0x13698fd4dc80ded38acdfbaint, 0x21c9b255c4936e4d095aba87int);
    let e = lemma_square(n, g, e, 0x21c9b255c4936e4d095aba87int, 0x199187769c290e9db93f7db1int, 0x256c79b3a74dd54db5dc03a0int);
    let e = lemma_square(n, g, e, 0x256c79b3a74dd54db5dc03a0int, 0x1f5e0781420700aa501b92fbint, 0xe59669e756e8e998d55b865int);
    let e = lemma_square(n, g, e, 0xe59669e756e8e998d55b865int, 0x49c898254e9532b5b2d716bint, 0x1b0aa2759336eca181645bceint);
    let e = lemma_square(n, g, e, 0x1b0aa2759336eca181645bceint, 0x10609f877266b0bdebe2c7e4int, 0x1ded7c80a2b12c7bb762ae60int);
    let e = lemma_square(n, g, e, 0x1ded7c80a2b12c7bb762ae60int, 0x140f56a674967cc98fc9590fint, 0x21a5825f715c9f16a80314d1int);
    let e = lemma_square(n, g, e, 0x21a5825f715c9f16a80314d1int, 0x195ae00fb0e0cd4483640667int, 0x254b30aadbc19fa27ec1011aint);
    assert(e == 0x1d400nat);
    let e = lemma_square(n, g, e, 0x254b30aadbc19fa27ec1011aint, 0x1f26543c1c6f5f2b0fb6bde2int, 0x17d089a17e39e6877220e502int);
    let e = lemma_times(n, g, e, 0x17d089a17e39e6877220e502int, 0xdacf97159337841db6e995bint, 0xd367c05503bac9d6419e6a5int);
    let e = lemma_square(n, g, e, 0xd367c05503bac9d6419e6a5int, 0x3e8f486734e1b59dc488cacint, 0x10b5be12af9b05e9a2b90f2dint);
    let e = lemma_times(n, g, e, 0x10b5be12af9b05e9a2b90f2dint, 0x998852132574b670e49e42bint, 0x6666b9237bfae9a5fbcd45int);
    let e = lemma_square(n, g, e, 0x6666b9237bfae9a5fbcd45int, 0xeada051d4b7a2e2f1cf1int, 0x2c810cc5e54aabe2ccf6dc8int);
    let e = lemma_times(n, g, e, 0x2c810cc5e54aabe2ccf6dc8int, 0x198e877e8fc940e15cd55e4int, 0xce957194f4106347ba8851cint);
    let e = lemma_square(n, g, e, 0xce957194f4106347ba8851cint, 0x3bbd17d5e9a05a3aeb5a825int, 0x29ceaff8c3c95e9a5026af8bint);
    let e = lemma_times(n, g, e, 0x29ceaff8c3c95e9a5026af8bint, 0x1802159772809790540873a9int, 0x174e96b90d33704bca99dee7int);
    let e = lemma_square(n, g, e, 0x174e96b90d33704bca99dee7int, 0xc2a8ca4e1a15a346ff27a8bint, 0x1d2049e12dd78ecb30839346int);
    let e = lemma_times(n, g, e, 0x1d2049e12dd78ecb30839346int, 0x10b9d1dd1f27e962858d6685int, 0xa94bd527b6649b7cab81bfbint);
    let e = lemma_square(n, g, e, 0xa94bd527b6649b7cab81bfbint, 0x281ea3b9d927182ef0193c5int, 0x19261ecd3a311dac4e5004f4int);
    let e = lemma_square(n, g, e, 0x19261ecd3a311dac4e5004f4int, 0xe2a475e02e3f63501896557int, 0x273788c4a10bc624c6c33619int);
    let e = lemma_square(n, g, e, 0x273788c4a10bc624c6c33619int, 0x2272003f8c467cecb5252cbbint, 0x26f062ff9dc36e7f330c116int);
    let e = lemma_square(n, g, e, 0x26f062ff9dc36e7f330c116int, 0x21f5764d8dfae646e98321int, 0x1ea1aef1dc016f24d376e6e3int);
    let e = lemma_square(n, g, e, 0x1ea1aef1dc016f24d376e6e3int, 0x1503be7c54c0ea87bed24354int, 0x2067a44bd98f97ce848db475int);
    let e = lemma_times(n, g, e, 0x2067a44bd98f97ce848db475int, 0x129bd2d324bceae385d6a0c9int, 0x2150627447f80d425b750ae7int);
    let e = lemma_square(n, g, e, 0x2150627447f80d425b750ae7int, 0x18db36ea401f508f5670f2b8int, 0x19d1eac688d131a5ce4580b9int);
    let e = lemma_times(n, g, e, 0x19d1eac688d131a5ce4580b9int, 0xed3c924d67e914b3612e22dint, 0xa241be77843f0927716a343int);
    let e = lemma_square(n, g, e, 0xa241be77843f0927716a343int, 0x24da481cceab67f45754290int, 0x285629362a5c555ffa9ef2f9int);
    let e = lemma_square(n, g, e, 0x285629362a5c555ffa9ef2f9int, 0x2470b15dedf147872cc24500int, 0x26cb8cb58fdbf6a10db61131int);
    let e = lemma_times(n, g, e, 0x26cb8cb58fdbf6a10db61131int, 0x164740f46869cf3ec66e531fint, 0x75f2340be930d65f861b611int);
    let e = lemma_square(n, g, e, 0x75f2340be930d65f861b611int, 0x13790ebced0e5b0ff5c7d3eint, 0x1b3f02289bfe9b3461e9a7a3int);
    let e = lemma_square(n, g, e, 0x1b3f02289bfe9b3461e9a7a3int, 0x10a04d6fc92e3818b204898fint, 0x1e01d89f21bbcb33354f621aint);
    let e = lemma_square(n, g, e, 0x1e01d89f21bbcb33354f621aint, 0x142aab16cb6ea7f1e9921e73int, 0x17bfb88f93eb4891faa4a291int);
    assert(e == 0x1d400f868nat);
    let e = lemma_square(n, g, e, 0x17bfb88f93eb4891faa4a291int, 0xca1c75bce3883dad5d26dcfint, 0x2452589b30bf4ec4d0dbca32int);
    let e = lemma_square(n, g, e, 0x2452589b30bf4ec4d0dbca32int, 0x1d8c0cf62babbe73c9b265c1int, 0x172f7856db9d9049329e1c23int);
    let e = lemma_times(n, g, e, 0x172f7856db9d9049329e1c23int, 0xd507af86c9daba7da20ea1aint, 0x21e9b5b44c62f77b58be4e16int);
    let e = lemma_square(n, g, e, 0x21e9b5b44c62f77b58be4e16int, 0x19c211dd1d318513ae08ebe3int, 0x196f94099462c1876d938261int);
    let e = lemma_times(n, g, e, 0x196f94099462c1876d938261int, 0xe9b5065216be8c09a78f019int, 0x611cbea0101c8219feaa757int);
    let e = lemma_square(n, g, e, 0x611cbea0101c8219feaa757int, 0xd337db1b021e02613e6f63int, 0x174fe46632dcb2d184f7a48eint);
    let e = lemma_square(n, g, e, 0x174fe46632dcb2d184f7a48eint, 0xc2be90a03daa686d40ba726int, 0x1b12d250a91c5ea809f78c5eint);
    let e = lemma_square(n, g, e, 0x1b12d250a91c5ea809f78c5eint, 0x106a8bb29c52c62247b72f8bint, 0x29b1c7dcbbb1efce4434fc59int);
    let e = lemma_square(n, g, e, 0x29b1c7dcbbb1efce4434fc59int, 0x26ef58beea261bd81231b4c0int, 0x152b83548099d32980ee3a31int);
    let e = lemma_times(n, g, e, 0x152b83548099d32980ee3a31int, 0xc283056879f7f767c4b623aint, 0x2251208b9ca0ee7b6ace2256int);
    let e = lemma_square(n, g, e, 0x2251208b9ca0ee7b6ace2256int, 0x1a601a94ac44f9ff54d9b17aint, 0x83f3c33f2d6756b21a262aaint);
    let e = lemma_square(n, g, e, 0x83f3c33f2d6756b21a262aaint, 0x185f4e14ecc2f3dee1f5acdint, 0x4da7b262650460a5798fb7int);
    let e = lemma_square(n, g, e, 0x4da7b262650460a5798fb7int, 0x870f06d62e58ded92062int, 0x1eed329aa5d46090a3dd90afint);
    let e = lemma_times(n, g, e, 0x1eed329aa5d46090a3dd90afint, 0x11c27fea2429dacaa3843d99int, 0x12f0b8f09b9f2ff90bd7e637int);
    let e = lemma_square(n, g, e, 0x12f0b8f09b9f2ff90bd7e637int, 0x808d3947813a4653ddffb5aint, 0x16b9a16776bd769758e03fb7int);
    let e = lemma_times(n, g, e, 0x16b9a16776bd769758e03fb7int, 0xd0ccf6bec175cfdadbe1fffint, 0x127829bc6a9b3d50afa90311int);
    let e = lemma_square(n, g, e, 0x127829bc6a9b3d50afa90311int, 0x7a3d0c884a5784e80b94db0int, 0x1e19df92d17a8bd855584f71int);
    let e = lemma_square(n, g, e, 0x1e19df92d17a8bd855584f71int, 0x144b03a5a428d46f87d00f84int, 0x16668b3d4c5c3d8ee04830ddint);
    let e = lemma_square(n, g, e, 0x16668b3d4c5c3d8ee04830ddint, 0xb3d018c71beda944a4e84dbint, 0x25b6c138d2dc290e26ec7d4eint);
    let e = lemma_times(n, g, e, 0x25b6c138d2dc290e26ec7d4eint, 0x15a84d74db6748f6b2ee03a7int, 0x9f6d40fde8b4957e29ce599int);
    let e = lemma_square(n, g, e, 0x9f6d40fde8b4957e29ce599int, 0x23940d241d3677ce0bbf999int, 0x24ec1f53c4e0f854341966f8int);
    let e = lemma_times(n, g, e, 0x24ec1f53c4e0f854341966f8int, 0x1533f08d4fd7b88e4ab0d7adint, 0xa18470a66e409a1ec145373int);
    let e = lemma_square(n, g, e, 0xa18470a66e409a1ec145373int, 0x24847c71de0f200524d3a1eint, 0x167d98aa1b915d48e3fb1f4bint);
    let e = lemma_times(n, g, e, 0x167d98aa1b915d48e3fb1f4bint, 0xcea55d3f038bce387397e4eint, 0x9e16e62fcf21495b4bacce2int);
    assert(e == 0x1d400f8686267nat);
    let e = lemma_square(n, g, e, 0x9e16e62fcf21495b4bacce2int, 0x22fbe3c20a1d5cfa90e7f66int, 0xc78928c0f6bcc9fcedc74deint);
    let e = lemma_square(n, g, e, 0xc78928c0f6bcc9fcedc74deint, 0x37bb63b437b6b3568684601int, 0x142eb1294b5eef14840542a3int);
    let e = lemma_square(n, g, e, 0x142eb1294b5eef14840542a3int, 0x91f6fe17bf11d69eb010126int, 0x18a2fea047d7d0de7989a763int);
    let e = lemma_square(n, g, e, 0x18a2fea047d7d0de7989a763int, 0xd9811d36b06ffb816ac8136int, 0x25f0a954347f42d2b5ad85d3int);
    let e = lemma_times(n, g, e, 0x25f0a954347f42d2b5ad85d3int, 0x15c98e4a9d1b8ee3b67614adint, 0x1295d3396a19afe2000e24e3int);
    let e = lemma_square(n, g, e, 0x1295d3396a19afe2000e24e3int, 0x7bc6e9ddb1035464cb6be7aint, 0xf0708495b5d4b5b9980a20fint);
    let e = lemma_times(n, g, e, 0xf0708495b5d4b5b9980a20fint, 0x8a12e9e24573f6f34d0c3e0int, 0x1dd1ccc1a22f7ab9c010bed0int);
    let e = lemma_square(n, g, e, 0x1dd1ccc1a22f7ab9c010bed0int, 0x13ea4a46298fa82c4aadcce6int, 0x1eca70f016b32ecb9d6348daint);
    let e = lemma_times(n, g, e, 0x1eca70f016b32ecb9d6348daint, 0x11ae8a5ff3bcfc257adf7b08int, 0x174ec4335b0352e468e4b618int);
    let e = lemma_square(n, g, e, 0x174ec4335b0352e468e4b618int, 0xc2abc1f96be13fd96e0b179int, 0x240457762e2704b35853b7e7int);
    let e = lemma_times(n, g, e, 0x240457762e2704b35853b7e7int, 0x14aed6908f00cd50e3d8540fint, 1int);
    assert(e == 0xea007c3431338fnat);
    reveal(remains);
}

/// The prime of twenty-nine digits is prime.
proof fn lemma_twenty_nine_digits()
    ensures
        is_prime(0x2ca6487cfcd795e8729527e1int),
{
    let (n, g) = (0x2ca6487cfcd795e8729527e1int, 2int);
    assert(has_inverse(n, power(g, 0x30d8d2ea20nat) - 1)) by {
        lemma_twenty_nine_digits_base();
        lemma_invertible(n, g, 0x30d8d2ea20nat, 0x19a3e92405bebb4bd6527e50int, 0x27af4995b5c971ff1be1666aint, 0x16ca0897b6da76cad031a955int);
    }
    assert(power(g, 0x2ca6487cfcd795e8729527e0nat) % n == 1) by {
        lemma_twenty_nine_digits_base();
        lemma_twenty_nine_digits_order();
        lemma_power_chain(n, g, 0x30d8d2ea20nat, 0x19a3e92405bebb4bd6527e50int, 0xea007c3431338fnat);
    }
    assert forall|c: int| #[trigger] is_prime(c) && 0xea007c3431338fnat as int % c == 0 implies has_inverse(
        n,
        power(g, ((n - 1) / c) as nat) - 1,
    ) by {
        lemma_seventeen_digits();
        lemma_prime_divides_prime(c, 0xea007c3431338fint);
    }
    lemma_pocklington(n, g, 0xea007c3431338fnat, 0x30d8d2ea20nat);
}

/// The power that the tests for the order of the scalar field start from.
#[verifier::rlimit(60)]
proof fn lemma_modulus_base()
    ensures
        power(5int, 0x2420ed35cbcd9e3507124302606dffc8000000nat) % 0x30644e72e131a029b85045b68181585d2833e84879b9709143e1f593f0000001int == 0x24e06e8fa50aa248bdbd10e329e60a6f62dce94d011caa97055830026ad729c5int,
{
    let (n, g) = (0x30644e72e131a029b85045b68181585d2833e84879b9709143e1f593f0000001int, 5int);
    lemma_start(n, g);
    let e = 1nat;
    let e = lemma_square(n, g, e, 5int, 0int, 25int);
    let e = lemma_square(n, g, e, 25int, 0int, 625int);
    let e = lemma_square(n, g, e, 625int, 0int, 0x5f5e1int);
    let e = lemma_times(n, g, e, 0x5f5e1int, 0int, 0x1dcd65int);
    let e = lemma_square(n, g, e, 0x1dcd65int, 0int, 0x3782dace9d9int);
    let e = lemma_square(n, g, e, 0x3782dace9d9int, 0int, 0xc097ce7bc90715b34b9f1int);
    let e = lemma_square(n, g, e, 0xc097ce7bc90715b34b9f1int, 0int, 0x90e40fbeea1d3a4abc8955e946fe31cdcf66f634e1int);
    let e = lemma_square(n, g, e, 0x90e40fbeea1d3a4abc8955e946fe31cdcf66f634e1int, 0x1b1d20a211163f9e4bde7int, 0x1c446417388cae27cf5fecdad90b447a65c746e48d80cee32cdf5ab96d736fdaint);
    let e = lemma_square(n, g, e, 0x1c446417388cae27cf5fecdad90b447a65c746e48d80cee32cdf5ab96d736fdaint, 0x1082ffa6803fc4c09823eb78a827c230f02850f078d3832d862ef2cade26d4f2int, 0x1c6703ac6018d7be3768a2c40613e242de98d3db19217a9d68d736fd9493f0b2int);
    let e = lemma_times(n, g, e, 0x1c6703ac6018d7be3768a2c40613e242de98d3db19217a9d68d736fd9493f0b2int, 2int, 0x2d3a75781e18f663a46aa2671b60ba94089452b68a3483f0847027cc06e3b378int);
    let e = lemma_square(n, g, e, 0x2d3a75781e18f663a46aa2671b60ba94089452b68a3483f0847027cc06e3b378int, 0x2a458d76a6f3f3cb2cc2df0e408b7f23a0ca671d95dfba8ade7831402af041e4int, 0xffebdc8e2ef5d5a06b3a6bcf8daacfb45c3c2320b472bd0f1a1953f79b0c65cint);
    let e = lemma_square(n, g, e, 0xffebdc8e2ef5d5a06b3a6bcf8daacfb45c3c2320b472bd0f1a1953f79b0c65cint, 0x549723c60ef7a358507af44521d3b10ae03583abda5e0673043319a8ca04c30int, 0x1f93b73843a93502772e08e1380e13c18b8b988f927f1f77da3a2644c39224e0int);
    let e = lemma_square(n, g, e, 0x1f93b73843a93502772e08e1380e13c18b8b988f927f1f77da3a2644c39224e0int, 0x149ad9a09ffe8ea304b1ec5bc5327e85a5edb66d4fd8594ea0924834a061c1adint, 0x853ca21080877c2012bfe9a4bf5b44202977dbbfa2d4a7ff606597d846e0253int);
    let e = lemma_square(n, g, e, 0x853ca21080877c2012bfe9a4bf5b44202977dbbfa2d4a7ff606597d846e0253int, 0x16ed70c7803f604742a97d812d397f797fe3a01884c8a3c5854d7e79867c27cint, 0x2dffef02a33db48af2ddf8ffb651acdac1ed9c3731fe38c70a8a2549bef1a46dint);
    let e = lemma_square(n, g, e, 0x2dffef02a33db48af2ddf8ffb651acdac1ed9c3731fe38c70a8a2549bef1a46dint, 0x2bb9d4d311808928c73f244f217b7d39bf13967df4a8508904f8608438c6afffint, 0x185c20f30442375a1b2c4bf15c0e6c1bb1a20abb5e932ddcf06f1c62820f266aint);
    let e = lemma_square(n, g, e, 0x185c20f30442375a1b2c4bf15c0e6c1bb1a20abb5e932ddcf06f1c62820f266aint, 0xc4331bf3b6b07794384980ec93a118dd96263b37557b4de10ffb73e88d1b456int, 0x11b454be80ba57d81bfed5cafdc2f330a6d02bf263a1c3fb4124d160055def8eint);
    let e = lemma_times(n, g, e, 0x11b454be80ba57d81bfed5cafdc2f330a6d02bf263a1c3fb4124d160055def8eint, 1int, 0x28215945a272170ed3a9e740734d679619dcf373786f635701d6214c2ad5adc5int);
    let e = lemma_square(n, g, e, 0x28215945a272170ed3a9e740734d679619dcf373786f635701d6214c2ad5adc5int, 0x21477605cd764f5da17cd8b1c98455e0a2e0da374dc5cd55d20a72109a010e2dint, 0x1c05a5379e2edd2f9f5b4c7fe86e20811cfa6585df6a27e38c0e222579c4cb6cint);
    let e = lemma_times(n, g, e, 0x1c05a5379e2edd2f9f5b4c7fe86e20811cfa6585df6a27e38c0e222579c4cb6cint, 2int, 0x2b539d305487119aac27f3128723f1cb407c2b0c699fe64f3482bf9380d7f91aint);
    let e = lemma_square(n, g, e, 0x2b539d305487119aac27f3128723f1cb407c2b0c699fe64f3482bf9380d7f91aint, 0x26caa5b386c93fe5b8fc7dccfa762ca3c608ba759625884cfade7602de9137f3int, 0x98548487f8b5ebd34f25f4f719d7bded8c5dd8b57964456d3f5452aad7e5eb1int);
    let e = lemma_times(n, g, e, 0x98548487f8b5ebd34f25f4f719d7bded8c5dd8b57964456d3f5452aad7e5eb1int, 0int, 0x2f9a696a7db8d9b208bbdc8d38136b5a3bdd53b8b5ef55b223ca59d56377d975int);
    assert(e == 0x12107nat);
    let e = lemma_square(n, g, e, 0x2f9a696a7db8d9b208bbdc8d38136b5a3bdd53b8b5ef55b223ca59d56377d975int, 0x2ed3ceb44ec3984b079d4dce9340d6ca3f4dd1a28c97d2a1f024954bf6a3dd40int, 0x306101c525f6fc0b4314f2432765f757c989d0b4bb3761e55c78a0866ad9b239int);
    let e = lemma_square(n, g, e, 0x306101c525f6fc0b4314f2432765f757c989d0b4bb3761e55c78a0866ad9b239int, 0x305db551029731bddf11a18af436ab65ee521d10356fd5a204c60f5b5d9e7c15int, 0x1351b175c05f65319bf25f0b49d63884015a4be7ba1ffb8d8bf5d7a4c716d49cint);
    let e = lemma_times(n, g, e, 0x1351b175c05f65319bf25f0b49d63884015a4be7ba1ffb8d8bf5d7a4c716d49cint, 1int, 0x303428d9e0ab59ce536b9581efadc236de8f933e28e6793277eb40a3f372270bint);
    let e = lemma_square(n, g, e, 0x303428d9e0ab59ce536b9581efadc236de8f933e28e6793277eb40a3f372270bint, 0x3004332814f62e85b7ec1543dcb19bae393c032f690492e28bcfc854ff4a8194int, 0x70050200425c7b1743f1bec2aa67ece8162cdb9b86d57d82692733bee75d8e5int);
    let e = lemma_times(n, g, e, 0x70050200425c7b1743f1bec2aa67ece8162cdb9b86d57d82692733bee75d8e5int, 0int, 0x230190a014bce677453b8b9cd5407a0886ee04a09a22b738c0dc402ba84d3c79int);
    let e = lemma_square(n, g, e, 0x230190a014bce677453b8b9cd5407a0886ee04a09a22b738c0dc402ba84d3c79int, 0x1952b29f647735e378d57a11daa2c019102a82abff89dee179509de594a0bc14int, 0x182af80a84b2720a01105353aedae949c03d13e09bd49f309c45d59dea72351dint);
    let e = lemma_square(n, g, e, 0x182af80a84b2720a01105353aedae949c03d13e09bd49f309c45d59dea72351dint, 0xc11e57ed88a077e5d1da0949f0aa4f6b4f727333d1d48fe8336493b8e4f365cint, 0x92bea05f6538ded3c3881a98a9b1531030632070ed699b7b2cf94988e89ceedint);
    let e = lemma_times(n, g, e, 0x92bea05f6538ded3c3881a98a9b1531030632070ed699b7b2cf94988e89ceedint, 0int, 0x2ddb921dcfa1c5a22d1a884fb50769f50f1efa234a3100967e0de6fac8b10aa1int);
    let e = lemma_square(n, g, e, 0x2ddb921dcfa1c5a22d1a884fb50769f50f1efa234a3100967e0de6fac8b10aa1int, 0x2b74ceaa92f8b7e94a26f729e919735d457f1ca761b67d02fba40167d3f45b5eint, 0x1ce5bd436144592e69f558a2d6dc0675764e354d035a2ab07bd8a5754f1e9de3int);
    let e = lemma_square(n, g, e, 0x1ce5bd436144592e69f558a2d6dc0675764e354d035a2ab07bd8a5754f1e9de3int, 0x114198dd0cfadaf86fd6bc16114ece5568a1ac0b694a6185863f7f23ca0f073cint, 0x1c420131d1b75d9b872de4506abd394128fc36d95bc7e786e70faf397285300dint);
    let e = lemma_square(n, g, e, 0x1c420131d1b75d9b872de4506abd394128fc36d95bc7e786e70faf397285300dint, 0x10803614e705d540ec3c2c24362a4d7b9e094a0371d270d0a928d051d9238daeint, 0x1207f6ad1ee115b8ae935084b59e2ced4d45a16eeddaf597371809d1916352fbint);
    let e = lemma_times(n, g, e, 0x1207f6ad1ee115b8ae935084b59e2ced4d45a16eeddaf597371809d1916352fbint, 1int, 0x29c382eeb933cc71b0904ce10a9588455a283ee22b8d5b62cf963b83e6f09ee6int);
    let e = lemma_square(n, g, e, 0x29c382eeb933cc71b0904ce10a9588455a283ee22b8d5b62cf963b83e6f09ee6int, 0x240b1f4789c9526ed2f7fc4d0dee2962784632d678b63b8f805a1cbc251b8e70int, 0x3e6d07225eb2fe830864d7342b24a44af2addf0e73638772ba5f67e74c52834int);
    let e = lemma_times(n, g, e, 0x3e6d07225eb2fe830864d7342b24a44af2addf0e73638772ba5f67e74c52834int, 0int, 0x1382123abd97ef88f29f83404d7b73576bd655b4840f1a53da3dd07847d9c904int);
    let e = lemma_square(n, g, e, 0x1382123abd97ef88f29f83404d7b73576bd655b4840f1a53da3dd07847d9c904int, 0x7dd3fc761d06e418a5bf179a4f235f0134e1ac1bd2ad3ff7b90e18a230766c1int, 0x1b0ab61df16f44828bfef27431dc2a0100527a6a92ba4401f145f2d48b97e14fint);
    let e = lemma_square(n, g, e, 0x1b0ab61df16f44828bfef27431dc2a0100527a6a92ba4401f145f2d48b97e14fint, 0xf1c7b3d125c44b57f2162ecbb7f3d07b45f9e856d6e19c6d427867eee6cebc7int, 0x1d360eb56400b76b2ccc629a435c961dc26bab163810f1008f7555d0dd110a9aint);
    let e = lemma_times(n, g, e, 0x1d360eb56400b76b2ccc629a435c961dc26bab163810f1008f7555d0dd110a9aint, 3int, 0xe15e32506eb49ab70d1bdfcc4ae57d537e9e95ab28634f01a4cc58815534ffint);
    let e = lemma_square(n, g, e, 0xe15e32506eb49ab70d1bdfcc4ae57d537e9e95ab28634f01a4cc58815534ffint, 0x41992814beaa3b81fa87922bddc026c9d810a56a98f41c3f0f867ef5e2244int, 0xf3a3b0c149f46525bb7824cd28cc9356aee203ac7e1ba923523d9818af073bdint);
    let e = lemma_square(n, g, e, 0xf3a3b0c149f46525bb7824cd28cc9356aee203ac7e1ba923523d9818af073bdint, 0x4caa82e09b9af6736a5a2c2ff0b36b3a55f47fde847bf4c7ae8404c497d08d9int, 0xf5a611fee0ceae2c1ef3aa56dbfa19afe426938c83b67836fd6f2e8413650b0int);
    let e = lemma_times(n, g, e, 0xf5a611fee0ceae2c1ef3aa56dbfa19afe426938c83b67836fd6f2e8413650b0int, 1int, 0x1c5f972cc50ef644115bdf84a33ccfa9cf1825d36f6f94ffeb50c8f5560f936fint);
    let e = lemma_square(n, g, e, 0x1c5f972cc50ef644115bdf84a33ccfa9cf1825d36f6f94ffeb50c8f5560f936fint, 0x10a2d5a450f669c22e3788883c20ce7ac2a35625edf43752153a7891acac7384int, 0x22eaf187371cbe8bbf97423e86421bbcba40b03af631f14f30c84ccdc33e369dint);
    let e = lemma_times(n, g, e, 0x22eaf187371cbe8bbf97423e86421bbcba40b03af631f14f30c84ccdc33e369dint, 3int, 0x1d69cc4b6ffad83d95037a151ac681982aa7b84d61cd64d828439f490037110eint);
    let e = lemma_square(n, g, e, 0x1d69cc4b6ffad83d95037a151ac681982aa7b84d61cd64d828439f490037110eint, 0x11e0b9524a02c5e3853adc509a04933f18c5d42b01a8aaa4436a491fa546716aint, 0x2aa863d7e834681a2697eced4e76de15a37a517067fee7b0276744834fe06b5aint);
    let e = lemma_times(n, g, e, 0x2aa863d7e834681a2697eced4e76de15a37a517067fee7b0276744834fe06b5aint, 4int, 0x13b8b96c043f87dbdfb689c8824cf4f79093f6102114c42bb57c8040cf6218beint);
    let e = lemma_square(n, g, e, 0x13b8b96c043f87dbdfb689c8824cf4f79093f6102114c42bb57c8040cf6218beint, 0x8098dfb5264c0fbd900f667e75afbc9848e194035520ec46c6d43aaffefab10int, 0x2159f0dd610f110a7bd4389fa00c976087042fea74eb2dd27b16aa6037ec81f4int);
    assert(e == 0x1210769aenat);
    let e = lemma_square(n, g, e, 0x2159f0dd610f110a7bd4389fa00c976087042fea74eb2dd27b16aa6037ec81f4int, 0x16fc4b34a81eeec4949b9bb6e9f7499328a62fa59fdac8f00d5ce52188ba31c2int, 0x23b6d09be3646ee0ae6b9c6a6e457415858cc392d3a64cde348a51294b1d9eceint);
    let e = lemma_square(n, g, e, 0x23b6d09be3646ee0ae6b9c6a6e457415858cc392d3a64cde348a51294b1d9eceint, 0x1a5b93f7562a7d54f267e0da4efa70e03109a868eaae3604c046edb456219f14int, 0x19c1b3b9467624c639f63e016ea90419f12e55cd164ac59049f6a922fb0d4eb0int);
    let e = lemma_times(n, g, e, 0x19c1b3b9467624c639f63e016ea90419f12e55cd164ac59049f6a922fb0d4eb0int, 2int, 0x1fffe5b89deb778bb12eaa9a264a63c7657fdc707c02faaeea0d62870742896eint);
    let e = lemma_square(n, g, e, 0x1fffe5b89deb778bb12eaa9a264a63c7657fdc707c02faaeea0d62870742896eint, 0x1528fa576f63b42d1b8bae5567ec6faf680a0a35f21ff83d47fea259a0ea91a8int, 0x28e62c84eaff5ce72026328018be2dd8f235ae386662ef4772be8740994599cint);
    let e = lemma_square(n, g, e, 0x28e62c84eaff5ce72026328018be2dd8f235ae386662ef4772be8740994599cint, 0x229108a29a019e9c01f4a444133c4e8f5f149b8b09574fb1d60013524b6743int, 0x12fa06426b8f13859d47d12f870716f4257e4958e4bb2cff2ea09e4991726fcdint);
    let e = lemma_times(n, g, e, 0x12fa06426b8f13859d47d12f870716f4257e4958e4bb2cff2ea09e4991726fcdint, 1int, 0x2e7dd0d93899c1725a16d03721a21a6793438673fdee706aa54121dbe73c2f00int);
    let e = lemma_square(n, g, e, 0x2e7dd0d93899c1725a16d03721a21a6793438673fdee706aa54121dbe73c2f00int, 0x2caa6e03edee27a2f912e6a159d177eeaeb561c6f0f8de688924a2a8d62f0ef2int, 0x256503830e3de76feaafa5392a059900ec2680a83b6a417c82fe25565a71f10eint);
    let e = lemma_times(n, g, e, 0x256503830e3de76feaafa5392a059900ec2680a83b6a417c82fe25565a71f10eint, 3int, 0x29cc2636a3a0a4b26c7d68fa4d97f3ed2424ca6fbbe6f5bac350d9f3f439b543int);
    let e = lemma_square(n, g, e, 0x29cc2636a3a0a4b26c7d68fa4d97f3ed2424ca6fbbe6f5bac350d9f3f439b543int, 0x241a09a2d1a46ca41c701acd75b5d0ac8629252c57a157106ed0c8a3455eacc3int, 0x250de09e1478b68931a65b615de6549bc3319418891539e6eec76428dacf22c6int);
    let e = lemma_times(n, g, e, 0x250de09e1478b68931a65b615de6549bc3319418891539e6eec76428dacf22c6int, 3int, 0x281877bdc2c6b030cf4ef7c350fb9df3575c2ba1403dcfcede3f1410760baddbint);
    let e = lemma_square(n, g, e, 0x281877bdc2c6b030cf4ef7c350fb9df3575c2ba1403dcfcede3f1410760baddbint, 0x2138bcdffa462aaeef1b3b512d127463c269b2feaee1b340fa5f51f759eb39d7int, 0x26a163bba61d24aebd05f28462cf483bb49d6441051aa06476c8e68860f87f82int);
    let e = lemma_times(n, g, e, 0x26a163bba61d24aebd05f28462cf483bb49d6441051aa06476c8e68860f87f82int, 3int, 0x2ffa07519afcd6ec882ceb72698860130e773c6bac58d04286469fee14da7d87int);
    let e = lemma_square(n, g, e, 0x2ffa07519afcd6ec882ceb72698860130e773c6bac58d04286469fee14da7d87int, 0x2f90a9987ab4750f7aec1d0515203e1f21451f6523f7ac3ae2cee2ff13ca156eint, 0x134c356d35a7aed51a38434088766b344decbf14a70f34dac11f0bdaebaf07c3int);
    let e = lemma_square(n, g, e, 0x134c356d35a7aed51a38434088766b344decbf14a70f34dac11f0bdaebaf07c3int, 0x7b20e6e0d6530a974906c4aabff8db88b234dca34cfab3d6ef7ff81b2e8486bint, 0x212e80ab3fdfbd7b32cc48ed8471f1efb05bb0c88ddf197b7a8c0a309bedf61eint);
    let e = lemma_square(n, g, e, 0x212e80ab3fdfbd7b32cc48ed8471f1efb05bb0c88ddf197b7a8c0a309bedf61eint, 0x16c0924355932d4b3bdf5399aa9bc0c6c2737cdcf83d5da7470075ac0739491cint, 0x9d90f91916bf3aef7b6b9b602563136c42a19bff3c18c151c01b72facf06268int);
    let e = lemma_times(n, g, e, 0x9d90f91916bf3aef7b6b9b602563136c42a19bff3c18c151c01b72facf06268int, 1int, 0xd8ff64f5ea22411e415ad78a2d9db4ac9e9877490e4bd848269e5a70b1ec07int);
    let e = lemma_square(n, g, e, 0xd8ff64f5ea22411e415ad78a2d9db4ac9e9877490e4bd848269e5a70b1ec07int, 0x3cd0e71c965d0d7a4efc9bc52bbd034f8a3c438321b0d9e63a5bbb3fa513cint, 0xab0b1437606a9d9d90f3251c60dd68b9e69706ae33968c076cd5fc2675096f5int);
    let e = lemma_times(n, g, e, 0xab0b1437606a9d9d90f3251c60dd68b9e69706ae33968c076cd5fc2675096f5int, 1int, 0x50f27de6cefb11784fbb5e25cc3d85cefdb49cdf6659b310e20e9381492f2c8int);
    let e = lemma_square(n, g, e, 0x50f27de6cefb11784fbb5e25cc3d85cefdb49cdf6659b310e20e9381492f2c8int, 0x876777dce8d36062308d6c3a7b01b2cd02a6f8168d65be95ba61343c0a1824int, 0x14f1dabc6d6df35f988c6fda7193a081f00f74f5efe7b4aebd5369471654a41cint);
    let e = lemma_square(n, g, e, 0x14f1dabc6d6df35f988c6fda7193a081f00f74f5efe7b4aebd5369471654a41cint, 0x910b1f7232fb786a635cc906377283721bef5ca600fc84e54285e881a466554int, 0x59cdc059416d50f1251caaa2a50392df8a7ef2325b77c2028a8b6f6114d7dbcint);
    let e = lemma_times(n, g, e, 0x59cdc059416d50f1251caaa2a50392df8a7ef2325b77c2028a8b6f6114d7dbcint, 0int, 0x1c104c1be472294b5b98f552d3911de5db47abafbc956ca0cb4b92ce568374acint);
    let e = lemma_square(n, g, e, 0x1c104c1be472294b5b98f552d3911de5db47abafbc956ca0cb4b92ce568374acint, 0x10465bd085631ceaee4acd7c687c0ae31258f694c9ebdff647f749abb177eb16int, 0x26da10863833824b2e3d2a00e3942e259ce56d47775cac342422c901dbbc687aint);
    let e = lemma_times(n, g, e, 0x26da10863833824b2e3d2a00e3942e259ce56d47775cac342422c901dbbc687aint, 4int, 0xb118d3943b0ad105f0bb2a6bdf85476fab81436de99abfa52616b98aae0a5eint);
    let e = lemma_square(n, g, e, 0xb118d3943b0ad105f0bb2a6bdf85476fab81436de99abfa52616b98aae0a5eint, 0x2881cc60c95ebb45521c8ad5ce7a2c8c2c2b16636c5514e5626f254c20231int, 0x138055e98bcf9eff3593c1525a9262fcfd8264e7d653baab4efe0d382b717853int);
    let e = lemma_square(n, g, e, 0x138055e98bcf9eff3593c1525a9262fcfd8264e7d653baab4efe0d382b717853int, 0x7dbd99b9be32732b27f17fda93e78886575c7152000291abba2674429ae501aint, 0xcf094aee9089c2dfd62e22c39529b2ed7b280962c7f84444e9fafbcca259acfint);
    assert(e == 0x1210769ae5e6cnat);
    let e = lemma_square(n, g, e, 0xcf094aee9089c2dfd62e22c39529b2ed7b280962c7f84444e9fafbcca259acfint, 0x375c525b4a797c4a61cbce9d72e716ac84f829ef30e20704e282001e9fc07d1int, 0x263fbb8dd2eca8b7871f886c14a2ecb833f1d18a5d36f434273ad683ef77ab90int);
    let e = lemma_times(n, g, e, 0x263fbb8dd2eca8b7871f886c14a2ecb833f1d18a5d36f434273ad683ef77ab90int, 3int, 0x2e11be6c7b0a6b187aacd8f8e2aa96818b1d5eda64e67350f8804fd7dd5659cdint);
    let e = lemma_square(n, g, e, 0x2e11be6c7b0a6b187aacd8f8e2aa96818b1d5eda64e67350f8804fd7dd5659cdint, 0x2bdbb772e5b6a6a4ecbf05285931cc17f46a8b3f8304babe674519deb342c099int, 0x9414306b5096bacb81181e8ec0dcce6e7701461e80f56ec7c61dd3943f96d90int);
    let e = lemma_times(n, g, e, 0x9414306b5096bacb81181e8ec0dcce6e7701461e80f56ec7c61dd3943f96d90int, 0int, 0x2e464f21892f1a5f9857898c9c450082853065e9884cb29e6de9521e53df23d0int);
    let e = lemma_square(n, g, e, 0x2e464f21892f1a5f9857898c9c450082853065e9884cb29e6de9521e53df23d0int, 0x2c4006488cda1794eeb5616c0bfc681fde244b82b75ab6441305e8007014db52int, 0x1238097df28b50181f40418e67ed839aeb7c6524835aa24b004d38c4f94dadaeint);
    let e = lemma_times(n, g, e, 0x1238097df28b50181f40418e67ed839aeb7c6524835aa24b004d38c4f94dadaeint, 1int, 0x2ab3e102db86f04ee3f10211862239a9713a116e170bbae5bda02644ee846465int);
    let e = lemma_square(n, g, e, 0x2ab3e102db86f04ee3f10211862239a9713a116e170bbae5bda02644ee846465int, 0x25aead08ce7078aee1d690d161110775599de2fd6053bc6ed627216c857f5d68int, 0x2aecbd1107873d6ce0d542dcfc7b6398bff0be220b7600a812600d157607b271int);
    let e = lemma_times(n, g, e, 0x2aecbd1107873d6ce0d542dcfc7b6398bff0be220b7600a812600d157607b271int, 4int, 0x150e7789a0ddb27982e93776e86390871ee41588526841034c586b1b8e267c31int);
    let e = lemma_square(n, g, e, 0x150e7789a0ddb27982e93776e86390871ee41588526841034c586b1b8e267c31int, 0x92987765bbe7182bccfdb876460da49d7d7463554949d444db01cdbb2ed5474int, 0x34f05abd0a354098ce81df0b980e69aaac6cc87eca7e9073510c14103de2cedint);
    let e = lemma_square(n, g, e, 0x34f05abd0a354098ce81df0b980e69aaac6cc87eca7e9073510c14103de2cedint, 0x39e9c7c995d35703734d946305e454f8670322dc0a379446065ee63a353131int, 0xc83b69bd4a69c204b0890abb0750a20917b193315f20bd835f6bf1256b92238int);
    let e = lemma_square(n, g, e, 0xc83b69bd4a69c204b0890abb0750a20917b193315f20bd835f6bf1256b92238int, 0x33c8163140eab1d34e1a29e1e18ecc4eb5c634a087279e75ae1448e629979ccint, 0x306005fd1a4a7fcfea0cac08c0b7fbed58440251d9cbe494bccaf5de76e97274int);
    let e = lemma_square(n, g, e, 0x306005fd1a4a7fcfea0cac08c0b7fbed58440251d9cbe494bccaf5de76e97274int, 0x305bbde85ef0505acda72499c5059277a5a4a4a10fc0ed37e8b21b87eab1081bint, 0xd6792d146f25ee3cbd10c1638c13a104d8e6c26d9e443df926401f23fa27c75int);
    let e = lemma_times(n, g, e, 0xd6792d146f25ee3cbd10c1638c13a104d8e6c26d9e443df926401f23fa27c75int, 1int, 0x12a18fa3818a3a4942c4f6b89a44c9f45b943479c7bbe2cc981214274e2c6e48int);
    let e = lemma_square(n, g, e, 0x12a18fa3818a3a4942c4f6b89a44c9f45b943479c7bbe2cc981214274e2c6e48int, 0x72c4e29381485ce7ca56aa8092aa3da7fd207fce80638e575eb1f2b51a05f59int, 0x27697ad728b7ff34761117171ce2a2d22e59850bff124c757c28f3036a194e7int);
    let e = lemma_times(n, g, e, 0x27697ad728b7ff34761117171ce2a2d22e59850bff124c757c28f3036a194e7int, 0int, 0xc50f6633cb97fc064e557373906d2e1ae7bf993bfb5b7e4b6cccbf11127e883int);
    let e = lemma_square(n, g, e, 0xc50f6633cb97fc064e557373906d2e1ae7bf993bfb5b7e4b6cccbf11127e883int, 0x32276d4c7988a5120c2649428a5b3fceae3b56239a9dabfc07bf55f7e0eed56int, 0x89b982c17dfc99c6f78fa6b08fac945618243b6a53a28e60dc517df308c5b3int);
    let e = lemma_square(n, g, e, 0x89b982c17dfc99c6f78fa6b08fac945618243b6a53a28e60dc517df308c5b3int, 0x187f7fcc61e1f7c5aafc32a3865688fd8a125526339db1d741784fa62db11int, 0x27b7042038696ea1534a80b833b68c71c26a15c02102d1f3ae8129c4db7a2018int);
    let e = lemma_times(n, g, e, 0x27b7042038696ea1534a80b833b68c71c26a15c02102d1f3ae8129c4db7a2018int, 4int, 0x501dad59548a87fbf336cbefc8b5cc42b42cb9ebe28577d58fdfa888962a074int);
    let e = lemma_square(n, g, e, 0x501dad59548a87fbf336cbefc8b5cc42b42cb9ebe28577d58fdfa888962a074int, 0x84a3277f7c3d715f55b5338e2f6a96ecc4562fe6489f713c7be169a4517f21int, 0x140ea7b76954fd49d9390ff7dc0a9db32510abad3ecd5b68ca2fe36fd10fb56fint);
    let e = lemma_square(n, g, e, 0x140ea7b76954fd49d9390ff7dc0a9db32510abad3ecd5b68ca2fe36fd10fb56fint, 0x85030eb828547bc4ca1bff71e90eaae9f6834a611bfe760166d46e36e6af641int, 0x260d50bded9f863c0685cb84adf4e3cd90796c87ae1eb38017b4ad64a32d2fe0int);
    let e = lemma_times(n, g, e, 0x260d50bded9f863c0685cb84adf4e3cd90796c87ae1eb38017b4ad64a32d2fe0int, 3int, 0x2d15a85d0088beaef7ac2873e14469ec59c365ccf96d2fccaae1823b5fe1ef5dint);
    let e = lemma_square(n, g, e, 0x2d15a85d0088beaef7ac2873e14469ec59c365ccf96d2fccaae1823b5fe1ef5dint, 0x2a00defd7f50f68603d595e06b4893ab1d4f073debf2a350207178686144e70bint, 0xc8e74b10e6df0b64bf414a7cddb437e1da6d248bf2059f259a6fc97f603e0beint);
    let e = lemma_square(n, g, e, 0xc8e74b10e6df0b64bf414a7cddb437e1da6d248bf2059f259a6fc97f603e0beint, 0x3421228674456c66baeb455179dda168a8895b3b8c2ae37d38a4a1c9d9a0a35int, 0xe274b75d9eadd7da6872d9257c64bcd1361666e25a23705efc45b02e42702cfint);
    let e = lemma_square(n, g, e, 0xe274b75d9eadd7da6872d9257c64bcd1361666e25a23705efc45b02e42702cfint, 0x423bafba63184dee051ff0e77bf6e4c5adc83990514bc30a3c9a05bd5bff29bint, 0x14a0a7f843327b4e8e4df828a261d7330cd93a5fb718407bef197e606d59f0c6int);
    assert(e == 0x1210769ae5e6cf1a8nat);
    let e = lemma_square(n, g, e, 0x14a0a7f843327b4e8e4df828a261d7330cd93a5fb718407bef197e606d59f0c6int, 0x8caf087b8b047e4cd5e824b06ef62e89256600746b318d08565179f195a242fint, 0x2a7594d77f0b1a937714aeb929c174a657f4d7f939b1877dafcd799bec5b4f5int);
    let e = lemma_square(n, g, e, 0x2a7594d77f0b1a937714aeb929c174a657f4d7f939b1877dafcd799bec5b4f5int, 0x25410ac737463a6275c4687eec8a1f0164036bf85f9c72a106e8cb493da62eint, 0x2e84bfb0caa3a296a00407e4341526ef4b0a0cb255ca01b9d638bd2543bdcc4bint);
    let e = lemma_square(n, g, e, 0x2e84bfb0caa3a296a00407e4341526ef4b0a0cb255ca01b9d638bd2543bdcc4bint, 0x2cb7c14bd00272bc1d9af3fbb34ef5f209575baa2426e997ffdd420ed7243c97int, 0x1d21ab61f8a532a896cfb241c4676e1cc8fa054a11c86c42c42f28c324a16162int);
    let e = lemma_times(n, g, e, 0x1d21ab61f8a532a896cfb241c4676e1cc8fa054a11c86c42c42f28c324a16162int, 3int, 0x7b6d9137a51ccdc91daa2551811d7874466198ebbdcb9a0945eb13e726e6e7int);
    let e = lemma_square(n, g, e, 0x7b6d9137a51ccdc91daa2551811d7874466198ebbdcb9a0945eb13e726e6e7int, 0x13ad0a280b98a29f7a7387c87b3cc1adc14ed78c4e9bb3b1e71247f3b0e54int, 0x2202598788f997c87dee87a2618770a381849ebc62e8c4ca9162e18ff9cd61dint);
    let e = lemma_times(n, g, e, 0x2202598788f997c87dee87a2618770a381849ebc62e8c4ca9162e18ff9cd61dint, 0int, 0xaa0bbfa5acdff6ea75a8a62be7a53331879719adee8bd7f4d6ee67cfe102e91int);
    let e = lemma_square(n, g, e, 0xaa0bbfa5acdff6ea75a8a62be7a53331879719adee8bd7f4d6ee67cfe102e91int, 0x25587e4b101d65780c7f3523c258d76f385c19634836d7864fecee188c16598int, 0x1b9532e9cb201c9160ef1d807d44a1f6722fd231d20b67dde905d97d8dd70889int);
    let e = lemma_times(n, g, e, 0x1b9532e9cb201c9160ef1d807d44a1f6722fd231d20b67dde905d97d8dd70889int, 2int, 0x292161ab353d4e83740b08156f547915ea874a6826c626330559544be5332aabint);
    let e = lemma_square(n, g, e, 0x292161ab353d4e83740b08156f547915ea874a6826c626330559544be5332aabint, 0x22f565afee803d38a1c3fbe0081c437214f510b708ea67174c9694ca82f85ef0int, 0x23b6473865fef2ff68af53c8e122f0685353d64f558d50ffb64c2b2672462f49int);
    let e = lemma_square(n, g, e, 0x23b6473865fef2ff68af53c8e122f0685353d64f558d50ffb64c2b2672462f49int, 0x1a5ac92e5a06e2b2cd6c1ef81b33537df7ab34924025d6d448db06450af7a064int, 0x15d5253657875c282cdf4894aac92d1e62e4154561e88364235b2af81db0426dint);
    let e = lemma_square(n, g, e, 0x15d5253657875c282cdf4894aac92d1e62e4154561e88364235b2af81db0426dint, 0x9d99d931b7928ff5fc0f7959f5359d8d70cd2b83c5f6030ef075446d17ff79bint, 0x21578f135be898037345f4887750bf7d48d69de22cc1026a1e1f0e2ef79c6aceint);
    let e = lemma_square(n, g, e, 0x21578f135be898037345f4887750bf7d48d69de22cc1026a1e1f0e2ef79c6aceint, 0x16f902cc25fd2d98ad5cfb2ff940230427062d86fcd62a9a04095bbe9af92364int, 0xac971fce303348b34f5219b255845520a46a47a024338f5c5232c5b80a61a60int);
    let e = lemma_times(n, g, e, 0xac971fce303348b34f5219b255845520a46a47a024338f5c5232c5b80a61a60int, 1int, 0x58aeb7d8dde668e507962513938023d0b2d4e199196ac3b95cde835933e83dfint);
    let e = lemma_square(n, g, e, 0x58aeb7d8dde668e507962513938023d0b2d4e199196ac3b95cde835933e83dfint, 0xa284d50f7707e8fc9d284153795412367e02a4156f9739665f72a326390f8dint, 0xc33cd5ef2dbff6fff5a9f6ff82fbb58e61af81022d61e76e9f5d4dde7b8ecb4int);
    let e = lemma_square(n, g, e, 0xc33cd5ef2dbff6fff5a9f6ff82fbb58e61af81022d61e76e9f5d4dde7b8ecb4int, 0x313b08ad493ed8933819ecff3d6a6e4b24c5c750239f736b1ebe15afff425bbint, 0x1832deec8791ef65283535164a48b5992e3983640f6531d72a10a96ea5a838d5int);
    let e = lemma_square(n, g, e, 0x1832deec8791ef65283535164a48b5992e3983640f6531d72a10a96ea5a838d5int, 0xc19cb52889c74968c6a891eea9268e8fc4a3a95ceaa406cb50687d4d39f4111int, 0x64499accc01ca458ba29887286d6a5471729a0ec83228dc1557e241728ea028int);
    let e = lemma_times(n, g, e, 0x64499accc01ca458ba29887286d6a5471729a0ec83228dc1557e241728ea028int, 0int, 0x1f57005ffc08f35bba2cfaa3ca2313a6373d0249e8facc4c6ab76b473cc920c8int);
    let e = lemma_square(n, g, e, 0x1f57005ffc08f35bba2cfaa3ca2313a6373d0249e8facc4c6ab76b473cc920c8int, 0x144be98591922de2c1bc67761cc693460193deb51d3f06fe5c1eb1f18f684301int, 0x25041684dfd23cb6c62c76d90d5d32048bd42fd881f76c934ae664fcbeda593fint);
    let e = lemma_square(n, g, e, 0x25041684dfd23cb6c62c76d90d5d32048bd42fd881f76c934ae664fcbeda593fint, 0x1c5077d080bd46000b16defac580fc26c9508642ca620f3462ab229e39c0eab2int, 0x9f6271691c041c6c49a1b2f142130b6d27469d6d4e964574b70a5e288a7f2cfint);
    let e = lemma_square(n, g, e, 0x9f6271691c041c6c49a1b2f142130b6d27469d6d4e964574b70a5e288a7f2cfint, 0x20cf3f858ee52e727ebe55ad63ee9852e98ac9f80cfc41fe482e2a83e619417int, 0x1cc247b305754043a25e901fb4a3978919dd3a0831709710cea301f3d1fc6f4aint);
    let e = lemma_times(n, g, e, 0x1cc247b305754043a25e901fb4a3978919dd3a0831709710cea301f3d1fc6f4aint, 2int, 0x2f02c99958e700febb384531842f44f330ea519803c01231816b1e9b39ee2c70int);
    let e = lemma_square(n, g, e, 0x2f02c99958e700febb384531842f44f330ea519803c01231816b1e9b39ee2c70int, 0x2dab5b53b986bc8eade8ea0df81f95f51476385e424702b2562a0767ae0e74e9int, 0x20d84fc8866b4efc9666857135fb3d1d59b7d8c9ab8e296dfe3f493369e83c17int);
    assert(e == 0x1210769ae5e6cf1a83892nat);
    let e = lemma_square(n, g, e, 0x20d84fc8866b4efc9666857135fb3d1d59b7d8c9ab8e296dfe3f493369e83c17int, 0x164af88f958a82a4b3b4df1971f36f6664f007512de6b915b91e7be034e633dcint, 0xda9900edc9561bcc96a8392e8149661da25081263737ec2450bc34f60e49635int);
    let e = lemma_square(n, g, e, 0xda9900edc9561bcc96a8392e8149661da25081263737ec2450bc34f60e49635int, 0x3db7582d05a47dd74ffe7c26b0d3ef86306737ad73d65c7fbb893d51720304eint, 0x20becd9891e659770cb6df04924d3c17b32f3b1ccc38e82ff3788b916f69f6abint);
    let e = lemma_square(n, g, e, 0x20becd9891e659770cb6df04924d3c17b32f3b1ccc38e82ff3788b916f69f6abint, 0x1628658af1f54e03a6e667a7735ae8a295b8846644701059ee7a7a92b624b4beint, 0x1f664e51553443cc639fd353b41b30d2e03a057327528304946bac5bb9ce617bint);
    let e = lemma_square(n, g, e, 0x1f664e51553443cc639fd353b41b30d2e03a057327528304946bac5bb9ce617bint, 0x145fc117c3e1f2c29e9f452cce2cadfb130e4f07b99186bc57d6c0100f44dacfint, 0x15d509b40cf819a75be8d5732daca93d5fb3f2478a19d0f61a5c77a7adcd964aint);
    let e = lemma_times(n, g, e, 0x15d509b40cf819a75be8d5732daca93d5fb3f2478a19d0f61a5c77a7adcd964aint, 2int, 0xc60939e7e753ff15aeb9fd2e15c9d788e1bead4bf0e33abfc0a6b1e8503ef70int);
    let e = lemma_square(n, g, e, 0xc60939e7e753ff15aeb9fd2e15c9d788e1bead4bf0e33abfc0a6b1e8503ef70int, 0x32a6e8ca83830f886717e486e5cbce24f5a8d64d7623e7f5f710f2f768461f2int, 0x1bcadb8f21dc96d20fd137b953d557cff8cb27bbf9399eafe6f0d221860def0eint);
    let e = lemma_times(n, g, e, 0x1bcadb8f21dc96d20fd137b953d557cff8cb27bbf9399eafe6f0d221860def0eint, 2int, 0x2a2dace5e6ebb1c6de758b31a02806558b8ff61aeaad384cfaf02f7fbe45ab44int);
    let e = lemma_square(n, g, e, 0x2a2dace5e6ebb1c6de758b31a02806558b8ff61aeaad384cfaf02f7fbe45ab44int, 0x24c3471f75eba07b4a442a703cd784c2f22b5d8c6b8543e60396107cf8eaedccint, 0x138d82d521ab8077e9d853ca3b565936ea2a8c20ddd1348385354b167c50fc44int);
    let e = lemma_square(n, g, e, 0x138d82d521ab8077e9d853ca3b565936ea2a8c20ddd1348385354b167c50fc44int, 0x7e67bafa40a437df5a77cdee0818ff5a5da53dc239b3b794793f5c405f9d325int, 0x1dab4b103523d0ef0df8292cd5b84d76e9c7a9e85f8f861d5507eebacd1c1eebint);
    let e = lemma_square(n, g, e, 0x1dab4b103523d0ef0df8292cd5b84d76e9c7a9e85f8f861d5507eebacd1c1eebint, 0x1230b02691815ed8fa51345855a02f54e60240c3bf033097b88fecd79d0d87c7int, 0x261eb060b91e80b241fd27b3d0d7e3dd0c451ccf7c7dc41b511fe7aff81663f2int);
    let e = lemma_square(n, g, e, 0x261eb060b91e80b241fd27b3d0d7e3dd0c451ccf7c7dc41b511fe7aff81663f2int, 0x1e074009c0f81a47280c86517edff60bfa88bd711faeb7c3a1c78afaf0eeb562int, 0x14364bfe5e9f32f0c6febf17da0a95fcc1d17a96c7457e11e907e2963ae5b62int);
    let e = lemma_square(n, g, e, 0x14364bfe5e9f32f0c6febf17da0a95fcc1d17a96c7457e11e907e2963ae5b62int, 0x8712dd3d5f651da406502c18d55f054dc45a2c844f36ff52564d5b32eee79int, 0xab601ae91bc50c411a1f15428b26e7e6c40b306b55ed04a1e36edf002a7e30bint);
    let e = lemma_square(n, g, e, 0xab601ae91bc50c411a1f15428b26e7e6c40b306b55ed04a1e36edf002a7e30bint, 0x25ee93a5ccfeb59a01fc407edab84ec337c114c6928fbfe1b64a5d467ba9fbcint, 0x2927a47c99166df0bfc805636ddb2fd2ddccc1066a7d4c5331eedfbd85fbe2bdint);
    let e = lemma_square(n, g, e, 0x2927a47c99166df0bfc805636ddb2fd2ddccc1066a7d4c5331eedfbd85fbe2bdint, 0x23000b1cb18488270807b5949ae56645542030d2450a67fb13fd969bddbf16b1int, 0x1660074659d2cddc95b9f7123e1e20d2cca23bcc76208966349a99fbfbb128d8int);
    let e = lemma_times(n, g, e, 0x1660074659d2cddc95b9f7123e1e20d2cca23bcc76208966349a99fbfbb128d8int, 2int, 0xf178779febac4fb7c0147ee3393f363aec35a6d5b2fcddc7f4116c40a75cc36int);
    let e = lemma_square(n, g, e, 0xf178779febac4fb7c0147ee3393f363aec35a6d5b2fcddc7f4116c40a75cc36int, 0x4b4ea463fb02283c49ed2194e5b38769049d2926eba1ec407368f58bdba6482int, 0x343150702a86eeaf8d088289f9313082fc0b1de392817b9a1c3f69fe687b6e2int);
    let e = lemma_square(n, g, e, 0x343150702a86eeaf8d088289f9313082fc0b1de392817b9a1c3f69fe687b6e2int, 0x384abe8fecd303817a21228da437a0171e37484076cde2e53e045904444889int, 0x1e0c6127d0adab86a548d672b0a340777ad36e7d99df41981eabdd4808bdd6fbint);
    let e = lemma_square(n, g, e, 0x1e0c6127d0adab86a548d672b0a340777ad36e7d99df41981eabdd4808bdd6fbint, 0x12a87f1bd7cca5c60d56cd122eef5d55ecf315b31ec9d37e172a4fa33e173398int, 0x256e15fb0d73a90d788bebfe444d2459334b67f04d258e1f99e98d1d150f6681int);
    let e = lemma_times(n, g, e, 0x256e15fb0d73a90d788bebfe444d2459334b67f04d258e1f99e98d1d150f6681int, 3int, 0x29f9828e9fad6cc631cacad3d0fdaca687dd4ed8148f74ea35e9e0d5994d0082int);
    let e = lemma_square(n, g, e, 0x29f9828e9fad6cc631cacad3d0fdaca687dd4ed8148f74ea35e9e0d5994d0082int, 0x246890027e958caf07a47b34e02c3bebe1ff8ba0afc727881c7c48c30b903da1int, 0x131fc18f8ddc8bf49aa64ef79f493ad79bc08d178545cca003d47f1bb6a40463int);
    let e = lemma_times(n, g, e, 0x131fc18f8ddc8bf49aa64ef79f493ad79bc08d178545cca003d47f1bb6a40463int, 1int, 0x2f3a795ae41d1b9d4cef451f9aeccdd8e28ed92d20a38e8ecf4485f6a13415eeint);
    assert(e == 0x1210769ae5e6cf1a838921813nat);
    let e = lemma_square(n, g, e, 0x2f3a795ae41d1b9d4cef451f9aeccdd8e28ed92d20a38e8ecf4485f6a13415eeint, 0x2e17cd4d18d8a9f5a6918743668fa7e99259d387f5dd6207deeaf9bca1f8d9a2int, 0x2600e64f21fdfd8f92714a1ec7364e8ca39150c3c9cf30595082b7cbc4980fa2int);
    let e = lemma_square(n, g, e, 0x2600e64f21fdfd8f92714a1ec7364e8ca39150c3c9cf30595082b7cbc4980fa2int, 0x1dd863c0115aa9b736754851559a3bb55ae2d68ec348298a43259e4e69b3e173int, 0x1cd78f3f4907842bb813f067fbb6d99c2f106a137acfeabb08a4d37b67a08111int);
    let e = lemma_square(n, g, e, 0x1cd78f3f4907842bb813f067fbb6d99c2f106a137acfeabb08a4d37b67a08111int, 0x1130ada767173597e82fb1c3f4cece06135fd6b0a0cfe56b5e3e8a37d33e5e02int, 0x1344aabeec6e5117ffbc19f7e97b0f18f8e8c4fef9dab15e9e5b1539113c51fint);
    let e = lemma_square(n, g, e, 0x1344aabeec6e5117ffbc19f7e97b0f18f8e8c4fef9dab15e9e5b1539113c51fint, 0x7ac0bc581a1dc36cebdfffcbd894846d66c47fe659a1d46b7e3159961c1eeint, 0x170f2ebe3a5eba28cb27b82fbf1338aa813041f52b15887deea76c5f3f00f7d3int);
    let e = lemma_square(n, g, e, 0x170f2ebe3a5eba28cb27b82fbf1338aa813041f52b15887deea76c5f3f00f7d3int, 0xafcf0ae48892eb7860e9497bd134dd3117ec77f66f001df40abc64242bba536int, 0x6978b56f1eae4a3626653eb64c7b4945448006d22ef704fb00f336de72d32b3int);
    let e = lemma_square(n, g, e, 0x6978b56f1eae4a3626653eb64c7b4945448006d22ef704fb00f336de72d32b3int, 0xe5e0e7bd8f7f032bf2fb76a2cbc6dd267e0d42d090a08ed8be8d495563ec55int, 0x25fb6d159b172d7180e818a33a17bbd035f12e9ba6f24c1c885dcf3fe1947cd4int);
    let e = lemma_square(n, g, e, 0x25fb6d159b172d7180e818a33a17bbd035f12e9ba6f24c1c885dcf3fe1947cd4int, 0x1dcfcb86182a1389264a1fa69fc60d736070c8c35ff326d877e61992c5d7128cint, 0x1a226e3e8cee9d6875c36d75b619e94d22413f6b917245047017448b3426fd04int);
    let e = lemma_times(n, g, e, 0x1a226e3e8cee9d6875c36d75b619e94d22413f6b917245047017448b3426fd04int, 2int, 0x21e38a52fe45d2b6dc3097df8b7eddc75ade6c88e3c877f3a8b06b9024c2f112int);
    let e = lemma_square(n, g, e, 0x21e38a52fe45d2b6dc3097df8b7eddc75ade6c88e3c877f3a8b06b9024c2f112int, 0x17bb7cc7e56056b00d33ae622da43a419bdf5cfd08c8fc7cca4d468afeb1fec1int, 0x2faacc4f4819ddcdce7dfbb08b06561fb9efb00e7137ae55222854c6398e683int);
    let e = lemma_times(n, g, e, 0x2faacc4f4819ddcdce7dfbb08b06561fb9efb00e7137ae55222854c6398e683int, 0int, 0xee55fd8c688155050875ea72b71fae9ea1ae7048361667a9aac9a7df1fc808fint);
    let e = lemma_square(n, g, e, 0xee55fd8c688155050875ea72b71fae9ea1ae7048361667a9aac9a7df1fc808fint, 0x495d5b0c2babc88b077dda87472ac829aedee2e5d35a06caed95449586010cdint, 0x2000bca70339b478eef68619914f4c7ebe5f1ee414003b4a4008c0000fb73f14int);
    let e = lemma_square(n, g, e, 0x2000bca70339b478eef68619914f4c7ebe5f1ee414003b4a4008c0000fb73f14int, 0x152a169b6f4635dd6c4e5f8e3c1e6c0f2fc1b86012eda92b6afabe3a1aa1168bint, 0xb4b2038079ab67289d9ef37835f65b909c95ae32507aa8f46a540622b81c305int);
    let e = lemma_times(n, g, e, 0xb4b2038079ab67289d9ef37835f65b909c95ae32507aa8f46a540622b81c305int, 1int, 0x81352a544d3f012f8f1665f0f5ba44008bade273f6ce43b1d584c56e988cf18int);
    let e = lemma_square(n, g, e, 0x81352a544d3f012f8f1665f0f5ba44008bade273f6ce43b1d584c56e988cf18int, 0x158fd10b0687fc0c7ec14d45e6c558a7a01b49269d9cdadb3cad2d1c7655c7bint, 0x131586a08e3875e83c42bfba1a50dc810567373717abbba36fe10b1049a275c5int);
    let e = lemma_times(n, g, e, 0x131586a08e3875e83c42bfba1a50dc810567373717abbba36fe10b1049a275c5int, 1int, 0x2f0752afe5e8ad5f74fd78ec0212f627f2d02bcafca1399feb8341bd802c4cd8int);
    let e = lemma_square(n, g, e, 0x2f0752afe5e8ad5f74fd78ec0212f627f2d02bcafca1399feb8341bd802c4cd8int, 0x2db42ba959e44098dc69c4f295fc5af13e65bae01e3a26c930e486079bd8387aint, 0x225c405f33c33c6e3c2ccdac77bfb50ab001331c74b45e37e63d106a8578bdc6int);
    let e = lemma_square(n, g, e, 0x225c405f33c33c6e3c2ccdac77bfb50ab001331c74b45e37e63d106a8578bdc6int, 0x1865bb57f62c1f3ee4e1e97a5b48371ee7c64c8f115fbbcdbaacfd930d8a9bc8int, 0x1960020b20035ca768525bd8c5967598d4a721db18f3d5d1d5d3caa3a4c3595cint);
    let e = lemma_times(n, g, e, 0x1960020b20035ca768525bd8c5967598d4a721db18f3d5d1d5d3caa3a4c3595cint, 2int, 0x1e176d51ddad8ef198fb3fced8ed9b41d6dbd8b689504bf6a55f0a0a57d0becaint);
    let e = lemma_square(n, g, e, 0x1e176d51ddad8ef198fb3fced8ed9b41d6dbd8b689504bf6a55f0a0a57d0becaint, 0x12b639dd48e9f59a567817c463c1ff37c37b5911cda599a7e91567f5f721e416int, 0x2b7fb54d755031ccb95ec6a84196f18ca76949e4fdcd738d3568073f4b4e934eint);
    let e = lemma_times(n, g, e, 0x2b7fb54d755031ccb95ec6a84196f18ca76949e4fdcd738d3568073f4b4e934eint, 4int, 0x17ed50b7c5ca7858bd98ca6f41ed564aa43ed0570e1d7f7cfb804decb888e082int);
    let e = lemma_square(n, g, e, 0x17ed50b7c5ca7858bd98ca6f41ed564aa43ed0570e1d7f7cfb804decb888e082int, 0xbd49f0744aa6d14ff2b6ccbd9315e649990f1d51acf458dc68c5cfd9aa7a49eint, 0xd69d6bbb232cd6d4dd42ad58a198ff3641d9995d30a8aadb73aeb8e745c1d66int);
    let e = lemma_times(n, g, e, 0xd69d6bbb232cd6d4dd42ad58a198ff3641d9995d30a8aadb73aeb8e745c1d66int, 1int, 0x12ace33799cc62f8ccd4907530fe7763cc6017a4a57b44d35044a43455cc92fdint);
    let e = lemma_square(n, g, e, 0x12ace33799cc62f8ccd4907530fe7763cc6017a4a57b44d35044a43455cc92fdint, 0x73509845d10ad9b11229192581228d5da1bb0bfd99286ea1f041e490ac6b201int, 0x25d0d63cc2190fa0b573e43a81a8b8fd0fa1b11ce206d3e1a326cb219ed6dc08int);
    let e = lemma_times(n, g, e, 0x25d0d63cc2190fa0b573e43a81a8b8fd0fa1b11ce206d3e1a326cb219ed6dc08int, 3int, 0x2be743d726e86da66252a40103c793d9d58cbcb6fcf5d1b4641c16ec4a324c25int);
    assert(e == 0x1210769ae5e6cf1a838921813036fnat);
    let e = lemma_square(n, g, e, 0x2be743d726e86da66252a40103c793d9d58cbcb6fcf5d1b4641c16ec4a324c25int, 0x27d4ccb096510f17882358119e02782ab0ca76caec389598882fed3823a891d3int, 0x999424f499dcb75fd32bcfe3609d5ff15af6e8f71b6a82fbd003d0845716b86int);
    let e = lemma_times(n, g, e, 0x999424f499dcb75fd32bcfe3609d5ff15af6e8f71b6a82fbd003d0845716b86int, 0int, 0x2ffe4b8c7014f94df1fdb0f70e312dfb6c6d28cd389148eeb10131295b37199eint);
    let e = lemma_square(n, g, e, 0x2ffe4b8c7014f94df1fdb0f70e312dfb6c6d28cd389148eeb10131295b37199eint, 0x2f991fb0f197fb867fc3b50e970013bcb9210ecb540d45258026d4de5ddb5eabint, 0x39a7dd6c700e6239ffc1e9d858e33524cd94ed8744836935b3067deaa98ded9int);
    let e = lemma_times(n, g, e, 0x39a7dd6c700e6239ffc1e9d858e33524cd94ed8744836935b3067deaa98ded9int, 0int, 0x12047531e3047eb21fec99139bc7009b803e8a3a456910e0c7f2075954fc5a3dint);
    let e = lemma_square(n, g, e, 0x12047531e3047eb21fec99139bc7009b803e8a3a456910e0c7f2075954fc5a3dint, 0x6b553953938d3ee257ff682fa63f367f353aa942dd18375a4c209b9ce86bebcint, 0x29baaf5d1dd5f0985a00f45b0687979895bd195a602ca836386ad9e5c16033cdint);
    let e = lemma_times(n, g, e, 0x29baaf5d1dd5f0985a00f45b0687979895bd195a602ca836386ad9e5c16033cdint, 4int, 0xf14330610673252e0c3aeed1aa094864be1dda1f9f986ca0a8e6b2d06e102fdint);
    let e = lemma_square(n, g, e, 0xf14330610673252e0c3aeed1aa094864be1dda1f9f986ca0a8e6b2d06e102fdint, 0x4b2d6cbd6628b838e960098c20ba6fc8c317f7204a2c553336b43ceebf7a663int, 0x3e3c08a12790ffd3c43635edd28081720301148ff3064f7c05e233760cb47a6int);
    let e = lemma_times(n, g, e, 0x3e3c08a12790ffd3c43635edd28081720301148ff3064f7c05e233760cb47a6int, 0int, 0x1372c2b25c5d4ff22d50f0da51c82873a0f0566cfbf1f8d6c1d6b014e3f8663eint);
    let e = lemma_square(n, g, e, 0x1372c2b25c5d4ff22d50f0da51c82873a0f0566cfbf1f8d6c1d6b014e3f8663eint, 0x7d0ec7a3a47dc045ceffc05bf9ba2c1645327c061e431c5085a88162ff02fa1int, 0x1e9e25cd2573641dd320697a16ede80aeb56fe0425ac9d8c28c28cd815054763int);
    let e = lemma_times(n, g, e, 0x1e9e25cd2573641dd320697a16ede80aeb56fe0425ac9d8c28c28cd815054763int, 3int, 0x7e9d1a917ac1417f6b13e3eee217f1f20173d3b4f32c2090026df7c991a64ecint);
    let e = lemma_square(n, g, e, 0x7e9d1a917ac1417f6b13e3eee217f1f20173d3b4f32c2090026df7c991a64ecint, 0x14b4687fd84008d667080789d529ca1d316bc50aee698df3f655a6a35ffe1adint, 0x10738c28fa9f1088ecb63c04c69978e2d8429d3ecdd6c8e480a16a759b957e3int);
    let e = lemma_times(n, g, e, 0x10738c28fa9f1088ecb63c04c69978e2d8429d3ecdd6c8e480a16a759b957e3int, 0int, 0x5241bccce51b52ac9f8f2c17e0ff5c6e394d123a0531ec768327144c09eb76fint);
    let e = lemma_square(n, g, e, 0x5241bccce51b52ac9f8f2c17e0ff5c6e394d123a0531ec768327144c09eb76fint, 0x8bd21a33a72a7084482e6f5b660dddd71440b7eb842fda2d503ebdab5f49e1int, 0x23f742d4bf442210289778e81b8bcdaac8418fec1ba25c0071659151d5149840int);
    let e = lemma_times(n, g, e, 0x23f742d4bf442210289778e81b8bcdaac8418fec1ba25c0071659151d5149840int, 3int, 0x22a762cf18bfc9d3a2048b650536fb3e70ac16c31cff7a4e6b55f5dd5966f93dint);
    let e = lemma_square(n, g, e, 0x22a762cf18bfc9d3a2048b650536fb3e70ac16c31cff7a4e6b55f5dd5966f93dint, 0x18d0e29ec549019b89327a7105645a885b6593cd77c23c12f7e49efc8a49dfd8int, 0x2c428ede1dd8ea423f1afa4a6c7bb4bca71b74cd00122e11fa8cb62aeef9d8b1int);
    let e = lemma_square(n, g, e, 0x2c428ede1dd8ea423f1afa4a6c7bb4bca71b74cd00122e11fa8cb62aeef9d8b1int, 0x287b1f8c68a72f453b26a0e15630f71dc7bf7977bc3adbf3d347079227793fe9int, 0x1885a865a43a457d1023024f068d0c8337e606a15d2596fa8ae8e58cc443ea78int);
    let e = lemma_square(n, g, e, 0x1885a865a43a457d1023024f068d0c8337e606a15d2596fa8ae8e58cc443ea78int, 0xc6d24e137a01df35d93298e3b14b1e915730aa2946ea28fe45456d82dfa5b9bint, 0x1d5b4088da48f7203d206946faf696837a9eb5cf43b692de77a33691d3953ca5int);
    let e = lemma_times(n, g, e, 0x1d5b4088da48f7203d206946faf696837a9eb5cf43b692de77a33691d3953ca5int, 3int, 0x19b57539fd7f32408b13d3f624ce779ec7dd432e5648ca48a8a301d51ea2f36int);
    let e = lemma_square(n, g, e, 0x19b57539fd7f32408b13d3f624ce779ec7dd432e5648ca48a8a301d51ea2f36int, 0xda87d69d87a7dace4eed5fc9eaf3f953625837c4d3cc5157ebdb16c64c251int, 0x14b8c4958f2f2b7ce18b38c91f13c44aa59da084df246f20860facf627081d13int);
    let e = lemma_square(n, g, e, 0x14b8c4958f2f2b7ce18b38c91f13c44aa59da084df246f20860facf627081d13int, 0x8df8ad684a73884a13f408e7190e3e3ceb9180120454acb69da433696d16921int, 0x4e5422aeb8af10bb22ddd7d66f00f969f04bb150615688598bb58e917abe648int);
    let e = lemma_square(n, g, e, 0x4e5422aeb8af10bb22ddd7d66f00f969f04bb150615688598bb58e917abe648int, 0x7ec912157a506cff52f12a39b6399e58be79ef0ebd81d9f92db2d44b9984e6int, 0x13090a28009051c5de070e6f84bc8956771a3ce388a3d62bdf0ff86077bbef5aint);
    let e = lemma_square(n, g, e, 0x13090a28009051c5de070e6f84bc8956771a3ce388a3d62bdf0ff86077bbef5aint, 0x77cd967188df07542b1d2a8eb76e03711d6e3b3c45906b9c20dc040d1602e46int, 0x25472e60ae7d7a783923189895490c8320a7c060538effbc32dcaa28c7e4fd5eint);
    let e = lemma_square(n, g, e, 0x25472e60ae7d7a783923189895490c8320a7c060538effbc32dcaa28c7e4fd5eint, 0x1cb779385852873e8e0554b350a43930b263df7c8c15485c53f00659c3c79a33int, 0x4ed5713c040824ca3cea53ce6918115cb01c35dce74c7b0983752e9da6b5451int);
    let e = lemma_square(n, g, e, 0x4ed5713c040824ca3cea53ce6918115cb01c35dce74c7b0983752e9da6b5451int, 0x806d0571301c38156e7c2cf98ad12f23e905ff6f2b05f69c0765ab3b9c8b75int, 0x1a8884f385e0544ba73abd95f273e4b5d8ff6b4957510281d7222739fdeb62cint);
    assert(e == 0x1210769ae5e6cf1a838921813036ffe40nat);
    let e = lemma_square(n, g, e, 0x1a8884f385e0544ba73abd95f273e4b5d8ff6b4957510281d7222739fdeb62cint, 0xe8c5826c8f5e656bd5b93090da540ba4e6be9cf86e988d30df2e01c8c91bcint, 0x2ff73c575023126c94d7d8da610f7885b59c4150d7e693a641436d1ec16605d4int);
    let e = lemma_square(n, g, e, 0x2ff73c575023126c94d7d8da610f7885b59c4150d7e693a641436d1ec16605d4int, 0x2f8b20119e6d81c7f627273d8eb361e236598ec31f38b36716d5ea22161a1984int, 0x22004bdcda20bcf2e1db1d40c3b8f1d70ab83d76642580accbf8864876f7de0cint);
    let e = lemma_square(n, g, e, 0x22004bdcda20bcf2e1db1d40c3b8f1d70ab83d76642580accbf8864876f7de0cint, 0x17e3d47356383e211dd7282ff591eed590318e24912cdc59fe00755382387fe2int, 0x1ca5911a907890d7384cffaebf1ec0d14c693d0ec080ca8531dec173e98850aeint);
    let e = lemma_square(n, g, e, 0x1ca5911a907890d7384cffaebf1ec0d14c693d0ec080ca8531dec173e98850aeint, 0x10f549a5aedc06843c4a5beffe21bdf2535ca24aeeff9cc912cc54fa9a5778d5int, 0x1742d13eeacf3d0b063d893501f43036e95f50fa2c51a47f6c5eb23543f5bd6fint);
    let e = lemma_square(n, g, e, 0x1742d13eeacf3d0b063d893501f43036e95f50fa2c51a47f6c5eb23543f5bd6fint, 0xb2e5d56b9f2fdcd8da146cfd47ccc0d5813ca54336cdabe2127e28c149a7fa5int, 0x107978c7798ea85dbd8955bb36b79af3e85f0156aff61d15325f6a0c7808967cint);
    let e = lemma_square(n, g, e, 0x107978c7798ea85dbd8955bb36b79af3e85f0156aff61d15325f6a0c7808967cint, 0x59bcb8483852007e21473b24e183e425df55fb9a5a83872b8776d1ea9779911int, 0x42317bb9a5f082fe6ec933f7511bed7d45cc22d2fdfc2a7e4a229c66bdf2ffint);
    let e = lemma_square(n, g, e, 0x42317bb9a5f082fe6ec933f7511bed7d45cc22d2fdfc2a7e4a229c66bdf2ffint, 0x5a8b118d21fdc8e9055cd79da59622df0da50466f7e18f77c50c4d9fbf4dint, 0x28597f63f7771c95136c05467bf50b4403e95d5edc6cf7a7df9bac0698d5ab4int);
    let e = lemma_square(n, g, e, 0x28597f63f7771c95136c05467bf50b4403e95d5edc6cf7a7df9bac0698d5ab4int, 0x21a4d77318adb93446782ee25afda3d482c0560fe81436c5b5a3d26573145eint, 0x3a54e88c64c81cb5eb7408f59864af8bc1457f4bba158b33880b1902cf7fa32int);
    let e = lemma_square(n, g, e, 0x3a54e88c64c81cb5eb7408f59864af8bc1457f4bba158b33880b1902cf7fa32int, 0x46502e3ab7d10bcb9c30f1b24b3e6407f7f4849c05676a7c7dab27591bb88bint, 0xce6860ec83bfcf2897ffc2687546004fe4d9a07a8345599f31e237b47e5f939int);
    let e = lemma_square(n, g, e, 0xce6860ec83bfcf2897ffc2687546004fe4d9a07a8345599f31e237b47e5f939int, 0x370665977108434771da77f78c5372a99523483b39f1bf8ec64d9eaad9ede51int, 0x2d2cb92dee5c4a90b88ff346c8b193700b9598707aa3750685879c1d2fb1060int);
    let e = lemma_square(n, g, e, 0x2d2cb92dee5c4a90b88ff346c8b193700b9598707aa3750685879c1d2fb1060int, 0x2a2be484139cb59ac293e5f31cb8599db29ab1dd8693546337125ae17751c1int, 0x1a1cabedda0acf102e0a28b9384d9dea06af37315f997704c6f0b803cbd4d23fint);
    let e = lemma_square(n, g, e, 0x1a1cabedda0acf102e0a28b9384d9dea06af37315f997704c6f0b803cbd4d23fint, 0xe170467084a70aff79fbe5e3f46ae8cae7e4089cf40c47fcf7b3417f2c78ccaint, 0x1d6ddbdac6724c410084b66a57af48c81db28b2ff18e2936c0af41c37c3bdeb7int);
    let e = lemma_square(n, g, e, 0x1d6ddbdac6724c410084b66a57af48c81db28b2ff18e2936c0af41c37c3bdeb7int, 0x11e5a961e1277d1e88c1f8679d196828473d9ed7e065719bc09ccbe1fbe1f750int, 0x27ea3b3fdeb5d46f1e99ce9171c67ba05d3f2fa77773b24716490fdeb639ef81int);
    let e = lemma_square(n, g, e, 0x27ea3b3fdeb5d46f1e99ce9171c67ba05d3f2fa77773b24716490fdeb639ef81int, 0x20ec4a8a5cbcd94ead1ed0374c3669ea1a1a7886cc9411559904ac99f7dd03c1int, 0x25e05b2898b7f1a779ae711a4629ba907caf0977af04cf8b824f32720ba71b40int);
    let e = lemma_square(n, g, e, 0x25e05b2898b7f1a779ae711a4629ba907caf0977af04cf8b824f32720ba71b40int, 0x1da55c3e3d6bba930023c7c7e11cef26ade23dde649336757c282e6444ae24fdint, 0x300a3f0d20c4d5e3846fcac2de92683e6ba09698c80b0602a333f139bb86b03int);
    let e = lemma_square(n, g, e, 0x300a3f0d20c4d5e3846fcac2de92683e6ba09698c80b0602a333f139bb86b03int, 0x2fb0d742e24833115d76040a3f6e7095e1a30bf69f433357862d9a2f4c5571int, 0xd87b207bb7a254a159e5f0313dd5846a92fda30be5e6ac71a2d404a83bf2c98int);
    assert(e == 0x1210769ae5e6cf1a838921813036ffe400000nat);
    let e = lemma_square(n, g, e, 0xd87b207bb7a254a159e5f0313dd5846a92fda30be5e6ac71a2d404a83bf2c98int, 0x3c86da25dd59b61ed99954990262daabec9aa25c58cc06b23d90db74ec623abint, 0x1cf94f22e20ec83d93b1f7973a7d48e63ebb806fdad20ae19e280cee83ce7695int);
    let e = lemma_square(n, g, e, 0x1cf94f22e20ec83d93b1f7973a7d48e63ebb806fdad20ae19e280cee83ce7695int, 0x1159001e84e8f40636952fcbd26502d3e6bd2250dad80199773426ac7852d6bfint, 0x289f4717c78c43e75ca0d5d7d50633421bdbb4c84ff90266b787e3f0466dbfaint);
    let e = lemma_square(n, g, e, 0x289f4717c78c43e75ca0d5d7d50633421bdbb4c84ff90266b787e3f0466dbfaint, 0x221999f3175aef92ea661474ceff66a099318060e21bddb62e1a447ecf7d1fint, 0x273dea2d0d11fabfaa37ae8a3b25a84a9024a059b1ba9a873b6a99e1496e3305int);
    let e = lemma_square(n, g, e, 0x273dea2d0d11fabfaa37ae8a3b25a84a9024a059b1ba9a873b6a99e1496e3305int, 0x1fd26cac5d78548af6e027bb85598e1ac7c83927aa15ca4e14e0d872c6b60fdeint, 0x13a5019552911da88b04ddb476e6ab1391e49c14cd7d5ddd5ce19785d5c0ee3bint);
    let e = lemma_square(n, g, e, 0x13a5019552911da88b04ddb476e6ab1391e49c14cd7d5ddd5ce19785d5c0ee3bint, 0x7f983a0fe09405871de464f16e73e36cdf213d463ef21cd96ed900d395a97d4int, 0x24e06e8fa50aa248bdbd10e329e60a6f62dce94d011caa97055830026ad729c5int);
    assert(e == 0x2420ed35cbcd9e3507124302606dffc8000000nat);
    reveal(remains);
}

/// The power that the tests at the small divisors start from.
#[verifier::rlimit(60)]
proof fn lemma_modulus_large_power()
    ensures
        power(0x24e06e8fa50aa248bdbd10e329e60a6f62dce94d011caa97055830026ad729c5int, 0x2ca6487cfcd795e8729527e1nat) % 0x30644e72e131a029b85045b68181585d2833e84879b9709143e1f593f0000001int == 0x1517ed7b286813d1f7c292512c2d3e7607142caf459d8a9aac8af6a7b338c629int,
{
    let (n, g) = (0x30644e72e131a029b85045b68181585d2833e84879b9709143e1f593f0000001int, 0x24e06e8fa50aa248bdbd10e329e60a6f62dce94d011caa97055830026ad729c5int);
    lemma_start(n, g);
    let e = 1nat;
    let e = lemma_square(n, g, e, 0x24e06e8fa50aa248bdbd10e329e60a6f62dce94d011caa97055830026ad729c5int, 0x1c1a05bc352dc654f8cf487dcb62406bb6246d06643cefe1f03b4d23e7884f77int, 0x25f0a1034058becee4465eae1bbb15bb276ba8de0fc73fa2f3d8ce89dc2e6222int);
    let e = lemma_square(n, g, e, 0x25f0a1034058becee4465eae1bbb15bb276ba8de0fc73fa2f3d8ce89dc2e6222int, 0x1dbedaf669cfceea10caf7d79e6d3047375972abf5b0bce2d64b86add54a4baeint, 0x26bde70595670da899494142bdf325861d72c63fe2be9071c20d58eae48bc0d6int);
    let e = lemma_times(n, g, e, 0x26bde70595670da899494142bdf325861d72c63fe2be9071c20d58eae48bc0d6int, 0x1d85e038c0c481e27e37c5df3329fb25364b866c49578917c97d7afd88705496int, 0x17ba1aede090e17007018c55b222e70e62284a19dafa77fbef8991d3a8b75618int);
    let e = lemma_square(n, g, e, 0x17ba1aede090e17007018c55b222e70e62284a19dafa77fbef8991d3a8b75618int, 0xba231204ef0ee10810a165a2545660d7d9f0bc4517b9130bb4f83ecf02c102eint, 0xc36ce47ebc1928c4102247d56642650f6ce00438eacf55efef01c59a3181212int);
    let e = lemma_times(n, g, e, 0xc36ce47ebc1928c4102247d56642650f6ce00438eacf55efef01c59a3181212int, 0x94ec34d960bd49340567d4bde1c4c7927e3351121456da22d9979f469eaf35fint, 0x875b5ed55a65d3320340313e7d6f7ef468baae2b07c7e2b28ab3845839dd67bint);
    let e = lemma_square(n, g, e, 0x875b5ed55a65d3320340313e7d6f7ef468baae2b07c7e2b28ab3845839dd67bint, 0x17a9b74b92a953cc09a53df10e23d3e0a765cfed7ee4f84827da7bddde5bd20int, 0x8aaab66e588d468ae752f2fc1d8ae19cc4ed31c10c75af5d85816b4caaa21f9int);
    let e = lemma_square(n, g, e, 0x8aaab66e588d468ae752f2fc1d8ae19cc4ed31c10c75af5d85816b4caaa21f9int, 0x18d599eab912db27c59fb2a14da4837fe9ea43cbc9fa8a2f1fbbc54d0a898a3int, 0x10bf5262898f2f3967906b54364a005556950535cc75d95cf7f710cf768d8b8eint);
    let e = lemma_square(n, g, e, 0x10bf5262898f2f3967906b54364a005556950535cc75d95cf7f710cf768d8b8eint, 0x5cbbf8f2df736e50ecda9c8aef3d6edee96bdabceb48ec79e30fa0b7e673f72int, 0x104d4adde0b54f4d2c639753922d9c4e8b36eb10e6188dc18e5eec9190184352int);
    let e = lemma_times(n, g, e, 0x104d4adde0b54f4d2c639753922d9c4e8b36eb10e6188dc18e5eec9190184352int, 0xc6c3b47430fa036de6c1cfce8d042dbb8f53d13c7f9b6f7c0cf8965c5c6c2c0int, 0x2c94094363605e6bfcda1aec87ff8457b097da22cfe589b1c35bdec27d8b2d5aint);
    let e = lemma_square(n, g, e, 0x2c94094363605e6bfcda1aec87ff8457b097da22cfe589b1c35bdec27d8b2d5aint, 0x2910b3a1068334ce6154096ecfd4ed96a8b2f8608052a722b9b147ca4aac238eint, 0x22b26e6709b1f670cc56197a70ad60535824da2ddd7398e5d8c610b2c118a016int);
    let e = lemma_square(n, g, e, 0x22b26e6709b1f670cc56197a70ad60535824da2ddd7398e5d8c610b2c118a016int, 0x18e0b6e016c2d889eecc147f4c15cda0ef45de6c3ae8fcca9cea4f3d4d8b1658int, 0x123ba4b78408b07774a3001e934a9e0a40a09eb445a7141f89bac19fc6b06b8cint);
    let e = lemma_times(n, g, e, 0x123ba4b78408b07774a3001e934a9e0a40a09eb445a7141f89bac19fc6b06b8cint, 0xde4f2da52df40681de640f11f622102629d55cb6397e6e9f6954356419f564bint, 0xd0cf8acb4b28367f303c76750200fd39705a94219009b087bfa042dff0d871int);
    let e = lemma_square(n, g, e, 0xd0cf8acb4b28367f303c76750200fd39705a94219009b087bfa042dff0d871int, 0x38504a9f51fabb1160bc521956c1b438430628197578f5f838dfac68bb935int, 0x183b7ada36a92b9628db8c93bf1cd1c82620c041fb6a07759689b7e3f25328acint);
    let e = lemma_square(n, g, e, 0x183b7ada36a92b9628db8c93bf1cd1c82620c041fb6a07759689b7e3f25328acint, 0xc226909aab8a6f5877e682d71c1f4da701edb996689c0a556546cd54acbe0b8int, 0x188abaa776ee8e09a320f86260de12189b7379e04bceae5899cbabc6cb3252d8int);
    let e = lemma_square(n, g, e, 0x188abaa776ee8e09a320f86260de12189b7379e04bceae5899cbabc6cb3252d8int, 0xc72492b9ebfe7d26e6dd72011d263a31d45d0f44d7a787219591c55e9bae8c2int, 0x1ea95eca590974c0bb2f5bedc1c02779405c54d5f0279c0eac4de7753d742d7eint);
    let e = lemma_times(n, g, e, 0x1ea95eca590974c0bb2f5bedc1c02779405c54d5f0279c0eac4de7753d742d7eint, 0x175d90555b6efd7338f0c2b9e0be022fe25b69090d82db2fdec9c3a8a3da42c6int, 0x270e9b66a81c4db7e5b17a1992e4326fda39827fc4a8c303eb055e8002a7ed30int);
    let e = lemma_square(n, g, e, 0x270e9b66a81c4db7e5b17a1992e4326fda39827fc4a8c303eb055e8002a7ed30int, 0x1f85e133ed845ae041dad965f03fc51abfca4cb6d698080e7c626b418064262cint, 0x183ac8460fff0db45dc1edb3672023b00d55429e2e46d913d68d278d4ffdc2d4int);
    let e = lemma_times(n, g, e, 0x183ac8460fff0db45dc1edb3672023b00d55429e2e46d913d68d278d4ffdc2d4int, 0x1276caac3f66a6f97a38f88e0334c765f7775d2c0634658ca5c87d4bc3420a35int, 0x2781f26d073c03ca386705f90ac0dfceba53455bff29249deb099bb42744d6efint);
    let e = lemma_square(n, g, e, 0x2781f26d073c03ca386705f90ac0dfceba53455bff29249deb099bb42744d6efint, 0x204122a86a4b4f269ea9e245ff8b073586d1ad696060709c321ba7d9fdd6efa6int, 0x2bc6525d50ebe4b6576068802cc4683dd20dd2b67d748d31692713401795837bint);
    let e = lemma_square(n, g, e, 0x2bc6525d50ebe4b6576068802cc4683dd20dd2b67d748d31692713401795837bint, 0x27991c9c11c9d881705e406f4ddb369e72378de9d3e594d0b3097384c27925b6int, 0x2f96dfb52cd39b353cf3286bb709a8c5ce99851167e9ca2566f35811083bf763int);
    let e = lemma_square(n, g, e, 0x2f96dfb52cd39b353cf3286bb709a8c5ce99851167e9ca2566f35811083bf763int, 0x2eccd9114546c857baed178fc513bd70f470a858176f30b96bd2117b3b3786abint, 0x1544b9cdc3a62dab8abb6da82b8f732423a595168861af0a6db9dbb9b7aa99eint);
    let e = lemma_times(n, g, e, 0x1544b9cdc3a62dab8abb6da82b8f732423a595168861af0a6db9dbb9b7aa99eint, 0x10351e9314594564973dad2ea0cb7ca972f71be61b2930b70d4f86552e06663int, 0x1204850dcfc1e2e4fdbee50c8d469033877459066e1fd972a7e4dc8607606e33int);
    let e = lemma_square(n, g, e, 0x1204850dcfc1e2e4fdbee50c8d469033877459066e1fd972a7e4dc8607606e33int, 0x6b55f647469d18db81e1d923f291d02a8e3715cfaf7a0ce4d040f9d624e2dafint, 0x29a28f9ddb4b334f2c62acc398f5d32e53a40b3bf526df2039d05ecf2d61b07aint);
    assert(e == 0x16532nat);
    let e = lemma_square(n, g, e, 0x29a28f9ddb4b334f2c62acc398f5d32e53a40b3bf526df2039d05ecf2d61b07aint, 0x23d255cfcb3e1613521e03b79db07333baf94af5c798f221a223ac5e49044de7int, 0x4b474b6b1c583490e7f32e4497f0fa66276b38b7599a011443af6924117ac3dint);
    let e = lemma_square(n, g, e, 0x4b474b6b1c583490e7f32e4497f0fa66276b38b7599a011443af6924117ac3dint, 0x751a7efd14adf15dbeee38a8446c4cc041f47fb9a6c1a942462f81a680a660int, 0x19a4d06a2a0379931fd60c5cf06e649e9d514a7b59672005e5e849fba576029int);
    let e = lemma_times(n, g, e, 0x19a4d06a2a0379931fd60c5cf06e649e9d514a7b59672005e5e849fba576029int, 0x138aacff78061fda3cc257468fee3e2bc09321113d61d463e6b2d638ef35a4eint, 0x7b5fd06b27bec8123bf4dc89aaab141f553819ea77b5479a0eeee70711f363fint);
    let e = lemma_square(n, g, e, 0x7b5fd06b27bec8123bf4dc89aaab141f553819ea77b5479a0eeee70711f363fint, 0x13a8a7e23b8d0fc226f12639968afaa0d2669ca1c93ed4414ae0218a48a2ca9int, 0x2890051e43caeacb73fb87803b09254c55ef7e1412a8616a70bf3ecfb83676d8int);
    let e = lemma_square(n, g, e, 0x2890051e43caeacb73fb87803b09254c55ef7e1412a8616a70bf3ecfb83676d8int, 0x22000112de8b5032221f8f9bd586fbfca397df749e4939c44474404ec3609342int, 0x1fa3f56c6ba67725b5de0714a76ce4d5593be484e1471ed6b87fa47a36eb42feint);
    let e = lemma_square(n, g, e, 0x1fa3f56c6ba67725b5de0714a76ce4d5593be484e1471ed6b87fa47a36eb42feint, 0x14b011c478d74b660b582551256f74082bb30846cff1f016b3e77be8c0b35befint, 0x143f47cfe9d15bc227fa2a2d9504de708ce842981d293ab1d9453b3967289815int);
    let e = lemma_square(n, g, e, 0x143f47cfe9d15bc227fa2a2d9504de708ce842981d293ab1d9453b3967289815int, 0x878b0a71928d6a342e709d8bb0b8150e9a57a7c013b2d477bf467a1731e891aint, 0x26732d8031b1f6b2bca66c28cbdeffd9c928a81c71403a68eb977412f3ca689fint);
    let e = lemma_square(n, g, e, 0x26732d8031b1f6b2bca66c28cbdeffd9c928a81c71403a68eb977412f3ca689fint, 0x1e8cef895403a00746fd4e22e880e832651bc013586edf4dc47b3d6f2562ec58int, 0x1913b45c9134488d684bdf996fbb656adb10c226753e443d1824c7797a4aa669int);
    let e = lemma_times(n, g, e, 0x1913b45c9134488d684bdf996fbb656adb10c226753e443d1824c7797a4aa669int, 0x131c188e197b24d3e12ffeb15e8fdafc725223086bc2e3c98ccb5caec769c243int, 0x2c4c3d399c448c650496dcbf5063490846f98456d3aa32761a836135b4de1d8aint);
    let e = lemma_square(n, g, e, 0x2c4c3d399c448c650496dcbf5063490846f98456d3aa32761a836135b4de1d8aint, 0x288cd6fb57f827c3c3f83fdc9574ff30c95b2503a5790df874295f38863afc41int, 0x2ca96c22a4463d89a897864bd93053de7fcb4ea18e62c30847f52f5cd8859223int);
    let e = lemma_times(n, g, e, 0x2ca96c22a4463d89a897864bd93053de7fcb4ea18e62c30847f52f5cd8859223int, 0x2208c4b852cd9658f13f9e1ab3970d903809cb9e5f9f283b1a4b6494f36a8805int, 0xed772ab8b81d9dcb3f4ba7ee8d5442c8e945f4737ad6d163021041d992b87eaint);
    let e = lemma_square(n, g, e, 0xed772ab8b81d9dcb3f4ba7ee8d5442c8e945f4737ad6d163021041d992b87eaint, 0x48d46d45c5770bc90025ce7ec2a9bf3bb26c84b1b32d1ec34ae95aa10ecfae0int, 0x1f2dcd137f032693df10dab502d52ac2bc9c1a076dca30b6ee7bfb6493d7a704int);
    let e = lemma_times(n, g, e, 0x1f2dcd137f032693df10dab502d52ac2bc9c1a076dca30b6ee7bfb6493d7a704int, 0x17c27b5c03acb6f8b28d3f9fb30b5edab1e9b5fa0a41476e223c5f5f6fc8a63dint, 0xe415ce38085d569a9ee57abc953f56c061d8a3c1dffd96856c5c2209b4683d7int);
    let e = lemma_square(n, g, e, 0xe415ce38085d569a9ee57abc953f56c061d8a3c1dffd96856c5c2209b4683d7int, 0x43308ac99a06d573fefd91e88ea0eb9ca681030c711e6320f6c7edc4fce2d3eint, 0x13e9aae8ac36d20a85acbdcf9254f802605d387a5cb43f1bb01b2ef247ab9153int);
    let e = lemma_times(n, g, e, 0x13e9aae8ac36d20a85acbdcf9254f802605d387a5cb43f1bb01b2ef247ab9153int, 0xf2ca559cf8acdab95bb7d2db6e1471b4c046cbf813b3e0bb3fae3ff9013df97int, 0xb708416103e9a052d9d59cab36ada6b0d6bd073fab647f0d88c6f82ebee4048int);
    let e = lemma_square(n, g, e, 0xb708416103e9a052d9d59cab36ada6b0d6bd073fab647f0d88c6f82ebee4048int, 0x2b4484741c9826739c44f78be003d163937359f6f2ee7e71484084aee00c94dint, 0xfb11bb86df28c9a55b87f50c803f74cc62b370d822e1b250f7af3a5a8034af3int);
    let e = lemma_times(n, g, e, 0xfb11bb86df28c9a55b87f50c803f74cc62b370d822e1b250f7af3a5a8034af3int, 0xbf5365ed288e50fcb12f88f3027c82bca87d9ce1ec403daa4661384524a3ec0int, 0xeeff361d3fe493b134a5823a772209fc142380f24403d8ddbf52d7d0f54593fint);
    let e = lemma_square(n, g, e, 0xeeff361d3fe493b134a5823a772209fc142380f24403d8ddbf52d7d0f54593fint, 0x49c5adf23bed0edfefcd59365bac337058d0035ce1bde20fd5d2a04e9af7081int, 0x231f5d996d19c335f7dd301274f1c008ea2de85981fdb154ea04993538c56d00int);
    let e = lemma_square(n, g, e, 0x231f5d996d19c335f7dd301274f1c008ea2de85981fdb154ea04993538c56d00int, 0x197de2681b187dfa560816b689914597ab2ba21a9e2d8527be5748a660760428int, 0x681c01b43c676c8d7561f3cfcedfba61d49ba15dd1c11c5c4f3826d0ff2fbd8int);
    let e = lemma_square(n, g, e, 0x681c01b43c676c8d7561f3cfcedfba61d49ba15dd1c11c5c4f3826d0ff2fbd8int, 0xdffab4b1c72fb419fb798423c30664751e66d23a48e669301787e1d49f3287int, 0xaccda2dcae9c7b15687b19179403cdca1edd765cdb1407421e7384f078213b9int);
    let e = lemma_times(n, g, e, 0xaccda2dcae9c7b15687b19179403cdca1edd765cdb1407421e7384f078213b9int, 0x83af03fa11415849ce40bbc6ec016f42fdf520b936623f87fcfe7cb137c29a2int, 0x15b20f1a16fdd012182a73147d2240c6e9b4428a4d64b23b1622be06d324a4bbint);
    let e = lemma_square(n, g, e, 0x15b20f1a16fdd012182a73147d2240c6e9b4428a4d64b23b1622be06d324a4bbint, 0x9ba0e38efca3f1aefe15d8189345f499877ec7523ee32fbe3130cc4eb8ec6fbint, 0x24539ead89e0fbd0550c0b765db61b0d2be66cc3af36b9a3e320591dc509599eint);
    let e = lemma_times(n, g, e, 0x24539ead89e0fbd0550c0b765db61b0d2be66cc3af36b9a3e320591dc509599eint, 0x1baeb7ab8250128727cd7bf489fe78c5387303f01274d57409e4cd4f5dca531fint, 0x25e8a7b814df31320a11bd9fc1174836e3dfc7512d9c027e3725249f6173f177int);
    let e = lemma_square(n, g, e, 0x25e8a7b814df31320a11bd9fc1174836e3dfc7512d9c027e3725249f6173f177int, 0x1db25b769468fbd1e35101232a6d6fd1e582a83f44ffaf05f6596e70a1c82540int, 0x16f6c7dcd02cb9db4feb22d0ae21ca5b49bf8d3222e059124095c63460e32011int);
    let e = lemma_times(n, g, e, 0x16f6c7dcd02cb9db4feb22d0ae21ca5b49bf8d3222e059124095c63460e32011int, 0x117fe36671fba0cbc047e7872197090d34c5a2e8d2a1a8838979f751d0feb24aint, 0x2f9a35aa55e6938383db153529c062f378aa518e35be03bf7768d306b632b3cbint);
    assert(e == 0x1653243e7nat);
    let e = lemma_square(n, g, e, 0x2f9a35aa55e6938383db153529c062f378aa518e35be03bf7768d306b632b3cbint, 0x2ed368e407406decba8d28e53043f4c0a8c670c4dbad2b2167f966dead78a969int, 0x10f730d38c4df8defb93d643e4bced019086f87804ba2e76ce0ee7374018d990int);
    let e = lemma_times(n, g, e, 0x10f730d38c4df8defb93d643e4bced019086f87804ba2e76ce0ee7374018d990int, 0xcedb3946f8402a5c18acddd6b7cb1d44db9f11d55e9a2cffe43812515bd5b82int, 0xa5f47c8eec23f7f41e9539686cb0ba670d122216c3fb4dcdcb79c47b02a204eint);
    let e = lemma_square(n, g, e, 0xa5f47c8eec23f7f41e9539686cb0ba670d122216c3fb4dcdcb79c47b02a204eint, 0x23920655060a0acfce5c44486e8b1af970c7b08fa22b62c99d78f9a4ea5fbe6int, 0x25a58c7b9f41b51f1fd39213b8319802d9af7220d0b11ed3e95effc9ef059bdeint);
    let e = lemma_times(n, g, e, 0x25a58c7b9f41b51f1fd39213b8319802d9af7220d0b11ed3e95effc9ef059bdeint, 0x1cb03bedc9ab1452c6c3e1f887f8342f456e17eb3a956ce06ff01abaf8c5fea2int, 0xee67278edcb5c72564a51712a03b9fc9c0d5e547caf1ba7d0491b2fcff38134int);
    let e = lemma_square(n, g, e, 0xee67278edcb5c72564a51712a03b9fc9c0d5e547caf1ba7d0491b2fcff38134int, 0x4967ec8f6f60d33e3e08c5642c56bf0e69ccf3bdd8970f23fedafe2a51120ebint, 0x142d0e4653afa5d3f6960f7a662ab793038d798afe82c1bc39ae8ef8acdc51a5int);
    let e = lemma_times(n, g, e, 0x142d0e4653afa5d3f6960f7a662ab793038d798afe82c1bc39ae8ef8acdc51a5int, 0xf5fffa5996247bffd5c5d41c0ed0a968dd95395f3eb9ac14db7b156922555f5int, 0xc94bd2746558c445e48c0a5b0fb7cd41b2674f54fbd8e398ca24c91f00beb04int);
    let e = lemma_square(n, g, e, 0xc94bd2746558c445e48c0a5b0fb7cd41b2674f54fbd8e398ca24c91f00beb04int, 0x34555af524070101cc9bc5d862cd462b483955ca4866f31e6fbcf88769d63e8int, 0x1de9f05590d7a38ceb35834ab293f7a3e34a52e227501b1d991c3053937af428int);
    let e = lemma_square(n, g, e, 0x1de9f05590d7a38ceb35834ab293f7a3e34a52e227501b1d991c3053937af428int, 0x127dd2355abdc463f7823523e317f62419d34fa87ef065a33ba97a582a9e25c6int, 0x28442c4d143a1905452254dfde50c78f0b32199dd7f0a69c8f65d4efc45e207aint);
    let e = lemma_square(n, g, e, 0x28442c4d143a1905452254dfde50c78f0b32199dd7f0a69c8f65d4efc45e207aint, 0x2181512812a3c1a6700407f44a89e2bcd7b52279d5da16781e1ec2610d570176int, 0x164838d11d8c578260ea0bbf7cc2683e97d8b325ea828627ddbcdfa1005fb8aeint);
    let e = lemma_times(n, g, e, 0x164838d11d8c578260ea0bbf7cc2683e97d8b325ea828627ddbcdfa1005fb8aeint, 0x10faddea37f9bdc9154267cc69233586cc4cf1a7843d4a46766d7c395122badaint, 0x12921b10a09ff9e08fe35675d9a313a3064af4f9c85bcaee3dbeb99133c410cint);
    let e = lemma_square(n, g, e, 0x12921b10a09ff9e08fe35675d9a313a3064af4f9c85bcaee3dbeb99133c410cint, 0x7206c7ebb7109dd2aa1748935d3c8c76ec4b34d3dc93a4503801ba53d63b4int, 0x20de60915923f633882a8cd8ee7d8a6da504fdd7f32e9a42a19f363df0e9b4dcint);
    let e = lemma_times(n, g, e, 0x20de60915923f633882a8cd8ee7d8a6da504fdd7f32e9a42a19f363df0e9b4dcint, 0x190c1fb347f97c1dcc805e606f765cfc7597c3713b8c1d6a6d8aee4f47294102int, 0xd3f031f11048e1d8bf335a469345ed69e7ca8204d3b1dc27d6c92baa76a284aint);
    let e = lemma_square(n, g, e, 0xd3f031f11048e1d8bf335a469345ed69e7ca8204d3b1dc27d6c92baa76a284aint, 0x3a0360b68890519937b46e94a11393052cbbc52135fa06d0f86270a16a6c309int, 0x2a482f063c54f45821060699fd748b6fbb46bfa7b9cec2ea270d871068f8725bint);
    let e = lemma_square(n, g, e, 0x2a482f063c54f45821060699fd748b6fbb46bfa7b9cec2ea270d871068f8725bint, 0x24f18b3fcd7f98e34560186ca6ec5889a932735e0cf986802d24b58cd1242a63int, 0x138fb7484e38e0fad55eedf0c000ecfc6e180a7e9dad17869a646045124101f6int);
    let e = lemma_times(n, g, e, 0x138fb7484e38e0fad55eedf0c000ecfc6e180a7e9dad17869a646045124101f6int, 0xee8194a933a6e4bc27bca1420557f295e13c1dd06982fa6a0cec8e7246093d9int, 0x1e5cacef1f522ca84bb2a531ec6b103da5f17c2d51311ae4c514a24a62905475int);
    let e = lemma_square(n, g, e, 0x1e5cacef1f522ca84bb2a531ec6b103da5f17c2d51311ae4c514a24a62905475int, 0x130cbc1a15df0f5eb7a32003301266a555651f9c4941082e222cf797eb96b934int, 0x2618d84c7e7b79622f96a9446f3a55f549e1e6c922020de79806579807e64445int);
    let e = lemma_square(n, g, e, 0x2618d84c7e7b79622f96a9446f3a55f549e1e6c922020de79806579807e64445int, 0x1dfe0bb83340752dbaa90adb98a3776573af5722e177bc36c64eb059587238e1int, 0x1f8733ebeba1214def919c2513e5f3f75d12c5477cdc26d583519aeb3bbe81b8int);
    let e = lemma_times(n, g, e, 0x1f8733ebeba1214def919c2513e5f3f75d12c5477cdc26d583519aeb3bbe81b8int, 0x18069c233c51f4673d90188dd482ab82e634b1eeda24a0907a37e200f75b8807int, 0x21be301d03265783805883cc988c5ba23c441ba195913ede98f4f52f168cc291int);
    let e = lemma_square(n, g, e, 0x21be301d03265783805883cc988c5ba23c441ba195913ede98f4f52f168cc291int, 0x178748c3e6d92fceb1c4d95d39ed4677ce919f620f60d847b29e96b02ccfdf47int, 0x2fa5a8768d018633483bc8365329b78cda2aa4444c9503ba6f68d94c91a836daint);
    let e = lemma_times(n, g, e, 0x2fa5a8768d018633483bc8365329b78cda2aa4444c9503ba6f68d94c91a836daint, 0x244f2643657daea4127dd728b56c76927513179c4f08b8181645b0305adcf05aint, 0x223cd66cc835abf1848040e928b02d1e7c942bcb14078aabad30ccbda1742f68int);
    let e = lemma_square(n, g, e, 0x223cd66cc835abf1848040e928b02d1e7c942bcb14078aabad30ccbda1742f68int, 0x18393373cb1e2140730a0fc97739adffc93b0d46fed801895fededc18bdbc091int, 0x2985481dfb4a7e9312233c8c7130cdf2faacb8f443ee0b46a9f7cd5f532b99afint);
    let e = lemma_times(n, g, e, 0x2985481dfb4a7e9312233c8c7130cdf2faacb8f443ee0b46a9f7cd5f532b99afint, 0x1fa3fa5f96ec6322f8e313a07e345ff378fa7200e894b85430c5450166909d7cint, 0x158a8c5de4d58fa5bf276296f1e6e39281f841c273590ec3d6b94671dd92ad2fint);
    let e = lemma_square(n, g, e, 0x158a8c5de4d58fa5bf276296f1e6e39281f841c273590ec3d6b94671dd92ad2fint, 0x996c0fce31d6967b7e18e5eb33847c454cf12f9a41b204aa74ce868b2cdedeeint, 0x17bcef976dd7e347836a056974134f88c1b5fbfdba6517787bd6cd6951f6a0b3int);
    let e = lemma_times(n, g, e, 0x17bcef976dd7e347836a056974134f88c1b5fbfdba6517787bd6cd6951f6a0b3int, 0x1216e4268aff502d5e60898c21bef161b94fc98c3da0e1f90f21d5abe50dd108int, 0x74d8222796dd5a0c23f45bba2c3efc5d5468f9152f5ab1aab4a3d0241cd83b7int);
    let e = lemma_square(n, g, e, 0x74d8222796dd5a0c23f45bba2c3efc5d5468f9152f5ab1aab4a3d0241cd83b7int, 0x11a203767d5f9ba89d887b26969a57dee4462913069302d2b5331d9b313cc12int, 0x4862cf09bb59a68f3bcfbad26609c5106853bacb684b7058cfe1d3a91c700bfint);
    let e = lemma_square(n, g, e, 0x4862cf09bb59a68f3bcfbad26609c5106853bacb684b7058cfe1d3a91c700bfint, 0x6c46f3bbded7a1d9eb705c0806868c9b968be5f8e1a8085bb858bb71a5423fint, 0x6cda314e7729cba47449ede5ca5d5bdd62175415c9150b7a3710a13054d4c42int);
    assert(e == 0x1653243e7e6bcnat);
    let e = lemma_square(n, g, e, 0x6cda314e7729cba47449ede5ca5d5bdd62175415c9150b7a3710a13054d4c42int, 0xf4da11e4d7229ae9a503eb2510dab35f8064362d7bbb8643a49abd5b081555int, 0x1f8b50de84043943ed45078b40fe1c2165e1d43628c85d42680ece917f632bafint);
    let e = lemma_times(n, g, e, 0x1f8b50de84043943ed45078b40fe1c2165e1d43628c85d42680ece917f632bafint, 0x1809be87a3794cad73024a8fa7e40362e02be7b146837d71e2752989711145d5int, 0x2f8b0978bc3b8fa5825c05d50705e98854468758c37a2b4de32029cbee375ed6int);
    let e = lemma_square(n, g, e, 0x2f8b0978bc3b8fa5825c05d50705e98854468758c37a2b4de32029cbee375ed6int, 0x2eb593fd7826d4d18e03b66b5d0a530c07e72ce7d01ecd5c2f68eb2fb03024e6int, 0x12617db43cee8da863599efd5bfeda7a85c4b7ba26dcd16cdbaa97da7ae5b5feint);
    let e = lemma_square(n, g, e, 0x12617db43cee8da863599efd5bfeda7a85c4b7ba26dcd16cdbaa97da7ae5b5feint, 0x6fb4d550058315e77ee74e35c892195bc870e0921b9bc0f16842852ae796c24int, 0x3044abd2384f299a5480edf27accc1275c55b107f04ef57c5a51cdccc353bbe0int);
    let e = lemma_times(n, g, e, 0x3044abd2384f299a5480edf27accc1275c55b107f04ef57c5a51cdccc353bbe0int, 0x24c8530d65aff3ea2ed53c213834d742b517a71d68359772595c69d2628594a4int, 0x116771adfead77b734bf52d09c9bdc07e9cb91faa5c410edd9d065601f20debcint);
    let e = lemma_square(n, g, e, 0x116771adfead77b734bf52d09c9bdc07e9cb91faa5c410edd9d065601f20debcint, 0x64265905f7a728880174fd669816260ab80eb9b4e21b30ac97bbd2199644c14int, 0x2a5590fb125faf88297742b5aa0e380006bfe133f63d4ed816bc7399f664dfcint);
    let e = lemma_square(n, g, e, 0x2a5590fb125faf88297742b5aa0e380006bfe133f63d4ed816bc7399f664dfcint, 0x2508f1c111342090637421a9ed8e3fbdfff0e74a09db1371f295fc06450ffcint, 0x261b2fe2dbafdac220a0b85eb421f24e74b2e7f8d34744792a71114cfe4c8014int);
    let e = lemma_times(n, g, e, 0x261b2fe2dbafdac220a0b85eb421f24e74b2e7f8d34744792a71114cfe4c8014int, 0x1d09e12f43c467b57d85651c469bc6493e9dfad98f0ff090cd0d4ab5f79e19b3int, 0x628431c76fab4a5add64fe0449603de774d26a6e1bf89e59a5410d3028fa9b1int);
    let e = lemma_square(n, g, e, 0x628431c76fab4a5add64fe0449603de774d26a6e1bf89e59a5410d3028fa9b1int, 0xc88f6f6487218ef74878f0db16aba9a3cf3ce4f6c902627991aa33741a3f9dint, 0x20f87fc87ccd78dc6cca559f82aa216f47658094a15f7018fddb5b0e241eecc4int);
    let e = lemma_times(n, g, e, 0x20f87fc87ccd78dc6cca559f82aa216f47658094a15f7018fddb5b0e241eecc4int, 0x192007a6b609bc3500456c5a3ce4d25ebea5c4377735d9690c249a3ef8d562c7int, 0xbabbfb97f2b078db6f8c0e24368dcd9440515706a2aed2205d64116377e340dint);
    let e = lemma_square(n, g, e, 0xbabbfb97f2b078db6f8c0e24368dcd9440515706a2aed2205d64116377e340dint, 0x2d091f4505bdb9d3cc7f57081fc90251051f1ab0be97de007c757d4e284cbc5int, 0x25248287df34cdd8a9d9159c1122eb5315ce2b14022ce5b7c755a2d44adc7ce4int);
    let e = lemma_times(n, g, e, 0x25248287df34cdd8a9d9159c1122eb5315ce2b14022ce5b7c755a2d44adc7ce4int, 0x1c4de69c6ea30e5999c154a8555785c2148cdfe43d0fe8f9dc36dc8250b83b1dint, 0x2dd716e4d9d6f88283c9983e409f44affda78a4aa5e8417fd50aeb71b6706457int);
    let e = lemma_square(n, g, e, 0x2dd716e4d9d6f88283c9983e409f44affda78a4aa5e8417fd50aeb71b6706457int, 0x2b6c50c9fb1cba1536f9229ec16bf3e71f8549275b1276d764b0829cb03da977int, 0x131ad3de907c2500a9dd1a96523486f52573ab2a3870ffa5ef27cb0067366c1aint);
    let e = lemma_times(n, g, e, 0x131ad3de907c2500a9dd1a96523486f52573ab2a3870ffa5ef27cb0067366c1aint, 0xe8f06572a42d5d73620480d2052453f5b216b892540f89ab4764d3ba818279dint, 0xd7c7af2e0aedb654c47102a5d94e35f63ca9509e05d5c51910544fcd9ef3265int);
    let e = lemma_square(n, g, e, 0xd7c7af2e0aedb654c47102a5d94e35f63ca9509e05d5c51910544fcd9ef3265int, 0x3c22ac26cd8b410f758471fc977fdc60caf613f9d3760ee8e116a5f76f87668int, 0xc33bca71c8be5dac4a25dd9fa80421bc305bfe29b60f542cc2a62ad65892571int);
    let e = lemma_square(n, g, e, 0xc33bca71c8be5dac4a25dd9fa80421bc305bfe29b60f542cc2a62ad65892571int, 0x313a81c77e5f46a2c41bf4b713055db2f91e0bc6adb6e2a77b9a225f025bf02int, 0x22b288a43b7660cb546697f7437f8d142c06a381106cd1085048026072461cdfint);
    let e = lemma_times(n, g, e, 0x22b288a43b7660cb546697f7437f8d142c06a381106cd1085048026072461cdfint, 0x1a70e12df980051f8eef7ab872eb4978b7a6385a44ec1ec5cc7664381bfca9baint, 0x1ebe4c477d778a9a54b33908c6b4cee170bee88bbdd4b4866e0895f543e044e1int);
    let e = lemma_square(n, g, e, 0x1ebe4c477d778a9a54b33908c6b4cee170bee88bbdd4b4866e0895f543e044e1int, 0x1388013222fa9bc7c558181689e23764ae90bc27348c0ced45ab906c516b69bcint, 0x173cff3f4aa1c37b1dd3e82444a41b5d68f9dea0b9bc9cbe366602afd0dce405int);
    let e = lemma_square(n, g, e, 0x173cff3f4aa1c37b1dd3e82444a41b5d68f9dea0b9bc9cbe366602afd0dce405int, 0xb28c59cc0db3de5c05939134d40058a550e36778f1c0610d19fc4c12bd86b59int, 0x11a84c79183ec822695bbf5c0655018bf82147727094d486a0fe097737d87cc0int);
    let e = lemma_square(n, g, e, 0x11a84c79183ec822695bbf5c0655018bf82147727094d486a0fe097737d87cc0int, 0x67162d7f7452d69fc86f7cb620bc0229f6aa0757e4a28e043d187ce15bc9d3eint, 0x290b950588aef0ae4a831a0bf915d8395a83733acb942998d9bd3b5b0b0df2c2int);
    let e = lemma_square(n, g, e, 0x290b950588aef0ae4a831a0bf915d8395a83733acb942998d9bd3b5b0b0df2c2int, 0x22d06104d6102e83500dcc3e7796110c158e188f891cab1779be1a4c4cf9051eint, 0x1aee63aabbc829afb63d38f17421bee6c18b88921bd29d92c0950038ccee55e6int);
    let e = lemma_square(n, g, e, 0x1aee63aabbc829afb63d38f17421bee6c18b88921bd29d92c0950038ccee55e6int, 0xefce49078277929f177dcb4730c93987017674870470d24dce25833e15b890aint, 0x1a8580958c6bd1216eaa720b804321bfc6bc01c9fbb99ff3b865dfff231f019aint);
    let e = lemma_times(n, g, e, 0x1a8580958c6bd1216eaa720b804321bfc6bc01c9fbb99ff3b865dfff231f019aint, 0x1435e5e2a6389f118fb7c41a6dbb06b33d8704c54f6a5381bb3be99199c2984eint, 0x1e422e479488cbc2f271caf99b1d48a6cc5ed175f6913a2f982101b960b14d34int);
    let e = lemma_square(n, g, e, 0x1e422e479488cbc2f271caf99b1d48a6cc5ed175f6913a2f982101b960b14d34int, 0x12eb8b7501e6c1fa0d6d822ee3428682a0156e152a5832cc58414ab5a0064436int, 0xc0a3d1e09bef135c8d002449f7294d16dcf98a7859dae40582b6e30992a0e5aint);
    let e = lemma_times(n, g, e, 0xc0a3d1e09bef135c8d002449f7294d16dcf98a7859dae40582b6e30992a0e5aint, 0x92ccd0559b22861b5178254cf885e78fd154a2b276b941a731e5af4a0f6ae82int, 0x79ac99d7e9a5ef8ac02014188d9083a6f84d3f531b3f8a68b525fb06a48c6c0int);
    assert(e == 0x1653243e7e6bcaf43nat);
    let e = lemma_square(n, g, e, 0x79ac99d7e9a5ef8ac02014188d9083a6f84d3f531b3f8a68b525fb06a48c6c0int, 0x131eea46fcc3d5687fcc9938dbebed2e3649191483aaf108d82ef3839a61544int, 0x7218daa3a6e924861edd9a150276400643469e9241ebe1059a934136ca77abcint);
    let e = lemma_times(n, g, e, 0x7218daa3a6e924861edd9a150276400643469e9241ebe1059a934136ca77abcint, 0x56f26cf31d16360c8e019bf50a096871b0c26dd4187d4256460010cd8b74e6fint, 0x239c6aaf1830bddae9768bf718cd3b7223f03300148ffb92b15edef972b6403dint);
    let e = lemma_square(n, g, e, 0x239c6aaf1830bddae9768bf718cd3b7223f03300148ffb92b15edef972b6403dint, 0x1a34ab66fd612fc5b4b5afbb58d5f188efaa5d2bc64b2bb518af89e847448518int, 0x7965680f982c2a109cd365100bf013a6dc20d8d609e0e095ad56a28f3960971int);
    let e = lemma_square(n, g, e, 0x7965680f982c2a109cd365100bf013a6dc20d8d609e0e095ad56a28f3960971int, 0x130890900789eadcddbbc076c7aa74a2704dd81cbc8ee161afba4be653087ffint, 0x2f98278ec79c96bbba17a32350d7738cb8121423be2ce92405876e8121949be2int);
    let e = lemma_square(n, g, e, 0x2f98278ec79c96bbba17a32350d7738cb8121423be2ce92405876e8121949be2int, 0x2ecf5ded9567b215323d77b2fd333078ca9cc99848252fef006aa257c37059b4int, 0x101a39b3414d22b70e2d3e6ddf926d5239c08edebf1093a3d44a3b6c5ccb19d0int);
    let e = lemma_times(n, g, e, 0x101a39b3414d22b70e2d3e6ddf926d5239c08edebf1093a3d44a3b6c5ccb19d0int, 0xc4550f4012395441a3f741d460ba4baddbd075bcf3549aa84a6dea64f125078int, 0x2d589ad4a5b8a228be1f6064e4939ab4812a7b3573bbc49346383923ee0adc98int);
    let e = lemma_square(n, g, e, 0x2d589ad4a5b8a228be1f6064e4939ab4812a7b3573bbc49346383923ee0adc98int, 0x2a7df9f7de0f234bb72a1a1fcd0687481cc05bcd69b17fb6cf43e3b89b25962dint, 0x2c04858665fce688cf00235ab7e46a5b3bacb8fc2eaeaa7bb879c6d6ced00413int);
    let e = lemma_square(n, g, e, 0x2c04858665fce688cf00235ab7e46a5b3bacb8fc2eaeaa7bb879c6d6ced00413int, 0x2809f460fa2cffbb92d166814a416acd3232e400b515797f7f500b6aad7d7748int, 0x2597bf4648ec96f911d03dd63032adca932d9a9170261d2578ac91c305732221int);
    let e = lemma_times(n, g, e, 0x2597bf4648ec96f911d03dd63032adca932d9a9170261d2578ac91c305732221int, 0x1ca5b7782b3b2119c29bbb76c7684aeb7335c9b90b6c1d6ccebbad1de7f2c6caint, 0x1628b8169987ed3aefe32472345ca351158fabd21150a501b6735b8eadd4c59bint);
    let e = lemma_square(n, g, e, 0x1628b8169987ed3aefe32472345ca351158fabd21150a501b6735b8eadd4c59bint, 0xa25970f8b02cc16701db46c2bd885e161a0b3e3895c5edd7a015d80c0656045int, 0x1d10cd082f08444ef2e675b41d0880730e76dd2e0f6fe67c2674f57eeeda8b94int);
    let e = lemma_square(n, g, e, 0x1d10cd082f08444ef2e675b41d0880730e76dd2e0f6fe67c2674f57eeeda8b94int, 0x11752cfac3b33f755571a9cb7c5499af61d469f6bf5da9aab6b0e05c48dde68fint, 0x1aa7cd3e3b0f80db5c875fd00ebf91fbb8acf3c3ae3acae33a839c29db4c2701int);
    let e = lemma_square(n, g, e, 0x1aa7cd3e3b0f80db5c875fd00ebf91fbb8acf3c3ae3acae33a839c29db4c2701int, 0xeaeba47d65fa5d765d46a1c191614022998b28f355285346d88d22173831cc9int, 0xd88aee6ac1744bd6d692297712bfbccdd4bf3cb0d1b2feba87c762c01063138int);
    let e = lemma_times(n, g, e, 0xd88aee6ac1744bd6d692297712bfbccdd4bf3cb0d1b2feba87c762c01063138int, 0xa503d83b6c4b78754416e8fa123bc412b87fc9f48c1b0187bbcc63a77ee704bint, 0x87b417e4c771bc840ead5f692b904ae13b013d963fcd8b98e22b97985bf67cdint);
    let e = lemma_square(n, g, e, 0x87b417e4c771bc840ead5f692b904ae13b013d963fcd8b98e22b97985bf67cdint, 0x17c8c6ceee2b6dd25802a62878849b3213575a6b8cb2a5a17662451e83884c8int, 0x26e0e4b8bdaa63cfb71eebf69af769abdfd724db58e3ece4fae0131ba7c41561int);
    let e = lemma_square(n, g, e, 0x26e0e4b8bdaa63cfb71eebf69af769abdfd724db58e3ece4fae0131ba7c41561int, 0x1f3c41e981d9e1a5c7914aee362784ec244a67992dd4316e9cb7f264014802f4int, 0x224e9147db0b4316b4ac884eecc7efd369bd339d9b36acfb50ada7468b090bcdint);
    let e = lemma_times(n, g, e, 0x224e9147db0b4316b4ac884eecc7efd369bd339d9b36acfb50ada7468b090bcdint, 0x1a24b37134a5996e3d4d71adf02372aa887fe6fccf3815c7d7c17ce84a625742int, 0x1502571f826d368b31c21b6118dd9b6f4a5f5fd8031b23106831d0711a2927fint);
    let e = lemma_square(n, g, e, 0x1502571f826d368b31c21b6118dd9b6f4a5f5fd8031b23106831d0711a2927fint, 0x91efce1c28fec0228ec73235dc70fc8950184476a8c8878c8576348fc18daint, 0x2639d78e298e4a356b108077948ba3fcd1f024ea3b09d1300fec31c6f1950227int);
    let e = lemma_square(n, g, e, 0x2639d78e298e4a356b108077948ba3fcd1f024ea3b09d1300fec31c6f1950227int, 0x1e3216a1573e25b0e089ff12a68ed8aa63f4c4fe2657f9c4958f62289bc410fdint, 0x2e050dbfa4bb4658f0cbcf27c87fb13a47df2aaed651f971486812c023a690f4int);
    let e = lemma_times(n, g, e, 0x2e050dbfa4bb4658f0cbcf27c87fb13a47df2aaed651f971486812c023a690f4int, 0x2311adbfe363962a62aad455b6d0783441d397bf75864f1949fa540848b3f5cbint, 0x2c89c0eb05ea388d9079f3b22d5bbdee048031bb72e702719b73895a489ca9f9int);
    let e = lemma_square(n, g, e, 0x2c89c0eb05ea388d9079f3b22d5bbdee048031bb72e702719b73895a489ca9f9int, 0x28fdc402fabb3792f9d8462392d6093af3b26a8ba1d49cbffd1a7a63c89c3ccbint, 0xad644a6b0882fd38d3b9894bc029093d5a440e63c9efbf83be5619c8fb67766int);
    let e = lemma_square(n, g, e, 0xad644a6b0882fd38d3b9894bc029093d5a440e63c9efbf83be5619c8fb67766int, 0x26d46c9c90e67324630c121474ca97486ae92ec990469dd4662b221e9262c61int, 0xc266420c3c9175c639772637ee5b9829d0586245c036c2f7f6a5f521791d043int);
    let e = lemma_square(n, g, e, 0xc266420c3c9175c639772637ee5b9829d0586245c036c2f7f6a5f521791d043int, 0x30cf0d3054ac667afb3dcd737f412289feb66c78f8687e13b61f2a9ccead352int, 0x5d99f15e69b749fa88713a098c4fdece70e905bb46de4ac41fdc088f2681e37int);
    let e = lemma_times(n, g, e, 0x5d99f15e69b749fa88713a098c4fdece70e905bb46de4ac41fdc088f2681e37int, 0x47540cadb8b1e9ffab2f646b84c7632c6551d4439c179eb265dd983363d896fint, 0xc34b5fa62a440962a04da26bcd303fb8d1c2387f312d249a93ca67f16e985e4int);
    assert(e == 0x1653243e7e6bcaf4394a9nat);
    let e = lemma_square(n, g, e, 0xc34b5fa62a440962a04da26bcd303fb8d1c2387f312d249a93ca67f16e985e4int, 0x31425ddd7bd191db258a97ec9269ee8230cf0f92680418ef0a30bc4318889ddint, 0x122e267ee2c51e1df6d2ec9995a467177a9305c83046e02a639bc855cd862933int);
    let e = lemma_square(n, g, e, 0x122e267ee2c51e1df6d2ec9995a467177a9305c83046e02a639bc855cd862933int, 0x6d483586b141ae7cda158bea2e28cd1d2a127a940fea07b675035bb651a0ffeint, 0xe03d8a27301c5d32539caf435b1ef51b1d46b75dcd6b4c5789d469550eb502bint);
    let e = lemma_square(n, g, e, 0xe03d8a27301c5d32539caf435b1ef51b1d46b75dcd6b4c5789d469550eb502bint, 0x40f18982d37689056bd6abb72df5a2fc5982a34abf36bd3abe61edffe307d8bint, 0x134e7e7bba053616d86fe28a0cd297492b6bd6a9983a6e70dfb80e11d9dc69aeint);
    let e = lemma_times(n, g, e, 0x134e7e7bba053616d86fe28a0cd297492b6bd6a9983a6e70dfb80e11d9dc69aeint, 0xeb66599700442ade7cda1753fd4cb51d56b13f649af11a4ad60927157270d1bint, 0xfdfae7fbb1a0a22fcc683edf995e00916c23197d7267a13a9a8d2a0198523cbint);
    let e = lemma_square(n, g, e, 0xfdfae7fbb1a0a22fcc683edf995e00916c23197d7267a13a9a8d2a0198523cbint, 0x534fdd99a045330a9536eb91808bd658fd1b2d715cbf90304e736f40ceb0832int, 0xcbb95be11922900a80cab7b8b2415928a7dc6a7e9c9e50fe35df2a2ef041ac7int);
    let e = lemma_times(n, g, e, 0xcbb95be11922900a80cab7b8b2415928a7dc6a7e9c9e50fe35df2a2ef041ac7int, 0x9b3f248f0b7f61c8c87d5ec241ddc65c6859fb939cb0f46b6b56818e972dfbfint, 0x125a74915f3496a8c4a717de709ea9b0651dbc2a1490041d48e3653780209a64int);
    let e = lemma_square(n, g, e, 0x125a74915f3496a8c4a717de709ea9b0651dbc2a1490041d48e3653780209a64int, 0x6f5f6178f2ba5e430db33a93de23b9ba511442cba289dd0ac308abb34dd45d1int, 0x17a12ca54cfc41717961c5cd13c49859ecfd1c8da2b7345bb8fcc550d13f313fint);
    let e = lemma_times(n, g, e, 0x17a12ca54cfc41717961c5cd13c49859ecfd1c8da2b7345bb8fcc550d13f313fint, 0x1201bc58c14be10cec59743071e9d5b1f821c8776d8033e86d5f7aa17983584dint, 0xb26abebfd5d459b97743b8fa9ce728f40abb134ba1533db9c1edf07ece9a42eint);
    let e = lemma_square(n, g, e, 0xb26abebfd5d459b97743b8fa9ce728f40abb134ba1533db9c1edf07ece9a42eint, 0x291cf511bfe8f5bec8170be854518d46db7ba75e8abb0f7d402658052f9ff59int, 0x1000ae9d70db3c0dd9321e2f947581cd75956478dc885b5ca5e32876520cf8ebint);
    let e = lemma_times(n, g, e, 0x1000ae9d70db3c0dd9321e2f947581cd75956478dc885b5ca5e32876520cf8ebint, 0xc31d9e248d17a8b854babf545b8b135ca5e19eb80d6a13a1d8a9584555ed9d5int, 0x1c2564f877891d05bd33ab0db704ddeeccc3f55e548ae0871076eff28dd75602int);
    let e = lemma_square(n, g, e, 0x1c2564f877891d05bd33ab0db704ddeeccc3f55e548ae0871076eff28dd75602int, 0x105edd3584828d56abb3fedb038282e39f0a83746b79fbaed8ed4b9077e43b21int, 0x1facd2a32a7c021734bc85cab8e56531abc24d2b90418c0ced2c75b5605d1ce3int);
    let e = lemma_times(n, g, e, 0x1facd2a32a7c021734bc85cab8e56531abc24d2b90418c0ced2c75b5605d1ce3int, 0x1823472a2b452242964a11884b0016bde8cf42c0129bf983e745159eb7fc2817int, 0x4dcba878d5b987d04a8f4fe04b8d4a7f2df5a36d51791d13d56638809f06d98int);
    let e = lemma_square(n, g, e, 0x4dcba878d5b987d04a8f4fe04b8d4a7f2df5a36d51791d13d56638809f06d98int, 0x7d10c2a048fcbe0d7f6116ea4eeaa056026ac1da7c50dca6ecb2f046316225int, 0x21cdf0f32d0576661c0c0410d08d2a6dc02ffd7f0c87931f2b3207d065b9681bint);
    let e = lemma_times(n, g, e, 0x21cdf0f32d0576661c0c0410d08d2a6dc02ffd7f0c87931f2b3207d065b9681bint, 0x19c2ae9cce36636108e36f578e3ae3709ed23c7f29561a3a79c030807840d895int, 0x2f7903d1e44f8dbad61bafb2244cab9523e72c386914a7ec992f85956dc59732int);
    let e = lemma_square(n, g, e, 0x2f7903d1e44f8dbad61bafb2244cab9523e72c386914a7ec992f85956dc59732int, 0x2e92313ab6ef2550bfa353f7411ce1b0fe702c1e61928798bf27c7fe497f61adint, 0x2c6fec01890d77a51e230aba6daedf96d72c8dbd4d831fcb2dcdf48f26c0a417int);
    let e = lemma_square(n, g, e, 0x2c6fec01890d77a51e230aba6daedf96d72c8dbd4d831fcb2dcdf48f26c0a417int, 0x28ce4539cdd6bc578eac35d6a6784ac4bc05d868658c5cd449ee25b42eb659e5int, 0xff602526793898f2b567497543f38947857977b48ef30c2eefb09e580f7202cint);
    let e = lemma_square(n, g, e, 0xff602526793898f2b567497543f38947857977b48ef30c2eefb09e580f7202cint, 0x543ae062c68139f9d751da54fc932180428362a1a4fa5f86aff72ad20fc4b0eint, 0x213a3a4cf0da1891f4cad374dab8ea62889f07062c49442581b53d5ed7f6bc82int);
    let e = lemma_square(n, g, e, 0x213a3a4cf0da1891f4cad374dab8ea62889f07062c49442581b53d5ed7f6bc82int, 0x16d0a976e63a02b62445c9a9f8e536306fb081b9a95b10b3489eb1dc19c54a2eint, 0x24306e944609358cfadf7e6433378e98ea45578c9fabe627ff8f7c17f6e1e7d6int);
    let e = lemma_square(n, g, e, 0x24306e944609358cfadf7e6433378e98ea45578c9fabe627ff8f7c17f6e1e7d6int, 0x1b104894c973c4b35e7435ff22b917b95affec7eb2547db593d18fee05a61677int, 0x1b168312f695fd8abb6218cfdbc29223801f3b10cd7fa2dea9c6db0a0a79d06dint);
    let e = lemma_times(n, g, e, 0x1b168312f695fd8abb6218cfdbc29223801f3b10cd7fa2dea9c6db0a0a79d06dint, 0x14a466d910b4c9bf95379359773e187cd6240a5b9bb63831a79ba8008c7112b8int, 0x1517ed7b286813d1f7c292512c2d3e7607142caf459d8a9aac8af6a7b338c629int);
    assert(e == 0x2ca6487cfcd795e8729527e1nat);
    reveal(remains);
}

/// The test for the order of the scalar field at the divisor 983.
proof fn lemma_modulus_at_983()
    ensures
        power(0x1517ed7b286813d1f7c292512c2d3e7607142caf459d8a9aac8af6a7b338c629int, 2nat) % 0x30644e72e131a029b85045b68181585d2833e84879b9709143e1f593f0000001int == 0x23b5ac29e080cde5cc11772a04f058c27b039eae3eeaf3d978dc89cc9a7bf77fint,
{
    let (n, g) = (0x30644e72e131a029b85045b68181585d2833e84879b9709143e1f593f0000001int, 0x1517ed7b286813d1f7c292512c2d3e7607142caf459d8a9aac8af6a7b338c629int);
    lemma_start(n, g);
    let e = 1nat;
    let e = lemma_square(n, g, e, 0x1517ed7b286813d1f7c292512c2d3e7607142caf459d8a9aac8af6a7b338c629int, 0x931c5029eb8407517023420d0b5dc31bc14019af4c6c95515f954af26d77b12int, 0x23b5ac29e080cde5cc11772a04f058c27b039eae3eeaf3d978dc89cc9a7bf77fint);
    assert(e == 2nat);
    reveal(remains);
}

/// The test for the order of the scalar field at the divisor two.
proof fn lemma_modulus_at_2()
    ensures
        power(0x1517ed7b286813d1f7c292512c2d3e7607142caf459d8a9aac8af6a7b338c629int, 983nat) % 0x30644e72e131a029b85045b68181585d2833e84879b9709143e1f593f0000001int == 0x30644e72e131a029b85045b68181585d2833e84879b9709143e1f593f0000000int,
{
    let (n, g) = (0x30644e72e131a029b85045b68181585d2833e84879b9709143e1f593f0000001int, 0x1517ed7b286813d1f7c292512c2d3e7607142caf459d8a9aac8af6a7b338c629int);
    lemma_start(n, g);
    let e = 1nat;
    let e = lemma_square(n, g, e, 0x1517ed7b286813d1f7c292512c2d3e7607142caf459d8a9aac8af6a7b338c629int, 0x931c5029eb8407517023420d0b5dc31bc14019af4c6c95515f954af26d77b12int, 0x23b5ac29e080cde5cc11772a04f058c27b039eae3eeaf3d978dc89cc9a7bf77fint);
    let e = lemma_times(n, g, e, 0x23b5ac29e080cde5cc11772a04f058c27b039eae3eeaf3d978dc89cc9a7bf77fint, 0xf90c15e1e270b70f9fa10d86aa5d039228652021643d33fecaa39da1390e80dint, 0x233f1993568ec41a5aa2a4b91967ce5b8de2ab56d86bb72241c84684c7df54aint);
    let e = lemma_square(n, g, e, 0x233f1993568ec41a5aa2a4b91967ce5b8de2ab56d86bb72241c84684c7df54aint, 0x19ac07e49f26919d33dd2202e18b148387913cb39b1520977bdd2b7f1c8e8aint, 0x300b9942f68a74771bab513fbc784f2b869828e33ba45127849615b2862e2adaint);
    let e = lemma_times(n, g, e, 0x300b9942f68a74771bab513fbc784f2b869828e33ba45127849615b2862e2adaint, 0x14f142cb48e135db2e1539d88bd478b3d85fe0b4e9b25fc86f8d5353f41e8837int, 0x5b34cc5a8e074159d22703b92822e4f44165cd89fa907b7b2dad2087c1af0b3int);
    let e = lemma_square(n, g, e, 0x5b34cc5a8e074159d22703b92822e4f44165cd89fa907b7b2dad2087c1af0b3int, 0xabe687b3730c604e8d0a7bb1de1f380fc7d39ea7058587a0c61cfedfa2f89cint, 0x23d0655d39285efd145ba877cadaa42dc4456e0af6c391a7c38ddf8e0f09248dint);
    let e = lemma_times(n, g, e, 0x23d0655d39285efd145ba877cadaa42dc4456e0af6c391a7c38ddf8e0f09248dint, 0xf9c675f530dae9d4a9dc10adca69bd668153abb8eb354ff69f6408edf98b8f8int, 0x1fdfd5a6a4935c8e314e66df6f135d10e411f792302ce43bed0ab58bb0fb2f9dint);
    let e = lemma_square(n, g, e, 0x1fdfd5a6a4935c8e314e66df6f135d10e411f792302ce43bed0ab58bb0fb2f9dint, 0x14fea83d91a3a02dbbdc42c8a58cfaef57b39ac778eda7708e14638c087f6686int, 0x1b062689fd1ac478f8910ab023080fcbf6c8e0ed5ea7e4a074a01dd09e399fc3int);
    let e = lemma_square(n, g, e, 0x1b062689fd1ac478f8910ab023080fcbf6c8e0ed5ea7e4a074a01dd09e399fc3int, 0xf1762c274e76f5dccb83da633ff068465e99a46e0f4521e09102b54fb7da015int, 0xf67e86fb0723fe372be0caa45142c9d2e478816599282fd6fbf0295910c2e74int);
    let e = lemma_times(n, g, e, 0xf67e86fb0723fe372be0caa45142c9d2e478816599282fd6fbf0295910c2e74int, 0x6b71b4114ad75570ff8268731c9b8b1434a8d726e4544c975a77f6cb2486fbeint, 0x111145420d58c1cc6c62f04842c9217aeccf556a99e9b24e1585b4ac19f8b8d6int);
    let e = lemma_square(n, g, e, 0x111145420d58c1cc6c62f04842c9217aeccf556a99e9b24e1585b4ac19f8b8d6int, 0x60502fe1dc17ddbd6e17dc83d62518dc75e2206f29f64ac8d6918bb67e1ec87int, 0x30e9e378fff3fed573a628435674aab4d9d5d13b9a08c908297ea517832665dint);
    let e = lemma_square(n, g, e, 0x30e9e378fff3fed573a628435674aab4d9d5d13b9a08c908297ea517832665dint, 0x3170e93d87f3a1874bd9f3a353f8f72940e4c9947613ba945cd0422b12ede5int, 0x12637abebac358913a09f82a5d6dd3ed84f69ea902b126e9259dc1f57a2f4fe4int);
    let e = lemma_times(n, g, e, 0x12637abebac358913a09f82a5d6dd3ed84f69ea902b126e9259dc1f57a2f4fe4int, 0x803f05f97800dcf8afa6272f3b70b394110920d0ae84f407a42b911ae302353int, 0x130ef98b10bcc28a22650f418ca6f0cbafa3ef23bd0e0f459efe5fea910e0031int);
    let e = lemma_square(n, g, e, 0x130ef98b10bcc28a22650f418ca6f0cbafa3ef23bd0e0f459efe5fea910e0031int, 0x7818574ec6a8608724bb26e900dc34bb10ae6f9c19cd3a3430308179bcd805bint, 0xe340196fe2f5318e85d67f7d99aba55d024a975d09fc260984318e19b8e8906int);
    let e = lemma_times(n, g, e, 0xe340196fe2f5318e85d67f7d99aba55d024a975d09fc260984318e19b8e8906int, 0x630e53c32de681964ade183e12eba7a574a3002915c662fd9e6af0968e198edint, 0x1378d09dfdd03ac861bfd7c821935d67431bd7c0a252a9de939282daba3cfd09int);
    let e = lemma_square(n, g, e, 0x1378d09dfdd03ac861bfd7c821935d67431bd7c0a252a9de939282daba3cfd09int, 0x7d5cb09369aad1de09740105e8b78f10f60cec5c2787f20a5be971353543accint, 0x548a4247abb563f93687eb4fd938c7c9a897461fe5ad43a51d0383616fe8f85int);
    let e = lemma_times(n, g, e, 0x548a4247abb563f93687eb4fd938c7c9a897461fe5ad43a51d0383616fe8f85int, 0x24d99fe66349ffd4190590dd66d92acbdeb07c15ed8ed7d1a084ccbd5ddda4dint, 0x30644e72e131a029b85045b68181585d2833e84879b9709143e1f593f0000000int);
    assert(e == 983nat);
    reveal(remains);
}

/// The test for the order of the scalar field at the large divisor.
proof fn lemma_modulus_at_large()
    ensures
        power(0x24e06e8fa50aa248bdbd10e329e60a6f62dce94d011caa97055830026ad729c5int, 1966nat) % 0x30644e72e131a029b85045b68181585d2833e84879b9709143e1f593f0000001int == 0x111ce6c4ffe84db106cb32817a46e1af1c3c8053e4d74d6ad44430556c06764aint,
{
    let (n, g) = (0x30644e72e131a029b85045b68181585d2833e84879b9709143e1f593f0000001int, 0x24e06e8fa50aa248bdbd10e329e60a6f62dce94d011caa97055830026ad729c5int);
    lemma_start(n, g);
    let e = 1nat;
    let e = lemma_square(n, g, e, 0x24e06e8fa50aa248bdbd10e329e60a6f62dce94d011caa97055830026ad729c5int, 0x1c1a05bc352dc654f8cf487dcb62406bb6246d06643cefe1f03b4d23e7884f77int, 0x25f0a1034058becee4465eae1bbb15bb276ba8de0fc73fa2f3d8ce89dc2e6222int);
    let e = lemma_times(n, g, e, 0x25f0a1034058becee4465eae1bbb15bb276ba8de0fc73fa2f3d8ce89dc2e6222int, 0x1ce972d0664253580a4d72847444e00fc2368e81917fea99d97b73d872bbc1b6int, 0x694ef96dc162000a87cdd99bcc395aa4a0d32e551aa813a801c653f493b3474int);
    let e = lemma_square(n, g, e, 0x694ef96dc162000a87cdd99bcc395aa4a0d32e551aa813a801c653f493b3474int, 0xe52b1f7919e311079e216d8601c53d2f9b0e052d497bc73bb55f2b39bfb55bint, 0x1e89feafcc6815ae2b8090edd35375b6f6d9abb51495e5ceb760d741d6779f35int);
    let e = lemma_times(n, g, e, 0x1e89feafcc6815ae2b8090edd35375b6f6d9abb51495e5ceb760d741d6779f35int, 0x1745a784cca4270b4f752ba927ab4e005057270e0335a0e38dca683fa48b3bfbint, 0x2e8f41db46a44fbfd6e3da83c402a2a49546940d06163f3e2c166d33e584c4ceint);
    let e = lemma_square(n, g, e, 0x2e8f41db46a44fbfd6e3da83c402a2a49546940d06163f3e2c166d33e584c4ceint, 0x2ccbf7a2762644dc256e0d0b89b1993408d9415ff914a3540a908f5ec36a02bbint, 0x2fa7a832fee942ca24c2e988db7c22841e6ed67861f8013f101128b904521309int);
    let e = lemma_times(n, g, e, 0x2fa7a832fee942ca24c2e988db7c22841e6ed67861f8013f101128b904521309int, 0x2450ac3a84dcbcb3b30f754dcb49a8517de0bc1b6a63509bebeda1826c7fcabbint, 0x2deea416fc7e3fba51497ad89ddad7f00a58d5da9051db7a24cd9b0072444c32int);
    let e = lemma_square(n, g, e, 0x2deea416fc7e3fba51497ad89ddad7f00a58d5da9051db7a24cd9b0072444c32int, 0x2b98fad25defa447eaf3d6964a4758ebc61a3279dd3879821236eb9146687ea6int, 0xcf926a5c317fd8fe0120c3853465cad2bcfff2a7fdc12ac8a04f87632d53b1eint);
    let e = lemma_square(n, g, e, 0xcf926a5c317fd8fe0120c3853465cad2bcfff2a7fdc12ac8a04f87632d53b1eint, 0x37a5bfa8622a193bfd7287aaf721b2a5f421b1778a7d41740842ec5a0f1b453int, 0x175764fd20f81a71b9094579041893955fadb9e6b4a673aec06cd9deb4a12331int);
    let e = lemma_times(n, g, e, 0x175764fd20f81a71b9094579041893955fadb9e6b4a673aec06cd9deb4a12331int, 0x11c983200d7be50f280131660400c0b9015277c7e25899fe07857f8020dbdb08int, 0x1a4d10c241ee67763b0a00e212958d40a6f025915b311be159f72b2805ee12adint);
    let e = lemma_square(n, g, e, 0x1a4d10c241ee67763b0a00e212958d40a6f025915b311be159f72b2805ee12adint, 0xe4b6eb4cf0de743b0965c62dffa54bb2025f51218740773041ba08cafec2d3aint, 0x7c303abbd62b5f3a43b1e8e834f5a9ff288534c334c955d45bb98f06d1c9bafint);
    let e = lemma_square(n, g, e, 0x7c303abbd62b5f3a43b1e8e834f5a9ff288534c334c955d45bb98f06d1c9bafint, 0x13eb4b3e903e3fc1de1459031611cf6f0bc822eea1ac85aee83002394bc9007int, 0x1b31ec69385a3de5a20258d1aa1b1c219f860a5514369895f176e9b64e38d19aint);
    let e = lemma_times(n, g, e, 0x1b31ec69385a3de5a20258d1aa1b1c219f860a5514369895f176e9b64e38d19aint, 0x14b94a5daab1fba43f1940c07d69f23785f12b0235d541031415c60486ae172bint, 0x4a0021f1068e67e65f16f69ed6d1e2c3a3ebc35ce22cbad10d6571940f2de57int);
    let e = lemma_square(n, g, e, 0x4a0021f1068e67e65f16f69ed6d1e2c3a3ebc35ce22cbad10d6571940f2de57int, 0x71294466dc866c9a47f59ff464215452fe3de307068726e6e5041ec492e873int, 0x7a0c6fea845c3c039425b348f0fdbbf969745c70a835e28ce699d7f0904191eint);
    let e = lemma_times(n, g, e, 0x7a0c6fea845c3c039425b348f0fdbbf969745c70a835e28ce699d7f0904191eint, 0x5d01a108833b5abbcbfec726559e5dc1b8832bbbe7160fd239dbf77b890cee9int, 0x297073351c679a14d3e652164a5e8224be3249aa66620261e85f5409f3ce532dint);
    let e = lemma_square(n, g, e, 0x297073351c679a14d3e652164a5e8224be3249aa66620261e85f5409f3ce532dint, 0x237c4f46b06a30ddabde118c43782dd99731d8886846fd3fe991b82900356777int, 0x2fb406b8fa33d7192d46281c232e83deabb4fb720d35c45015a4a3ddd53cce72int);
    let e = lemma_times(n, g, e, 0x2fb406b8fa33d7192d46281c232e83deabb4fb720d35c45015a4a3ddd53cce72int, 0x245a19420e1c855da0e3c3488d0aa28783ec4f9222667b6911c0456bc36b092aint, 0x28e5529df2512a82c88f25060931efa23bbf0e39a52a0373f6cece2b472e1690int);
    let e = lemma_square(n, g, e, 0x28e5529df2512a82c88f25060931efa23bbf0e39a52a0373f6cece2b472e1690int, 0x228f9852b4ca1723aac9855ae4e340c75aab313c1b07315d2895874df1b69ab6int, 0x111ce6c4ffe84db106cb32817a46e1af1c3c8053e4d74d6ad44430556c06764aint);
    assert(e == 1966nat);
    reveal(remains);
}

/// The test for the order of the scalar field at the whole exponent.
proof fn lemma_modulus_order()
    ensures
        power(0x30644e72e131a029b85045b68181585d2833e84879b9709143e1f593f0000000int, 2nat) % 0x30644e72e131a029b85045b68181585d2833e84879b9709143e1f593f0000001int == 1int,
{
    let (n, g) = (0x30644e72e131a029b85045b68181585d2833e84879b9709143e1f593f0000001int, 0x30644e72e131a029b85045b68181585d2833e84879b9709143e1f593f0000000int);
    lemma_start(n, g);
    let e = 1nat;
    let e = lemma_square(n, g, e, 0x30644e72e131a029b85045b68181585d2833e84879b9709143e1f593f0000000int, 0x30644e72e131a029b85045b68181585d2833e84879b9709143e1f593efffffffint, 1int);
    assert(e == 2nat);
    reveal(remains);
}

/// The order of the scalar field is prime.
proof fn lemma_modulus()
    ensures
        is_prime(0x30644e72e131a029b85045b68181585d2833e84879b9709143e1f593f0000001int),
{
    let (n, g) = (0x30644e72e131a029b85045b68181585d2833e84879b9709143e1f593f0000001int, 5int);
    assert(has_inverse(n, power(g, 0xc9a40b3ec84b86cc921aa814dbd28fb5a6bcaf2523925e8e41a8d90000000nat) - 1)) by {
        lemma_modulus_base();
        lemma_modulus_large_power();
        lemma_power_chain(n, g, 0x2420ed35cbcd9e3507124302606dffc8000000nat, 0x24e06e8fa50aa248bdbd10e329e60a6f62dce94d011caa97055830026ad729c5int, 0x2ca6487cfcd795e8729527e1nat);
        lemma_modulus_at_983();
        lemma_power_chain(n, g, 0x64d2059f6425c366490d540a6de947dad35e579291c92f4720d46c8000000nat, 0x1517ed7b286813d1f7c292512c2d3e7607142caf459d8a9aac8af6a7b338c629int, 2nat);
        lemma_invertible(n, g, 0xc9a40b3ec84b86cc921aa814dbd28fb5a6bcaf2523925e8e41a8d90000000nat, 0x23b5ac29e080cde5cc11772a04f058c27b039eae3eeaf3d978dc89cc9a7bf77fint, 0x16c79fbc95be2259db2a9c87e8d89838e28af1bdc3b70d702d79ca4b1991766fint, 0x10cf50e16c1f5fdcdd5331c2b8bf906605ac760d4389ad60bc0e105eac3263a1int);
    }
    assert(has_inverse(n, power(g, 0x183227397098d014dc2822db40c0ac2e9419f4243cdcb848a1f0fac9f8000000nat) - 1)) by {
        lemma_modulus_base();
        lemma_modulus_large_power();
        lemma_power_chain(n, g, 0x2420ed35cbcd9e3507124302606dffc8000000nat, 0x24e06e8fa50aa248bdbd10e329e60a6f62dce94d011caa97055830026ad729c5int, 0x2ca6487cfcd795e8729527e1nat);
        lemma_modulus_at_2();
        lemma_power_chain(n, g, 0x64d2059f6425c366490d540a6de947dad35e579291c92f4720d46c8000000nat, 0x1517ed7b286813d1f7c292512c2d3e7607142caf459d8a9aac8af6a7b338c629int, 983nat);
        lemma_invertible(n, g, 0x183227397098d014dc2822db40c0ac2e9419f4243cdcb848a1f0fac9f8000000nat, 0x30644e72e131a029b85045b68181585d2833e84879b9709143e1f593f0000000int, 0x183227397098d014dc2822db40c0ac2e9419f4243cdcb848a1f0fac9f8000000int, 0x183227397098d014dc2822db40c0ac2e9419f4243cdcb848a1f0fac9f7ffffffint);
    }
    assert(has_inverse(n, power(g, 0x11574ddb3232514fb3c4e3e9c408cc251f0000000nat) - 1)) by {
        lemma_modulus_base();
        lemma_modulus_at_large();
        lemma_power_chain(n, g, 0x2420ed35cbcd9e3507124302606dffc8000000nat, 0x24e06e8fa50aa248bdbd10e329e60a6f62dce94d011caa97055830026ad729c5int, 1966nat);
        lemma_invertible(n, g, 0x11574ddb3232514fb3c4e3e9c408cc251f0000000nat, 0x111ce6c4ffe84db106cb32817a46e1af1c3c8053e4d74d6ad44430556c06764aint, 0x4fc9daf06f5b38a9b19942e10de3fdacd34deb3d7a9f92e52c9a59889de7812int, 0x1c373c5dd695869e039b54df77a4efc8efecf62f1743fc51a61486254348921int);
    }
    assert(power(g, 0x30644e72e131a029b85045b68181585d2833e84879b9709143e1f593f0000000nat) % n == 1) by {
        lemma_modulus_base();
        lemma_modulus_large_power();
        lemma_power_chain(n, g, 0x2420ed35cbcd9e3507124302606dffc8000000nat, 0x24e06e8fa50aa248bdbd10e329e60a6f62dce94d011caa97055830026ad729c5int, 0x2ca6487cfcd795e8729527e1nat);
        lemma_modulus_at_2();
        lemma_power_chain(n, g, 0x64d2059f6425c366490d540a6de947dad35e579291c92f4720d46c8000000nat, 0x1517ed7b286813d1f7c292512c2d3e7607142caf459d8a9aac8af6a7b338c629int, 983nat);
        lemma_modulus_order();
        lemma_power_chain(n, g, 0x183227397098d014dc2822db40c0ac2e9419f4243cdcb848a1f0fac9f8000000nat, 0x30644e72e131a029b85045b68181585d2833e84879b9709143e1f593f0000000int, 2nat);
    }
    assert forall|c: int| #[trigger] is_prime(c) && 0xab728057eedfd09f8ffabc20f70000000nat as int % c == 0 implies has_inverse(
        n,
        power(g, ((n - 1) / c) as nat) - 1,
    ) by {
        lemma_983();
        lemma_twenty_nine_digits();
        lemma_euclid(c, 0x10000000int, 0xab728057eedfd09f8ffabc20f7int);
        if 0x10000000int % c == 0 {
            assert(power(2, 28) == 0x10000000int) by {
                reveal_with_fuel(power, 29);
            }
            lemma_prime_divides_power(c, 2, 28);
            lemma_prime_divides_prime(c, 2);
        } else {
            lemma_euclid(c, 983, 0x2ca6487cfcd795e8729527e1int);
            if 983int % c == 0 {
                lemma_prime_divides_prime(c, 983);
            } else {
                lemma_prime_divides_prime(c, 0x2ca6487cfcd795e8729527e1int);
            }
        }
    }
    lemma_pocklington(n, g, 0xab728057eedfd09f8ffabc20f70000000nat, 0x4841da6b979b3c6a0e248604c0dbff9nat);
}

/// The order of the scalar field is prime.
pub proof fn law_scalar_modulus_is_prime()
    ensures
        is_prime(scalar_modulus()),
{
    lemma_modulus();
}

/// The scalar field has no zero divisors, and so what the constraints of a circuit over it say of
/// binary digits holds of every assignment.
pub proof fn law_scalar_field_has_no_zero_divisors()
    ensures
        no_zero_divisors(scalar_modulus()),
{
    law_scalar_modulus_is_prime();
    law_prime_modulus(scalar_modulus());
}

} // verus!
