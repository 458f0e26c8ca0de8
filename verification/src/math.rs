//! Powers of two.
use vstd::prelude::*;
use crate::arith::{lemma_power_add, power};

verus! {

/// `2^ell` is the least power of two that is at least `n`.
pub open spec fn is_ceil_log2(n: int, ell: nat) -> bool {
    &&& n <= power(2, ell)
    &&& ell > 0 ==> power(2, (ell - 1) as nat) < n
}

/// The exponent of the least power of two that is at least `n`.
pub fn ceil_log2(n: usize) -> (ell: usize)
    requires
        n <= usize::MAX / 2 + 1,
    ensures
        is_ceil_log2(n as int, ell as nat),
        power(2, ell as nat) <= usize::MAX,
        ell < usize::MAX,
{
    let mut p: usize = 1;
    let mut ell: usize = 0;
    while p < n
        invariant
            n <= usize::MAX / 2 + 1,
            1 <= p,
            ell < p,
            p == power(2, ell as nat),
            ell > 0 ==> power(2, (ell - 1) as nat) < n,
        decreases 2 * n - p,
    {
        p = p * 2;
        ell += 1;
    }
    ell
}

/// The power of two with the given exponent.
pub fn pow2(k: usize) -> (r: usize)
    requires
        power(2, k as nat) <= usize::MAX,
    ensures
        r == power(2, k as nat),
        r >= 1,
{
    let mut p: usize = 1;
    let mut i: usize = 0;
    while i < k
        invariant
            i <= k,
            1 <= p,
            p == power(2, i as nat),
            power(2, k as nat) <= usize::MAX,
        decreases k - i,
    {
        proof {
            lemma_pow2_mono((i + 1) as nat, k as nat);
        }
        p = p * 2;
        i += 1;
    }
    p
}

/// Powers of two grow with the exponent.
pub proof fn lemma_pow2_mono(a: nat, b: nat)
    requires
        a <= b,
    ensures
        0 < power(2, a) <= power(2, b),
    decreases b,
{
    if b == 0 {
    } else if a == b {
        lemma_pow2_mono((a - 1) as nat, (b - 1) as nat);
    } else {
        lemma_pow2_mono(a, (b - 1) as nat);
    }
}

/// The two halves of a tensor split multiply to the whole.
pub proof fn lemma_split(ell: nat)
    ensures
        power(2, (ell + 1) / 2) * power(2, ell / 2) == power(2, ell),
        power(2, (ell + 1) / 2) <= power(2, ell),
        power(2, ell / 2) <= power(2, (ell + 1) / 2),
        power(2, ell / 2) >= 1,
{
    lemma_power_add(2, (ell + 1) / 2, ell / 2);
    assert((ell + 1) / 2 + ell / 2 == ell);
    lemma_pow2_mono((ell + 1) / 2, ell);
    lemma_pow2_mono(ell / 2, (ell + 1) / 2);
}

} // verus!
