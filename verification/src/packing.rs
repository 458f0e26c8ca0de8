//! Bytes and their binary digits.
use vstd::prelude::*;
use crate::arith::power;
use crate::field::{bits_value, vals, Field};
use crate::gadgets::digit;
use crate::ro::lemma_bits_bound;

verus! {

/// The bytes whose little-endian binary digits are given, eight for each byte.
pub open spec fn packed(bits: Seq<bool>) -> Seq<u8> {
    Seq::new(bits.len() / 8, |i: int| bits_value(bits.subrange(8 * i, 8 * i + 8)) as u8)
}

/// The digits as numbers.
pub open spec fn digit_values(bits: Seq<bool>) -> Seq<int> {
    Seq::new(bits.len(), |i: int| digit(bits[i]))
}

/// Eight binary digits are worth less than 256.
pub proof fn lemma_byte_bound(bits: Seq<bool>)
    requires
        bits.len() == 8,
    ensures
        0 <= bits_value(bits) < 256,
{
    lemma_bits_bound(bits);
    reveal_with_fuel(power, 9);
}

/// Digits of equal number and value are the same.
pub proof fn lemma_bits_unique(a: Seq<bool>, b: Seq<bool>)
    requires
        a.len() == b.len(),
        bits_value(a) == bits_value(b),
    ensures
        a == b,
    decreases a.len(),
{
    if a.len() > 0 {
        let (u, v) = (a.drop_last(), b.drop_last());
        lemma_bits_bound(u);
        lemma_bits_bound(v);
        assert(a.last() == b.last());
        lemma_bits_unique(u, v);
        assert(a =~= u.push(a.last()));
        assert(b =~= v.push(b.last()));
    } else {
        assert(a =~= b);
    }
}

/// Bytes determine their binary digits.
pub proof fn law_packing_is_injective(a: Seq<bool>, b: Seq<bool>)
    requires
        a.len() == b.len(),
        a.len() % 8 == 0,
        packed(a) == packed(b),
    ensures
        a == b,
{
    assert forall|j: int| 0 <= j < a.len() implies a[j] == b[j] by {
        let i = j / 8;
        let (u, v) = (a.subrange(8 * i, 8 * i + 8), b.subrange(8 * i, 8 * i + 8));
        lemma_byte_bound(u);
        lemma_byte_bound(v);
        assert(packed(a)[i] == bits_value(u) as u8);
        assert(packed(b)[i] == bits_value(v) as u8);
        lemma_bits_unique(u, v);
        assert(u[j - 8 * i] == v[j - 8 * i]);
    }
    assert(a =~= b);
}

/// The eight little-endian binary digits of a byte, appended as field elements.
fn push_byte<F: Field>(out: &mut Vec<F>, byte: u8, Ghost(digits): Ghost<Seq<bool>>) -> (r: Ghost<
    Seq<bool>,
>)
    requires
        vals(old(out)@) == digit_values(digits),
    ensures
        r@.len() == digits.len() + 8,
        r@.take(digits.len() as int) == digits,
        bits_value(r@.subrange(digits.len() as int, digits.len() as int + 8)) == byte,
        vals(final(out)@) == digit_values(r@),
{
    let mut x: u8 = byte;
    let mut i: usize = 0;
    let ghost mut ds = digits;
    proof {
        assert(ds.subrange(digits.len() as int, digits.len() as int).len() == 0);
        assert(power(2, 0) == 1);
        assert(ds.take(digits.len() as int) =~= digits);
        assert(vals(out@).len() == out@.len());
    }
    while i < 8
        invariant
            i <= 8,
            ds.len() == digits.len() + i,
            ds.take(digits.len() as int) == digits,
            bits_value(ds.subrange(digits.len() as int, digits.len() + i)) + power(2, i as nat) * x
                == byte,
            vals(out@) == digit_values(ds),
            out@.len() == ds.len(),
        decreases 8 - i,
    {
        let bit = x % 2 == 1;
        let ghost n = digits.len() as int;
        let ghost before = ds;
        let ghost prev = vals(out@);
        out.push(
            if bit {
                F::one()
            } else {
                F::zero()
            },
        );
        proof {
            ds = ds.push(bit);
            assert(ds.take(n) =~= digits);
            let chunk = ds.subrange(n, n + i + 1);
            assert(chunk.drop_last() =~= before.subrange(n, n + i));
            assert(vals(out@) =~= prev.push(digit(bit)));
            assert(digit_values(ds) =~= digit_values(before).push(digit(bit)));
            let pw = power(2, i as nat);
            let half = (x / 2) as int;
            let b = digit(bit);
            assert(x == 2 * half + b);
            assert(pw * x == (pw * 2) * half + pw * b) by (nonlinear_arith)
                requires
                    x == 2 * half + b,
            ;
            assert(pw * 1 == pw && pw * 0 == 0);
        }
        x = x / 2;
        i += 1;
    }
    proof {
        reveal_with_fuel(power, 9);
        let n = digits.len() as int;
        let chunk = ds.subrange(n, n + 8);
        lemma_byte_bound(chunk);
        let pw = power(2, 8);
        assert(pw == 256);
        assert(x == 0) by (nonlinear_arith)
            requires
                pw == 256,
                bits_value(chunk) >= 0,
                bits_value(chunk) + pw * x == byte,
        ;
        assert(pw * 0 == 0);
    }
    Ghost(ds)
}

/// The binary digits of 32 bytes as field elements, the lowest digit of each byte first.
pub fn bytes_to_bits<F: Field>(bytes: &[u8]) -> (r: Vec<F>)
    requires
        bytes@.len() == 32,
    ensures
        r@.len() == 256,
        exists|bits: Seq<bool>|
            bits.len() == 256 && packed(bits) == bytes@ && vals(r@) == #[trigger] digit_values(bits),
{
    let mut out: Vec<F> = Vec::new();
    let mut i: usize = 0;
    let mut digits: Ghost<Seq<bool>> = Ghost(Seq::empty());
    proof {
        assert(vals(out@) =~= digit_values(digits@));
    }
    while i < 32
        invariant
            i <= 32,
            bytes@.len() == 32,
            digits@.len() == 8 * i,
            vals(out@) == digit_values(digits@),
            forall|j: int|
                0 <= j < i ==> bits_value(#[trigger] digits@.subrange(8 * j, 8 * j + 8))
                    == bytes@[j],
        decreases 32 - i,
    {
        let ghost before = digits@;
        digits = push_byte(&mut out, bytes[i], digits);
        proof {
            assert forall|j: int| 0 <= j < i + 1 implies bits_value(
                #[trigger] digits@.subrange(8 * j, 8 * j + 8),
            ) == bytes@[j] by {
                if j < i {
                    assert(digits@.subrange(8 * j, 8 * j + 8) =~= before.subrange(
                        8 * j,
                        8 * j + 8,
                    )) by {
                        assert(digits@.take(8 * i as int) == before);
                    }
                }
            }
        }
        i += 1;
    }
    proof {
        let bits = digits@;
        assert forall|j: int| 0 <= j < 32 implies packed(bits)[j] == bytes@[j] by {
            assert(bits_value(bits.subrange(8 * j, 8 * j + 8)) == bytes@[j]);
        }
        assert(packed(bits) =~= bytes@);
        assert(vals(out@).len() == out@.len());
    }
    out
}

/// The digits that field elements stand for: those that equal one.
pub open spec fn ones(v: Seq<int>) -> Seq<bool> {
    Seq::new(v.len(), |i: int| v[i] == 1)
}

/// The 32 bytes whose binary digits are given as field elements, the lowest digit of each byte
/// first. An element counts as a one if it is one, and as a zero otherwise.
pub fn bits_to_bytes<F: Field>(bits: &[F]) -> (r: [u8; 32])
    requires
        bits@.len() == 256,
    ensures
        r@ == packed(ones(vals(bits@))),
{
    let ghost d = ones(vals(bits@));
    let mut bytes: [u8; 32] = [0u8; 32];
    let mut i: usize = 0;
    while i < 32
        invariant
            i <= 32,
            bits@.len() == 256,
            d == ones(vals(bits@)),
            forall|j: int| 0 <= j < i ==> #[trigger] bytes@[j] == packed(d)[j],
        decreases 32 - i,
    {
        let mut byte: u8 = 0;
        let mut weight: u16 = 1;
        let mut j: usize = 0;
        proof {
            assert(d.subrange(8 * i as int, 8 * i as int).len() == 0);
            assert(power(2, 0) == 1);
        }
        while j < 8
            invariant
                j <= 8,
                i < 32,
                bits@.len() == 256,
                d == ones(vals(bits@)),
                byte == bits_value(d.subrange(8 * i as int, 8 * i + j)),
                weight == power(2, j as nat),
                byte < weight,
                weight <= 256,
                weight == 256 ==> j == 8,
            decreases 8 - j,
        {
            let one = F::one();
            let bit = bits[8 * i + j].equals(one);
            proof {
                let chunk = d.subrange(8 * i as int, 8 * i + j + 1);
                assert(chunk.drop_last() =~= d.subrange(8 * i as int, 8 * i + j));
                assert(chunk.last() == bit);
                reveal_with_fuel(power, 9);
            }
            if bit {
                byte = byte + weight as u8;
            }
            weight = weight * 2;
            j += 1;
        }
        bytes[i] = byte;
        proof {
            lemma_byte_bound(d.subrange(8 * i as int, 8 * i + 8));
        }
        i += 1;
    }
    assert(bytes@ =~= packed(d));
    bytes
}

/// Packing the digits that bytes were unpacked to gives the bytes back.
pub proof fn law_pack_unpack(bytes: Seq<u8>, bits: Seq<bool>, v: Seq<int>)
    requires
        packed(bits) == bytes,
        v == digit_values(bits),
    ensures
        packed(ones(v)) == bytes,
{
    assert(ones(v) =~= bits);
}

} // verus!
