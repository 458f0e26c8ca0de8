//! What packing digits into bytes does, digit by digit.
use vstd::prelude::*;
use crate::arith::power;
use crate::field::{bits_value, vals, Field};
use crate::packing::{bits_to_bytes, bytes_to_bits, digit_values, lemma_byte_bound, ones, packed};

verus! {

/// Eight numbers, weighted by the powers of two from one on.
pub open spec fn weigh_eight(d: Seq<int>, at: int) -> int {
    d[at] + 2 * d[at + 1] + 4 * d[at + 2] + 8 * d[at + 3] + 16 * d[at + 4] + 32 * d[at + 5] + 64
        * d[at + 6] + 128 * d[at + 7]
}

/// One for a digit that is set, zero for one that is not.
pub open spec fn set_or_not(b: bool) -> int {
    if b {
        1
    } else {
        0
    }
}

/// The value of eight digits.
proof fn lemma_eight(s: Seq<bool>)
    requires
        s.len() == 8,
    ensures
        bits_value(s) == weigh_eight(Seq::new(8, |i: int| set_or_not(s[i])), 0),
{
    reveal_with_fuel(bits_value, 9);
    reveal_with_fuel(power, 9);
}

/// Byte `i` of packed digits holds digits `8 i` to `8 i + 7`, lowest first. What is not one counts
/// as zero.
pub proof fn law_bytes_hold_eight_digits<F: Field>(bits: &[F], r: [u8; 32], i: int)
    requires
        call_ensures(bits_to_bytes::<F>, (bits,), r),
        bits@.len() == 256,
        0 <= i < 32,
    ensures
        r@[i] == weigh_eight(Seq::new(256, |k: int| set_or_not(bits@[k].val() == 1)), 8 * i),
{
    let d = ones(vals(bits@));
    let s = d.subrange(8 * i, 8 * i + 8);
    lemma_byte_bound(s);
    lemma_eight(s);
    assert(packed(d)[i] == bits_value(s) as u8);
    assert forall|k: int| 0 <= k < 8 implies #[trigger] s[k] == (bits@[8 * i + k].val() == 1) by {
        assert(d[8 * i + k] == (vals(bits@)[8 * i + k] == 1));
    }
    assert(s[0] == (bits@[8 * i].val() == 1));
}

/// The digits of bytes are zeros and ones, and digits `8 i` to `8 i + 7` make up byte `i`, lowest
/// first.
pub proof fn law_bytes_give_their_digits<F: Field>(bytes: &[u8], r: Vec<F>, i: int, j: int)
    requires
        call_ensures(bytes_to_bits::<F>, (bytes,), r),
        bytes@.len() == 32,
        0 <= i < 32,
        0 <= j < 256,
    ensures
        r@.len() == 256,
        r@[j].val() == 0 || r@[j].val() == 1,
        bytes@[i] == weigh_eight(vals(r@), 8 * i),
{
    let d = choose|bits: Seq<bool>|
        bits.len() == 256 && packed(bits) == bytes@ && vals(r@) == #[trigger] digit_values(bits);
    let s = d.subrange(8 * i, 8 * i + 8);
    lemma_byte_bound(s);
    lemma_eight(s);
    assert(packed(d)[i] == bits_value(s) as u8);
    assert(vals(r@)[j] == r@[j].val());
    assert forall|k: int| 0 <= k < 8 implies #[trigger] vals(r@)[8 * i + k] == set_or_not(s[k]) by {
        assert(digit_values(d)[8 * i + k] == set_or_not(d[8 * i + k]));
    }
    assert(vals(r@)[8 * i + 0] == set_or_not(s[0]));
    assert(vals(r@)[8 * i + 1] == set_or_not(s[1]));
    assert(vals(r@)[8 * i + 2] == set_or_not(s[2]));
    assert(vals(r@)[8 * i + 3] == set_or_not(s[3]));
    assert(vals(r@)[8 * i + 4] == set_or_not(s[4]));
    assert(vals(r@)[8 * i + 5] == set_or_not(s[5]));
    assert(vals(r@)[8 * i + 6] == set_or_not(s[6]));
    assert(vals(r@)[8 * i + 7] == set_or_not(s[7]));
}

/// Packing the digits of bytes gives the bytes back.
pub proof fn law_bytes_come_back<F: Field>(bytes: &[u8], v: Vec<F>, bits: &[F], r: [u8; 32])
    requires
        call_ensures(bytes_to_bits::<F>, (bytes,), v),
        bits@ == v@,
        call_ensures(bits_to_bytes::<F>, (bits,), r),
        bytes@.len() == 32,
    ensures
        r@ == bytes@,
{
    let d = choose|bits: Seq<bool>|
        bits.len() == 256 && packed(bits) == bytes@ && vals(v@) == #[trigger] digit_values(bits);
    assert(ones(vals(bits@)) =~= d) by {
        assert forall|k: int| 0 <= k < 256 implies ones(vals(bits@))[k] == d[k] by {
            assert(digit_values(d)[k] == set_or_not(d[k]));
        }
    }
}

} // verus!
