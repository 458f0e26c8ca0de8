//! The random oracle: a Poseidon sponge that absorbs field elements and squeezes challenges.
use vstd::prelude::*;
use crate::arith::{fadd, fmul, group_is, is, lemma_index, lemma_power_add, power, sum};
use crate::bn254::lemma_power_two_pos;
use crate::field::{bits_value, copy_vec, lemma_seed, lemma_seed_const, vals, Field};

verus! {

/// The length of a challenge in bits.
pub const NUM_CHALLENGE_BITS: usize = 128;

/// The parameters of a Poseidon permutation.
pub struct PoseidonModel {
    /// Number of elements of the state.
    pub width: int,
    /// Number of full rounds before, and again after, the partial rounds.
    pub half_full: int,
    /// Number of partial rounds.
    pub partial: int,
    /// Round constants, row by row.
    pub ark: Seq<int>,
    /// Mixing matrix, row by row.
    pub mds: Seq<int>,
}

impl PoseidonModel {
    /// The number of rounds.
    pub open spec fn rounds(self) -> int {
        2 * self.half_full + self.partial
    }

    /// The parameters fit together.
    pub open spec fn wf(self) -> bool {
        &&& self.width >= 2
        &&& self.half_full >= 0
        &&& self.partial >= 0
        &&& self.ark.len() == self.rounds() * self.width
        &&& self.mds.len() == self.width * self.width
    }
}

/// The S-box.
pub open spec fn sbox(x: int) -> int {
    power(x, 5)
}

/// The state after the constants of round `r` are added and the S-boxes are applied: to the whole
/// state in a full round, to its first element in a partial round.
pub open spec fn sub_layer(m: PoseidonModel, r: int, s: Seq<int>) -> Seq<int> {
    Seq::new(
        m.width as nat,
        |i: int|
            if i == 0 || r < m.half_full || r >= m.half_full + m.partial {
                sbox(s[i] + m.ark[r * m.width + i])
            } else {
                s[i] + m.ark[r * m.width + i]
            },
    )
}

/// Row `i` of the mixing matrix times the vector `t`.
pub open spec fn mix_row(m: PoseidonModel, t: Seq<int>, i: int) -> int {
    sum(|j: int| m.mds[i * m.width + j] * t[j], 0, m.width)
}

/// One round on a state of residues modulo `p`.
pub open spec fn round(p: int, m: PoseidonModel, r: int, s: Seq<int>) -> Seq<int> {
    Seq::new(m.width as nat, |i: int| mix_row(m, sub_layer(m, r, s), i) % p)
}

/// The first `n` rounds.
pub open spec fn rounds(p: int, m: PoseidonModel, n: int, s: Seq<int>) -> Seq<int>
    decreases n,
{
    if n <= 0 {
        s
    } else {
        round(p, m, n - 1, rounds(p, m, n - 1, s))
    }
}

/// The permutation.
pub open spec fn permute(p: int, m: PoseidonModel, s: Seq<int>) -> Seq<int> {
    rounds(p, m, m.rounds(), s)
}

/// The state of the sponge after `xs` is absorbed, one element per permutation, into a state whose
/// capacity starts with the number of elements `n`.
pub open spec fn absorbed(p: int, m: PoseidonModel, n: int, xs: Seq<int>) -> Seq<int>
    decreases xs.len(),
{
    if xs.len() == 0 {
        Seq::new(
            m.width as nat,
            |i: int|
                if i == 0 {
                    n % p
                } else {
                    0
                },
        )
    } else {
        let s = absorbed(p, m, n, xs.drop_last());
        permute(p, m, s.update(1, fadd(p, s[1], xs.last())))
    }
}

/// The hash of a sequence of field elements.
pub open spec fn poseidon(p: int, m: PoseidonModel, xs: Seq<int>) -> int {
    absorbed(p, m, xs.len() as int, xs)[1]
}

/// The challenge squeezed from a transcript: the low bits of its hash.
pub open spec fn challenge(p: int, m: PoseidonModel, xs: Seq<int>, num_bits: nat) -> int {
    poseidon(p, m, xs) % power(2, num_bits)
}

/// The parameters of the sponge.
#[derive(Clone, Debug)]
pub struct PoseidonConstants<F> {
    pub(crate) width: usize,
    pub(crate) half_full: usize,
    pub(crate) partial: usize,
    pub(crate) ark: Vec<F>,
    pub(crate) mds: Vec<F>,
}

impl<F: Field> PoseidonConstants<F> {
    /// The mathematical parameters.
    pub closed spec fn view(self) -> PoseidonModel {
        PoseidonModel {
            width: self.width as int,
            half_full: self.half_full as int,
            partial: self.partial as int,
            ark: vals(self.ark@),
            mds: vals(self.mds@),
        }
    }

    /// The parameters are usable.
    pub open spec fn wf(self) -> bool {
        self@.wf() && self@.rounds() <= usize::MAX
    }

    /// Parameters from their parts, if these fit together.
    pub fn new(width: usize, half_full: usize, partial: usize, ark: Vec<F>, mds: Vec<F>) -> (r:
        Option<Self>)
        ensures
            ({
                let m = PoseidonModel {
                    width: width as int,
                    half_full: half_full as int,
                    partial: partial as int,
                    ark: vals(ark@),
                    mds: vals(mds@),
                };
                &&& r is Some <==> m.wf() && m.rounds() <= usize::MAX
                &&& r matches Some(c) ==> c@ == m && c.wf()
            }),
    {
        let (ark_len, mds_len): (usize, usize) = (ark.len(), mds.len());
        if width < 2 {
            return None;
        }
        match half_full.checked_add(half_full) {
            Some(full) => match full.checked_add(partial) {
                Some(n) => {
                    match (n.checked_mul(width), width.checked_mul(width)) {
                        (Some(a), Some(b)) => if a == ark_len && b == mds_len {
                            return Some(PoseidonConstants { width, half_full, partial, ark, mds });
                        },
                        _ => {},
                    }
                },
                None => {},
            },
            None => {},
        }
        None
    }

    /// Parameters from parts that fit together.
    pub(crate) fn from_parts(
        width: usize,
        half_full: usize,
        partial: usize,
        ark: Vec<F>,
        mds: Vec<F>,
    ) -> (r: Self)
        requires
            width >= 2,
            2 * half_full + partial <= usize::MAX,
            ark@.len() == (2 * half_full + partial) * width,
            mds@.len() == width * width,
        ensures
            r.wf(),
            r@ == (PoseidonModel {
                width: width as int,
                half_full: half_full as int,
                partial: partial as int,
                ark: vals(ark@),
                mds: vals(mds@),
            }),
    {
        PoseidonConstants { width, half_full, partial, ark, mds }
    }

    /// A copy of the parameters.
    pub fn duplicate(&self) -> (r: Self)
        ensures
            r@ == self@,
    {
        let ark = copy_vec(&self.ark);
        let mds = copy_vec(&self.mds);
        PoseidonConstants {
            width: self.width,
            half_full: self.half_full,
            partial: self.partial,
            ark,
            mds,
        }
    }

    /// The number of elements of the state.
    pub fn width(&self) -> (r: usize)
        ensures
            r == self@.width,
    {
        self.width
    }

    /// The number of rounds.
    pub fn num_rounds(&self) -> (r: usize)
        requires
            self.wf(),
        ensures
            r == self@.rounds(),
    {
        self.half_full + self.half_full + self.partial
    }

    /// Whether the S-box is applied to element `i` of the state in round `r`.
    pub fn has_sbox(&self, r: usize, i: usize) -> (b: bool)
        requires
            self.wf(),
            r < self@.rounds(),
        ensures
            b == (i == 0 || r < self@.half_full || r >= self@.half_full + self@.partial),
    {
        i == 0 || r < self.half_full || r - self.half_full >= self.partial
    }

    /// The constant that round `r` adds to element `i` of the state.
    pub fn round_constant(&self, r: usize, i: usize) -> (c: F)
        requires
            self.wf(),
            r < self@.rounds(),
            i < self@.width,
        ensures
            c.val() == self@.ark[r * self@.width + i],
    {
        proof {
            assert(self.ark.len() == self.ark@.len());
            lemma_index(self@.width, self@.rounds(), r as int, i as int);
            assert(self@.rounds() * self@.width == self@.width * self@.rounds())
                by (nonlinear_arith);
        }
        self.ark[r * self.width + i]
    }

    /// The entry of the mixing matrix in row `i` and column `j`.
    pub fn mix_entry(&self, i: usize, j: usize) -> (c: F)
        requires
            self.wf(),
            i < self@.width,
            j < self@.width,
        ensures
            c.val() == self@.mds[i * self@.width + j],
    {
        proof {
            assert(self.mds.len() == self.mds@.len());
            lemma_index(self@.width, self@.width, i as int, j as int);
        }
        self.mds[i * self.width + j]
    }

    /// One round of the permutation.
    fn round(&self, r: usize, s: &Vec<F>) -> (out: Vec<F>)
        requires
            self.wf(),
            r < self@.rounds(),
            s@.len() == self@.width,
        ensures
            vals(out@) == round(F::modulus(), self@, r as int, vals(s@)),
    {
        let ghost p = F::modulus();
        let ghost m = self@;
        let w = self.width;
        let (ark_len, mds_len): (usize, usize) = (self.ark.len(), self.mds.len());
        let full = r < self.half_full || r - self.half_full >= self.partial;
        let mut t: Vec<F> = Vec::new();
        let mut i: usize = 0;
        while i < w
            invariant
                i <= w,
                w == self.width,
                m == self@,
                self.wf(),
                ark_len == m.ark.len(),
                p == F::modulus(),
                r < m.rounds(),
                s@.len() == w,
                full == (r < m.half_full || r >= m.half_full + m.partial),
                t@.len() == i,
                forall|k: int| 0 <= k < i ==> is(
                    p,
                    #[trigger] t@[k].val(),
                    sub_layer(m, r as int, vals(s@))[k],
                ),
            decreases w - i,
        {
            proof {
                lemma_index(w as int, m.rounds(), r as int, i as int);
                assert(m.rounds() * m.width == m.width * m.rounds()) by (nonlinear_arith);
            }
            let c = self.ark[r * w + i];
            let y = s[i].add(c);
            let ghost e = s@[i as int].val() + c.val();
            proof {
                broadcast use group_is;

                lemma_seed(s@[i as int]);
                lemma_seed(c);
                assert(is(p, y.val(), e));
                assert(vals(s@)[i as int] == s@[i as int].val());
                assert(m.ark[r * w + i] == c.val());
            }
            if full || i == 0 {
                let y2 = y.mul(y);
                let y4 = y2.mul(y2);
                let y5 = y4.mul(y);
                proof {
                    broadcast use group_is;

                    assert(is(p, y5.val(), ((e * e) * (e * e)) * e));
                    reveal_with_fuel(power, 6);
                    assert(((e * e) * (e * e)) * e == ((((1 * e) * e) * e) * e) * e)
                        by (nonlinear_arith);
                }
                t.push(y5);
            } else {
                t.push(y);
            }
            i += 1;
        }
        let ghost u = sub_layer(m, r as int, vals(s@));
        let mut out: Vec<F> = Vec::new();
        let mut i: usize = 0;
        while i < w
            invariant
                i <= w,
                w == self.width,
                m == self@,
                self.wf(),
                mds_len == m.mds.len(),
                p == F::modulus(),
                u == sub_layer(m, r as int, vals(s@)),
                t@.len() == w,
                forall|k: int| 0 <= k < w ==> is(p, #[trigger] t@[k].val(), u[k]),
                out@.len() == i,
                forall|k: int| 0 <= k < i ==> #[trigger] out@[k].val() == mix_row(m, u, k) % p,
            decreases w - i,
        {
            let mut acc = F::zero();
            let mut j: usize = 0;
            proof {
                lemma_seed_const::<F>(0);
            }
            while j < w
                invariant
                    i < w,
                    j <= w,
                    w == self.width,
                    m == self@,
                    self.wf(),
                    mds_len == m.mds.len(),
                    p == F::modulus(),
                    p > 0,
                    t@.len() == w,
                    u.len() == w,
                    forall|k: int| 0 <= k < w ==> is(p, #[trigger] t@[k].val(), u[k]),
                    is(p, acc.val(), sum(|k: int| m.mds[i * m.width + k] * u[k], 0, j as int)),
                decreases w - j,
            {
                proof {
                    lemma_index(w as int, w as int, i as int, j as int);
                }
                let c = self.mds[i * w + j];
                acc = acc.add(c.mul(t[j]));
                proof {
                    broadcast use group_is;

                    lemma_seed(c);
                    assert(m.mds[i * w + j] == c.val());
                    assert(is(p, t@[j as int].val(), u[j as int]));
                    assert(is(p, fmul(p, c.val(), t@[j as int].val()), c.val() * u[j as int]));
                }
                j += 1;
            }
            out.push(acc);
            i += 1;
        }
        proof {
            assert(vals(out@) =~= round(p, m, r as int, vals(s@)));
        }
        out
    }

    /// The permutation.
    fn permute(&self, s: Vec<F>) -> (out: Vec<F>)
        requires
            self.wf(),
            s@.len() == self@.width,
        ensures
            vals(out@) == permute(F::modulus(), self@, vals(s@)),
            out@.len() == self@.width,
    {
        let n = self.half_full + self.half_full + self.partial;
        let ghost s0 = vals(s@);
        let mut s = s;
        let mut r: usize = 0;
        while r < n
            invariant
                r <= n,
                n == self@.rounds(),
                self.wf(),
                s@.len() == self@.width,
                vals(s@) == rounds(F::modulus(), self@, r as int, s0),
            decreases n - r,
        {
            s = self.round(r, &s);
            r += 1;
            assert(vals(s@).len() == s@.len());
        }
        s
    }

    /// The hash of a sequence of field elements.
    pub fn hash(&self, xs: &Vec<F>) -> (out: F)
        requires
            self.wf(),
        ensures
            out.val() == poseidon(F::modulus(), self@, vals(xs@)),
    {
        let ghost p = F::modulus();
        let n = xs.len();
        let mut s: Vec<F> = Vec::new();
        s.push(F::from_u64(n as u64));
        proof {
            F::lemma_modulus();
            vstd::arithmetic::div_mod::lemma_small_mod(n as nat, p as nat);
        }
        while s.len() < self.width
            invariant
                1 <= s@.len() <= self.width,
                n as int % p == n as int,
                forall|k: int| 0 <= k < s@.len() ==> #[trigger] s@[k].val() == (if k == 0 {
                    n as int
                } else {
                    0
                }),
            decreases self.width - s@.len(),
        {
            s.push(F::zero());
        }
        let ghost all = vals(xs@);
        let mut i: usize = 0;
        proof {
            assert(all.take(0).len() == 0);
            assert(vals(s@) =~= absorbed(p, self@, n as int, all.take(0)));
        }
        while i < n
            invariant
                i <= n,
                n == xs@.len(),
                self.wf(),
                p == F::modulus(),
                all == vals(xs@),
                s@.len() == self@.width,
                vals(s@) == absorbed(p, self@, n as int, all.take(i as int)),
            decreases n - i,
        {
            let ghost before = vals(s@);
            let x = s[1].add(xs[i]);
            s.set(1, x);
            proof {
                assert(vals(s@) =~= before.update(1, fadd(p, before[1], all[i as int])));
                assert(all.take(i + 1).drop_last() =~= all.take(i as int));
                assert(all.take(i + 1).last() == all[i as int]);
            }
            s = self.permute(s);
            i += 1;
        }
        proof {
            assert(all.take(n as int) =~= all);
            assert(vals(s@)[1] == s@[1].val());
        }
        s[1]
    }
}

/// The value of a prefix of binary digits is the remainder modulo the matching power of two.
pub proof fn lemma_bits_prefix(bits: Seq<bool>, n: int)
    requires
        0 <= n <= bits.len(),
    ensures
        bits_value(bits.take(n)) == bits_value(bits) % power(2, n as nat),
        0 <= bits_value(bits.take(n)) < power(2, n as nat),
    decreases bits.len(),
{
    lemma_power_two_pos(n as nat);
    if n == bits.len() {
        lemma_bits_bound(bits);
        assert(bits.take(n) =~= bits);
        vstd::arithmetic::div_mod::lemma_small_mod(
            bits_value(bits) as nat,
            power(2, n as nat) as nat,
        );
    } else {
        let b = bits.drop_last();
        lemma_bits_prefix(b, n);
        assert(b.take(n) =~= bits.take(n));
        if bits.last() {
            let m = power(2, n as nat);
            let k = (bits.len() - 1 - n) as nat;
            lemma_power_add(2, n as nat, k);
            assert((n as nat) + k == (bits.len() - 1) as nat);
            vstd::arithmetic::div_mod::lemma_mod_multiples_vanish(power(2, k), bits_value(b), m);
        }
    }
}

/// Binary digits are worth less than the next power of two.
pub proof fn lemma_bits_bound(bits: Seq<bool>)
    ensures
        0 <= bits_value(bits) < power(2, bits.len()),
    decreases bits.len(),
{
    if bits.len() > 0 {
        lemma_bits_bound(bits.drop_last());
        lemma_power_two_pos((bits.len() - 1) as nat);
    }
}

/// The random oracle: what it has absorbed since the last challenge, that challenge first.
pub struct PoseidonRO<F> {
    constants: PoseidonConstants<F>,
    state: Vec<F>,
}

impl<F: Field> PoseidonRO<F> {
    /// The parameters of the sponge.
    pub closed spec fn params(self) -> PoseidonModel {
        self.constants@
    }

    /// The elements absorbed since the last challenge.
    pub closed spec fn view(self) -> Seq<int> {
        vals(self.state@)
    }

    /// The oracle is usable.
    pub closed spec fn wf(self) -> bool {
        self.constants.wf()
    }

    /// A fresh oracle.
    pub fn new(constants: PoseidonConstants<F>) -> (r: Self)
        requires
            constants.wf(),
        ensures
            r.wf(),
            r.params() == constants@,
            r@ == Seq::<int>::empty(),
    {
        let state: Vec<F> = Vec::new();
        assert(vals(state@) =~= Seq::<int>::empty());
        PoseidonRO { constants, state }
    }

    /// Absorbs a field element.
    pub fn absorb(&mut self, e: F)
        ensures
            final(self)@ == old(self)@.push(e.val()),
            final(self).params() == old(self).params(),
            final(self).wf() == old(self).wf(),
    {
        self.state.push(e);
        assert(vals(self.state@) =~= vals(old(self).state@).push(e.val()));
    }

    /// Squeezes a challenge: the low bits of the hash of what was absorbed. The hash is all that
    /// the oracle remembers.
    pub fn squeeze(&mut self, num_bits: usize) -> (r: F)
        requires
            old(self).wf(),
            num_bits <= 256,
        ensures
            r.val() == challenge(
                F::modulus(),
                old(self).params(),
                old(self)@,
                num_bits as nat,
            ),
            final(self)@ == seq![poseidon(F::modulus(), old(self).params(), old(self)@)],
            final(self).params() == old(self).params(),
            final(self).wf(),
    {
        let ghost p = F::modulus();
        let h = self.constants.hash(&self.state);
        let mut fresh: Vec<F> = Vec::new();
        fresh.push(h);
        self.state = fresh;
        assert(vals(self.state@) =~= seq![h.val()]);
        let bits = h.to_le_bits();
        let mut acc = F::zero();
        let mut coeff = F::one();
        let mut i: usize = 0;
        proof {
            lemma_seed_const::<F>(0);
            lemma_seed_const::<F>(1);
            assert(bits_value(bits@.take(0)) == 0);
        }
        while i < num_bits
            invariant
                i <= num_bits <= 256,
                bits@.len() == 256,
                p == F::modulus(),
                p > 0,
                is(p, acc.val(), bits_value(bits@.take(i as int))),
                is(p, coeff.val(), power(2, i as nat)),
            decreases num_bits - i,
        {
            broadcast use group_is;

            assert(bits@.take(i + 1).drop_last() =~= bits@.take(i as int));
            if bits[i] {
                acc = acc.add(coeff);
            }
            coeff = coeff.add(coeff);
            i += 1;
        }
        proof {
            lemma_bits_prefix(bits@, num_bits as int);
            lemma_power_two_pos(num_bits as nat);
            h.lemma_val();
            let m = power(2, num_bits as nat);
            assert(h.val() % m <= h.val()) by {
                vstd::arithmetic::div_mod::lemma_mod_decreases(h.val() as nat, m as nat);
            }
            vstd::arithmetic::div_mod::lemma_small_mod((h.val() % m) as nat, p as nat);
        }
        acc
    }
}

} // verus!
