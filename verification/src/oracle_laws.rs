//! What holds of the random oracle, outside and inside a circuit.
use vstd::prelude::*;
use crate::arith::{fadd, lemma_cong_add, lemma_mod, lemma_sum_ext, power, sum};
use crate::bn254::lemma_power_two_pos;
use crate::field::{vals, Field};
use crate::frontend::{new_hold, ConstraintSystem};
use crate::gadgets::at_all;
use crate::num::AllocatedNum;
use crate::ro::{
    absorbed, permute, poseidon, round, rounds, sub_layer, PoseidonConstants, PoseidonModel,
    PoseidonRO,
};
use crate::ro_circuit::{lemma_poseidon_cong, PoseidonROCircuit};
use crate::transcript::absorb_vec;

verus! {

/// What a round mixes in place `l`: the state with the constant of the round and the place, raised
/// to the fifth power in the first place, and in every place of the rounds before and after the
/// partial ones.
pub open spec fn boxed(m: PoseidonModel, r: int, s: Seq<int>, l: int) -> int {
    let v = s[l] + m.ark[r * m.width + l];
    if l == 0 || r < m.half_full || m.half_full + m.partial <= r {
        v * v * v * v * v
    } else {
        v
    }
}

/// The state `t` comes out of the state `s` in round `r`: each place is a row of the mixing matrix
/// times what is mixed.
pub open spec fn steps(p: int, m: PoseidonModel, r: int, s: Seq<int>, t: Seq<int>) -> bool {
    &&& t.len() == m.width
    &&& forall|j: int|
        0 <= j < m.width ==> #[trigger] t[j] == sum(
            |l: int| m.mds[j * m.width + l] * boxed(m, r, s, l),
            0,
            m.width,
        ) % p
}

/// The states `t` lead from the first to the last through all rounds of the permutation.
pub open spec fn permutes(p: int, m: PoseidonModel, t: Seq<Seq<int>>) -> bool {
    &&& t.len() == 2 * m.half_full + m.partial + 1
    &&& forall|r: int|
        0 <= r < 2 * m.half_full + m.partial ==> #[trigger] steps(p, m, r, t[r], t[r + 1])
}

/// The states of a sponge that absorbs `xs`: it starts with the number of elements in the first
/// place and zeros elsewhere. Each element is added to the second place, and the state is permuted,
/// along the states of `t`.
pub open spec fn absorbs(
    p: int,
    m: PoseidonModel,
    xs: Seq<int>,
    s: Seq<Seq<int>>,
    t: Seq<Seq<Seq<int>>>,
) -> bool {
    &&& s.len() == xs.len() + 1
    &&& t.len() == xs.len()
    &&& s[0].len() == m.width
    &&& s[0][0] == xs.len() as int % p
    &&& forall|j: int| 1 <= j < m.width ==> #[trigger] s[0][j] == 0
    &&& forall|i: int|
        0 <= i < xs.len() ==> {
            &&& permutes(p, m, #[trigger] t[i])
            &&& t[i][0] == s[i].update(1, (s[i][1] + xs[i]) % p)
            &&& s[i + 1] == t[i].last()
        }
}

/// The fifth power is five factors.
proof fn lemma_fifth_power(v: int)
    ensures
        power(v, 5) == v * v * v * v * v,
{
    reveal_with_fuel(power, 6);
    assert(((((1 * v) * v) * v) * v) * v == v * v * v * v * v) by (nonlinear_arith);
}

/// A step is the round that the contracts speak of.
proof fn lemma_steps(p: int, m: PoseidonModel, r: int, s: Seq<int>, t: Seq<int>)
    requires
        m.width >= 0,
        steps(p, m, r, s, t),
    ensures
        t == round(p, m, r, s),
{
    let u = sub_layer(m, r, s);
    let w = round(p, m, r, s);
    assert forall|j: int| 0 <= j < m.width implies t[j] == w[j] by {
        let f = |l: int| m.mds[j * m.width + l] * boxed(m, r, s, l);
        let g = |l: int| m.mds[j * m.width + l] * u[l];
        assert forall|l: int| 0 <= l < m.width implies #[trigger] f(l) == g(l) by {
            lemma_fifth_power(s[l] + m.ark[r * m.width + l]);
        }
        lemma_sum_ext(f, g, 0, m.width);
        assert(t[j] == sum(f, 0, m.width) % p);
    }
    assert(t =~= w);
}

/// States that permute are those that the contracts speak of.
proof fn lemma_permutes(p: int, m: PoseidonModel, t: Seq<Seq<int>>, n: int)
    requires
        m.width >= 0,
        m.half_full >= 0,
        m.partial >= 0,
        permutes(p, m, t),
        0 <= n < t.len(),
    ensures
        t[n] == rounds(p, m, n, t[0]),
    decreases n,
{
    if n > 0 {
        lemma_permutes(p, m, t, n - 1);
        assert(steps(p, m, n - 1, t[n - 1], t[n - 1 + 1]));
        lemma_steps(p, m, n - 1, t[n - 1], t[n]);
    }
}

/// The states of a sponge are those that the contracts speak of.
proof fn lemma_absorbs(
    p: int,
    m: PoseidonModel,
    xs: Seq<int>,
    s: Seq<Seq<int>>,
    t: Seq<Seq<Seq<int>>>,
    n: int,
)
    requires
        m.wf(),
        absorbs(p, m, xs, s, t),
        0 <= n <= xs.len(),
    ensures
        s[n] == absorbed(p, m, xs.len() as int, xs.take(n)),
    decreases n,
{
    if n == 0 {
        assert(xs.take(0).len() == 0);
        assert(s[0] =~= absorbed(p, m, xs.len() as int, xs.take(0)));
    } else {
        lemma_absorbs(p, m, xs, s, t, n - 1);
        assert(xs.take(n).drop_last() =~= xs.take(n - 1));
        assert(xs.take(n).last() == xs[n - 1]);
        let u = t[n - 1];
        assert(permutes(p, m, u));
        lemma_permutes(p, m, u, u.len() - 1);
        assert(s[n - 1 + 1] == u.last());
    }
}

/// The hash is the second place of the last state of a sponge that absorbs all elements in order.
pub proof fn law_hash_is_a_sponge<F: Field>(
    k: &PoseidonConstants<F>,
    xs: &Vec<F>,
    h: F,
    s: Seq<Seq<int>>,
    t: Seq<Seq<Seq<int>>>,
)
    requires
        call_ensures(PoseidonConstants::<F>::hash, (k, xs), h),
        k@.wf(),
        absorbs(F::modulus(), k@, vals(xs@), s, t),
    ensures
        h.val() == s.last()[1],
{
    let v = vals(xs@);
    lemma_absorbs(F::modulus(), k@, v, s, t, v.len() as int);
    assert(v.take(v.len() as int) =~= v);
}

/// What a sponge without rounds has absorbed.
proof fn lemma_without_rounds(p: int, m: PoseidonModel, n: int, xs: Seq<int>)
    requires
        p > 0,
        m.wf(),
        m.rounds() == 0,
    ensures
        absorbed(p, m, n, xs).len() == m.width,
        absorbed(p, m, n, xs)[1] == sum(|i: int| xs[i], 0, xs.len() as int) % p,
    decreases xs.len(),
{
    let k = xs.len() as int;
    if k > 0 {
        let ys = xs.drop_last();
        lemma_without_rounds(p, m, n, ys);
        let f = |i: int| xs[i];
        let g = |i: int| ys[i];
        lemma_sum_ext(f, g, 0, k - 1);
        let (a, x) = (sum(f, 0, k - 1), xs.last());
        lemma_mod(p, a);
        lemma_cong_add(p, a % p, x, a, x);
        let s = absorbed(p, m, n, ys);
        assert(permute(p, m, s.update(1, fadd(p, s[1], x)))[1] == fadd(p, s[1], x));
    } else {
        vstd::arithmetic::div_mod::lemma_small_mod(0, p as nat);
    }
}

/// A sponge without rounds adds up what it absorbs: every element counts.
pub proof fn law_sponge_without_rounds_adds_up<F: Field>(
    k: &PoseidonConstants<F>,
    xs: &Vec<F>,
    h: F,
)
    requires
        call_ensures(PoseidonConstants::<F>::hash, (k, xs), h),
        k@.wf(),
        k@.half_full == 0,
        k@.partial == 0,
    ensures
        h.val() == sum(|i: int| vals(xs@)[i], 0, xs@.len() as int) % F::modulus(),
{
    F::lemma_modulus();
    lemma_without_rounds(F::modulus(), k@, xs@.len() as int, vals(xs@));
}

/// A challenge is the low bits of the hash of what was absorbed, and the oracle remembers the hash
/// alone.
pub proof fn law_challenge_is_the_low_bits_of_the_hash<F: Field>(
    ro: &mut PoseidonRO<F>,
    bits: usize,
    c: F,
    k: &PoseidonConstants<F>,
    xs: &Vec<F>,
    h: F,
)
    requires
        call_ensures(PoseidonRO::<F>::squeeze, (ro, bits), c),
        call_ensures(PoseidonConstants::<F>::hash, (k, xs), h),
        old(ro).params() == k@,
        old(ro)@ == vals(xs@),
    ensures
        0 <= c.val() < power(2, bits as nat),
        (h.val() - c.val()) % power(2, bits as nat) == 0,
        final(ro)@.len() == 1,
        final(ro)@[0] == h.val(),
        final(ro).params() == old(ro).params(),
{
    let m = power(2, bits as nat);
    lemma_power_two_pos(bits as nat);
    lemma_mod(m, h.val());
    vstd::arithmetic::div_mod::lemma_fundamental_div_mod(h.val(), m);
    vstd::arithmetic::div_mod::lemma_mod_multiples_basic(h.val() / m, m);
    assert(m * (h.val() / m) == (h.val() / m) * m) by (nonlinear_arith);
}

/// An oracle starts empty, and what is absorbed goes behind what is there, in order.
pub proof fn law_oracle_remembers_in_order<F: Field>(
    k: PoseidonConstants<F>,
    fresh: PoseidonRO<F>,
    ro: &mut PoseidonRO<F>,
    x: F,
    other: &mut PoseidonRO<F>,
    v: &Vec<F>,
)
    requires
        call_ensures(PoseidonRO::<F>::new, (k,), fresh),
        call_ensures(PoseidonRO::<F>::absorb, (ro, x), ()),
        call_ensures(absorb_vec::<F>, (v, other), ()),
    ensures
        fresh@.len() == 0,
        fresh.params() == k@,
        final(ro)@.len() == old(ro)@.len() + 1,
        forall|i: int| 0 <= i < old(ro)@.len() ==> #[trigger] final(ro)@[i] == old(ro)@[i],
        final(ro)@.last() == x.val(),
        final(other)@.len() == old(other)@.len() + v@.len(),
        forall|i: int|
            0 <= i < old(other)@.len() ==> #[trigger] final(other)@[i] == old(other)@[i],
        forall|i: int|
            0 <= i < v@.len() ==> final(other)@[old(other)@.len() + i] == (#[trigger] v@[i]).val(),
{
    assert forall|i: int| 0 <= i < v@.len() implies final(other)@[old(other)@.len() + i] == (
    #[trigger] v@[i]).val() by {
        assert(vals(v@)[i] == v@[i].val());
    }
}

/// An oracle inside a circuit draws what the one outside draws, if it has absorbed variables with
/// the same values, under every assignment that satisfies its constraints. What it remembers has
/// the same value as well.
pub proof fn law_oracle_in_a_circuit_agrees<F: Field>(
    inside: &mut PoseidonROCircuit<F>,
    cs: &mut ConstraintSystem<F>,
    outside: &mut PoseidonRO<F>,
    bits: usize,
    n: AllocatedNum<F>,
    c: F,
    a: Seq<int>,
)
    requires
        call_ensures(PoseidonROCircuit::<F>::squeeze_num, (inside, cs, bits), n),
        call_ensures(PoseidonRO::<F>::squeeze, (outside, bits), c),
        old(inside).params() == old(outside).params(),
        old(inside)@.len() == old(outside)@.len(),
        forall|i: int|
            0 <= i < old(inside)@.len() ==> (#[trigger] old(inside)@[i]).at(a) % F::modulus()
                == old(outside)@[i] % F::modulus(),
        new_hold(F::modulus(), old(cs)@, final(cs)@, a),
    ensures
        n.at(a) % F::modulus() == c.val(),
        final(inside)@.len() == 1,
        final(inside)@[0].at(a) % F::modulus() == final(outside)@[0],
{
    let p = F::modulus();
    F::lemma_modulus();
    let xs = at_all(old(inside)@, a);
    assert forall|i: int| 0 <= i < xs.len() implies #[trigger] xs[i] % p == old(outside)@[i]
        % p by {
        assert(xs[i] == old(inside)@[i].at(a));
    }
    lemma_poseidon_cong(p, old(inside).params(), xs, old(outside)@);
    assert(final(outside)@ == seq![poseidon(p, old(outside).params(), old(outside)@)]);
}

/// An oracle inside a circuit starts empty, and what is absorbed goes behind what is there, in
/// order.
pub proof fn law_oracle_in_a_circuit_remembers_in_order<F: Field>(
    k: PoseidonConstants<F>,
    fresh: PoseidonROCircuit<F>,
    ro: &mut PoseidonROCircuit<F>,
    x: &AllocatedNum<F>,
    other: &mut PoseidonROCircuit<F>,
    v: &Vec<AllocatedNum<F>>,
)
    requires
        call_ensures(PoseidonROCircuit::<F>::new, (k,), fresh),
        call_ensures(PoseidonROCircuit::<F>::absorb, (ro, x), ()),
        call_ensures(PoseidonROCircuit::<F>::absorb_all, (other, v), ()),
    ensures
        fresh@.len() == 0,
        final(ro)@.len() == old(ro)@.len() + 1,
        forall|i: int| 0 <= i < old(ro)@.len() ==> #[trigger] final(ro)@[i] == old(ro)@[i],
        final(ro)@.last() == *x,
        final(other)@.len() == old(other)@.len() + v@.len(),
        forall|i: int|
            0 <= i < old(other)@.len() ==> #[trigger] final(other)@[i] == old(other)@[i],
        forall|i: int|
            0 <= i < v@.len() ==> final(other)@[old(other)@.len() + i] == #[trigger] v@[i],
{
}

} // verus!
