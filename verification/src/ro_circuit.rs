//! The random oracle inside a circuit.
use vstd::prelude::*;
use crate::arith::{
    cong_seq, fadd, lemma_cong_add, lemma_cong_mul, lemma_cong_power, lemma_mod, lemma_sum_cong,
    power, sum,
};
use crate::bn254::lemma_power_two_pos;
use crate::field::{bits_value, lemma_seed, Field};
use crate::frontend::{agrees, lemma_chain, new_hold, ConstraintSystem, CsModel};
use crate::gadgets::{
    all_binary, all_wf, alloc_constant, at_all, bits_rows, bits_vars, digits, le_bits_to_num,
    lemma_all_grow, lemma_slots, sit_from, slots, to_bits_le_strict, weighted,
};
use crate::num::{assign, complete, product, AllocatedNum, Lin};
use crate::ro::{
    absorbed, challenge, lemma_bits_prefix, mix_row, permute, poseidon, round, rounds, sbox,
    sub_layer, PoseidonConstants, PoseidonModel,
};
use crate::weight_table::mod_seq;

verus! {

/// Two extensions that the witness satisfies make one that it satisfies.
pub proof fn lemma_complete_chain(p: int, s: CsModel, m: CsModel, t: CsModel)
    requires
        s.extended_by(m),
        m.extended_by(t),
        complete(p, s, m),
        complete(p, m, t),
    ensures
        complete(p, s, t),
{
    lemma_chain(p, s, m, t);
    assert forall|a: Seq<int>| #[trigger] agrees(a, t) implies new_hold(p, s, t, a) by {
        assert(agrees(a, m));
        assert(new_hold(p, s, m, a) && new_hold(p, m, t, a));
    }
}

/// The constraints of an S-box on `y` whose variables sit from variable `n` on.
pub open spec fn sbox_rows(p: int, n: int, y: int, a: Seq<int>) -> bool {
    &&& a[n] % p == (y * y) % p
    &&& a[n + 1] % p == (a[n] * a[n]) % p
    &&& a[n + 2] % p == (a[n + 1] * y) % p
}

/// Element `i` of the state has an S-box in round `r`.
pub open spec fn has_sbox(m: PoseidonModel, r: int, i: int) -> bool {
    i == 0 || r < m.half_full || r >= m.half_full + m.partial
}

/// The number of private variables that round `r` has for the first `i` elements of the state
/// before it mixes them.
pub open spec fn lanes_vars(m: PoseidonModel, r: int, i: int) -> int
    decreases i,
{
    if i <= 0 {
        0
    } else {
        lanes_vars(m, r, i - 1) + if has_sbox(m, r, i - 1) {
            3int
        } else {
            1
        }
    }
}

/// The constraints on element `i` of the state in round `r` before it is mixed.
pub open spec fn lane_row(
    p: int,
    m: PoseidonModel,
    r: int,
    n: int,
    s: Seq<int>,
    a: Seq<int>,
    i: int,
) -> bool {
    let y = s[i] + m.ark[r * m.width + i];
    let k = n + lanes_vars(m, r, i);
    if has_sbox(m, r, i) {
        sbox_rows(p, k, y, a)
    } else {
        a[k] % p == y % p
    }
}

/// The state in round `r` before it is mixed.
pub open spec fn lanes_at(m: PoseidonModel, r: int, n: int, a: Seq<int>) -> Seq<int> {
    Seq::new(m.width as nat, |i: int| a[n + lanes_vars(m, r, i + 1) - 1])
}

/// The constraint on element `i` of the state that round `r` mixes.
pub open spec fn mixed_row(p: int, m: PoseidonModel, r: int, n: int, a: Seq<int>, i: int) -> bool {
    a[n + lanes_vars(m, r, m.width) + i] % p == mix_row(m, lanes_at(m, r, n, a), i) % p
}

/// The number of private variables of round `r`.
pub open spec fn round_vars(m: PoseidonModel, r: int) -> int {
    lanes_vars(m, r, m.width) + m.width
}

/// The constraints of round `r` on the state `s`.
pub open spec fn round_rows(
    p: int,
    m: PoseidonModel,
    r: int,
    n: int,
    s: Seq<int>,
    a: Seq<int>,
) -> bool {
    &&& forall|i: int| 0 <= i < m.width ==> #[trigger] lane_row(p, m, r, n, s, a, i)
    &&& forall|i: int| 0 <= i < m.width ==> #[trigger] mixed_row(p, m, r, n, a, i)
}

/// The number of private variables of the first `k` rounds.
pub open spec fn rounds_vars(m: PoseidonModel, k: int) -> int
    decreases k,
{
    if k <= 0 {
        0
    } else {
        rounds_vars(m, k - 1) + round_vars(m, k - 1)
    }
}

/// The state after `k` rounds.
pub open spec fn state_at(m: PoseidonModel, n: int, k: int, s: Seq<int>, a: Seq<int>) -> Seq<int> {
    if k <= 0 {
        s
    } else {
        slots(a, n + rounds_vars(m, k) - m.width, m.width as nat)
    }
}

/// The constraints of the first `k` rounds on the state `s`.
pub open spec fn rounds_rows(
    p: int,
    m: PoseidonModel,
    k: int,
    n: int,
    s: Seq<int>,
    a: Seq<int>,
) -> bool
    decreases k,
{
    k <= 0 || {
        &&& rounds_rows(p, m, k - 1, n, s, a)
        &&& round_rows(
            p,
            m,
            k - 1,
            n + rounds_vars(m, k - 1),
            state_at(m, n, k - 1, s, a),
            a,
        )
    }
}

/// The number of private variables of a hash after `i` elements.
pub open spec fn hash_vars(m: PoseidonModel, i: int) -> int
    decreases i,
{
    if i <= 0 {
        m.width
    } else {
        hash_vars(m, i - 1) + 1 + rounds_vars(m, m.rounds())
    }
}

/// The state of the sponge after `i` elements.
pub open spec fn sponge_at(m: PoseidonModel, n: int, i: int, a: Seq<int>) -> Seq<int>
    decreases i,
{
    if i <= 0 {
        slots(a, n, m.width as nat)
    } else {
        let q = n + hash_vars(m, i - 1);
        let s = sponge_at(m, n, i - 1, a).update(1, a[q]);
        state_at(m, q + 1, m.rounds(), s, a)
    }
}

/// The constraints on the first `k` elements of the state that a hash of `len` elements starts from.
pub open spec fn start_rows(p: int, n: int, len: int, a: Seq<int>, k: int) -> bool {
    forall|j: int|
        0 <= j < k ==> #[trigger] a[n + j] % p == (if j == 0 {
            len
        } else {
            0
        })
}

/// The constraints of a hash up to its first `i` elements.
pub open spec fn hash_rows(
    p: int,
    m: PoseidonModel,
    n: int,
    xs: Seq<int>,
    a: Seq<int>,
    i: int,
) -> bool
    decreases i,
{
    if i <= 0 {
        start_rows(p, n, xs.len() as int, a, m.width)
    } else {
        let q = n + hash_vars(m, i - 1);
        let s = sponge_at(m, n, i - 1, a);
        &&& hash_rows(p, m, n, xs, a, i - 1)
        &&& a[q] % p == (s[1] + xs[i - 1]) % p
        &&& rounds_rows(p, m, m.rounds(), q + 1, s.update(1, a[q]), a)
    }
}

/// The number of private variables of a challenge drawn after `len` elements: those of the hash, of
/// its binary expansion, and the challenge.
pub open spec fn challenge_vars(m: PoseidonModel, len: int) -> int {
    hash_vars(m, len) + bits_vars() + 1
}

/// The hash that a challenge is drawn from.
pub open spec fn hash_at(m: PoseidonModel, n: int, len: int, a: Seq<int>) -> int {
    sponge_at(m, n, len, a)[1]
}

/// The constraints of the binary digits of a hash.
pub open spec fn squeeze_rows(
    p: int,
    m: PoseidonModel,
    n: int,
    xs: Seq<int>,
    a: Seq<int>,
) -> bool {
    let len = xs.len() as int;
    &&& hash_rows(p, m, n, xs, a, len)
    &&& bits_rows(p, n + hash_vars(m, len), hash_at(m, n, len, a), a)
}

/// The constraints of a challenge of the given number of bits.
pub open spec fn challenge_rows(
    p: int,
    m: PoseidonModel,
    n: int,
    xs: Seq<int>,
    num_bits: nat,
    a: Seq<int>,
) -> bool {
    let k = n + hash_vars(m, xs.len() as int);
    &&& squeeze_rows(p, m, n, xs, a)
    &&& a[k + bits_vars()] % p == weighted(slots(a, k, num_bits), num_bits as int) % p
}

/// Congruent elements have the same constraints for an S-box.
proof fn lemma_sbox_rows_cong(p: int, n: int, y: int, z: int, a: Seq<int>)
    requires
        p > 0,
        y % p == z % p,
    ensures
        sbox_rows(p, n, y, a) == sbox_rows(p, n, z, a),
{
    lemma_cong_mul(p, y, y, z, z);
    lemma_cong_mul(p, a[n + 1], y, a[n + 1], z);
}

/// The S-box.
fn sbox_circuit<F: Field>(cs: &mut ConstraintSystem<F>, y: &Lin<F>) -> (r: AllocatedNum<F>)
    requires
        old(cs)@.wf(),
        y.wf(old(cs)@),
    ensures
        old(cs)@.extended_by(final(cs)@),
        final(cs)@.aux.len() == old(cs)@.aux.len() + 3,
        r.sits((old(cs)@.aux.len() + 2) as int),
        forall|a: Seq<int>| #[trigger]
            new_hold(F::modulus(), old(cs)@, final(cs)@, a) <==> sbox_rows(
                F::modulus(),
                old(cs)@.aux.len() as int,
                y.at(a),
                a,
            ),
        r.wf(final(cs)@),
        forall|a: Seq<int>| #[trigger]
            new_hold(F::modulus(), old(cs)@, final(cs)@, a) ==> r.at(a) % F::modulus() == sbox(
                y.at(a),
            ) % F::modulus(),
        complete(F::modulus(), old(cs)@, final(cs)@),
{
    let ghost p = F::modulus();
    let ghost s0 = cs@;
    let y2 = product(cs, y, y);
    let ghost s1 = cs@;
    let l2 = Lin::var(cs, &y2);
    let y4 = product(cs, &l2, &l2);
    let ghost s2 = cs@;
    let l4 = Lin::var(cs, &y4);
    proof {
        lemma_chain(p, s0, s1, s2);
        y.lemma_grow(s0, s2);
    }
    let r = product(cs, &l4, y);
    proof {
        F::lemma_modulus();
        lemma_complete_chain(p, s0, s1, s2);
        lemma_complete_chain(p, s0, s2, cs@);
        lemma_chain(p, s0, s2, cs@);
        assert forall|a: Seq<int>| #[trigger] new_hold(p, s0, cs@, a) <==> sbox_rows(
            p,
            s0.aux.len() as int,
            y.at(a),
            a,
        ) by {
            lemma_cong_mul(p, l2.at(a), l2.at(a), y2.at(a), y2.at(a));
            lemma_cong_mul(p, l4.at(a), y.at(a), y4.at(a), y.at(a));
            assert(new_hold(p, s0, cs@, a) <==> new_hold(p, s0, s2, a) && new_hold(p, s2, cs@, a));
            assert(new_hold(p, s0, s2, a) <==> new_hold(p, s0, s1, a) && new_hold(p, s1, s2, a));
        }
        assert forall|a: Seq<int>| #[trigger] new_hold(p, s0, cs@, a) implies r.at(a) % p == sbox(
            y.at(a),
        ) % p by {
            assert(new_hold(p, s0, s2, a) && new_hold(p, s2, cs@, a));
            assert(new_hold(p, s0, s1, a) && new_hold(p, s1, s2, a));
            let e = y.at(a);
            lemma_cong_mul(p, l2.at(a), l2.at(a), e * e, e * e);
            lemma_cong_mul(p, l4.at(a), e, (e * e) * (e * e), e);
            reveal_with_fuel(power, 6);
            assert(((e * e) * (e * e)) * e == ((((1 * e) * e) * e) * e) * e) by (nonlinear_arith);
        }
    }
    r
}

/// The constants of a round, and its S-boxes.
fn sub_layer_circuit<F: Field>(
    cs: &mut ConstraintSystem<F>,
    k: &PoseidonConstants<F>,
    r: usize,
    s: &Vec<AllocatedNum<F>>,
) -> (t: Vec<AllocatedNum<F>>)
    requires
        old(cs)@.wf(),
        k.wf(),
        r < k@.rounds(),
        s@.len() == k@.width,
        all_wf(s@, old(cs)@),
    ensures
        old(cs)@.extended_by(final(cs)@),
        t@.len() == k@.width,
        final(cs)@.aux.len() == old(cs)@.aux.len() + lanes_vars(k@, r as int, k@.width),
        forall|a: Seq<int>| #[trigger]
            at_all(t@, a) == lanes_at(k@, r as int, old(cs)@.aux.len() as int, a),
        forall|a: Seq<int>| #[trigger]
            new_hold(F::modulus(), old(cs)@, final(cs)@, a) <==> (forall|i: int|
                0 <= i < k@.width ==> #[trigger] lane_row(
                    F::modulus(),
                    k@,
                    r as int,
                    old(cs)@.aux.len() as int,
                    at_all(s@, a),
                    a,
                    i,
                )),
        all_wf(t@, final(cs)@),
        forall|a: Seq<int>| #[trigger]
            new_hold(F::modulus(), old(cs)@, final(cs)@, a) ==> mod_seq(
                F::modulus(),
                at_all(t@, a),
            ) == mod_seq(
                F::modulus(),
                sub_layer(k@, r as int, mod_seq(F::modulus(), at_all(s@, a))),
            ),
        complete(F::modulus(), old(cs)@, final(cs)@),
{
    let ghost p = F::modulus();
    let ghost s0 = cs@;
    let ghost m = k@;
    let w = k.width();
    let mut t: Vec<AllocatedNum<F>> = Vec::new();
    let mut i: usize = 0;
    proof {
        F::lemma_modulus();
    }
    while i < w
        invariant
            i <= w,
            w == m.width,
            m == k@,
            k.wf(),
            r < m.rounds(),
            s@.len() == w,
            p == F::modulus(),
            p > 1,
            cs@.wf(),
            s0.extended_by(cs@),
            complete(p, s0, cs@),
            all_wf(s@, cs@),
            all_wf(t@, cs@),
            t@.len() == i,
            cs@.aux.len() == s0.aux.len() + lanes_vars(m, r as int, i as int),
            forall|j: int|
                0 <= j < i ==> (#[trigger] t@[j]).sits(
                    s0.aux.len() + lanes_vars(m, r as int, j + 1) - 1,
                ),
            forall|a: Seq<int>| #[trigger]
                new_hold(p, s0, cs@, a) <==> (forall|j: int|
                    0 <= j < i ==> #[trigger] lane_row(
                        p,
                        m,
                        r as int,
                        s0.aux.len() as int,
                        at_all(s@, a),
                        a,
                        j,
                    )),
            forall|a: Seq<int>, j: int|
                #![trigger new_hold(p, s0, cs@, a), t@[j]]
                new_hold(p, s0, cs@, a) && 0 <= j < i ==> t@[j].at(a) % p == sub_layer(
                    m,
                    r as int,
                    mod_seq(p, at_all(s@, a)),
                )[j] % p,
        decreases w - i,
    {
        let ghost s1 = cs@;
        let ghost before = t@;
        let c = k.round_constant(r, i);
        let constant = Lin::constant(cs, c);
        let y = constant.plus(Ghost(cs@), &s[i]);
        proof {
            lemma_seed(c);
            assert forall|a: Seq<int>| #[trigger] y.at(a) % p == (at_all(s@, a)[i as int] % p
                + m.ark[r * m.width + i]) % p by {
                let v = s@[i as int].at(a);
                lemma_cong_add(p, constant.at(a), v, c.val(), v);
                lemma_add_residue(p, v, c.val());
            }
        }
        let n = if k.has_sbox(r, i) {
            sbox_circuit(cs, &y)
        } else {
            assign(cs, &y)
        };
        t.push(n);
        proof {
            lemma_chain(p, s0, s1, cs@);
            lemma_complete_chain(p, s0, s1, cs@);
            lemma_all_grow(s@, s1, cs@);
            lemma_all_grow(before, s1, cs@);
            let q = s0.aux.len() as int;
            assert forall|j: int| 0 <= j < i + 1 implies (#[trigger] t@[j]).sits(
                q + lanes_vars(m, r as int, j + 1) - 1,
            ) by {
                if j < i {
                    assert(t@[j] == before[j]);
                }
            }
            assert forall|a: Seq<int>| #[trigger] new_hold(p, s0, cs@, a) <==> (forall|j: int|
                0 <= j < i + 1 ==> #[trigger] lane_row(
                    p,
                    m,
                    r as int,
                    q,
                    at_all(s@, a),
                    a,
                    j,
                )) by {
                let v = at_all(s@, a);
                let e = v[i as int] + m.ark[r * m.width + i];
                lemma_mod(p, v[i as int]);
                lemma_cong_add(
                    p,
                    v[i as int] % p,
                    m.ark[r * m.width + i],
                    v[i as int],
                    m.ark[r * m.width + i],
                );
                assert(y.at(a) % p == e % p);
                lemma_sbox_rows_cong(p, s1.aux.len() as int, y.at(a), e, a);
                assert(new_hold(p, s1, cs@, a) <==> lane_row(p, m, r as int, q, v, a, i as int));
            }
            assert forall|a: Seq<int>, j: int|
                #![trigger new_hold(p, s0, cs@, a), t@[j]]
                new_hold(p, s0, cs@, a) && 0 <= j < i + 1 implies t@[j].at(a) % p == sub_layer(
                m,
                r as int,
                mod_seq(p, at_all(s@, a)),
            )[j] % p by {
                assert(new_hold(p, s0, s1, a) && new_hold(p, s1, cs@, a));
                if j < i {
                    assert(before[j].at(a) % p == t@[j].at(a) % p);
                } else {
                    let e = mod_seq(p, at_all(s@, a))[i as int] + m.ark[r * m.width + i];
                    lemma_cong_power(p, y.at(a), e, 5);
                }
            }
        }
        i += 1;
    }
    proof {
        assert forall|a: Seq<int>| #[trigger] at_all(t@, a) == lanes_at(
            m,
            r as int,
            s0.aux.len() as int,
            a,
        ) by {
            let l = lanes_at(m, r as int, s0.aux.len() as int, a);
            assert forall|j: int| 0 <= j < w implies at_all(t@, a)[j] == l[j] by {
                assert(t@[j].sits(s0.aux.len() + lanes_vars(m, r as int, j + 1) - 1));
            }
            assert(at_all(t@, a) =~= l);
        }
        assert forall|a: Seq<int>| #[trigger] new_hold(p, s0, cs@, a) implies mod_seq(
            p,
            at_all(t@, a),
        ) == mod_seq(p, sub_layer(m, r as int, mod_seq(p, at_all(s@, a)))) by {
            assert forall|j: int| 0 <= j < w implies at_all(t@, a)[j] % p == #[trigger] sub_layer(
                m,
                r as int,
                mod_seq(p, at_all(s@, a)),
            )[j] % p by {
                assert(t@[j].at(a) % p == at_all(t@, a)[j] % p);
            }
            assert(mod_seq(p, at_all(t@, a)) =~= mod_seq(
                p,
                sub_layer(m, r as int, mod_seq(p, at_all(s@, a))),
            ));
        }
    }
    t
}

/// Adding to a value and to its residue comes to the same.
proof fn lemma_add_residue(p: int, s: int, x: int)
    requires
        p > 0,
    ensures
        (s + x) % p == fadd(p, s % p, x),
{
    lemma_mod(p, s);
    lemma_cong_add(p, s, x, s % p, x);
}

/// Mixing congruent vectors gives congruent results.
proof fn lemma_mix_cong(p: int, m: PoseidonModel, t: Seq<int>, u: Seq<int>, i: int)
    requires
        p > 0,
        t.len() == m.width,
        u.len() == m.width,
        mod_seq(p, t) == mod_seq(p, u),
    ensures
        mix_row(m, t, i) % p == mix_row(m, u, i) % p,
{
    let f = |j: int| m.mds[i * m.width + j] * t[j];
    let g = |j: int| m.mds[i * m.width + j] * u[j];
    assert forall|j: int| 0 <= j < m.width implies #[trigger] f(j) % p == g(j) % p by {
        assert(mod_seq(p, t)[j] == t[j] % p);
        assert(mod_seq(p, u)[j] == u[j] % p);
        let c = m.mds[i * m.width + j];
        lemma_cong_mul(p, c, t[j], c, u[j]);
    }
    lemma_sum_cong(p, f, g, 0, m.width);
}

/// One row of the mixing matrix times the state.
fn mix_row_circuit<F: Field>(
    cs: &mut ConstraintSystem<F>,
    k: &PoseidonConstants<F>,
    t: &Vec<AllocatedNum<F>>,
    i: usize,
) -> (r: AllocatedNum<F>)
    requires
        old(cs)@.wf(),
        k.wf(),
        i < k@.width,
        t@.len() == k@.width,
        all_wf(t@, old(cs)@),
    ensures
        old(cs)@.extended_by(final(cs)@),
        final(cs)@.aux.len() == old(cs)@.aux.len() + 1,
        r.sits(old(cs)@.aux.len() as int),
        r.wf(final(cs)@),
        forall|a: Seq<int>| #[trigger]
            new_hold(F::modulus(), old(cs)@, final(cs)@, a) <==> r.at(a) % F::modulus() == mix_row(
                k@,
                at_all(t@, a),
                i as int,
            ) % F::modulus(),
        complete(F::modulus(), old(cs)@, final(cs)@),
{
    let ghost p = F::modulus();
    let ghost m = k@;
    let w = k.width();
    let mut acc = Lin::zero(cs);
    let mut j: usize = 0;
    proof {
        F::lemma_modulus();
    }
    while j < w
        invariant
            j <= w,
            i < w,
            w == m.width,
            m == k@,
            k.wf(),
            t@.len() == w,
            p == F::modulus(),
            p > 1,
            cs@.wf(),
            all_wf(t@, cs@),
            acc.wf(cs@),
            forall|a: Seq<int>| #[trigger]
                acc.at(a) % p == sum(
                    |l: int| m.mds[i * m.width + l] * at_all(t@, a)[l],
                    0,
                    j as int,
                ) % p,
        decreases w - j,
    {
        let ghost before = acc;
        let c = k.mix_entry(i, j);
        acc = acc.plus_multiple(Ghost(cs@), c, &t[j]);
        proof {
            assert forall|a: Seq<int>| #[trigger] acc.at(a) % p == sum(
                |l: int| m.mds[i * m.width + l] * at_all(t@, a)[l],
                0,
                j + 1,
            ) % p by {
                let f = |l: int| m.mds[i * m.width + l] * at_all(t@, a)[l];
                assert(before.at(a) % p == sum(f, 0, j as int) % p);
                assert(f(j as int) == c.val() * t@[j as int].at(a));
                lemma_cong_add(p, before.at(a), f(j as int), sum(f, 0, j as int), f(j as int));
            }
        }
        j += 1;
    }
    assign(cs, &acc)
}

/// One round of the permutation.
fn round_circuit<F: Field>(
    cs: &mut ConstraintSystem<F>,
    k: &PoseidonConstants<F>,
    r: usize,
    s: &Vec<AllocatedNum<F>>,
) -> (out: Vec<AllocatedNum<F>>)
    requires
        old(cs)@.wf(),
        k.wf(),
        r < k@.rounds(),
        s@.len() == k@.width,
        all_wf(s@, old(cs)@),
    ensures
        old(cs)@.extended_by(final(cs)@),
        out@.len() == k@.width,
        final(cs)@.aux.len() == old(cs)@.aux.len() + round_vars(k@, r as int),
        sit_from(out@, final(cs)@.aux.len() - k@.width),
        forall|a: Seq<int>| #[trigger]
            new_hold(F::modulus(), old(cs)@, final(cs)@, a) <==> round_rows(
                F::modulus(),
                k@,
                r as int,
                old(cs)@.aux.len() as int,
                at_all(s@, a),
                a,
            ),
        all_wf(out@, final(cs)@),
        forall|a: Seq<int>| #[trigger]
            new_hold(F::modulus(), old(cs)@, final(cs)@, a) ==> mod_seq(
                F::modulus(),
                at_all(out@, a),
            ) == round(F::modulus(), k@, r as int, mod_seq(F::modulus(), at_all(s@, a))),
        complete(F::modulus(), old(cs)@, final(cs)@),
{
    let ghost p = F::modulus();
    let ghost s0 = cs@;
    let ghost m = k@;
    let w = k.width();
    let t = sub_layer_circuit(cs, k, r, s);
    let ghost mid = cs@;
    let mut out: Vec<AllocatedNum<F>> = Vec::new();
    let mut i: usize = 0;
    proof {
        F::lemma_modulus();
    }
    while i < w
        invariant
            i <= w,
            w == m.width,
            m == k@,
            k.wf(),
            t@.len() == w,
            p == F::modulus(),
            p > 1,
            cs@.wf(),
            s0.extended_by(cs@),
            complete(p, s0, cs@),
            all_wf(t@, cs@),
            all_wf(out@, cs@),
            out@.len() == i,
            s0.extended_by(mid),
            mid.extended_by(cs@),
            mid.aux.len() == s0.aux.len() + lanes_vars(m, r as int, m.width),
            cs@.aux.len() == mid.aux.len() + i,
            sit_from(out@, mid.aux.len() as int),
            forall|a: Seq<int>| #[trigger]
                at_all(t@, a) == lanes_at(m, r as int, s0.aux.len() as int, a),
            forall|a: Seq<int>| #[trigger]
                new_hold(p, mid, cs@, a) <==> (forall|j: int|
                    0 <= j < i ==> #[trigger] mixed_row(
                        p,
                        m,
                        r as int,
                        s0.aux.len() as int,
                        a,
                        j,
                    )),
            forall|a: Seq<int>| #[trigger]
                new_hold(p, s0, cs@, a) ==> mod_seq(p, at_all(t@, a)) == mod_seq(
                    p,
                    sub_layer(m, r as int, mod_seq(p, at_all(s@, a))),
                ),
            forall|a: Seq<int>, j: int|
                #![trigger new_hold(p, s0, cs@, a), out@[j]]
                new_hold(p, s0, cs@, a) && 0 <= j < i ==> out@[j].at(a) % p == mix_row(
                    m,
                    sub_layer(m, r as int, mod_seq(p, at_all(s@, a))),
                    j,
                ) % p,
        decreases w - i,
    {
        let ghost s1 = cs@;
        let ghost before = out@;
        let n = mix_row_circuit(cs, k, &t, i);
        out.push(n);
        proof {
            lemma_chain(p, s0, s1, cs@);
            lemma_chain(p, mid, s1, cs@);
            lemma_complete_chain(p, s0, s1, cs@);
            lemma_all_grow(t@, s1, cs@);
            lemma_all_grow(before, s1, cs@);
            let q = s0.aux.len() as int;
            assert forall|a: Seq<int>| #[trigger] new_hold(p, mid, cs@, a) <==> (forall|j: int|
                0 <= j < i + 1 ==> #[trigger] mixed_row(p, m, r as int, q, a, j)) by {
                assert(at_all(t@, a) == lanes_at(m, r as int, q, a));
                assert(new_hold(p, s1, cs@, a) <==> mixed_row(p, m, r as int, q, a, i as int));
            }
            assert forall|a: Seq<int>, j: int|
                #![trigger new_hold(p, s0, cs@, a), out@[j]]
                new_hold(p, s0, cs@, a) && 0 <= j < i + 1 implies out@[j].at(a) % p == mix_row(
                m,
                sub_layer(m, r as int, mod_seq(p, at_all(s@, a))),
                j,
            ) % p by {
                assert(new_hold(p, s0, s1, a) && new_hold(p, s1, cs@, a));
                if j < i {
                    assert(before[j].at(a) % p == out@[j].at(a) % p);
                } else {
                    lemma_mix_cong(
                        p,
                        m,
                        at_all(t@, a),
                        sub_layer(m, r as int, mod_seq(p, at_all(s@, a))),
                        i as int,
                    );
                }
            }
        }
        i += 1;
    }
    proof {
        lemma_chain(p, s0, mid, cs@);
        assert forall|a: Seq<int>| #[trigger] new_hold(p, s0, cs@, a) implies mod_seq(
            p,
            at_all(out@, a),
        ) == round(p, m, r as int, mod_seq(p, at_all(s@, a))) by {
            assert forall|j: int| 0 <= j < w implies #[trigger] at_all(out@, a)[j] % p == mix_row(
                m,
                sub_layer(m, r as int, mod_seq(p, at_all(s@, a))),
                j,
            ) % p by {
                assert(out@[j].at(a) % p == at_all(out@, a)[j] % p);
            }
            assert(mod_seq(p, at_all(out@, a)) =~= round(
                p,
                m,
                r as int,
                mod_seq(p, at_all(s@, a)),
            ));
        }
    }
    out
}

/// The permutation.
fn permute_circuit<F: Field>(
    cs: &mut ConstraintSystem<F>,
    k: &PoseidonConstants<F>,
    s: Vec<AllocatedNum<F>>,
) -> (out: Vec<AllocatedNum<F>>)
    requires
        old(cs)@.wf(),
        k.wf(),
        s@.len() == k@.width,
        all_wf(s@, old(cs)@),
    ensures
        old(cs)@.extended_by(final(cs)@),
        out@.len() == k@.width,
        final(cs)@.aux.len() == old(cs)@.aux.len() + rounds_vars(k@, k@.rounds()),
        forall|a: Seq<int>| #[trigger]
            at_all(out@, a) == state_at(
                k@,
                old(cs)@.aux.len() as int,
                k@.rounds(),
                at_all(s@, a),
                a,
            ),
        forall|a: Seq<int>| #[trigger]
            new_hold(F::modulus(), old(cs)@, final(cs)@, a) <==> rounds_rows(
                F::modulus(),
                k@,
                k@.rounds(),
                old(cs)@.aux.len() as int,
                at_all(s@, a),
                a,
            ),
        all_wf(out@, final(cs)@),
        forall|a: Seq<int>| #[trigger]
            new_hold(F::modulus(), old(cs)@, final(cs)@, a) ==> mod_seq(
                F::modulus(),
                at_all(out@, a),
            ) == permute(F::modulus(), k@, mod_seq(F::modulus(), at_all(s@, a))),
        complete(F::modulus(), old(cs)@, final(cs)@),
{
    let ghost p = F::modulus();
    let ghost c0 = cs@;
    let ghost m = k@;
    let ghost start = s@;
    let n = k.num_rounds();
    let mut s = s;
    let mut r: usize = 0;
    while r < n
        invariant
            r <= n,
            n == m.rounds(),
            m == k@,
            k.wf(),
            p == F::modulus(),
            cs@.wf(),
            c0.extended_by(cs@),
            complete(p, c0, cs@),
            s@.len() == m.width,
            all_wf(s@, cs@),
            cs@.aux.len() == c0.aux.len() + rounds_vars(m, r as int),
            forall|a: Seq<int>| #[trigger]
                at_all(s@, a) == state_at(
                    m,
                    c0.aux.len() as int,
                    r as int,
                    at_all(start, a),
                    a,
                ),
            forall|a: Seq<int>| #[trigger]
                new_hold(p, c0, cs@, a) <==> rounds_rows(
                    p,
                    m,
                    r as int,
                    c0.aux.len() as int,
                    at_all(start, a),
                    a,
                ),
            forall|a: Seq<int>| #[trigger]
                new_hold(p, c0, cs@, a) ==> mod_seq(p, at_all(s@, a)) == rounds(
                    p,
                    m,
                    r as int,
                    mod_seq(p, at_all(start, a)),
                ),
        decreases n - r,
    {
        let ghost c1 = cs@;
        let ghost before = s@;
        s = round_circuit(cs, k, r, &s);
        proof {
            lemma_chain(p, c0, c1, cs@);
            lemma_complete_chain(p, c0, c1, cs@);
            let q = c0.aux.len() as int;
            assert forall|a: Seq<int>| #[trigger] at_all(s@, a) == state_at(
                m,
                q,
                r + 1,
                at_all(start, a),
                a,
            ) by {
                lemma_slots(s@, cs@.aux.len() - m.width, a);
            }
            assert forall|a: Seq<int>| #[trigger] new_hold(p, c0, cs@, a) <==> rounds_rows(
                p,
                m,
                r + 1,
                q,
                at_all(start, a),
                a,
            ) by {
                assert(at_all(before, a) == state_at(m, q, r as int, at_all(start, a), a));
            }
            assert forall|a: Seq<int>| #[trigger] new_hold(p, c0, cs@, a) implies mod_seq(
                p,
                at_all(s@, a),
            ) == rounds(p, m, r + 1, mod_seq(p, at_all(start, a))) by {
                assert(new_hold(p, c0, c1, a) && new_hold(p, c1, cs@, a));
            }
        }
        r += 1;
    }
    s
}

/// The hash of a sequence of variables.
fn hash_circuit<F: Field>(
    cs: &mut ConstraintSystem<F>,
    k: &PoseidonConstants<F>,
    xs: &Vec<AllocatedNum<F>>,
) -> (out: AllocatedNum<F>)
    requires
        old(cs)@.wf(),
        k.wf(),
        all_wf(xs@, old(cs)@),
    ensures
        old(cs)@.extended_by(final(cs)@),
        final(cs)@.aux.len() == old(cs)@.aux.len() + hash_vars(k@, xs@.len() as int),
        forall|a: Seq<int>| #[trigger]
            out.at(a) == hash_at(k@, old(cs)@.aux.len() as int, xs@.len() as int, a),
        forall|a: Seq<int>| #[trigger]
            new_hold(F::modulus(), old(cs)@, final(cs)@, a) <==> hash_rows(
                F::modulus(),
                k@,
                old(cs)@.aux.len() as int,
                at_all(xs@, a),
                a,
                xs@.len() as int,
            ),
        out.wf(final(cs)@),
        forall|a: Seq<int>| #[trigger]
            new_hold(F::modulus(), old(cs)@, final(cs)@, a) ==> out.at(a) % F::modulus()
                == poseidon(F::modulus(), k@, at_all(xs@, a)),
        complete(F::modulus(), old(cs)@, final(cs)@),
{
    let ghost p = F::modulus();
    let ghost c0 = cs@;
    let ghost m = k@;
    let n = xs.len();
    let w = k.width();
    let length = F::from_u64(n as u64);
    let mut s: Vec<AllocatedNum<F>> = Vec::new();
    proof {
        F::lemma_modulus();
        vstd::arithmetic::div_mod::lemma_small_mod(n as nat, p as nat);
    }
    let first = alloc_constant(cs, length);
    s.push(first);
    proof {
        lemma_all_grow(xs@, c0, cs@);
        assert forall|a: Seq<int>| #[trigger] new_hold(p, c0, cs@, a) <==> start_rows(
            p,
            c0.aux.len() as int,
            n as int,
            a,
            1,
        ) by {
            let q = c0.aux.len() as int;
            assert(first.at(a) == a[q + 0]);
            if start_rows(p, q, n as int, a, 1) {
                assert(a[q + 0] % p == n as int);
            }
        }
    }
    while s.len() < w
        invariant
            1 <= s@.len() <= w,
            cs@.aux.len() == c0.aux.len() + s@.len(),
            sit_from(s@, c0.aux.len() as int),
            forall|a: Seq<int>| #[trigger]
                new_hold(p, c0, cs@, a) <==> start_rows(
                    p,
                    c0.aux.len() as int,
                    n as int,
                    a,
                    s@.len() as int,
                ),
            n as int % p == n as int,
            p == F::modulus(),
            p > 1,
            cs@.wf(),
            c0.extended_by(cs@),
            complete(p, c0, cs@),
            all_wf(s@, cs@),
            all_wf(xs@, cs@),
            forall|a: Seq<int>, j: int|
                #![trigger new_hold(p, c0, cs@, a), s@[j]]
                new_hold(p, c0, cs@, a) && 0 <= j < s@.len() ==> s@[j].at(a) % p == (if j == 0 {
                    n as int
                } else {
                    0
                }),
        decreases w - s@.len(),
    {
        let ghost c1 = cs@;
        let ghost before = s@;
        let z = alloc_constant(cs, F::zero());
        s.push(z);
        proof {
            lemma_chain(p, c0, c1, cs@);
            lemma_complete_chain(p, c0, c1, cs@);
            lemma_all_grow(before, c1, cs@);
            lemma_all_grow(xs@, c1, cs@);
            let q = c0.aux.len() as int;
            assert forall|a: Seq<int>| #[trigger] new_hold(p, c0, cs@, a) <==> start_rows(
                p,
                q,
                n as int,
                a,
                s@.len() as int,
            ) by {
                assert(z.at(a) == a[q + before.len()]);
                assert(new_hold(p, c1, cs@, a) <==> a[q + before.len()] % p == 0);
                assert(new_hold(p, c0, c1, a) <==> start_rows(
                    p,
                    q,
                    n as int,
                    a,
                    before.len() as int,
                ));
                if start_rows(p, q, n as int, a, s@.len() as int) {
                    assert(a[q + before.len()] % p == 0);
                }
            }
            assert forall|a: Seq<int>, j: int|
                #![trigger new_hold(p, c0, cs@, a), s@[j]]
                new_hold(p, c0, cs@, a) && 0 <= j < s@.len() implies s@[j].at(a) % p == (if j
                == 0 {
                n as int
            } else {
                0
            }) by {
                assert(new_hold(p, c0, c1, a) && new_hold(p, c1, cs@, a));
                if j < before.len() {
                    assert(before[j].at(a) == s@[j].at(a));
                }
            }
        }
    }
    let mut i: usize = 0;
    proof {
        assert forall|a: Seq<int>| #[trigger] at_all(s@, a) == sponge_at(
            m,
            c0.aux.len() as int,
            0,
            a,
        ) by {
            lemma_slots(s@, c0.aux.len() as int, a);
        }
        assert forall|a: Seq<int>| #[trigger] new_hold(p, c0, cs@, a) implies mod_seq(
            p,
            at_all(s@, a),
        ) == absorbed(p, m, n as int, at_all(xs@, a).take(0)) by {
            assert(at_all(xs@, a).take(0).len() == 0);
            let target = absorbed(p, m, n as int, at_all(xs@, a).take(0));
            assert forall|j: int| 0 <= j < w implies #[trigger] at_all(s@, a)[j] % p
                == target[j] by {
                assert(s@[j].at(a) == at_all(s@, a)[j]);
            }
            assert(mod_seq(p, at_all(s@, a)) =~= target);
        }
    }
    while i < n
        invariant
            i <= n,
            n == xs@.len(),
            w == m.width,
            m == k@,
            k.wf(),
            p == F::modulus(),
            p > 1,
            cs@.wf(),
            c0.extended_by(cs@),
            complete(p, c0, cs@),
            s@.len() == w,
            all_wf(s@, cs@),
            all_wf(xs@, cs@),
            cs@.aux.len() == c0.aux.len() + hash_vars(m, i as int),
            forall|a: Seq<int>| #[trigger]
                at_all(s@, a) == sponge_at(m, c0.aux.len() as int, i as int, a),
            forall|a: Seq<int>| #[trigger]
                new_hold(p, c0, cs@, a) <==> hash_rows(
                    p,
                    m,
                    c0.aux.len() as int,
                    at_all(xs@, a),
                    a,
                    i as int,
                ),
            forall|a: Seq<int>| #[trigger]
                new_hold(p, c0, cs@, a) ==> mod_seq(p, at_all(s@, a)) == absorbed(
                    p,
                    m,
                    n as int,
                    at_all(xs@, a).take(i as int),
                ),
        decreases n - i,
    {
        let ghost c1 = cs@;
        let ghost before = s@;
        let lane = Lin::var(cs, &s[1]);
        let y = lane.plus(Ghost(cs@), &xs[i]);
        let x = assign(cs, &y);
        let ghost c2 = cs@;
        s.set(1, x);
        let ghost mid = s@;
        proof {
            lemma_all_grow(before, c1, c2);
            lemma_all_grow(xs@, c1, c2);
        }
        s = permute_circuit(cs, k, s);
        proof {
            lemma_chain(p, c0, c1, c2);
            lemma_chain(p, c0, c2, cs@);
            lemma_complete_chain(p, c0, c1, c2);
            lemma_complete_chain(p, c0, c2, cs@);
            lemma_all_grow(xs@, c2, cs@);
            let q = c0.aux.len() as int;
            assert forall|a: Seq<int>| #[trigger] at_all(mid, a) == sponge_at(
                m,
                q,
                i as int,
                a,
            ).update(1, a[q + hash_vars(m, i as int)]) by {
                assert(at_all(before, a) == sponge_at(m, q, i as int, a));
                assert(at_all(mid, a) =~= at_all(before, a).update(1, x.at(a)));
            }
            assert forall|a: Seq<int>| #[trigger] at_all(s@, a) == sponge_at(m, q, i + 1, a) by {
                assert(at_all(mid, a) == sponge_at(m, q, i as int, a).update(
                    1,
                    a[q + hash_vars(m, i as int)],
                ));
            }
            assert forall|a: Seq<int>| #[trigger] new_hold(p, c0, cs@, a) <==> hash_rows(
                p,
                m,
                q,
                at_all(xs@, a),
                a,
                i + 1,
            ) by {
                let v = at_all(xs@, a);
                assert(at_all(before, a) == sponge_at(m, q, i as int, a));
                assert(at_all(before, a)[1] == before[1].at(a));
                assert(at_all(mid, a) == sponge_at(m, q, i as int, a).update(
                    1,
                    a[q + hash_vars(m, i as int)],
                ));
                lemma_cong_add(p, lane.at(a), v[i as int], before[1].at(a), v[i as int]);
                assert(new_hold(p, c1, c2, a) <==> a[q + hash_vars(m, i as int)] % p == (sponge_at(
                    m,
                    q,
                    i as int,
                    a,
                )[1] + v[i as int]) % p);
                assert(new_hold(p, c0, cs@, a) <==> new_hold(p, c0, c2, a) && new_hold(
                    p,
                    c2,
                    cs@,
                    a,
                ));
                assert(new_hold(p, c0, c2, a) <==> new_hold(p, c0, c1, a) && new_hold(
                    p,
                    c1,
                    c2,
                    a,
                ));
            }
            assert forall|a: Seq<int>| #[trigger] new_hold(p, c0, cs@, a) implies mod_seq(
                p,
                at_all(s@, a),
            ) == absorbed(p, m, n as int, at_all(xs@, a).take(i + 1)) by {
                assert(new_hold(p, c0, c2, a) && new_hold(p, c2, cs@, a));
                assert(new_hold(p, c0, c1, a) && new_hold(p, c1, c2, a));
                let v = at_all(xs@, a);
                let st = mod_seq(p, at_all(before, a));
                assert(v.take(i + 1).drop_last() =~= v.take(i as int));
                lemma_cong_add(p, lane.at(a), v[i as int], before[1].at(a), v[i as int]);
                lemma_add_residue(p, before[1].at(a), v[i as int]);
                assert(mod_seq(p, at_all(mid, a)) =~= st.update(
                    1,
                    fadd(p, st[1], v[i as int]),
                ));
            }
        }
        i += 1;
    }
    proof {
        assert forall|a: Seq<int>| #[trigger] new_hold(p, c0, cs@, a) implies s@[1].at(a) % p
            == poseidon(p, m, at_all(xs@, a)) by {
            assert(at_all(xs@, a).take(n as int) =~= at_all(xs@, a));
            assert(mod_seq(p, at_all(s@, a))[1] == s@[1].at(a) % p);
        }
        assert forall|a: Seq<int>| #[trigger] s@[1].at(a) == hash_at(
            m,
            c0.aux.len() as int,
            n as int,
            a,
        ) by {
            assert(at_all(s@, a)[1] == s@[1].at(a));
        }
    }
    s[1]
}

/// Congruent elements leave the sponge in the same state.
pub proof fn lemma_absorbed_cong(p: int, m: PoseidonModel, n: int, xs: Seq<int>, ys: Seq<int>)
    requires
        p > 0,
        cong_seq(p, xs, ys),
    ensures
        absorbed(p, m, n, xs) == absorbed(p, m, n, ys),
    decreases xs.len(),
{
    if xs.len() > 0 {
        let (u, v) = (xs.drop_last(), ys.drop_last());
        assert forall|i: int| 0 <= i < u.len() implies #[trigger] u[i] % p == v[i] % p by {
            assert(xs[i] % p == ys[i] % p);
        }
        lemma_absorbed_cong(p, m, n, u, v);
        let k = xs.len() - 1;
        assert(xs[k] % p == ys[k] % p);
        let s = absorbed(p, m, n, u);
        lemma_cong_add(p, s[1], xs.last(), s[1], ys.last());
    }
}

/// Congruent elements have the same hash.
pub proof fn lemma_poseidon_cong(p: int, m: PoseidonModel, xs: Seq<int>, ys: Seq<int>)
    requires
        p > 0,
        cong_seq(p, xs, ys),
    ensures
        poseidon(p, m, xs) == poseidon(p, m, ys),
{
    lemma_absorbed_cong(p, m, xs.len() as int, xs, ys);
}

/// The random oracle inside a circuit: the variables that it has absorbed since the last
/// challenge, the hash that gave that challenge first.
pub struct PoseidonROCircuit<F> {
    constants: PoseidonConstants<F>,
    state: Vec<AllocatedNum<F>>,
}

impl<F: Field> PoseidonROCircuit<F> {
    /// The parameters of the sponge.
    pub closed spec fn params(self) -> PoseidonModel {
        self.constants@
    }

    /// The variables absorbed since the last challenge.
    pub closed spec fn view(self) -> Seq<AllocatedNum<F>> {
        self.state@
    }

    /// The parameters of the sponge are usable.
    pub closed spec fn wf(self) -> bool {
        self.constants.wf()
    }

    /// A fresh oracle.
    pub fn new(constants: PoseidonConstants<F>) -> (r: Self)
        requires
            constants.wf(),
        ensures
            r.wf(),
            r.params() == constants@,
            r@ == Seq::<AllocatedNum<F>>::empty(),
    {
        PoseidonROCircuit { constants, state: Vec::new() }
    }

    /// Absorbs a variable.
    pub fn absorb(&mut self, e: &AllocatedNum<F>)
        ensures
            final(self)@ == old(self)@.push(*e),
            final(self).params() == old(self).params(),
            final(self).wf() == old(self).wf(),
    {
        self.state.push(*e);
    }

    /// Absorbs variables in order.
    pub fn absorb_all(&mut self, v: &Vec<AllocatedNum<F>>)
        ensures
            final(self)@ == old(self)@ + v@,
            final(self).params() == old(self).params(),
            final(self).wf() == old(self).wf(),
    {
        let mut i: usize = 0;
        assert(self@ =~= old(self)@ + v@.take(0));
        while i < v.len()
            invariant
                i <= v@.len(),
                self@ == old(self)@ + v@.take(i as int),
                self.params() == old(self).params(),
                self.wf() == old(self).wf(),
            decreases v@.len() - i,
        {
            self.absorb(&v[i]);
            i += 1;
            assert(self@ =~= old(self)@ + v@.take(i as int));
        }
        assert(v@.take(v@.len() as int) =~= v@);
    }

    /// Squeezes the binary digits of a challenge. The hash is all that the oracle remembers.
    pub fn squeeze(&mut self, cs: &mut ConstraintSystem<F>, num_bits: usize) -> (r: Vec<
        AllocatedNum<F>,
    >)
        requires
            old(cs)@.wf(),
            old(self).wf(),
            all_wf(old(self)@, old(cs)@),
            num_bits <= 256,
        ensures
            old(cs)@.extended_by(final(cs)@),
            final(self).wf(),
            final(self).params() == old(self).params(),
            final(self)@.len() == 1,
            all_wf(final(self)@, final(cs)@),
            final(cs)@.aux.len() == old(cs)@.aux.len() + hash_vars(
                old(self).params(),
                old(self)@.len() as int,
            ) + bits_vars(),
            forall|a: Seq<int>| #[trigger]
                final(self)@[0].at(a) == hash_at(
                    old(self).params(),
                    old(cs)@.aux.len() as int,
                    old(self)@.len() as int,
                    a,
                ),
            forall|a: Seq<int>| #[trigger]
                new_hold(F::modulus(), old(cs)@, final(cs)@, a) <==> squeeze_rows(
                    F::modulus(),
                    old(self).params(),
                    old(cs)@.aux.len() as int,
                    at_all(old(self)@, a),
                    a,
                ),
            sit_from(
                r@,
                old(cs)@.aux.len() + hash_vars(old(self).params(), old(self)@.len() as int),
            ),
            r@.len() == num_bits,
            all_wf(r@, final(cs)@),
            forall|a: Seq<int>| #[trigger]
                new_hold(F::modulus(), old(cs)@, final(cs)@, a) ==> final(self)@[0].at(a)
                    % F::modulus() == poseidon(
                    F::modulus(),
                    old(self).params(),
                    at_all(old(self)@, a),
                ),
            forall|a: Seq<int>| #[trigger]
                new_hold(F::modulus(), old(cs)@, final(cs)@, a) ==> {
                    &&& all_binary(F::modulus(), at_all(r@, a))
                    &&& bits_value(digits(F::modulus(), at_all(r@, a))) == challenge(
                        F::modulus(),
                        old(self).params(),
                        at_all(old(self)@, a),
                        num_bits as nat,
                    )
                },
            complete(F::modulus(), old(cs)@, final(cs)@),
    {
        let ghost p = F::modulus();
        let ghost s0 = cs@;
        let ghost before = self@;
        let h = hash_circuit(cs, &self.constants, &self.state);
        let ghost s1 = cs@;
        let bits = to_bits_le_strict(cs, &h);
        let mut state: Vec<AllocatedNum<F>> = Vec::new();
        state.push(h);
        self.state = state;
        let mut r: Vec<AllocatedNum<F>> = Vec::new();
        let mut i: usize = 0;
        while i < num_bits
            invariant
                i <= num_bits <= 256,
                bits@.len() == 256,
                r@ == bits@.take(i as int),
            decreases num_bits - i,
        {
            r.push(bits[i]);
            i += 1;
            assert(bits@.take(i as int) =~= bits@.take(i - 1).push(bits@[i - 1]));
        }
        proof {
            h.lemma_grow(s1, cs@);
            lemma_chain(p, s0, s1, cs@);
            lemma_complete_chain(p, s0, s1, cs@);
            assert forall|a: Seq<int>| #[trigger]
                new_hold(p, s0, cs@, a) implies {
                &&& all_binary(p, at_all(r@, a))
                &&& bits_value(digits(p, at_all(r@, a))) == challenge(
                    p,
                    self.params(),
                    at_all(before, a),
                    num_bits as nat,
                )
            } by {
                assert(new_hold(p, s0, s1, a) && new_hold(p, s1, cs@, a));
                let v = at_all(bits@, a);
                let d = digits(p, v);
                assert(at_all(r@, a) =~= v.take(num_bits as int));
                assert(digits(p, at_all(r@, a)) =~= d.take(num_bits as int));
                assert forall|j: int| 0 <= j < num_bits implies #[trigger] at_all(r@, a)[j] % p == 0
                    || at_all(r@, a)[j] % p == 1 by {
                    assert(v[j] % p == 0 || v[j] % p == 1);
                }
                lemma_bits_prefix(d, num_bits as int);
            }
        }
        r
    }

    /// Squeezes a challenge as a number.
    pub fn squeeze_num(&mut self, cs: &mut ConstraintSystem<F>, num_bits: usize) -> (r: AllocatedNum<
        F,
    >)
        requires
            old(cs)@.wf(),
            old(self).wf(),
            all_wf(old(self)@, old(cs)@),
            num_bits <= 256,
        ensures
            old(cs)@.extended_by(final(cs)@),
            final(self).wf(),
            final(self).params() == old(self).params(),
            final(self)@.len() == 1,
            all_wf(final(self)@, final(cs)@),
            final(cs)@.aux.len() == old(cs)@.aux.len() + challenge_vars(
                old(self).params(),
                old(self)@.len() as int,
            ),
            r.sits(final(cs)@.aux.len() - 1),
            forall|a: Seq<int>| #[trigger]
                final(self)@[0].at(a) == hash_at(
                    old(self).params(),
                    old(cs)@.aux.len() as int,
                    old(self)@.len() as int,
                    a,
                ),
            forall|a: Seq<int>| #[trigger]
                new_hold(F::modulus(), old(cs)@, final(cs)@, a) <==> challenge_rows(
                    F::modulus(),
                    old(self).params(),
                    old(cs)@.aux.len() as int,
                    at_all(old(self)@, a),
                    num_bits as nat,
                    a,
                ),
            r.wf(final(cs)@),
            forall|a: Seq<int>| #[trigger]
                new_hold(F::modulus(), old(cs)@, final(cs)@, a) ==> final(self)@[0].at(a)
                    % F::modulus() == poseidon(
                    F::modulus(),
                    old(self).params(),
                    at_all(old(self)@, a),
                ),
            forall|a: Seq<int>| #[trigger]
                new_hold(F::modulus(), old(cs)@, final(cs)@, a) ==> r.at(a) % F::modulus() == challenge(
                    F::modulus(),
                    old(self).params(),
                    at_all(old(self)@, a),
                    num_bits as nat,
                ),
            complete(F::modulus(), old(cs)@, final(cs)@),
    {
        let ghost p = F::modulus();
        let ghost s0 = cs@;
        let ghost before = self@;
        let bits = self.squeeze(cs, num_bits);
        let ghost s1 = cs@;
        let r = le_bits_to_num(cs, &bits);
        proof {
            F::lemma_modulus();
            lemma_all_grow(self@, s1, cs@);
            lemma_chain(p, s0, s1, cs@);
            lemma_complete_chain(p, s0, s1, cs@);
            assert forall|a: Seq<int>| #[trigger] new_hold(p, s0, cs@, a) <==> challenge_rows(
                p,
                self.params(),
                s0.aux.len() as int,
                at_all(before, a),
                num_bits as nat,
                a,
            ) by {
                let k = s0.aux.len() + hash_vars(self.params(), before.len() as int);
                lemma_slots(bits@, k, a);
                assert(at_all(before, a).len() == before.len());
            }
            assert forall|a: Seq<int>| #[trigger]
                new_hold(p, s0, cs@, a) implies r.at(a) % p == challenge(
                p,
                self.params(),
                at_all(before, a),
                num_bits as nat,
            ) by {
                assert(new_hold(p, s0, s1, a) && new_hold(p, s1, cs@, a));
                let h = poseidon(p, self.params(), at_all(before, a));
                lemma_mod(p, self@[0].at(a));
                lemma_power_two_pos(num_bits as nat);
                let m = power(2, num_bits as nat);
                vstd::arithmetic::div_mod::lemma_mod_bound(h, m);
                vstd::arithmetic::div_mod::lemma_mod_decreases(h as nat, m as nat);
                vstd::arithmetic::div_mod::lemma_small_mod((h % m) as nat, p as nat);
            }
        }
        r
    }
}

} // verus!
