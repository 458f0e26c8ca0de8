//! What holds of circuits of arkworks, compiled and replayed.
use vstd::prelude::*;
use crate::arith::{lemma_cong_add, lemma_sum_ext, sum};
use crate::arkworks::compile::{
    ark_vals, assemble, compile_ark_sha256, row_at, ArkMatrices, CompiledArkCircuit,
};
use crate::arkworks::field_bridge::{ArkFr, FieldBridge};
use crate::arkworks::sha256_circuit::{
    compute_expected_hash, digest_digits, sha256, ArkSha256HashStep,
};
use crate::arkworks::step_circuit::{
    is_hash, law_step_gives_the_expected_hash, lemma_compiled_holds, map_values, outputs_bound,
    replay, replay_map, replayed, NovaArkSha256Step,
};
use crate::arkworks::translate::{
    ark_row_to_nova_lc, ark_var_to_nova, build_witness_map, row_term, row_value,
};
use crate::bn254::{scalar_modulus, Fr};
use crate::errors::SynthesisError;
use crate::field::{vals, Field};
use crate::frontend::{lc_eval, new_hold, val_of, ConstraintSystem, LinearCombination, Variable};
use crate::frontend_laws::value_of;
use crate::gadgets::at_all;
use crate::num::AllocatedNum;
use crate::packing::{bits_to_bytes, digit_values, ones, packed};
use crate::weight_table::mod_seq;

verus! {

/// Elements go from one library to the other and back unchanged.
pub proof fn law_elements_come_back<AF, NF: Field, B: FieldBridge<AF, NF>>(
    x: AF,
    y: NF,
    back: AF,
    z: NF,
    w: AF,
    there: NF,
)
    requires
        call_ensures(B::ark_to_nova, (x,), y),
        call_ensures(B::nova_to_ark, (y,), back),
        call_ensures(B::nova_to_ark, (z,), w),
        call_ensures(B::ark_to_nova, (w,), there),
    ensures
        B::ark_value(back) == B::ark_value(x),
        there.val() == z.val(),
{
}

/// An element is read as a digit if and only if it is zero or one.
pub proof fn law_digits_are_zero_and_one<AF, NF: Field, B: FieldBridge<AF, NF>>(
    x: NF,
    r: Result<bool, SynthesisError>,
)
    requires
        call_ensures(B::nova_bit, (x,), r),
    ensures
        x.val() == 0 ==> r == Ok::<bool, SynthesisError>(false),
        x.val() == 1 ==> r == Ok::<bool, SynthesisError>(true),
        x.val() != 0 && x.val() != 1 ==> r is Err,
{
}

/// A column in front of the private ones stands for the constant one; every other stands for the
/// variable of the map at its place among the private ones.
pub proof fn law_columns_stand_for_variables<AF, NF: Field, B: FieldBridge<AF, NF>>(
    column: usize,
    public: usize,
    one: Variable,
    map: &[Variable],
    v: Variable,
)
    requires
        call_ensures(ark_var_to_nova::<AF, NF, B>, (column, public, one, map), v),
    ensures
        column < public ==> v == one,
        column >= public ==> v == map@[column - public],
{
}

/// The map of the private variables starts with those of the input, each at its place, and goes on
/// with what is allocated for each place behind them.
pub proof fn law_map_of_private_variables<NF: Field, F: FnMut(usize) -> Variable>(
    input: &[Variable],
    n: usize,
    total: usize,
    alloc: F,
    map: Vec<Variable>,
    i: usize,
)
    requires
        call_ensures(build_witness_map::<NF, F>, (input, n, total, alloc), map),
        input@.len() == n,
        n <= total,
        i < total,
    ensures
        map@.len() == total,
        i < n ==> map@[i as int] == input@[i as int],
        i >= n ==> call_ensures(alloc, (i,), map@[i as int]),
{
    if i < n {
        assert(map@.take(n as int)[i as int] == map@[i as int]);
    }
}

/// A compiled circuit keeps its matrices and both assignments, and its sizes are those of the
/// matrices. Without assignments there is none.
pub proof fn law_parts_are_kept(
    matrices: ArkMatrices,
    assignments: Option<(Vec<ArkFr>, Vec<ArkFr>)>,
    text: &str,
    r: Result<CompiledArkCircuit, SynthesisError>,
    i: int,
)
    requires
        call_ensures(assemble, (matrices, assignments, text), r),
    ensures
        r is Ok <==> assignments is Some,
        r matches Ok(c) ==> {
            let (witness, instance) = assignments->0;
            &&& c.matrices == matrices
            &&& c.num_witness_vars == matrices.num_witness_variables
            &&& c.num_instance_vars == matrices.num_instance_variables
            &&& c.num_constraints == matrices.num_constraints
            &&& c.instance_assignment@.len() == instance@.len()
            &&& 0 <= i < instance@.len() ==> c.instance_assignment@[i].val() == instance@[i].val()
            &&& c.witness_assignment is Some <==> witness@.len() > 0
            &&& c.witness_assignment matches Some(w) ==> {
                &&& w@.len() == witness@.len()
                &&& 0 <= i < witness@.len() ==> w@[i].val() == witness@[i].val()
            }
        },
{
    if let Ok(c) = r {
        let (witness, instance) = assignments->0;
        assert(ark_vals(witness@).len() == witness@.len());
        assert(ark_vals(c.instance_assignment@).len() == c.instance_assignment@.len());
        if 0 <= i < instance@.len() {
            assert(ark_vals(c.instance_assignment@)[i] == ark_vals(instance@)[i]);
        }
        if let Some(w) = c.witness_assignment {
            assert(ark_vals(w@).len() == w@.len());
            if 0 <= i < witness@.len() {
                assert(ark_vals(w@)[i] == ark_vals(witness@)[i]);
            }
        }
    }
}

/// A row without entries is zero. One more entry at the end of a row adds its coefficient times the
/// variable that its column stands for, under every assignment.
pub proof fn law_rows_add_their_entries<AF: Copy, NF: Field, B: FieldBridge<AF, NF>>(
    row: &[(AF, usize)],
    more: &[(AF, usize)],
    public: usize,
    one: Variable,
    map: &[Variable],
    l: LinearCombination<NF>,
    k: LinearCombination<NF>,
    v: Variable,
    a: Seq<int>,
)
    requires
        call_ensures(ark_row_to_nova_lc::<AF, NF, B>, (row, public, one, map), l),
        call_ensures(ark_row_to_nova_lc::<AF, NF, B>, (more, public, one, map), k),
        more@.len() == row@.len() + 1,
        forall|i: int| 0 <= i < row@.len() ==> #[trigger] more@[i] == row@[i],
        call_ensures(ark_var_to_nova::<AF, NF, B>, (more@.last().1, public, one, map), v),
    ensures
        row@.len() == 0 ==> lc_eval(l@, a) % NF::modulus() == 0,
        lc_eval(k@, a) % NF::modulus() == (lc_eval(l@, a) + B::ark_value(more@.last().0)
            * value_of(v, a)) % NF::modulus(),
{
    let p = NF::modulus();
    NF::lemma_modulus();
    let n = row@.len() as int;
    let f = |i: int| row_term::<AF, NF, B>(row@, public, one, map@, a, i);
    let g = |i: int| row_term::<AF, NF, B>(more@, public, one, map@, a, i);
    assert forall|i: int| 0 <= i < n implies #[trigger] f(i) == g(i) by {
        assert(more@[i] == row@[i]);
    }
    lemma_sum_ext(f, g, 0, n);
    let e = row_value::<AF, NF, B>(row@, public, one, map@, a, n);
    assert(e == sum(f, 0, n));
    assert(row_value::<AF, NF, B>(more@, public, one, map@, a, n + 1) == sum(g, 0, n) + g(n));
    assert(lc_eval(l@, a) % p == e % p);
    assert(lc_eval(k@, a) % p == (e + g(n)) % p);
    lemma_cong_add(p, e, g(n), lc_eval(l@, a), g(n));
    vstd::arithmetic::div_mod::lemma_small_mod(0, p as nat);
}

/// The rows of a compiled circuit are seen entry by entry: nothing is left out, and no entry is
/// changed.
pub proof fn law_rows_are_seen_as_they_are(m: ArkMatrices, r: int, k: int)
    ensures
        m@.a.len() == m.a@.len(),
        m@.b.len() == m.b@.len(),
        m@.c.len() == m.c@.len(),
        0 <= r < m.a@.len() ==> m@.a[r].len() == m.a@[r]@.len(),
        0 <= r < m.b@.len() ==> m@.b[r].len() == m.b@[r]@.len(),
        0 <= r < m.c@.len() ==> m@.c[r].len() == m.c@[r]@.len(),
        0 <= r < m.a@.len() && 0 <= k < m.a@[r]@.len() ==> m@.a[r][k] == (
            m.a@[r]@[k].0.val(),
            m.a@[r]@[k].1,
        ),
        0 <= r < m.b@.len() && 0 <= k < m.b@[r]@.len() ==> m@.b[r][k] == (
            m.b@[r]@[k].0.val(),
            m.b@[r]@[k].1,
        ),
        0 <= r < m.c@.len() && 0 <= k < m.c@[r]@.len() ==> m@.c[r][k] == (
            m.c@[r]@[k].0.val(),
            m.c@[r]@[k].1,
        ),
        m@.num_constraints == m.num_constraints,
        m@.num_witness_variables == m.num_witness_variables,
        m@.num_instance_variables == m.num_instance_variables,
{
}

/// What a column of a row is worth, where the constant one is the only public variable and the
/// private variables have the values `w`.
pub open spec fn worth(w: Seq<int>, column: usize) -> int {
    if column == 0 {
        1
    } else {
        w[column - 1]
    }
}

/// A row of coefficients and columns, added up.
pub open spec fn added_up(row: Seq<(int, usize)>, w: Seq<int>) -> int {
    sum(|k: int| row[k].0 * worth(w, row[k].1), 0, row.len() as int)
}

/// A row of a circuit whose only public variable is the constant one adds up its entries.
proof fn lemma_added_up(row: Seq<(int, usize)>, w: Seq<int>)
    ensures
        row_at(row, 1, Seq::empty(), w) == added_up(row, w),
{
    let f = |k: int|
        row[k].0 * crate::arkworks::compile::column_value(
            1,
            Seq::empty(),
            w,
            row[k].1 as int,
        );
    let g = |k: int| row[k].0 * worth(w, row[k].1);
    lemma_sum_ext(f, g, 0, row.len() as int);
}

/// In every row, the products of the first two matrices make up that of the third.
pub open spec fn rows_hold(c: CompiledArkCircuit, w: Seq<int>) -> bool {
    forall|r: int|
        0 <= r < c.num_constraints ==> (added_up(#[trigger] c.matrices@.a[r], w) * added_up(
            c.matrices@.b[r],
            w,
        )) % scalar_modulus() == added_up(c.matrices@.c[r], w) % scalar_modulus()
}

/// The rows hold as the contracts speak of it.
pub proof fn lemma_rows_hold(c: CompiledArkCircuit, w: Seq<int>)
    requires
        c.matrices.num_instance_variables == 1,
        c.matrices.num_constraints == c.num_constraints,
    ensures
        c.matrices@.satisfied(Seq::empty(), w) <==> rows_hold(c, w),
{
    let m = c.matrices@;
    assert forall|r: int| 0 <= r < c.num_constraints implies (m.row_satisfied(
        Seq::empty(),
        w,
        r,
    ) <==> (added_up(#[trigger] m.a[r], w) * added_up(m.b[r], w)) % scalar_modulus() == added_up(
        m.c[r],
        w,
    ) % scalar_modulus()) by {
        lemma_added_up(m.a[r], w);
        lemma_added_up(m.b[r], w);
        lemma_added_up(m.c[r], w);
    }
    if rows_hold(c, w) {
        assert forall|r: int| 0 <= r < m.num_constraints implies #[trigger] m.row_satisfied(
            Seq::empty(),
            w,
            r,
        ) by {
            assert((added_up(m.a[r], w) * added_up(m.b[r], w)) % scalar_modulus() == added_up(
                m.c[r],
                w,
            ) % scalar_modulus());
        }
    }
    if m.satisfied(Seq::empty(), w) {
        assert forall|r: int| 0 <= r < c.num_constraints implies (added_up(
            #[trigger] m.a[r],
            w,
        ) * added_up(m.b[r], w)) % scalar_modulus() == added_up(m.c[r], w) % scalar_modulus() by {
            assert(m.row_satisfied(Seq::empty(), w, r));
        }
    }
}

/// Replaying a circuit demands of an assignment that every row of the circuit holds, where the
/// first private variables are the digits that go in and the others new variables in a row, and
/// that the numbers that come out are the last private variables.
pub proof fn law_replay_demands_the_rows(
    cs: &mut ConstraintSystem<Fr>,
    z: &[AllocatedNum<Fr>],
    c: &CompiledArkCircuit,
    out: Vec<AllocatedNum<Fr>>,
    a: Seq<int>,
    w: Seq<int>,
)
    requires
        call_ensures(replay, (cs, z, c), Ok::<Vec<AllocatedNum<Fr>>, SynthesisError>(out)),
        c.usable(),
        z@.len() == 256,
        c.matrices.num_instance_variables == 1,
        c.matrices.num_constraints == c.num_constraints,
        c.matrices@.fits(),
        old(cs)@.aux.len() + c.num_witness_vars <= usize::MAX,
        w.len() == c.num_witness_vars,
        forall|i: int| 0 <= i < 256 ==> #[trigger] w[i] == z@[i].at(a),
        forall|i: int|
            256 <= i < w.len() ==> #[trigger] w[i] == a[old(cs)@.aux.len() + i - 256],
    ensures
        out@.len() == 256,
        new_hold(scalar_modulus(), old(cs)@, final(cs)@, a) <==> rows_hold(*c, w) && (forall|
            j: int,
        |
            0 <= j < 256 ==> (#[trigger] out@[j]).at(a) % scalar_modulus() == w[w.len() - 256 + j]
                % scalar_modulus()),
{
    let p = scalar_modulus();
    let n = old(cs)@.aux.len();
    let map = replay_map(z@, n, c.num_witness_vars as nat);
    assert(replayed(*c, z@, out@, old(cs)@, final(cs)@));
    assert(map_values(map, a) =~= w) by {
        assert forall|i: int| 0 <= i < w.len() implies map_values(map, a)[i] == w[i] by {
            if i < 256 {
                assert(w[i] == z@[i].at(a));
            } else {
                assert(w[i] == a[n + i - 256]);
            }
        }
    }
    lemma_compiled_holds(*c, map, a);
    lemma_rows_hold(*c, w);
    assert forall|j: int| 0 <= j < 256 implies val_of(
        #[trigger] map[map.len() - 256 + j],
        a,
    ) == w[w.len() - 256 + j] by {
        assert(map_values(map, a)[w.len() - 256 + j] == w[w.len() - 256 + j]);
    }
    if outputs_bound(out@, map, a) {
        assert forall|j: int| 0 <= j < 256 implies (#[trigger] out@[j]).at(a) % p == w[w.len()
            - 256 + j] % p by {
            assert(val_of(map[map.len() - 256 + j], a) == w[w.len() - 256 + j]);
        }
    }
    if forall|j: int|
        0 <= j < 256 ==> (#[trigger] out@[j]).at(a) % p == w[w.len() - 256 + j] % p {
        assert forall|j: int| 0 <= j < out@.len() implies (#[trigger] out@[j]).at(a) % p == val_of(
            map[map.len() - out@.len() + j],
            a,
        ) % p by {
            assert(val_of(map[map.len() - 256 + j], a) == w[w.len() - 256 + j]);
        }
    }
}

/// The expected hash packs to the digest of the bytes that its digits pack to.
pub proof fn law_expected_hash_is_a_digest<F: Field>(
    input: &[F],
    r: Vec<F>,
    s: &[F],
    b: ([u8; 32], [u8; 32]),
)
    requires
        call_ensures(compute_expected_hash::<F>, (input,), r),
        input@.len() == 256,
        s@ == r@,
        call_ensures(bits_to_bytes::<F>, (input,), b.0),
        call_ensures(bits_to_bytes::<F>, (s,), b.1),
    ensures
        b.1@ == sha256(b.0@),
        r@.len() == 256,
{
    let d = choose|bits: Seq<bool>|
        bits.len() == 256 && packed(bits) == sha256(packed(ones(vals(input@)))) && vals(r@)
            == #[trigger] digit_values(bits);
    assert(ones(vals(s@)) =~= d) by {
        assert forall|k: int| 0 <= k < 256 implies ones(vals(s@))[k] == d[k] by {
            assert(digit_values(d)[k] == vals(r@)[k]);
        }
    }
}

/// A step in a circuit hashes: under every assignment that satisfies its constraints, the digits
/// that go in are zeros and ones, and those that come out are the expected hash of them.
pub proof fn law_step_hashes(
    step: &NovaArkSha256Step,
    cs: &mut ConstraintSystem<Fr>,
    z: &[AllocatedNum<Fr>],
    out: Vec<AllocatedNum<Fr>>,
    input: &[Fr],
    expected: Vec<Fr>,
    a: Seq<int>,
    i: int,
)
    requires
        call_ensures(
            NovaArkSha256Step::synthesize,
            (step, cs, z),
            Ok::<Vec<AllocatedNum<Fr>>, SynthesisError>(out),
        ),
        z@.len() == 256,
        new_hold(scalar_modulus(), old(cs)@, final(cs)@, a),
        input@.len() == 256,
        forall|k: int|
            0 <= k < 256 ==> (#[trigger] input@[k]).val() == z@[k].at(a) % scalar_modulus(),
        call_ensures(compute_expected_hash::<Fr>, (input,), expected),
        0 <= i < 256,
    ensures
        z@[i].at(a) % scalar_modulus() == 0 || z@[i].at(a) % scalar_modulus() == 1,
        out@.len() == 256,
        out@[i].at(a) % scalar_modulus() == expected@[i].val(),
{
    let p = scalar_modulus();
    let (x, y) = (at_all(z@, a), at_all(out@, a));
    assert(is_hash(x, y));
    assert(x[i] == z@[i].at(a));
    let d = choose|bits: Seq<bool>|
        bits.len() == 256 && packed(bits) == sha256(packed(ones(vals(input@)))) && vals(
            expected@,
        ) == #[trigger] digit_values(bits);
    assert(mod_seq(p, x) =~= vals(input@)) by {
        assert forall|k: int| 0 <= k < 256 implies mod_seq(p, x)[k] == vals(input@)[k] by {
            assert(vals(input@)[k] == input@[k].val());
        }
    }
    law_step_gives_the_expected_hash(x, y, d);
    assert(mod_seq(p, y)[i] == vals(expected@)[i]);
    assert(y[i] == out@[i].at(a));
}

/// A step in a circuit records the digits of the hash where there is a witness, and refuses what is
/// no digit. Its own values then satisfy its constraints.
pub proof fn law_step_records(
    step: &NovaArkSha256Step,
    cs: &mut ConstraintSystem<Fr>,
    z: &[AllocatedNum<Fr>],
    r: Result<Vec<AllocatedNum<Fr>>, SynthesisError>,
    a: Seq<int>,
)
    requires
        call_ensures(NovaArkSha256Step::synthesize, (step, cs, z), r),
        z@.len() == 256,
    ensures
        r is Err <==> old(cs)@.witness && !(forall|i: int|
            0 <= i < 256 ==> (#[trigger] z@[i]).value is Some && (z@[i].value->0.val() == 0
                || z@[i].value->0.val() == 1)),
        r is Ok && crate::frontend::agrees(a, final(cs)@) ==> new_hold(
            scalar_modulus(),
            old(cs)@,
            final(cs)@,
            a,
        ),
{
}

/// The SHA-256 step compiles on any digits. The first private values are the digits, the last ones
/// are the digits of their digest, and all of them hold in every row. Whatever else holds in every
/// row starts with digits and ends with those of their digest.
pub proof fn law_compiled_step_hashes(
    bits: Vec<bool>,
    c: CompiledArkCircuit,
    w: Vec<ArkFr>,
    i: int,
    v: Seq<int>,
)
    requires
        call_ensures(
            compile_ark_sha256,
            (Some(bits),),
            Ok::<CompiledArkCircuit, SynthesisError>(c),
        ),
        bits@.len() == 256,
        c.witness_assignment == Some(w),
        0 <= i < 256,
        v.len() == c.num_witness_vars,
        rows_hold(c, v),
    ensures
        w@.len() == c.num_witness_vars,
        w@[i].val() == if bits@[i] {
            1int
        } else {
            0int
        },
        rows_hold(c, ark_vals(w@)),
        packed(Seq::new(256, |k: int| w@[w@.len() - 256 + k].val() == 1)) == sha256(packed(bits@)),
        v[i] % scalar_modulus() == 0 || v[i] % scalar_modulus() == 1,
        packed(Seq::new(256, |k: int| v[v.len() - 256 + k] % scalar_modulus() == 1)) == sha256(
            packed(Seq::new(256, |k: int| v[k] % scalar_modulus() == 1)),
        ),
{
    let p = scalar_modulus();
    let input = ArkSha256HashStep { in_bits: Some(bits) }.input();
    assert(input =~= bits@);
    lemma_rows_hold(c, ark_vals(w@));
    lemma_rows_hold(c, v);
    let values = ark_vals(w@);
    assert(values[i] == w@[i].val());
    assert(values[i] == digit_values(input)[i]);
    let d = digest_digits(input);
    let last = Seq::new(256, |k: int| w@[w@.len() - 256 + k].val() == 1);
    assert(last =~= d) by {
        assert forall|k: int| 0 <= k < 256 implies last[k] == d[k] by {
            assert(values[values.len() - 256 + k] == digit_values(d)[k]);
        }
    }
    let (x, y) = (v.subrange(0, 256), v.subrange(v.len() - 256, v.len() as int));
    assert(crate::arkworks::sha256_circuit::step_relation(0, v));
    assert(x[i] == v[i]);
    assert(crate::gadgets::digits(p, x) =~= Seq::new(256, |k: int| v[k] % p == 1));
    assert(crate::gadgets::digits(p, y) =~= Seq::new(256, |k: int| v[v.len() - 256 + k] % p == 1));
}

} // verus!
