//! The SHA-256 circuit of arkworks as a step of a computation: its constraints are replayed.
use vstd::prelude::*;
use crate::arith::{fmul, lemma_cong_mul, lemma_cong_sub, lemma_sum_ext};
use crate::arkworks::compile::{
    ark_vals, column_value, columns_below, compile_ark_sha256, compiled_step,
    law_step_has_one_shape, row_at, row_model, row_values, CompiledArkCircuit,
};
use crate::arkworks::field_bridge::{ArkFr, Bn254Bridge, FieldBridge};
use crate::arkworks::sha256_circuit::{
    digest_digits, digests, sha256, step_relation, step_values, ArkSha256HashStep,
};
use crate::arkworks::translate::{
    ark_row_to_nova_lc, build_witness_map, column_fits, column_variable, row_fits, row_term,
    row_value,
};
use crate::bn254::{scalar_modulus, Fr};
use crate::errors::SynthesisError;
use crate::field::{lemma_seed_const, Field};
use crate::frontend::{
    agrees, exists_in, holds, in_range, lc_eval, lemma_chain, lemma_zero_diff, mentions,
    new_hold, val_of, ConstraintSystem, CsModel, Index, LinearCombination, Variable,
};
use crate::gadgets::{all_binary, all_wf, at_all, digit, digits, lemma_all_grow, sit_from};
use crate::num::{complete, enforce_product, AllocatedNum, Lin};
use crate::packing::{digit_values, law_packing_is_injective, ones, packed};
use crate::weight_table::mod_seq;

verus! {

/// The constant one.
pub open spec fn one_variable() -> Variable {
    Variable(Index::Input(0))
}

/// The variables that numbers stand on.
pub open spec fn variables(v: Seq<AllocatedNum<Fr>>) -> Seq<Variable> {
    Seq::new(v.len(), |i: int| v[i].variable)
}

/// The variables of a circuit with `len` private ones in a system that had `n` when it was replayed:
/// the digits that go in stand for the first ones, and new variables in a row for the others.
pub open spec fn replay_map(z: Seq<AllocatedNum<Fr>>, n: nat, len: nat) -> Seq<Variable> {
    Seq::new(
        len,
        |i: int|
            if i < 256 {
                z[i].variable
            } else {
                Variable(Index::Aux((n + i - 256) as usize))
            },
    )
}

/// Every variable is one of the system.
pub open spec fn all_exist(map: Seq<Variable>, n: nat) -> bool {
    forall|i: int| 0 <= i < map.len() ==> exists_in(#[trigger] map[i], n)
}

/// The value of a row of the compiled circuit under an assignment.
pub open spec fn compiled_row(row: Seq<(ArkFr, usize)>, map: Seq<Variable>, a: Seq<int>) -> int {
    row_value::<ArkFr, Fr, Bn254Bridge>(row, 1, one_variable(), map, a, row.len() as int)
}

/// Constraint `r` of the compiled circuit holds.
pub open spec fn compiled_row_holds(
    c: CompiledArkCircuit,
    map: Seq<Variable>,
    a: Seq<int>,
    r: int,
) -> bool {
    (compiled_row(c.matrices.a@[r]@, map, a) * compiled_row(c.matrices.b@[r]@, map, a))
        % scalar_modulus() == compiled_row(c.matrices.c@[r]@, map, a) % scalar_modulus()
}

/// The constraints of the compiled circuit hold, if its private variables are read through the
/// map.
pub open spec fn compiled_holds(c: CompiledArkCircuit, map: Seq<Variable>, a: Seq<int>) -> bool {
    forall|r: int| 0 <= r < c.num_constraints ==> #[trigger] compiled_row_holds(c, map, a, r)
}

/// The numbers are zero or one.
pub open spec fn bits_demanded(z: Seq<AllocatedNum<Fr>>, a: Seq<int>) -> bool {
    forall|i: int|
        0 <= i < z.len() ==> ((#[trigger] z[i]).at(a) * (1 - z[i].at(a))) % scalar_modulus() == 0
}

/// The numbers equal the last variables of the map.
pub open spec fn outputs_bound(
    out: Seq<AllocatedNum<Fr>>,
    map: Seq<Variable>,
    a: Seq<int>,
) -> bool {
    forall|j: int|
        0 <= j < out.len() ==> (#[trigger] out[j]).at(a) % scalar_modulus() == val_of(
            map[map.len() - out.len() + j],
            a,
        ) % scalar_modulus()
}

/// What the constraints on the digits demand is that they are zero or one.
pub proof fn law_demanded_bits_are_binary(z: Seq<AllocatedNum<Fr>>, a: Seq<int>)
    requires
        bits_demanded(z, a),
    ensures
        all_binary(scalar_modulus(), at_all(z, a)),
{
    let p = scalar_modulus();
    Fr::lemma_no_zero_divisors();
    assert forall|i: int| 0 <= i < z.len() implies #[trigger] at_all(z, a)[i] % p == 0 || at_all(
        z,
        a,
    )[i] % p == 1 by {
        let t = z[i].at(a);
        assert(fmul(p, t, 1 - t) == 0);
        if (1 - t) % p == 0 {
            lemma_zero_diff(p, 1, t);
            vstd::arithmetic::div_mod::lemma_small_mod(1, p as nat);
        }
    }
}

impl CompiledArkCircuit {
    /// The rows are there, and their columns fit.
    pub open spec fn rows_fit(self, m: Seq<Vec<(ArkFr, usize)>>) -> bool {
        &&& m.len() >= self.num_constraints
        &&& forall|r: int|
            0 <= r < self.num_constraints ==> row_fits(
                (#[trigger] m[r])@,
                1,
                self.num_witness_vars as nat,
            )
    }

    /// The circuit can be replayed: its only public variable is the constant one, it has private
    /// variables for the digits that go in and those that come out, and its parts fit together.
    pub open spec fn usable(self) -> bool {
        &&& self.num_instance_vars == 1
        &&& self.num_witness_vars >= 512
        &&& self.rows_fit(self.matrices.a@)
        &&& self.rows_fit(self.matrices.b@)
        &&& self.rows_fit(self.matrices.c@)
        &&& match self.witness_assignment {
            Some(w) => w@.len() == self.num_witness_vars,
            None => true,
        }
    }

    /// The value of private variable `i`, if there are values.
    fn witness_value(&self, i: usize) -> (r: Result<Fr, SynthesisError>)
        requires
            self.usable(),
            i < self.num_witness_vars,
        ensures
            match self.witness_assignment {
                Some(w) => r matches Ok(x) && x.val() == w@[i as int].val(),
                None => r == Err::<Fr, _>(SynthesisError::AssignmentMissing),
            },
    {
        match &self.witness_assignment {
            Some(w) => Ok(Bn254Bridge::ark_to_nova(w[i])),
            None => Err(SynthesisError::AssignmentMissing),
        }
    }
}

/// Demands that the numbers are zero or one.
fn demand_bits(cs: &mut ConstraintSystem<Fr>, z: &[AllocatedNum<Fr>])
    requires
        old(cs)@.wf(),
        all_wf(z@, old(cs)@),
    ensures
        old(cs)@.extended_by(final(cs)@),
        final(cs)@.aux == old(cs)@.aux,
        final(cs)@.constraints.len() == old(cs)@.constraints.len() + z@.len(),
        forall|a: Seq<int>| #[trigger]
            new_hold(scalar_modulus(), old(cs)@, final(cs)@, a) <==> bits_demanded(z@, a),
{
    let ghost p = scalar_modulus();
    let ghost s0 = cs@;
    let mut i: usize = 0;
    while i < z.len()
        invariant
            i <= z@.len(),
            p == scalar_modulus(),
            p == Fr::modulus(),
            cs@.wf(),
            s0.extended_by(cs@),
            cs@.aux == s0.aux,
            cs@.constraints.len() == s0.constraints.len() + i,
            all_wf(z@, cs@),
            forall|a: Seq<int>| #[trigger]
                new_hold(p, s0, cs@, a) <==> bits_demanded(z@.take(i as int), a),
        decreases z@.len() - i,
    {
        let ghost s1 = cs@;
        let zi = z[i];
        let x = Lin::var(cs, &zi);
        let one = Lin::constant(cs, Fr::one());
        let y = one.minus(Ghost(cs@), &zi);
        let zero = Lin::zero(cs);
        enforce_product(cs, &x, &y, &zero);
        proof {
            lemma_seed_const::<Fr>(1);
            lemma_seed_const::<Fr>(0);
            lemma_chain(p, s0, s1, cs@);
            lemma_all_grow(z@, s1, cs@);
            assert forall|a: Seq<int>| #[trigger] new_hold(p, s0, cs@, a) <==> bits_demanded(
                z@.take(i + 1),
                a,
            ) by {
                let t = zi.at(a);
                lemma_cong_sub(p, one.at(a), t, 1, t);
                lemma_cong_mul(p, x.at(a), y.at(a), t, 1 - t);
                let (u, v) = (z@.take(i as int), z@.take(i + 1));
                if bits_demanded(v, a) {
                    assert forall|j: int| 0 <= j < u.len() implies ((#[trigger] u[j]).at(a) * (1
                        - u[j].at(a))) % p == 0 by {
                        assert(v[j] == u[j]);
                    }
                    assert(v[i as int] == zi);
                }
                if new_hold(p, s0, cs@, a) {
                    assert(bits_demanded(u, a));
                    assert forall|j: int| 0 <= j < v.len() implies ((#[trigger] v[j]).at(a) * (1
                        - v[j].at(a))) % p == 0 by {
                        if j < i {
                            assert(v[j] == u[j]);
                        }
                    }
                }
            }
        }
        i += 1;
    }
    proof {
        assert(z@.take(z@.len() as int) =~= z@);
    }
}

/// Allocates the private variables of the circuit behind the digits that go in.
fn alloc_rest(cs: &mut ConstraintSystem<Fr>, compiled: &CompiledArkCircuit) -> (r: Result<
    Vec<Variable>,
    SynthesisError,
>)
    requires
        old(cs)@.wf(),
        compiled.usable(),
    ensures
        old(cs)@.extended_by(final(cs)@),
        final(cs)@.constraints == old(cs)@.constraints,
        r is Err <==> old(cs)@.witness && compiled.witness_assignment is None,
        r matches Err(e) ==> e == SynthesisError::AssignmentMissing,
        r matches Ok(v) ==> {
            &&& v@.len() == compiled.num_witness_vars - 256
            &&& final(cs)@.aux.len() == old(cs)@.aux.len() + v@.len()
            &&& all_exist(v@, final(cs)@.aux.len())
            &&& forall|i: int|
                0 <= i < v@.len() ==> #[trigger] v@[i] == Variable(
                    Index::Aux((old(cs)@.aux.len() + i) as usize),
                )
            &&& forall|a: Seq<int>, i: int|
                #![trigger agrees(a, final(cs)@), v@[i]]
                agrees(a, final(cs)@) && 0 <= i < v@.len() ==> val_of(v@[i], a)
                    == compiled.witness_assignment->0@[256 + i].val()
        },
{
    let ghost s0 = cs@;
    let n = compiled.num_witness_vars;
    let mut v: Vec<Variable> = Vec::new();
    let mut i: usize = 256;
    while i < n
        invariant
            256 <= i <= n,
            n == compiled.num_witness_vars,
            compiled.usable(),
            cs@.wf(),
            s0 == old(cs)@,
            s0.extended_by(cs@),
            cs@.constraints == s0.constraints,
            i > 256 ==> !(s0.witness && compiled.witness_assignment is None),
            v@.len() == i - 256,
            cs@.aux.len() == s0.aux.len() + v@.len(),
            forall|j: int|
                0 <= j < v@.len() ==> #[trigger] v@[j] == Variable(
                    Index::Aux((s0.aux.len() + j) as usize),
                ),
            forall|j: int|
                0 <= j < v@.len() ==> (#[trigger] v@[j]).0 is Aux && v@[j].0->Aux_0
                    < cs@.aux.len() && (s0.witness ==> cs@.aux[v@[j].0->Aux_0 as int] == Some(
                    compiled.witness_assignment->0@[256 + j].val(),
                )),
        decreases n - i,
    {
        let ghost s1 = cs@;
        let ghost before = v@;
        let value = compiled.witness_value(i);
        match cs.allocate(value) {
            Ok((var, _)) => v.push(var),
            Err(e) => {
                return Err(e);
            },
        }
        proof {
            lemma_chain(scalar_modulus(), s0, s1, cs@);
            assert forall|j: int| 0 <= j < v@.len() implies (#[trigger] v@[j]).0 is Aux
                && v@[j].0->Aux_0 < cs@.aux.len() && (s0.witness
                ==> cs@.aux[v@[j].0->Aux_0 as int] == Some(
                compiled.witness_assignment->0@[256 + j].val(),
            )) by {
                if j < before.len() {
                    assert(v@[j] == before[j]);
                    assert(cs@.aux[v@[j].0->Aux_0 as int] == s1.aux[v@[j].0->Aux_0 as int]);
                }
            }
        }
        i += 1;
    }
    proof {
        assert forall|a: Seq<int>, j: int|
            #![trigger agrees(a, cs@), v@[j]]
            agrees(a, cs@) && 0 <= j < v@.len() implies val_of(v@[j], a)
            == compiled.witness_assignment->0@[256 + j].val() by {
            let k = v@[j].0->Aux_0 as int;
            assert(cs@.aux[k] == Some(a[k]));
        }
    }
    Ok(v)
}

/// A row of the circuit, read through the map.
fn translate_row(
    row: &Vec<(ArkFr, usize)>,
    map: &Vec<Variable>,
    Ghost(cs): Ghost<CsModel>,
) -> (r: LinearCombination<Fr>)
    requires
        row_fits(row@, 1, map@.len()),
        all_exist(map@, cs.aux.len()),
    ensures
        in_range(r@, cs.aux.len()),
        forall|a: Seq<int>| #[trigger]
            lc_eval(r@, a) % scalar_modulus() == compiled_row(row@, map@, a) % scalar_modulus(),
{
    let one = ConstraintSystem::<Fr>::one();
    let r = ark_row_to_nova_lc::<ArkFr, Fr, Bn254Bridge>(row.as_slice(), 1, one, map.as_slice());
    proof {
        assert forall|v: Variable| #[trigger] mentions(r@, v) implies exists_in(
            v,
            cs.aux.len(),
        ) by {
            let k = choose|k: int|
                0 <= k < row@.len() && column_variable(
                    (#[trigger] row@[k]).1,
                    1,
                    one,
                    map@,
                ) == v;
            assert(column_fits(row@[k].1, 1, map@.len()));
            if row@[k].1 >= 1 {
                assert(exists_in(map@[row@[k].1 - 1], cs.aux.len()));
            }
        }
    }
    r
}

/// Replays the constraints of the circuit.
pub fn replay_rows(
    cs: &mut ConstraintSystem<Fr>,
    compiled: &CompiledArkCircuit,
    map: &Vec<Variable>,
)
    requires
        old(cs)@.wf(),
        compiled.usable(),
        map@.len() == compiled.num_witness_vars,
        all_exist(map@, old(cs)@.aux.len()),
    ensures
        old(cs)@.extended_by(final(cs)@),
        final(cs)@.aux == old(cs)@.aux,
        final(cs)@.constraints.len() == old(cs)@.constraints.len() + compiled.num_constraints,
        forall|a: Seq<int>| #[trigger]
            new_hold(scalar_modulus(), old(cs)@, final(cs)@, a) <==> compiled_holds(
                *compiled,
                map@,
                a,
            ),
{
    let ghost p = scalar_modulus();
    let ghost s0 = cs@;
    let mut r: usize = 0;
    while r < compiled.num_constraints
        invariant
            r <= compiled.num_constraints,
            p == scalar_modulus(),
            p == Fr::modulus(),
            compiled.usable(),
            map@.len() == compiled.num_witness_vars,
            cs@.wf(),
            s0.extended_by(cs@),
            cs@.aux == s0.aux,
            cs@.constraints.len() == s0.constraints.len() + r,
            all_exist(map@, cs@.aux.len()),
            forall|a: Seq<int>| #[trigger]
                new_hold(p, s0, cs@, a) <==> forall|k: int|
                    0 <= k < r ==> #[trigger] compiled_row_holds(*compiled, map@, a, k),
        decreases compiled.num_constraints - r,
    {
        let ghost s1 = cs@;
        assert(row_fits(compiled.matrices.a@[r as int]@, 1, map@.len()));
        assert(row_fits(compiled.matrices.b@[r as int]@, 1, map@.len()));
        assert(row_fits(compiled.matrices.c@[r as int]@, 1, map@.len()));
        let a_lc = translate_row(&compiled.matrices.a[r], map, Ghost(cs@));
        let b_lc = translate_row(&compiled.matrices.b[r], map, Ghost(cs@));
        let c_lc = translate_row(&compiled.matrices.c[r], map, Ghost(cs@));
        let ghost triple = (a_lc@, b_lc@, c_lc@);
        cs.enforce(a_lc, b_lc, c_lc);
        proof {
            Fr::lemma_modulus();
            lemma_chain(p, s0, s1, cs@);
            let n = s1.constraints.len() as int;
            assert(cs@.constraints[n] == triple);
            assert forall|a: Seq<int>| #[trigger] new_hold(p, s0, cs@, a) <==> forall|k: int|
                0 <= k < r + 1 ==> #[trigger] compiled_row_holds(*compiled, map@, a, k) by {
                let (u, v, w) = (
                    lc_eval(triple.0, a),
                    lc_eval(triple.1, a),
                    lc_eval(triple.2, a),
                );
                let row_a = compiled_row(compiled.matrices.a@[r as int]@, map@, a);
                let row_b = compiled_row(compiled.matrices.b@[r as int]@, map@, a);
                lemma_cong_mul(p, u, v, row_a, row_b);
                lemma_zero_diff(p, u * v, w);
                assert(holds(p, triple, a) <==> compiled_row_holds(*compiled, map@, a, r as int));
                if new_hold(p, s1, cs@, a) {
                    assert(holds(p, cs@.constraints[n], a));
                }
                assert(new_hold(p, s1, cs@, a) <==> holds(p, triple, a));
                if new_hold(p, s0, cs@, a) {
                    assert(new_hold(p, s0, s1, a) && new_hold(p, s1, cs@, a));
                }
            }
        }
        r += 1;
    }
}

/// New numbers that equal the last variables of the circuit, the digits that come out.
pub fn bind_outputs(
    cs: &mut ConstraintSystem<Fr>,
    compiled: &CompiledArkCircuit,
    map: &Vec<Variable>,
) -> (r: Result<Vec<AllocatedNum<Fr>>, SynthesisError>)
    requires
        old(cs)@.wf(),
        compiled.usable(),
        map@.len() == compiled.num_witness_vars,
        all_exist(map@, old(cs)@.aux.len()),
    ensures
        old(cs)@.extended_by(final(cs)@),
        r is Err <==> old(cs)@.witness && compiled.witness_assignment is None,
        r matches Err(e) ==> e == SynthesisError::AssignmentMissing,
        r matches Ok(out) ==> {
            &&& out@.len() == 256
            &&& final(cs)@.aux.len() == old(cs)@.aux.len() + 256
            &&& final(cs)@.constraints.len() == old(cs)@.constraints.len() + 256
            &&& all_wf(out@, final(cs)@)
            &&& sit_from(out@, old(cs)@.aux.len() as int)
            &&& forall|a: Seq<int>| #[trigger]
                new_hold(scalar_modulus(), old(cs)@, final(cs)@, a) <==> outputs_bound(
                    out@,
                    map@,
                    a,
                )
            &&& old(cs)@.witness ==> forall|j: int|
                0 <= j < 256 ==> (#[trigger] out@[j]).value is Some && out@[j].value->0.val()
                    == compiled.witness_assignment->0@[compiled.num_witness_vars - 256 + j].val()
        },
{
    let ghost p = scalar_modulus();
    let ghost s0 = cs@;
    let out_start = compiled.num_witness_vars - 256;
    let mut out: Vec<AllocatedNum<Fr>> = Vec::new();
    let mut j: usize = 0;
    while j < 256
        invariant
            j <= 256,
            out_start == compiled.num_witness_vars - 256,
            p == scalar_modulus(),
            p == Fr::modulus(),
            compiled.usable(),
            map@.len() == compiled.num_witness_vars,
            cs@.wf(),
            s0 == old(cs)@,
            s0.extended_by(cs@),
            all_exist(map@, s0.aux.len()),
            j > 0 ==> !(s0.witness && compiled.witness_assignment is None),
            out@.len() == j,
            cs@.aux.len() == s0.aux.len() + j,
            cs@.constraints.len() == s0.constraints.len() + j,
            all_wf(out@, cs@),
            sit_from(out@, s0.aux.len() as int),
            s0.witness ==> forall|k: int|
                0 <= k < j ==> (#[trigger] out@[k]).value is Some && out@[k].value->0.val()
                    == compiled.witness_assignment->0@[out_start + k].val(),
            forall|a: Seq<int>| #[trigger]
                new_hold(p, s0, cs@, a) <==> forall|k: int|
                    0 <= k < j ==> (#[trigger] out@[k]).at(a) % p == val_of(
                        map@[out_start + k],
                        a,
                    ) % p,
        decreases 256 - j,
    {
        let ghost s1 = cs@;
        let ghost before = out@;
        let w_idx: usize = out_start + j;
        let value = compiled.witness_value(w_idx);
        let num = match AllocatedNum::allocate(cs, value) {
            Ok(n) => n,
            Err(e) => {
                return Err(e);
            },
        };
        let ghost s2 = cs@;
        let ghost w = map@[w_idx as int];
        let first = LinearCombination::zero().plus(map[w_idx]);
        let ghost first_model = first@;
        let diff = first.minus(num.variable);
        let one = LinearCombination::zero().plus(ConstraintSystem::<Fr>::one());
        let zero = LinearCombination::zero();
        let ghost triple = (diff@, one@, zero@);
        proof {
            assert(exists_in(w, s0.aux.len()));
            assert forall|v: Variable| #[trigger] mentions(diff@, v) implies exists_in(
                v,
                s2.aux.len(),
            ) by {
                assert(v == w || v == num.variable);
            }
        }
        cs.enforce(diff, one, zero);
        out.push(num);
        proof {
            Fr::lemma_modulus();
            lemma_chain(p, s0, s1, s2);
            lemma_chain(p, s0, s2, cs@);
            lemma_chain(p, s1, s2, cs@);
            lemma_all_grow(before, s1, cs@);
            num.lemma_grow(s2, cs@);
            assert forall|k: int| 0 <= k < out@.len() implies (#[trigger] out@[k]).sits(
                s0.aux.len() + k,
            ) by {
                if k < j {
                    assert(out@[k] == before[k]);
                }
            }
            let n = s2.constraints.len() as int;
            assert(cs@.constraints[n] == triple);
            assert forall|a: Seq<int>| #[trigger] new_hold(p, s0, cs@, a) <==> forall|k: int|
                0 <= k < j + 1 ==> (#[trigger] out@[k]).at(a) % p == val_of(
                    map@[out_start + k],
                    a,
                ) % p by {
                lemma_seed_const::<Fr>(1);
                lemma_seed_const::<Fr>(0);
                let (x, y) = (val_of(w, a), num.at(a));
                lemma_cong_sub(p, lc_eval(first_model, a), y, x, y);
                lemma_cong_mul(p, lc_eval(diff@, a), lc_eval(one@, a), x - y, 1);
                lemma_zero_diff(p, lc_eval(diff@, a) * lc_eval(one@, a), 0);
                lemma_zero_diff(p, x, y);
                assert(holds(p, triple, a) <==> y % p == x % p);
                if new_hold(p, s2, cs@, a) {
                    assert(holds(p, cs@.constraints[n], a));
                }
                assert(new_hold(p, s2, cs@, a) <==> holds(p, triple, a));
                if new_hold(p, s0, cs@, a) {
                    assert(new_hold(p, s0, s2, a) && new_hold(p, s2, cs@, a));
                    assert(new_hold(p, s0, s1, a));
                    assert forall|k: int| 0 <= k < j + 1 implies (#[trigger] out@[k]).at(a) % p
                        == val_of(map@[out_start + k], a) % p by {
                        if k < j {
                            assert(out@[k] == before[k]);
                        }
                    }
                }
                if forall|k: int|
                    0 <= k < j + 1 ==> (#[trigger] out@[k]).at(a) % p == val_of(
                        map@[out_start + k],
                        a,
                    ) % p {
                    assert forall|k: int| 0 <= k < j implies (#[trigger] before[k]).at(a) % p
                        == val_of(map@[out_start + k], a) % p by {
                        assert(out@[k] == before[k]);
                    }
                    assert(new_hold(p, s0, s1, a));
                    assert(out@[j as int] == num);
                    assert(new_hold(p, s0, s2, a) && new_hold(p, s2, cs@, a));
                }
            }
        }
        j += 1;
    }
    proof {
        assert forall|a: Seq<int>| #[trigger] new_hold(p, s0, cs@, a) <==> outputs_bound(
            out@,
            map@,
            a,
        ) by {
            assert(map@.len() - out@.len() == out_start);
        }
    }
    Ok(out)
}

/// What replaying a circuit comes to: the digits that go in are its first private variables, new
/// ones are the others, its constraints are demanded of them, and the digits that come out, which
/// stand behind them, are its last ones. Where there is a witness, the variables take the values of the circuit's own.
pub open spec fn replayed(
    c: CompiledArkCircuit,
    z: Seq<AllocatedNum<Fr>>,
    out: Seq<AllocatedNum<Fr>>,
    before: CsModel,
    after: CsModel,
) -> bool {
    let map = replay_map(z, before.aux.len(), c.num_witness_vars as nat);
    &&& sit_from(out, before.aux.len() + c.num_witness_vars - 256)
    &&& forall|a: Seq<int>| #[trigger]
        new_hold(scalar_modulus(), before, after, a) <==> compiled_holds(c, map, a)
            && outputs_bound(out, map, a)
    &&& forall|a: Seq<int>, i: int|
        #![trigger agrees(a, after), map[i]]
        agrees(a, after) && 256 <= i < map.len() ==> val_of(map[i], a)
            == c.witness_assignment->0@[i].val()
    &&& forall|a: Seq<int>, j: int|
        #![trigger agrees(a, after), out[j]]
        agrees(a, after) && 0 <= j < 256 ==> out[j].at(a)
            == c.witness_assignment->0@[c.num_witness_vars - 256 + j].val()
}

/// Replays a compiled circuit on the given digits.
pub fn replay(
    cs: &mut ConstraintSystem<Fr>,
    z: &[AllocatedNum<Fr>],
    compiled: &CompiledArkCircuit,
) -> (r: Result<Vec<AllocatedNum<Fr>>, SynthesisError>)
    requires
        old(cs)@.wf(),
        compiled.usable(),
        z@.len() == 256,
        all_wf(z@, old(cs)@),
    ensures
        old(cs)@.extended_by(final(cs)@),
        r is Err <==> old(cs)@.witness && compiled.witness_assignment is None,
        r matches Err(e) ==> e == SynthesisError::AssignmentMissing,
        r matches Ok(out) ==> {
            &&& out@.len() == 256
            &&& final(cs)@.aux.len() == old(cs)@.aux.len() + compiled.num_witness_vars
            &&& final(cs)@.constraints.len() == old(cs)@.constraints.len()
                + compiled.num_constraints + 256
            &&& all_wf(out@, final(cs)@)
            &&& replayed(*compiled, z@, out@, old(cs)@, final(cs)@)
        },
{
    let ghost p = scalar_modulus();
    let ghost s0 = cs@;
    let mut inputs: Vec<Variable> = Vec::new();
    let mut i: usize = 0;
    while i < 256
        invariant
            i <= 256,
            z@.len() == 256,
            inputs@ == variables(z@).take(i as int),
        decreases 256 - i,
    {
        inputs.push(z[i].variable);
        i += 1;
        assert(variables(z@).take(i as int) =~= variables(z@).take(i - 1).push(
            variables(z@)[i - 1],
        ));
    }
    assert(variables(z@).take(256) =~= variables(z@));
    let rest = match alloc_rest(cs, compiled) {
        Ok(v) => v,
        Err(e) => {
            return Err(e);
        },
    };
    let ghost s1 = cs@;
    let allocated = |i: usize| -> (v: Variable)
        requires
            256 <= i < 256 + rest@.len(),
        ensures
            v == rest@[i - 256],
        { rest[i - 256] };
    let map = build_witness_map::<Fr, _>(
        inputs.as_slice(),
        256,
        compiled.num_witness_vars,
        allocated,
    );
    proof {
        assert forall|k: int| 256 <= k < map@.len() implies #[trigger] map@[k] == rest@[k - 256] by {
            assert(call_ensures(allocated, (k as usize,), map@[k as usize as int]));
        }
        assert(map@ =~= inputs@ + rest@) by {
            assert forall|k: int| 0 <= k < 256 implies map@[k] == inputs@[k] by {
                assert(map@.take(256)[k] == map@[k]);
            }
        }
        lemma_all_grow(z@, s0, s1);
        assert forall|k: int| 0 <= k < map@.len() implies exists_in(
            #[trigger] map@[k],
            s1.aux.len(),
        ) by {
            if k < 256 {
                assert(map@[k] == z@[k].variable);
                assert(z@[k].wf(s1));
            } else {
                assert(map@[k] == rest@[k - 256]);
            }
        }
    }
    replay_rows(cs, compiled, &map);
    let ghost s2 = cs@;
    let out = match bind_outputs(cs, compiled, &map) {
        Ok(v) => v,
        Err(e) => {
            return Err(e);
        },
    };
    proof {
        lemma_chain(p, s0, s1, s2);
        lemma_chain(p, s0, s2, cs@);
        lemma_chain(p, s1, s2, cs@);
        assert(map@ =~= replay_map(z@, s0.aux.len(), compiled.num_witness_vars as nat)) by {
            assert forall|k: int| 0 <= k < 256 implies #[trigger] map@[k] == z@[k].variable by {
                assert(map@[k] == inputs@[k]);
            }
        }
        assert forall|a: Seq<int>| #[trigger] new_hold(p, s0, cs@, a) <==> compiled_holds(
            *compiled,
            map@,
            a,
        ) && outputs_bound(out@, map@, a) by {
            assert(new_hold(p, s0, s1, a));
            assert(new_hold(p, s0, s2, a) <==> new_hold(p, s1, s2, a));
            assert(new_hold(p, s0, cs@, a) <==> new_hold(p, s0, s2, a) && new_hold(p, s2, cs@, a));
        }
        assert forall|a: Seq<int>, k: int|
            #![trigger agrees(a, cs@), map@[k]]
            agrees(a, cs@) && 256 <= k < map@.len() implies val_of(map@[k], a)
            == compiled.witness_assignment->0@[k].val() by {
            assert(agrees(a, s2) && agrees(a, s1));
            assert(map@[k] == rest@[k - 256]);
        }
        assert forall|a: Seq<int>, j: int|
            #![trigger agrees(a, cs@), out@[j]]
            agrees(a, cs@) && 0 <= j < 256 implies out@[j].at(a)
            == compiled.witness_assignment->0@[compiled.num_witness_vars - 256 + j].val() by {
            assert(out@[j].wf(cs@));
            out@[j].lemma_at(cs@, a);
        }
        assert(replayed(*compiled, z@, out@, s0, cs@));
    }
    Ok(out)
}

/// Every number has a value, and it is zero or one.
pub open spec fn all_bits(z: Seq<AllocatedNum<Fr>>) -> bool {
    forall|i: int|
        0 <= i < z.len() ==> (#[trigger] z[i]).value is Some && (z[i].value->0.val() == 0
            || z[i].value->0.val() == 1)
}

/// Every number has a value.
pub open spec fn all_assigned(z: Seq<AllocatedNum<Fr>>) -> bool {
    forall|i: int| 0 <= i < z.len() ==> (#[trigger] z[i]).value is Some
}

/// The values of the numbers as digits, if every number has one.
fn extract_bits(z: &[AllocatedNum<Fr>]) -> (r: Result<Option<Vec<bool>>, SynthesisError>)
    ensures
        match r {
            Ok(Some(bits)) => {
                &&& all_bits(z@)
                &&& bits@.len() == z@.len()
                &&& forall|i: int|
                    0 <= i < z@.len() ==> (#[trigger] z@[i]).value->0.val() == digit(bits@[i])
            },
            Ok(None) => !all_assigned(z@),
            Err(SynthesisError::Unsatisfiable(text)) => all_assigned(z@) && !all_bits(z@) && text@
                == "expected 0 or 1"@,
            Err(_) => false,
        },
{
    let mut i: usize = 0;
    while i < z.len()
        invariant
            i <= z@.len(),
            forall|j: int| 0 <= j < i ==> (#[trigger] z@[j]).value is Some,
        decreases z@.len() - i,
    {
        if z[i].value.is_none() {
            assert(!(z@[i as int].value is Some));
            return Ok(None);
        }
        i += 1;
    }
    let mut bits: Vec<bool> = Vec::new();
    let mut i: usize = 0;
    while i < z.len()
        invariant
            i <= z@.len(),
            all_assigned(z@),
            bits@.len() == i,
            forall|j: int|
                0 <= j < i ==> (#[trigger] z@[j]).value->0.val() == digit(bits@[j]),
        decreases z@.len() - i,
    {
        let zi = z[i];
        assert(z@[i as int].value is Some);
        let value = match zi.value {
            Some(v) => v,
            None => Fr::zero(),
        };
        match Bn254Bridge::nova_bit(value) {
            Ok(b) => bits.push(b),
            Err(e) => {
                return Err(e);
            },
        }
        i += 1;
    }
    Ok(Some(bits))
}

/// The numbers are binary digits, and those that come out are the ones of the SHA-256 digest of those
/// that go in.
pub open spec fn is_hash(input: Seq<int>, output: Seq<int>) -> bool {
    all_binary(scalar_modulus(), input) && digests(input, output)
}

/// What comes out of a step is what `compute_expected_hash` gives for what goes in: there is one
/// sequence of digits that packs to the digest.
pub proof fn law_step_gives_the_expected_hash(input: Seq<int>, output: Seq<int>, bits: Seq<bool>)
    requires
        input.len() == 256,
        output.len() == 256,
        is_hash(input, output),
        bits.len() == 256,
        packed(bits) == sha256(packed(ones(mod_seq(scalar_modulus(), input)))),
    ensures
        mod_seq(scalar_modulus(), output) == digit_values(bits),
{
    let p = scalar_modulus();
    assert(digits(p, input) =~= ones(mod_seq(p, input)));
    law_packing_is_injective(digits(p, output), bits);
    assert forall|i: int| 0 <= i < 256 implies #[trigger] output[i] % p == digit(bits[i]) by {
        assert(digits(p, output)[i] == bits[i]);
    }
    assert(mod_seq(p, output) =~= digit_values(bits));
}

/// A step of a computation that hashes its state with SHA-256.
#[derive(Clone, Copy, Debug, Default, PartialEq, Eq)]
pub struct NovaArkSha256Step;

impl NovaArkSha256Step {
    /// The step.
    pub fn new() -> (r: Self)
        ensures
            r == NovaArkSha256Step,
    {
        NovaArkSha256Step
    }

    /// The number of field elements of the state: one for each digit.
    pub fn arity(&self) -> (r: usize)
        ensures
            r == 256,
    {
        256
    }

    /// Synthesizes the step on 256 digits: demands that they are zero or one, compiles the
    /// arkworks circuit on their values, and replays it. The numbers that come out are bound to
    /// the last variables of the circuit. Every assignment that satisfies the new constraints
    /// gives them the digits of the digest of those that go in; where there is a witness, it is
    /// such an assignment. Which variables and constraints are new does not depend on values.
    pub fn synthesize(&self, cs: &mut ConstraintSystem<Fr>, z: &[AllocatedNum<Fr>]) -> (r: Result<
        Vec<AllocatedNum<Fr>>,
        SynthesisError,
    >)
        requires
            old(cs)@.wf(),
            z@.len() == 256,
            all_wf(z@, old(cs)@),
        ensures
            old(cs)@.extended_by(final(cs)@),
            match r {
                Ok(out) => {
                    &&& !(old(cs)@.witness && !all_bits(z@))
                    &&& out@.len() == 256
                    &&& all_wf(out@, final(cs)@)
                    &&& exists|c: CompiledArkCircuit| #[trigger]
                        synthesized(c, z@, out@, old(cs)@, final(cs)@)
                    &&& forall|a: Seq<int>| #[trigger]
                        new_hold(scalar_modulus(), old(cs)@, final(cs)@, a) ==> is_hash(
                            at_all(z@, a),
                            at_all(out@, a),
                        )
                    &&& complete(scalar_modulus(), old(cs)@, final(cs)@)
                },
                Err(SynthesisError::Unsatisfiable(text)) => old(cs)@.witness && !all_bits(z@)
                    && text@ == "expected 0 or 1"@,
                Err(_) => false,
            },
    {
        let ghost p = scalar_modulus();
        let ghost s0 = cs@;
        demand_bits(cs, z);
        let ghost s1 = cs@;
        proof {
            lemma_all_grow(z@, s0, s1);
            assert forall|i: int| 0 <= i < z@.len() implies ((#[trigger] z@[i]).value is Some
                <==> s0.witness) by {
                assert(z@[i].wf(s0));
                let v = s0.aux[z@[i].variable.0->Aux_0 as int];
                assert(v is Some <==> s0.witness);
            }
            assert(s0.witness <==> z@[0].value is Some);
        }
        let ark_input_bits = match extract_bits(z) {
            Ok(bits) => bits,
            Err(e) => {
                return Err(e);
            },
        };
        let ghost given = ark_input_bits;
        let ghost input = ArkSha256HashStep { in_bits: given }.input();
        let compiled = match compile_ark_sha256(ark_input_bits) {
            Ok(c) => c,
            Err(e) => {
                return Err(e);
            },
        };
        proof {
            law_compiled_step_is_usable(compiled, input);
        }
        let out = match replay(cs, z, &compiled) {
            Ok(v) => v,
            Err(e) => {
                return Err(e);
            },
        };
        proof {
            lemma_chain(p, s0, s1, cs@);
            let map = replay_map(z@, s0.aux.len(), compiled.num_witness_vars as nat);
            assert(replayed(compiled, z@, out@, s1, cs@));
            assert(map.take(256) =~= variables(z@));
            assert forall|a: Seq<int>| #[trigger] new_hold(p, s0, cs@, a) <==> bits_demanded(z@, a)
                && compiled_holds(compiled, map, a) && outputs_bound(out@, map, a) by {
                assert(new_hold(p, s0, cs@, a) <==> new_hold(p, s0, s1, a) && new_hold(
                    p,
                    s1,
                    cs@,
                    a,
                ));
            }
            assert(compiled_step(compiled, input));
            assert forall|a: Seq<int>| #[trigger] new_hold(p, s0, cs@, a) implies is_hash(
                at_all(z@, a),
                at_all(out@, a),
            ) by {
                lemma_step_sound(compiled, input, z@, out@, map, a);
            }
            assert forall|a: Seq<int>| #[trigger] agrees(a, cs@) implies {
                &&& new_hold(p, s0, cs@, a)
                &&& map_values(map, a) == step_values(Seq::empty(), input)
                &&& at_all(out@, a) == digit_values(digest_digits(input))
            } by {
                assert(agrees(a, s1));
                assert forall|i: int| 0 <= i < 256 implies #[trigger] at_all(z@, a)[i] == digit(
                    input[i],
                ) by {
                    z@[i].lemma_at(s1, a);
                    assert(z@[i].value->0.val() == digit(given->0@[i]));
                }
                lemma_step_complete(compiled, input, z@, out@, map, a);
            }
            assert(records_step(map, out@, cs@, input));
            assert(synthesized(compiled, z@, out@, s0, cs@));
        }
        Ok(out)
    }
}

/// Where there is a witness, the variables of the circuit have the values that arkworks records for
/// the step on the given digits, and the numbers that come out are the digits of the digest.
pub open spec fn records_step(
    map: Seq<Variable>,
    out: Seq<AllocatedNum<Fr>>,
    after: CsModel,
    input: Seq<bool>,
) -> bool {
    forall|a: Seq<int>| #[trigger]
        agrees(a, after) ==> map_values(map, a) == step_values(Seq::empty(), input) && at_all(out, a)
            == digit_values(digest_digits(input))
}

/// What synthesizing a step comes to: the compiled circuit of arkworks is replayed, and the digits
/// that go in are demanded to be zero or one. The rows of the circuit, and with them the numbers of
/// new variables and constraints, are the same for all values.
pub open spec fn synthesized(
    c: CompiledArkCircuit,
    z: Seq<AllocatedNum<Fr>>,
    out: Seq<AllocatedNum<Fr>>,
    before: CsModel,
    after: CsModel,
) -> bool {
    let map = replay_map(z, before.aux.len(), c.num_witness_vars as nat);
    &&& z.len() == 256
    &&& out.len() == 256
    &&& sit_from(out, before.aux.len() + c.num_witness_vars - 256)
    &&& exists|input: Seq<bool>| #[trigger]
        compiled_step(c, input) && records_step(map, out, after, input)
    &&& after.aux.len() == before.aux.len() + c.num_witness_vars
    &&& after.constraints.len() == before.constraints.len() + c.num_constraints + 512
    &&& forall|a: Seq<int>| #[trigger]
        new_hold(scalar_modulus(), before, after, a) <==> bits_demanded(z, a) && compiled_holds(
            c,
            map,
            a,
        ) && outputs_bound(out, map, a)
}

/// Synthesizing a step adds as many variables and as many constraints for some values as for others,
/// and without values. Where the digits that go in stand on the same variables, and the systems had
/// as many, what comes out stands on the same variables too, and the same assignments satisfy the
/// new constraints.
pub proof fn law_synthesis_has_one_shape(
    c: CompiledArkCircuit,
    d: CompiledArkCircuit,
    z: (Seq<AllocatedNum<Fr>>, Seq<AllocatedNum<Fr>>),
    out: (Seq<AllocatedNum<Fr>>, Seq<AllocatedNum<Fr>>),
    s: (CsModel, CsModel),
    t: (CsModel, CsModel),
)
    requires
        synthesized(c, z.0, out.0, s.0, s.1),
        synthesized(d, z.1, out.1, t.0, t.1),
    ensures
        c.matrices@ == d.matrices@,
        s.1.aux.len() - s.0.aux.len() == t.1.aux.len() - t.0.aux.len(),
        s.1.constraints.len() - s.0.constraints.len() == t.1.constraints.len()
            - t.0.constraints.len(),
        variables(z.0) == variables(z.1) && s.0.aux.len() == t.0.aux.len() ==> {
            &&& variables(out.0) == variables(out.1)
            &&& forall|a: Seq<int>| #[trigger]
                new_hold(scalar_modulus(), s.0, s.1, a) <==> new_hold(
                    scalar_modulus(),
                    t.0,
                    t.1,
                    a,
                )
        },
{
    let p = scalar_modulus();
    let x = choose|x: Seq<bool>| #[trigger] compiled_step(c, x);
    let y = choose|y: Seq<bool>| #[trigger] compiled_step(d, y);
    law_step_has_one_shape(c, d, x, y);
    law_compiled_step_is_usable(c, x);
    law_compiled_step_is_usable(d, y);
    if variables(z.0) == variables(z.1) && s.0.aux.len() == t.0.aux.len() {
        let m = replay_map(z.0, s.0.aux.len(), c.num_witness_vars as nat);
        assert forall|i: int| 0 <= i < 256 implies (#[trigger] z.0[i]).variable
            == z.1[i].variable by {
            assert(variables(z.0)[i] == variables(z.1)[i]);
        }
        assert(m =~= replay_map(z.1, t.0.aux.len(), d.num_witness_vars as nat));
        let n = s.0.aux.len() + c.num_witness_vars - 256;
        assert forall|j: int| 0 <= j < 256 implies variables(out.0)[j] == variables(out.1)[j] by {
            assert(out.0[j].sits(n + j) && out.1[j].sits(n + j));
        }
        assert(variables(out.0) =~= variables(out.1));
        assert forall|a: Seq<int>| #[trigger]
            new_hold(p, s.0, s.1, a) <==> new_hold(p, t.0, t.1, a) by {
            lemma_compiled_holds(c, m, a);
            lemma_compiled_holds(d, m, a);
            lemma_shared(z.0, z.1, out.0, out.1, m, a);
        }
    }
}

/// Numbers on the same variables meet the same demands.
proof fn lemma_shared(
    z: Seq<AllocatedNum<Fr>>,
    y: Seq<AllocatedNum<Fr>>,
    out: Seq<AllocatedNum<Fr>>,
    other: Seq<AllocatedNum<Fr>>,
    map: Seq<Variable>,
    a: Seq<int>,
)
    requires
        variables(z) == variables(y),
        variables(out) == variables(other),
        z.len() == y.len(),
        out.len() == other.len(),
    ensures
        bits_demanded(z, a) <==> bits_demanded(y, a),
        outputs_bound(out, map, a) <==> outputs_bound(other, map, a),
{
    assert forall|i: int| 0 <= i < z.len() implies #[trigger] z[i].variable == y[i].variable by {
        assert(variables(z)[i] == z[i].variable && variables(y)[i] == y[i].variable);
    }
    assert forall|j: int| 0 <= j < out.len() implies #[trigger] out[j].variable
        == other[j].variable by {
        assert(variables(out)[j] == out[j].variable && variables(other)[j] == other[j].variable);
    }
    if bits_demanded(z, a) {
        assert forall|i: int| 0 <= i < y.len() implies ((#[trigger] y[i]).at(a) * (1 - y[i].at(a)))
            % scalar_modulus() == 0 by {
            assert(z[i].at(a) == y[i].at(a));
        }
    }
    if bits_demanded(y, a) {
        assert forall|i: int| 0 <= i < z.len() implies ((#[trigger] z[i]).at(a) * (1 - z[i].at(a)))
            % scalar_modulus() == 0 by {
            assert(z[i].at(a) == y[i].at(a));
        }
    }
    assert forall|j: int| 0 <= j < out.len() implies (#[trigger] out[j]).at(a) == other[j].at(a) by {
        assert(out[j].variable == other[j].variable);
    }
    if outputs_bound(out, map, a) {
        assert forall|j: int| 0 <= j < other.len() implies (#[trigger] other[j]).at(a)
            % scalar_modulus() == val_of(map[map.len() - other.len() + j], a)
            % scalar_modulus() by {
            assert(out[j].at(a) == other[j].at(a));
        }
    }
}

/// The values of the variables of a map.
pub open spec fn map_values(map: Seq<Variable>, a: Seq<int>) -> Seq<int> {
    Seq::new(map.len(), |i: int| val_of(map[i], a))
}

/// The compiled step can be replayed.
pub proof fn law_compiled_step_is_usable(c: CompiledArkCircuit, input: Seq<bool>)
    requires
        compiled_step(c, input),
    ensures
        c.usable(),
{
    lemma_rows_fit(c, c.matrices.a@, c.matrices@.a);
    lemma_rows_fit(c, c.matrices.b@, c.matrices@.b);
    lemma_rows_fit(c, c.matrices.c@, c.matrices@.c);
}

/// Rows whose columns are below the bound fit.
proof fn lemma_rows_fit(
    c: CompiledArkCircuit,
    m: Seq<Vec<(ArkFr, usize)>>,
    model: Seq<Seq<(int, usize)>>,
)
    requires
        model == row_values(m),
        m.len() == c.num_constraints,
        columns_below(model, 1 + c.num_witness_vars),
    ensures
        c.rows_fit(m),
{
    assert forall|r: int| 0 <= r < c.num_constraints implies row_fits(
        (#[trigger] m[r])@,
        1,
        c.num_witness_vars as nat,
    ) by {
        assert forall|k: int| 0 <= k < m[r]@.len() implies column_fits(
            (#[trigger] m[r]@[k]).1,
            1,
            c.num_witness_vars as nat,
        ) by {
            assert(model[r][k].1 == m[r]@[k].1);
        }
    }
}

/// A row read through the map has the value of the row on the values of the map.
proof fn lemma_compiled_row(row: Seq<(ArkFr, usize)>, map: Seq<Variable>, a: Seq<int>)
    requires
        row_fits(row, 1, map.len()),
    ensures
        compiled_row(row, map, a) == row_at(row_model(row), 1, Seq::empty(), map_values(map, a)),
{
    let w = map_values(map, a);
    let m = row_model(row);
    let f = |k: int| row_term::<ArkFr, Fr, Bn254Bridge>(row, 1, one_variable(), map, a, k);
    let g = |k: int| m[k].0 * column_value(1, Seq::empty(), w, m[k].1 as int);
    assert forall|k: int| 0 <= k < row.len() implies #[trigger] f(k) == g(k) by {
        assert(column_fits(row[k].1, 1, map.len()));
    }
    lemma_sum_ext(f, g, 0, row.len() as int);
}

/// The constraints of the circuit, read through the map, hold if the rows are satisfied.
pub proof fn lemma_compiled_holds(c: CompiledArkCircuit, map: Seq<Variable>, a: Seq<int>)
    requires
        c.usable(),
        c.matrices.num_instance_variables == 1,
        c.matrices.num_constraints == c.num_constraints,
        c.matrices@.fits(),
        map.len() == c.num_witness_vars,
    ensures
        compiled_holds(c, map, a) <==> c.matrices@.satisfied(Seq::empty(), map_values(map, a)),
{
    let (m, w) = (c.matrices@, map_values(map, a));
    assert forall|r: int| 0 <= r < c.num_constraints implies (#[trigger] compiled_row_holds(
        c,
        map,
        a,
        r,
    ) <==> m.row_satisfied(Seq::empty(), w, r)) by {
        assert(row_fits(c.matrices.a@[r]@, 1, map.len()));
        assert(row_fits(c.matrices.b@[r]@, 1, map.len()));
        assert(row_fits(c.matrices.c@[r]@, 1, map.len()));
        lemma_compiled_row(c.matrices.a@[r]@, map, a);
        lemma_compiled_row(c.matrices.b@[r]@, map, a);
        lemma_compiled_row(c.matrices.c@[r]@, map, a);
    }
    if compiled_holds(c, map, a) {
        assert forall|r: int| 0 <= r < m.num_constraints implies #[trigger] m.row_satisfied(
            Seq::empty(),
            w,
            r,
        ) by {
            assert(compiled_row_holds(c, map, a, r));
        }
    }
    if m.satisfied(Seq::empty(), w) {
        assert forall|r: int| 0 <= r < c.num_constraints implies #[trigger] compiled_row_holds(
            c,
            map,
            a,
            r,
        ) by {
            assert(m.row_satisfied(Seq::empty(), w, r));
        }
    }
}

/// What satisfies the replayed constraints hashes.
proof fn lemma_step_sound(
    c: CompiledArkCircuit,
    input: Seq<bool>,
    z: Seq<AllocatedNum<Fr>>,
    out: Seq<AllocatedNum<Fr>>,
    map: Seq<Variable>,
    a: Seq<int>,
)
    requires
        compiled_step(c, input),
        map.len() == c.num_witness_vars,
        map.take(256) == variables(z),
        z.len() == 256,
        out.len() == 256,
        compiled_holds(c, map, a),
        outputs_bound(out, map, a),
    ensures
        is_hash(at_all(z, a), at_all(out, a)),
{
    let p = scalar_modulus();
    law_compiled_step_is_usable(c, input);
    lemma_compiled_holds(c, map, a);
    let w = map_values(map, a);
    assert(step_relation(0, w));
    let (x, y) = (at_all(z, a), at_all(out, a));
    assert(w.subrange(0, 256) =~= x) by {
        assert forall|i: int| 0 <= i < 256 implies w.subrange(0, 256)[i] == x[i] by {
            assert(map.take(256)[i] == variables(z)[i]);
        }
    }
    let last = w.subrange(w.len() - 256, w.len() as int);
    assert forall|j: int| 0 <= j < 256 implies #[trigger] y[j] % p == last[j] % p by {
        assert(out[j].at(a) % p == val_of(map[map.len() - 256 + j], a) % p);
    }
    assert(digits(p, y) =~= digits(p, last));
    assert forall|j: int| 0 <= j < 256 implies #[trigger] y[j] % p == 0 || y[j] % p == 1 by {
        assert(last[j] % p == 0 || last[j] % p == 1);
    }
}

/// The recorded values satisfy the replayed constraints.
proof fn lemma_step_complete(
    c: CompiledArkCircuit,
    input: Seq<bool>,
    z: Seq<AllocatedNum<Fr>>,
    out: Seq<AllocatedNum<Fr>>,
    map: Seq<Variable>,
    a: Seq<int>,
)
    requires
        compiled_step(c, input),
        input.len() == 256,
        map.len() == c.num_witness_vars,
        map.take(256) == variables(z),
        z.len() == 256,
        out.len() == 256,
        forall|i: int| 0 <= i < 256 ==> #[trigger] at_all(z, a)[i] == digit(input[i]),
        forall|i: int|
            256 <= i < map.len() ==> val_of(#[trigger] map[i], a)
                == c.witness_assignment->0@[i].val(),
        forall|j: int|
            0 <= j < 256 ==> (#[trigger] out[j]).at(a)
                == c.witness_assignment->0@[c.num_witness_vars - 256 + j].val(),
    ensures
        bits_demanded(z, a),
        compiled_holds(c, map, a),
        outputs_bound(out, map, a),
        map_values(map, a) == step_values(Seq::empty(), input),
        at_all(out, a) == digit_values(digest_digits(input)),
{
    let p = scalar_modulus();
    law_compiled_step_is_usable(c, input);
    lemma_compiled_holds(c, map, a);
    let w = ark_vals(c.witness_assignment->0@);
    assert(map_values(map, a) =~= w) by {
        assert forall|i: int| 0 <= i < w.len() implies map_values(map, a)[i] == w[i] by {
            if i < 256 {
                assert(map.take(256)[i] == variables(z)[i]);
                assert(at_all(z, a)[i] == digit(input[i]));
                assert(w[i] == digit_values(input)[i]);
            } else {
                assert(val_of(map[i], a) == w[i]);
            }
        }
    }
    assert forall|i: int| 0 <= i < z.len() implies ((#[trigger] z[i]).at(a) * (1 - z[i].at(a))) % p
        == 0 by {
        assert(at_all(z, a)[i] == digit(input[i]));
        vstd::arithmetic::div_mod::lemma_small_mod(0, p as nat);
    }
    assert forall|j: int| 0 <= j < out.len() implies (#[trigger] out[j]).at(a) % p == val_of(
        map[map.len() - out.len() + j],
        a,
    ) % p by {
        assert(val_of(map[map.len() - 256 + j], a) == w[map.len() - 256 + j]);
    }
    let last = digit_values(digest_digits(input));
    assert forall|j: int| 0 <= j < 256 implies at_all(out, a)[j] == last[j] by {
        assert(out[j].at(a) == w[w.len() - 256 + j]);
        assert(w[w.len() - 256 + j] == last[j]);
    }
    assert(at_all(out, a) =~= last);
}

} // verus!
