//! Rows of arkworks matrices as linear combinations.
//!
//! An arkworks row counts the public variables first, the constant one among them, and the private
//! variables after. Here the private variables are found through a map.
use vstd::prelude::*;
use crate::arith::{lemma_cong_add, sum};
use crate::arkworks::field_bridge::FieldBridge;
use crate::field::Field;
use crate::frontend::{lc_eval, mentions, val_of, LinearCombination, Variable};

verus! {

/// The variable that a column stands for.
pub open spec fn column_variable(
    idx: usize,
    num_instance_vars: usize,
    one_var: Variable,
    witness_map: Seq<Variable>,
) -> Variable {
    if idx < num_instance_vars {
        one_var
    } else {
        witness_map[idx - num_instance_vars]
    }
}

/// The column stands for the constant one or for a variable of the map.
pub open spec fn column_fits(idx: usize, num_instance_vars: usize, num_witness_vars: nat) -> bool {
    if idx < num_instance_vars {
        idx == 0
    } else {
        idx - num_instance_vars < num_witness_vars
    }
}

/// Every column of the row fits.
pub open spec fn row_fits<AF>(
    row: Seq<(AF, usize)>,
    num_instance_vars: usize,
    num_witness_vars: nat,
) -> bool {
    forall|k: int|
        0 <= k < row.len() ==> column_fits(
            (#[trigger] row[k]).1,
            num_instance_vars,
            num_witness_vars,
        )
}

/// What entry `k` of a row contributes under an assignment.
pub open spec fn row_term<AF, NF: Field, B: FieldBridge<AF, NF>>(
    row: Seq<(AF, usize)>,
    num_instance_vars: usize,
    one_var: Variable,
    witness_map: Seq<Variable>,
    a: Seq<int>,
    k: int,
) -> int {
    B::ark_value(row[k].0) * val_of(
        column_variable(row[k].1, num_instance_vars, one_var, witness_map),
        a,
    )
}

/// The value of a row under an assignment.
pub open spec fn row_value<AF, NF: Field, B: FieldBridge<AF, NF>>(
    row: Seq<(AF, usize)>,
    num_instance_vars: usize,
    one_var: Variable,
    witness_map: Seq<Variable>,
    a: Seq<int>,
    n: int,
) -> int {
    sum(
        |k: int| row_term::<AF, NF, B>(row, num_instance_vars, one_var, witness_map, a, k),
        0,
        n,
    )
}

/// The variables that the columns of a row stand for.
pub open spec fn row_variables<AF>(
    row: Seq<(AF, usize)>,
    num_instance_vars: usize,
    one_var: Variable,
    witness_map: Seq<Variable>,
) -> Seq<Variable> {
    Seq::new(
        row.len(),
        |k: int| column_variable(row[k].1, num_instance_vars, one_var, witness_map),
    )
}

/// The linear combination that a row stands for, with one term for each variable that its columns
/// stand for. The columns have to fit.
pub fn ark_row_to_nova_lc<AF: Copy, NF: Field, B: FieldBridge<AF, NF>>(
    row: &[(AF, usize)],
    num_instance_vars: usize,
    one_var: Variable,
    witness_map: &[Variable],
) -> (r: LinearCombination<NF>)
    requires
        row_fits(row@, num_instance_vars, witness_map@.len()),
    ensures
        forall|a: Seq<int>| #[trigger]
            lc_eval(r@, a) % NF::modulus() == row_value::<AF, NF, B>(
                row@,
                num_instance_vars,
                one_var,
                witness_map@,
                a,
                row@.len() as int,
            ) % NF::modulus(),
        forall|v: Variable| #[trigger]
            mentions(r@, v) <==> exists|k: int|
                0 <= k < row@.len() && column_variable(
                    (#[trigger] row@[k]).1,
                    num_instance_vars,
                    one_var,
                    witness_map@,
                ) == v,
        r@.len() == row_variables(
            row@,
            num_instance_vars,
            one_var,
            witness_map@,
        ).to_set().len(),
{
    let ghost p = NF::modulus();
    let ghost vars = row_variables(row@, num_instance_vars, one_var, witness_map@);
    assert(vars.take(0).to_set() =~= Set::empty());
    let mut lc: LinearCombination<NF> = LinearCombination::zero();
    let mut i: usize = 0;
    proof {
        NF::lemma_modulus();
    }
    while i < row.len()
        invariant
            i <= row@.len(),
            p == NF::modulus(),
            p > 1,
            row_fits(row@, num_instance_vars, witness_map@.len()),
            forall|a: Seq<int>| #[trigger]
                lc_eval(lc@, a) % p == row_value::<AF, NF, B>(
                    row@,
                    num_instance_vars,
                    one_var,
                    witness_map@,
                    a,
                    i as int,
                ) % p,
            forall|v: Variable| #[trigger]
                mentions(lc@, v) <==> exists|k: int|
                    0 <= k < i && column_variable(
                        (#[trigger] row@[k]).1,
                        num_instance_vars,
                        one_var,
                        witness_map@,
                    ) == v,
            vars == row_variables(row@, num_instance_vars, one_var, witness_map@),
            lc@.len() == vars.take(i as int).to_set().len(),
        decreases row@.len() - i,
    {
        let ghost before = lc@;
        let (coeff_ark, idx) = row[i];
        let coeff = B::ark_to_nova(coeff_ark);
        let var = ark_var_to_nova::<AF, NF, B>(idx, num_instance_vars, one_var, witness_map);
        lc = lc.add_term(coeff, var);
        proof {
            assert(row@[i as int] == (coeff_ark, idx));
            let known = vars.take(i as int);
            vstd::seq_lib::seq_to_set_is_finite(known);
            assert(vars.take(i + 1) =~= known.push(var));
            assert(known.push(var).to_set() =~= known.to_set().insert(var)) by {
                assert(known.push(var).last() == var);
                assert forall|v: Variable| known.contains(v) implies known.push(var).contains(
                    v,
                ) by {
                    let k = choose|k: int| 0 <= k < known.len() && known[k] == v;
                    assert(known.push(var)[k] == v);
                }
            }
            assert(known.contains(var) <==> mentions(before, var)) by {
                if known.contains(var) {
                    let k = choose|k: int| 0 <= k < known.len() && known[k] == var;
                    assert(row@[k].1 == row@[k].1);
                }
                if mentions(before, var) {
                    let k = choose|k: int|
                        0 <= k < i && column_variable(
                            (#[trigger] row@[k]).1,
                            num_instance_vars,
                            one_var,
                            witness_map@,
                        ) == var;
                    assert(known[k] == var);
                }
            }
            assert forall|a: Seq<int>| #[trigger] lc_eval(lc@, a) % p == row_value::<AF, NF, B>(
                row@,
                num_instance_vars,
                one_var,
                witness_map@,
                a,
                i + 1,
            ) % p by {
                let old_value = row_value::<AF, NF, B>(
                    row@,
                    num_instance_vars,
                    one_var,
                    witness_map@,
                    a,
                    i as int,
                );
                let t = coeff.val() * val_of(var, a);
                lemma_cong_add(p, lc_eval(before, a), t, old_value, t);
            }
            assert forall|v: Variable| #[trigger] mentions(lc@, v) <==> exists|k: int|
                0 <= k < i + 1 && column_variable(
                    (#[trigger] row@[k]).1,
                    num_instance_vars,
                    one_var,
                    witness_map@,
                ) == v by {
                if mentions(before, v) {
                    let k = choose|k: int|
                        0 <= k < i && column_variable(
                            (#[trigger] row@[k]).1,
                            num_instance_vars,
                            one_var,
                            witness_map@,
                        ) == v;
                    assert(0 <= k < i + 1 && row@[k].1 == row@[k].1);
                }
                if v == var {
                    assert(row@[i as int].1 == idx);
                }
            }
        }
        i += 1;
    }
    assert(vars.take(row@.len() as int) =~= vars);
    lc
}

/// The variable that a column stands for. The column has to fit.
pub fn ark_var_to_nova<AF, NF: Field, B: FieldBridge<AF, NF>>(
    idx: usize,
    num_instance_vars: usize,
    one_var: Variable,
    witness_map: &[Variable],
) -> (r: Variable)
    requires
        column_fits(idx, num_instance_vars, witness_map@.len()),
    ensures
        r == column_variable(idx, num_instance_vars, one_var, witness_map@),
{
    if idx < num_instance_vars {
        one_var
    } else {
        witness_map[idx - num_instance_vars]
    }
}

/// The map from the private variables of an arkworks system: the first ones are the inputs of the
/// step, the others are allocated one after the other, each for its index.
pub fn build_witness_map<NF: Field, F: FnMut(usize) -> Variable>(
    input_vars: &[Variable],
    num_input_bits: usize,
    num_ark_witness_vars: usize,
    alloc_fn: F,
) -> (r: Vec<Variable>)
    requires
        input_vars@.len() == num_input_bits,
        forall|i: usize|
            num_input_bits <= i < num_ark_witness_vars ==> call_requires(alloc_fn, (i,)),
    ensures
        r@.len() == if num_ark_witness_vars <= num_input_bits {
            num_input_bits
        } else {
            num_ark_witness_vars
        },
        r@.take(num_input_bits as int) == input_vars@,
        forall|i: usize|
            num_input_bits <= i < num_ark_witness_vars ==> call_ensures(
                alloc_fn,
                (i,),
                #[trigger] r@[i as int],
            ),
{
    let mut alloc_fn = alloc_fn;
    let mut witness_map: Vec<Variable> = Vec::new();
    let mut i: usize = 0;
    while i < num_input_bits
        invariant
            i <= num_input_bits,
            input_vars@.len() == num_input_bits,
            witness_map@ == input_vars@.take(i as int),
        decreases num_input_bits - i,
    {
        witness_map.push(input_vars[i]);
        i += 1;
        assert(input_vars@.take(i as int) =~= input_vars@.take(i - 1).push(input_vars@[i - 1]));
    }
    let ghost start = alloc_fn;
    assert(witness_map@ =~= input_vars@);
    let mut i: usize = num_input_bits;
    while i < num_ark_witness_vars
        invariant
            num_input_bits <= i,
            i <= num_ark_witness_vars || i == num_input_bits,
            input_vars@.len() == num_input_bits,
            alloc_fn == start,
            forall|k: usize|
                num_input_bits <= k < num_ark_witness_vars ==> call_requires(start, (k,)),
            witness_map@.len() == i,
            witness_map@.take(num_input_bits as int) == input_vars@,
            forall|k: usize|
                num_input_bits <= k < i ==> call_ensures(
                    start,
                    (k,),
                    #[trigger] witness_map@[k as int],
                ),
        decreases num_ark_witness_vars - i,
    {
        let ghost before = witness_map@;
        witness_map.push(alloc_fn(i));
        i += 1;
        assert(witness_map@.take(num_input_bits as int) =~= before.take(num_input_bits as int));
    }
    witness_map
}

} // verus!
