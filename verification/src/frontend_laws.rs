//! What holds of every constraint system.
use vstd::prelude::*;
use crate::errors::SynthesisError;
use crate::field::Field;
use crate::frontend::{
    agrees, holds, lc_eval, new_hold, ConstraintSystem, CsModel, Index, LinearCombination,
    Variable,
};

verus! {

/// The value of a variable under values of the private ones: that of its place, if it is private,
/// and one for the constant.
pub open spec fn value_of(v: Variable, a: Seq<int>) -> int {
    match v.0 {
        Index::Aux(i) => a[i as int],
        Index::Input(i) => if i == 0 {
            1
        } else {
            0
        },
    }
}

/// A combination starts at zero, and each term adds its multiple of its variable, under every
/// assignment.
pub proof fn law_terms_add_their_multiples<F: Field>(
    zero: LinearCombination<F>,
    l: LinearCombination<F>,
    c: F,
    v: Variable,
    added: LinearCombination<F>,
    plus: LinearCombination<F>,
    minus: LinearCombination<F>,
    negated: LinearCombination<F>,
    a: Seq<int>,
)
    requires
        call_ensures(LinearCombination::<F>::zero, (), zero),
        call_ensures(LinearCombination::<F>::add_term, (l, c, v), added),
        call_ensures(LinearCombination::<F>::plus, (l, v), plus),
        call_ensures(LinearCombination::<F>::minus, (l, v), minus),
        call_ensures(LinearCombination::<F>::negated, (&l,), negated),
    ensures
        lc_eval(zero@, a) == 0,
        lc_eval(added@, a) % F::modulus() == (lc_eval(l@, a) + c.val() * value_of(v, a))
            % F::modulus(),
        lc_eval(plus@, a) % F::modulus() == (lc_eval(l@, a) + value_of(v, a)) % F::modulus(),
        lc_eval(minus@, a) % F::modulus() == (lc_eval(l@, a) - value_of(v, a)) % F::modulus(),
        lc_eval(negated@, a) % F::modulus() == (-lc_eval(l@, a)) % F::modulus(),
{
}

/// A combination of one term is a multiple of its variable.
pub proof fn law_one_term<F: Field>(
    zero: LinearCombination<F>,
    c: F,
    v: Variable,
    l: LinearCombination<F>,
    a: Seq<int>,
)
    requires
        call_ensures(LinearCombination::<F>::zero, (), zero),
        call_ensures(LinearCombination::<F>::add_term, (zero, c, v), l),
    ensures
        lc_eval(l@, a) % F::modulus() == (c.val() * value_of(v, a)) % F::modulus(),
{
}

/// A new system has no variables and no constraints. A system with a witness is satisfied at first,
/// a shape never.
pub proof fn law_new_systems<F: Field>(
    shape: ConstraintSystem<F>,
    cs: ConstraintSystem<F>,
    r: (bool, bool),
    n: (usize, usize),
    k: (usize, usize),
)
    requires
        call_ensures(ConstraintSystem::<F>::new_shape, (), shape),
        call_ensures(ConstraintSystem::<F>::new_witness, (), cs),
        call_ensures(ConstraintSystem::<F>::is_satisfied, (&shape,), r.0),
        call_ensures(ConstraintSystem::<F>::is_satisfied, (&cs,), r.1),
        call_ensures(ConstraintSystem::<F>::num_aux, (&shape,), n.0),
        call_ensures(ConstraintSystem::<F>::num_aux, (&cs,), n.1),
        call_ensures(ConstraintSystem::<F>::num_constraints, (&shape,), k.0),
        call_ensures(ConstraintSystem::<F>::num_constraints, (&cs,), k.1),
    ensures
        !r.0,
        r.1,
        n.0 == n.1 == k.0 == k.1 == 0,
{
}

/// A new variable goes behind those that are there. Where values are recorded, the given one is
/// recorded for it, and all others stay; no constraint is added.
pub proof fn law_allocation<F: Field>(
    cs: &mut ConstraintSystem<F>,
    x: F,
    out: (Variable, Option<F>),
)
    requires
        call_ensures(
            ConstraintSystem::<F>::allocate,
            (cs, Ok::<F, SynthesisError>(x)),
            Ok(out),
        ),
    ensures
        out.0 == Variable(Index::Aux(old(cs)@.aux.len() as usize)),
        final(cs)@.aux.len() == old(cs)@.aux.len() + 1,
        final(cs)@.constraints == old(cs)@.constraints,
        final(cs)@.witness == old(cs)@.witness,
        old(cs)@.witness ==> {
            let (s, t) = (old(cs)@.values(), final(cs)@.values());
            &&& t.len() == s.len() + 1
            &&& forall|i: int| 0 <= i < s.len() ==> #[trigger] t[i] == s[i]
            &&& t.last() == x.val()
            &&& out.1 == Some(x)
        },
{
}

/// A constraint is added: it alone is new, and an assignment satisfies what is new if and only if
/// the product of the first two combinations is the third. No variable is added.
pub proof fn law_enforcement<F: Field>(
    cs: &mut ConstraintSystem<F>,
    x: LinearCombination<F>,
    y: LinearCombination<F>,
    z: LinearCombination<F>,
    a: Seq<int>,
)
    requires
        call_ensures(ConstraintSystem::<F>::enforce, (cs, x, y, z), ()),
    ensures
        final(cs)@.constraints.len() == old(cs)@.constraints.len() + 1,
        final(cs)@.aux == old(cs)@.aux,
        final(cs)@.witness == old(cs)@.witness,
        new_hold(F::modulus(), old(cs)@, final(cs)@, a) <==> (lc_eval(x@, a) * lc_eval(y@, a)
            - lc_eval(z@, a)) % F::modulus() == 0,
{
    let p = F::modulus();
    let n = old(cs)@.constraints.len() as int;
    assert(final(cs)@.constraints[n] == (x@, y@, z@));
    if new_hold(p, old(cs)@, final(cs)@, a) {
        assert(holds(p, final(cs)@.constraints[n], a));
    }
}

/// With one more constraint, a system is satisfied if and only if it was before and its own values
/// satisfy that constraint too.
pub proof fn law_satisfaction_grows_by_constraints<F: Field>(
    cs: &mut ConstraintSystem<F>,
    x: LinearCombination<F>,
    y: LinearCombination<F>,
    z: LinearCombination<F>,
    before: ConstraintSystem<F>,
    after: ConstraintSystem<F>,
    r: (bool, bool),
)
    requires
        call_ensures(ConstraintSystem::<F>::enforce, (cs, x, y, z), ()),
        *old(cs) == before,
        *final(cs) == after,
        call_ensures(ConstraintSystem::<F>::is_satisfied, (&before,), r.0),
        call_ensures(ConstraintSystem::<F>::is_satisfied, (&after,), r.1),
    ensures
        ({
            let a = before@.values();
            r.1 <==> r.0 && (lc_eval(x@, a) * lc_eval(y@, a) - lc_eval(z@, a)) % F::modulus() == 0
        }),
{
    let p = F::modulus();
    let n = before@.constraints.len() as int;
    let a = before@.values();
    assert(after@.constraints[n] == (x@, y@, z@));
    assert(after@.values() =~= a);
    if r.1 {
        assert(holds(p, after@.constraints[n], a));
        assert forall|k: int| 0 <= k < n implies holds(p, #[trigger] before@.constraints[k], a) by {
            assert(after@.constraints[k] == before@.constraints[k]);
        }
    }
}

/// A system is satisfied by its own values if it is satisfied. By the values of another system it
/// is satisfied if and only if these are recorded, are as many as it has variables, and satisfy all
/// of its constraints.
pub proof fn law_satisfaction_by_values<F: Field>(
    cs: &ConstraintSystem<F>,
    other: &ConstraintSystem<F>,
    r: (bool, bool, bool),
)
    requires
        call_ensures(ConstraintSystem::<F>::is_satisfied, (cs,), r.0),
        call_ensures(ConstraintSystem::<F>::is_satisfied_by, (cs, cs), r.1),
        call_ensures(ConstraintSystem::<F>::is_satisfied_by, (cs, other), r.2),
    ensures
        r.0 == r.1,
        r.2 <==> other@.witness && other@.aux.len() == cs@.aux.len() && new_hold(
            F::modulus(),
            (CsModel { witness: true, aux: Seq::empty(), constraints: Seq::empty() }),
            cs@,
            other@.values(),
        ),
{
}

/// Recorded values agree with the system that records them, and so do longer assignments that start
/// with them; no others do.
pub proof fn law_recorded_values_agree(cs: CsModel, a: Seq<int>)
    requires
        cs.wf(),
        cs.witness,
    ensures
        agrees(cs.values(), cs),
        agrees(a, cs) <==> a.len() >= cs.aux.len() && a.take(cs.aux.len() as int) == cs.values(),
{
    let v = cs.values();
    assert forall|i: int| 0 <= i < cs.aux.len() implies #[trigger] cs.aux[i] == Some(v[i]) by {}
    if agrees(a, cs) {
        assert(a.take(cs.aux.len() as int) =~= v);
    }
    if a.len() >= cs.aux.len() && a.take(cs.aux.len() as int) == v {
        assert forall|i: int| 0 <= i < cs.aux.len() implies #[trigger] cs.aux[i] == Some(a[i]) by {
            assert(a.take(cs.aux.len() as int)[i] == v[i]);
        }
    }
}

/// New constraints add up: those of two steps hold if and only if those of each step hold.
pub proof fn law_new_constraints_add_up(p: int, s: CsModel, t: CsModel, u: CsModel, a: Seq<int>)
    requires
        s.extended_by(t),
        t.extended_by(u),
    ensures
        new_hold(p, s, u, a) <==> new_hold(p, s, t, a) && new_hold(p, t, u, a),
        new_hold(p, s, s, a),
{
    crate::frontend::lemma_chain(p, s, t, u);
}

} // verus!
