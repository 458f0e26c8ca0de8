//! The circuit frontend: variables, linear combinations and constraint systems.
use vstd::prelude::*;
use crate::arith::{
    fadd, fmul, group_is, is, lemma_cong_add, lemma_cong_mul, lemma_cong_sub, lemma_mod,
    lemma_sum_ext, sum,
};
use crate::errors::SynthesisError;
use crate::field::{copy_vec, lemma_seed, lemma_seed_const, Field};

verus! {

/// The place of a variable.
#[derive(Clone, Copy, Debug, PartialEq, Eq, Structural)]
pub enum Index {
    /// A public variable. The first one is the constant one.
    Input(usize),
    /// A private variable.
    Aux(usize),
}

/// A variable of a circuit.
#[derive(Clone, Copy, Debug, PartialEq, Eq, Structural)]
pub struct Variable(pub Index);

impl Variable {
    /// The variable at a place, which need not exist.
    pub fn new_unchecked(idx: Index) -> (r: Variable)
        ensures
            r == Variable(idx),
    {
        Variable(idx)
    }

    /// The place of the variable.
    pub fn get_unchecked(&self) -> (r: Index)
        ensures
            r == self.0,
    {
        self.0
    }
}

/// The value of a variable under an assignment of the private variables. The constant is one, and
/// there are no other public variables.
pub open spec fn val_of(v: Variable, a: Seq<int>) -> int {
    match v.0 {
        Index::Input(i) => if i == 0 {
            1
        } else {
            0
        },
        Index::Aux(i) => a[i as int],
    }
}

/// A linear combination as the sequence of its terms.
pub type LcModel = Seq<(Variable, int)>;

/// What term `k` contributes.
pub open spec fn lc_term(l: LcModel, a: Seq<int>, k: int) -> int {
    l[k].1 * val_of(l[k].0, a)
}

/// The value of a linear combination under an assignment.
pub open spec fn lc_eval(l: LcModel, a: Seq<int>) -> int {
    sum(|k: int| lc_term(l, a, k), 0, l.len() as int)
}

/// The linear combination has a term for the variable.
pub open spec fn mentions(l: LcModel, v: Variable) -> bool {
    exists|k: int| 0 <= k < l.len() && #[trigger] l[k].0 == v
}

/// The variable exists in a system with `n` private variables.
pub open spec fn exists_in(v: Variable, n: nat) -> bool {
    match v.0 {
        Index::Input(i) => true,
        Index::Aux(i) => i < n,
    }
}

/// The combination only has terms for variables that exist.
pub open spec fn in_range(l: LcModel, n: nat) -> bool {
    forall|v: Variable| #[trigger] mentions(l, v) ==> exists_in(v, n)
}

/// A linear combination of variables, with one term for each.
#[derive(Clone, Debug, PartialEq, Eq)]
pub struct LinearCombination<F> {
    terms: Vec<(Variable, F)>,
}

impl<F: Field> LinearCombination<F> {
    /// The terms, with representatives for coefficients.
    pub closed spec fn view(self) -> LcModel {
        Seq::new(self.terms@.len(), |k: int| (self.terms@[k].0, self.terms@[k].1.val()))
    }

    /// The empty combination.
    pub fn zero() -> (r: Self)
        ensures
            r@ == LcModel::empty(),
            forall|a: Seq<int>| #[trigger] lc_eval(r@, a) == 0,
            forall|v: Variable| !#[trigger] mentions(r@, v),
    {
        let r = LinearCombination { terms: Vec::new() };
        assert(r@ =~= LcModel::empty());
        r
    }

    /// The number of terms.
    pub fn len(&self) -> (r: usize)
        ensures
            r == self@.len(),
    {
        self.terms.len()
    }

    /// Whether there are no terms.
    pub fn is_empty(&self) -> (r: bool)
        ensures
            r == (self@.len() == 0),
    {
        self.terms.len() == 0
    }

    /// Adds a multiple of a variable. A variable that has a term keeps that one term.
    pub fn add_term(self, coeff: F, var: Variable) -> (r: Self)
        ensures
            forall|a: Seq<int>| #[trigger] lc_eval(r@, a) % F::modulus() == (lc_eval(self@, a)
                + coeff.val() * val_of(var, a)) % F::modulus(),
            forall|v: Variable| #[trigger] mentions(r@, v) <==> mentions(self@, v) || v == var,
            r@.len() == self@.len() + if mentions(self@, var) {
                0int
            } else {
                1
            },
    {
        let ghost p = F::modulus();
        let ghost old_terms = self@;
        proof {
            F::lemma_modulus();
        }
        let mut terms = self.terms;
        let n = terms.len();
        let mut i: usize = 0;
        while i < n
            invariant
                i <= n,
                n == terms@.len(),
                terms == self.terms,
                old_terms == self@,
                p == F::modulus(),
                p > 0,
                forall|k: int| 0 <= k < i ==> #[trigger] old_terms[k].0 != var,
            decreases n - i,
        {
            let (v, c) = terms[i];
            if v == var {
                let s = c.add(coeff);
                terms.set(i, (v, s));
                let r = LinearCombination { terms };
                proof {
                    assert(old_terms[i as int] == (v, c.val()));
                    assert(r@ =~= old_terms.update(i as int, (v, s.val())));
                    assert(mentions(old_terms, var));
                    assert forall|a: Seq<int>| #[trigger] lc_eval(r@, a) % p == (lc_eval(
                        old_terms,
                        a,
                    ) + coeff.val() * val_of(var, a)) % p by {
                        lemma_lc_update(p, old_terms, i as int, s.val(), coeff.val(), a);
                    }
                    assert forall|w: Variable| #[trigger] mentions(r@, w) <==> mentions(
                        old_terms,
                        w,
                    ) || w == var by {
                        if mentions(r@, w) {
                            let k = choose|k: int| 0 <= k < r@.len() && #[trigger] r@[k].0 == w;
                            assert(old_terms[k].0 == w);
                        }
                        if mentions(old_terms, w) {
                            let k = choose|k: int|
                                0 <= k < old_terms.len() && #[trigger] old_terms[k].0 == w;
                            assert(r@[k].0 == w);
                        }
                    }
                }
                return r;
            }
            proof {
                assert(old_terms[i as int].0 == v);
            }
            i += 1;
        }
        terms.push((var, coeff));
        let r = LinearCombination { terms };
        proof {
            assert(r@ =~= old_terms.push((var, coeff.val())));
            assert(!mentions(old_terms, var));
            assert forall|a: Seq<int>| #[trigger] lc_eval(r@, a) % p == (lc_eval(old_terms, a)
                + coeff.val() * val_of(var, a)) % p by {
                lemma_lc_push(old_terms, var, coeff.val(), a);
            }
            assert forall|w: Variable| #[trigger] mentions(r@, w) <==> mentions(old_terms, w) || w
                == var by {
                if mentions(old_terms, w) {
                    let k = choose|k: int|
                        0 <= k < old_terms.len() && #[trigger] old_terms[k].0 == w;
                    assert(r@[k].0 == w);
                }
                assert(r@[old_terms.len() as int].0 == var);
            }
        }
        r
    }

    /// Adds a variable.
    pub fn plus(self, var: Variable) -> (r: Self)
        ensures
            forall|a: Seq<int>| #[trigger] lc_eval(r@, a) % F::modulus() == (lc_eval(self@, a)
                + val_of(var, a)) % F::modulus(),
            forall|v: Variable| #[trigger] mentions(r@, v) <==> mentions(self@, v) || v == var,
    {
        self.add_term(F::one(), var)
    }

    /// Subtracts a variable.
    pub fn minus(self, var: Variable) -> (r: Self)
        ensures
            forall|a: Seq<int>| #[trigger] lc_eval(r@, a) % F::modulus() == (lc_eval(self@, a)
                - val_of(var, a)) % F::modulus(),
            forall|v: Variable| #[trigger] mentions(r@, v) <==> mentions(self@, v) || v == var,
    {
        let ghost p = F::modulus();
        let one = F::one();
        let m = F::zero().sub(one);
        let r = self.add_term(m, var);
        proof {
            lemma_seed_const::<F>(0);
            lemma_seed_const::<F>(1);
            broadcast use group_is;

            assert(is(p, m.val(), 0 - 1));
            lemma_mod(p, 0 - 1);
            assert forall|a: Seq<int>| #[trigger] lc_eval(r@, a) % p == (lc_eval(self@, a)
                - val_of(var, a)) % p by {
                let v = val_of(var, a);
                lemma_cong_mul(p, m.val(), v, -1, v);
                lemma_cong_add(p, lc_eval(self@, a), m.val() * v, lc_eval(self@, a), -1 * v);
            }
        }
        r
    }

    /// The combination with every sign turned.
    pub fn negated(&self) -> (r: Self)
        ensures
            forall|a: Seq<int>| #[trigger] lc_eval(r@, a) % F::modulus() == (-lc_eval(self@, a))
                % F::modulus(),
            forall|v: Variable| #[trigger] mentions(r@, v) <==> mentions(self@, v),
            r@.len() == self@.len(),
    {
        let ghost p = F::modulus();
        let mut terms: Vec<(Variable, F)> = Vec::new();
        let mut k: usize = 0;
        proof {
            F::lemma_modulus();
        }
        while k < self.terms.len()
            invariant
                k <= self.terms@.len(),
                p == F::modulus(),
                terms@.len() == k,
                forall|j: int|
                    0 <= j < k ==> (#[trigger] terms@[j]).0 == self.terms@[j].0 && terms@[j].1.val()
                        == (-self.terms@[j].1.val()) % p,
            decreases self.terms@.len() - k,
        {
            let (v, c) = self.terms[k];
            terms.push((v, F::zero().sub(c)));
            k += 1;
        }
        let r = LinearCombination { terms };
        proof {
            assert forall|j: int| 0 <= j < r@.len() implies (#[trigger] r@[j]).0 == self@[j].0
                && r@[j].1 == (-self@[j].1) % p by {
                assert(terms@[j].0 == self.terms@[j].0);
            }
            assert forall|a: Seq<int>| #[trigger] lc_eval(r@, a) % p == (-lc_eval(self@, a)) % p by {
                lemma_lc_negated(p, self@, r@, a, r@.len() as int);
            }
            assert forall|v: Variable| #[trigger] mentions(r@, v) <==> mentions(self@, v) by {
                if mentions(r@, v) {
                    let j = choose|j: int| 0 <= j < r@.len() && #[trigger] r@[j].0 == v;
                    assert(self@[j].0 == v);
                }
                if mentions(self@, v) {
                    let j = choose|j: int| 0 <= j < self@.len() && #[trigger] self@[j].0 == v;
                    assert(r@[j].0 == v);
                }
            }
        }
        r
    }

    /// The combination again.
    pub fn duplicate(&self) -> (r: Self)
        ensures
            r@ == self@,
    {
        let terms = copy_vec(&self.terms);
        LinearCombination { terms }
    }
}

/// The value of a combination with one more term.
proof fn lemma_lc_push(l: LcModel, var: Variable, c: int, a: Seq<int>)
    ensures
        lc_eval(l.push((var, c)), a) == lc_eval(l, a) + c * val_of(var, a),
{
    let m = l.push((var, c));
    let n = l.len() as int;
    lemma_sum_ext(|k: int| lc_term(m, a, k), |k: int| lc_term(l, a, k), 0, n);
    assert(lc_term(m, a, n) == c * val_of(var, a));
}

/// The value of a combination with a coefficient raised by `d`.
proof fn lemma_lc_update(p: int, l: LcModel, i: int, c: int, d: int, a: Seq<int>)
    requires
        p > 0,
        0 <= i < l.len(),
        c == fadd(p, l[i].1, d),
    ensures
        lc_eval(l.update(i, (l[i].0, c)), a) % p == (lc_eval(l, a) + d * val_of(l[i].0, a)) % p,
{
    let m = l.update(i, (l[i].0, c));
    let n = l.len() as int;
    let f = |k: int| lc_term(m, a, k);
    let g = |k: int| lc_term(l, a, k);
    crate::arith::lemma_sum_split(f, 0, i, n);
    crate::arith::lemma_sum_split(g, 0, i, n);
    crate::arith::lemma_sum_split(f, i, i + 1, n);
    crate::arith::lemma_sum_split(g, i, i + 1, n);
    lemma_sum_ext(f, g, 0, i);
    lemma_sum_ext(f, g, i + 1, n);
    reveal_with_fuel(sum, 2);
    assert(sum(f, i, i + 1) == f(i));
    assert(sum(g, i, i + 1) == g(i));
    let v = val_of(l[i].0, a);
    let (x, y, z) = (sum(f, 0, i), l[i].1, sum(f, i + 1, n));
    lemma_mod(p, y + d);
    lemma_cong_mul(p, c, v, y + d, v);
    lemma_cong_add(p, c * v, x + z, (y + d) * v, x + z);
    assert((y + d) * v == y * v + d * v) by (nonlinear_arith);
}

/// Turning every sign turns the sign of the value.
proof fn lemma_lc_negated(p: int, l: LcModel, m: LcModel, a: Seq<int>, n: int)
    requires
        p > 0,
        l.len() == m.len(),
        0 <= n <= l.len(),
        forall|j: int|
            0 <= j < l.len() ==> (#[trigger] m[j]).0 == l[j].0 && m[j].1 == (-l[j].1) % p,
    ensures
        sum(|k: int| lc_term(m, a, k), 0, n) % p == (-sum(|k: int| lc_term(l, a, k), 0, n)) % p,
    decreases n,
{
    if n > 0 {
        lemma_lc_negated(p, l, m, a, n - 1);
        let (f, g) = (|k: int| lc_term(m, a, k), |k: int| lc_term(l, a, k));
        let (c, v) = (l[n - 1].1, val_of(l[n - 1].0, a));
        assert(m[n - 1].0 == l[n - 1].0);
        lemma_mod(p, -c);
        lemma_cong_mul(p, m[n - 1].1, v, -c, v);
        assert((-c) * v == -(c * v)) by (nonlinear_arith);
        assert(f(n - 1) % p == (-g(n - 1)) % p);
        lemma_cong_add(p, sum(f, 0, n - 1), f(n - 1), -sum(g, 0, n - 1), -g(n - 1));
    }
}

/// A constraint: the product of the first two combinations equals the third.
pub type ConstraintModel = (LcModel, LcModel, LcModel);

/// The assignment satisfies the constraint modulo `p`.
pub open spec fn holds(p: int, c: ConstraintModel, a: Seq<int>) -> bool {
    (lc_eval(c.0, a) * lc_eval(c.1, a) - lc_eval(c.2, a)) % p == 0
}

/// The constraint only has terms for variables that exist.
pub open spec fn closed(c: ConstraintModel, n: nat) -> bool {
    in_range(c.0, n) && in_range(c.1, n) && in_range(c.2, n)
}

/// A constraint system: its private variables, with their values if it holds a witness, and its
/// constraints.
pub struct CsModel {
    pub witness: bool,
    pub aux: Seq<Option<int>>,
    pub constraints: Seq<ConstraintModel>,
}

impl CsModel {
    /// Every private variable has a value, or none has; and the constraints are on variables that
    /// exist.
    pub open spec fn wf(self) -> bool {
        &&& forall|i: int|
            0 <= i < self.aux.len() ==> (#[trigger] self.aux[i] is Some <==> self.witness)
        &&& forall|k: int|
            0 <= k < self.constraints.len() ==> closed(
                #[trigger] self.constraints[k],
                self.aux.len(),
            )
    }

    /// The values of the private variables.
    pub open spec fn values(self) -> Seq<int> {
        Seq::new(self.aux.len(), |i: int| self.aux[i]->0)
    }

    /// There is a witness, and it satisfies every constraint modulo `p`.
    pub open spec fn satisfied(self, p: int) -> bool {
        &&& self.witness
        &&& forall|k: int|
            0 <= k < self.constraints.len() ==> holds(
                p,
                #[trigger] self.constraints[k],
                self.values(),
            )
    }

    /// The witness of `other`, which has as many private variables, satisfies every constraint of
    /// `self` modulo `p`.
    pub open spec fn satisfied_by(self, p: int, other: CsModel) -> bool {
        &&& other.witness
        &&& other.aux.len() == self.aux.len()
        &&& forall|k: int|
            0 <= k < self.constraints.len() ==> holds(
                p,
                #[trigger] self.constraints[k],
                other.values(),
            )
    }

    /// `other` has the variables and the constraints of `self`, and maybe more.
    pub open spec fn extended_by(self, other: CsModel) -> bool {
        &&& other.wf()
        &&& other.witness == self.witness
        &&& self.aux.len() <= other.aux.len()
        &&& forall|i: int| 0 <= i < self.aux.len() ==> #[trigger] other.aux[i] == self.aux[i]
        &&& self.constraints.len() <= other.constraints.len()
        &&& forall|k: int|
            0 <= k < self.constraints.len() ==> #[trigger] other.constraints[k]
                == self.constraints[k]
    }
}

/// The assignment satisfies the constraints that `after` has more than `before`.
pub open spec fn new_hold(p: int, before: CsModel, after: CsModel, a: Seq<int>) -> bool {
    forall|k: int|
        before.constraints.len() <= k < after.constraints.len() ==> holds(
            p,
            #[trigger] after.constraints[k],
            a,
        )
}

/// The assignment takes the values that the witness gives.
pub open spec fn agrees(a: Seq<int>, cs: CsModel) -> bool {
    &&& cs.witness
    &&& cs.aux.len() <= a.len()
    &&& forall|i: int| 0 <= i < cs.aux.len() ==> #[trigger] cs.aux[i] == Some(a[i])
}

/// The whole of the new constraints holds exactly if both parts do.
pub proof fn lemma_new_hold_split(p: int, s: CsModel, m: CsModel, t: CsModel, a: Seq<int>)
    requires
        s.extended_by(m),
        m.extended_by(t),
    ensures
        new_hold(p, s, t, a) <==> new_hold(p, s, m, a) && new_hold(p, m, t, a),
{
    if new_hold(p, s, t, a) {
        assert forall|k: int| s.constraints.len() <= k < m.constraints.len() implies holds(
            p,
            #[trigger] m.constraints[k],
            a,
        ) by {
            assert(t.constraints[k] == m.constraints[k]);
        }
    }
    if new_hold(p, s, m, a) && new_hold(p, m, t, a) {
        assert forall|k: int| s.constraints.len() <= k < t.constraints.len() implies holds(
            p,
            #[trigger] t.constraints[k],
            a,
        ) by {
            if k < m.constraints.len() {
                assert(t.constraints[k] == m.constraints[k]);
                assert(holds(p, m.constraints[k], a));
            }
        }
    }
}

/// What follows from extending a system twice.
pub proof fn lemma_chain(p: int, s: CsModel, m: CsModel, t: CsModel)
    requires
        s.extended_by(m),
        m.extended_by(t),
    ensures
        s.extended_by(t),
        forall|a: Seq<int>| #[trigger] agrees(a, t) ==> agrees(a, m),
        forall|a: Seq<int>| #[trigger]
            new_hold(p, s, t, a) <==> new_hold(p, s, m, a) && new_hold(p, m, t, a),
{
    lemma_extended_trans(s, m, t);
    assert forall|a: Seq<int>| #[trigger]
        new_hold(p, s, t, a) <==> new_hold(p, s, m, a) && new_hold(p, m, t, a) by {
        lemma_new_hold_split(p, s, m, t, a);
    }
}

/// Extension is transitive, and an assignment that agrees with the larger system agrees with the
/// smaller.
pub proof fn lemma_extended_trans(s: CsModel, m: CsModel, t: CsModel)
    requires
        s.extended_by(m),
        m.extended_by(t),
    ensures
        s.extended_by(t),
        forall|a: Seq<int>| #[trigger] agrees(a, t) ==> agrees(a, m),
{
    assert forall|i: int| 0 <= i < s.aux.len() implies #[trigger] t.aux[i] == s.aux[i] by {
        assert(m.aux[i] == s.aux[i]);
    }
    assert forall|k: int| 0 <= k < s.constraints.len() implies #[trigger] t.constraints[k]
        == s.constraints[k] by {
        assert(m.constraints[k] == s.constraints[k]);
    }
    assert forall|a: Seq<int>| #[trigger] agrees(a, t) implies agrees(a, m) by {
        assert forall|i: int| 0 <= i < m.aux.len() implies #[trigger] m.aux[i] == Some(a[i]) by {
            assert(t.aux[i] == m.aux[i]);
        }
    }
}

/// A combination of old variables keeps its value when the system grows.
proof fn lemma_lc_grow(l: LcModel, s: CsModel, t: CsModel)
    requires
        in_range(l, s.aux.len()),
        s.extended_by(t),
    ensures
        lc_eval(l, s.values()) == lc_eval(l, t.values()),
{
    let (f, g) = (|k: int| lc_term(l, s.values(), k), |k: int| lc_term(l, t.values(), k));
    assert forall|k: int| 0 <= k < l.len() implies #[trigger] f(k) == g(k) by {
        let v = l[k].0;
        assert(0 <= k < l.len() && l[k].0 == v);
        assert(mentions(l, v));
        assert(exists_in(v, s.aux.len()));
        if v.0 is Aux {
            let i = v.0->Aux_0 as int;
            assert(t.aux[i] == s.aux[i]);
        }
    }
    lemma_sum_ext(f, g, 0, l.len() as int);
}

/// A witness that satisfies the constraints of another system goes on to satisfy them when both
/// systems grow alike, if it satisfies the new ones.
pub proof fn law_shape_satisfied_grows(p: int, s: CsModel, t: CsModel, u: CsModel, v: CsModel)
    requires
        s.wf(),
        u.wf(),
        s.extended_by(t),
        u.extended_by(v),
        u.satisfied_by(p, s),
        t.aux.len() == v.aux.len(),
        new_hold(p, u, v, t.values()),
    ensures
        v.satisfied_by(p, t),
{
    assert forall|k: int| 0 <= k < v.constraints.len() implies holds(
        p,
        #[trigger] v.constraints[k],
        t.values(),
    ) by {
        if k < u.constraints.len() {
            let c = u.constraints[k];
            assert(v.constraints[k] == c);
            assert(closed(c, u.aux.len()));
            assert(holds(p, c, s.values()));
            lemma_lc_grow(c.0, s, t);
            lemma_lc_grow(c.1, s, t);
            lemma_lc_grow(c.2, s, t);
        }
    }
}

/// A satisfied system stays satisfied when it grows by constraints that the witness satisfies.
pub proof fn law_satisfied_grows(p: int, s: CsModel, t: CsModel)
    requires
        s.wf(),
        s.satisfied(p),
        s.extended_by(t),
        new_hold(p, s, t, t.values()),
    ensures
        t.satisfied(p),
{
    assert forall|k: int| 0 <= k < t.constraints.len() implies holds(
        p,
        #[trigger] t.constraints[k],
        t.values(),
    ) by {
        if k < s.constraints.len() {
            let c = s.constraints[k];
            assert(t.constraints[k] == c);
            assert(closed(c, s.aux.len()));
            assert(holds(p, c, s.values()));
            lemma_lc_grow(c.0, s, t);
            lemma_lc_grow(c.1, s, t);
            lemma_lc_grow(c.2, s, t);
        }
    }
}

/// A constraint system that records its variables and constraints. It either holds a value for
/// every private variable, or none at all.
pub struct ConstraintSystem<F> {
    witness: bool,
    aux: Vec<Option<F>>,
    constraints: Vec<(LinearCombination<F>, LinearCombination<F>, LinearCombination<F>)>,
}

/// The representative of a value, if there is one.
pub open spec fn opt_val<F: Field>(v: Option<F>) -> Option<int> {
    match v {
        Some(x) => Some(x.val()),
        None => None,
    }
}

impl<F: Field> ConstraintSystem<F> {
    /// The mathematical constraint system.
    pub closed spec fn view(self) -> CsModel {
        CsModel {
            witness: self.witness,
            aux: Seq::new(self.aux@.len(), |i: int| opt_val(self.aux@[i])),
            constraints: Seq::new(
                self.constraints@.len(),
                |k: int|
                    (
                        self.constraints@[k].0@,
                        self.constraints@[k].1@,
                        self.constraints@[k].2@,
                    ),
            ),
        }
    }

    /// An empty system that records the shape of a circuit.
    pub fn new_shape() -> (r: Self)
        ensures
            r@.wf(),
            !r@.witness,
            r@.aux.len() == 0,
            r@.constraints.len() == 0,
    {
        ConstraintSystem { witness: false, aux: Vec::new(), constraints: Vec::new() }
    }

    /// An empty system that records a witness as well.
    pub fn new_witness() -> (r: Self)
        ensures
            r@.wf(),
            r@.witness,
            r@.aux.len() == 0,
            r@.constraints.len() == 0,
    {
        ConstraintSystem { witness: true, aux: Vec::new(), constraints: Vec::new() }
    }

    /// The variable that is the constant one.
    pub fn one() -> (r: Variable)
        ensures
            r == Variable(Index::Input(0)),
    {
        Variable(Index::Input(0))
    }

    /// Whether the system records a witness.
    pub fn has_witness(&self) -> (r: bool)
        ensures
            r == self@.witness,
    {
        self.witness
    }

    /// The number of private variables.
    pub fn num_aux(&self) -> (r: usize)
        ensures
            r == self@.aux.len(),
    {
        self.aux.len()
    }

    /// The number of constraints.
    pub fn num_constraints(&self) -> (r: usize)
        ensures
            r == self@.constraints.len(),
    {
        self.constraints.len()
    }

    /// A new private variable. Only a system that holds a witness looks at the value, and passes
    /// the error on where there is none.
    pub fn allocate(&mut self, value: Result<F, SynthesisError>) -> (r: Result<
        (Variable, Option<F>),
        SynthesisError,
    >)
        requires
            old(self)@.wf(),
        ensures
            final(self)@.wf(),
            match r {
                Ok((v, x)) => {
                    &&& v == Variable(Index::Aux(old(self)@.aux.len() as usize))
                    &&& old(self)@.aux.len() <= usize::MAX
                    &&& old(self)@.witness ==> value is Ok && x == Some(value->Ok_0)
                    &&& !old(self)@.witness ==> x is None
                    &&& final(self)@ == (CsModel {
                        aux: old(self)@.aux.push(opt_val(x)),
                        ..old(self)@
                    })
                },
                Err(e) => {
                    &&& old(self)@.witness
                    &&& value is Err
                    &&& e == value->Err_0
                    &&& final(self)@ == old(self)@
                },
            },
    {
        let x = if self.witness {
            match value {
                Ok(v) => Some(v),
                Err(e) => {
                    return Err(e);
                },
            }
        } else {
            None
        };
        let i = self.aux.len();
        self.aux.push(x);
        proof {
            assert(self@.aux =~= old(self)@.aux.push(opt_val(x)));
            assert(self@.constraints =~= old(self)@.constraints);
            assert forall|k: int| 0 <= k < self@.aux.len() implies (#[trigger] self@.aux[k] is Some
                <==> self@.witness) by {
                if k < old(self)@.aux.len() {
                    assert(old(self)@.aux[k] is Some <==> old(self)@.witness);
                }
            }
            assert forall|k: int| 0 <= k < self@.constraints.len() implies closed(
                #[trigger] self@.constraints[k],
                self@.aux.len(),
            ) by {
                assert(closed(old(self)@.constraints[k], old(self)@.aux.len()));
            }
        }
        Ok((Variable(Index::Aux(i)), x))
    }

    /// A new constraint: `a` times `b` equals `c`.
    pub fn enforce(
        &mut self,
        a: LinearCombination<F>,
        b: LinearCombination<F>,
        c: LinearCombination<F>,
    )
        requires
            old(self)@.wf(),
            in_range(a@, old(self)@.aux.len()),
            in_range(b@, old(self)@.aux.len()),
            in_range(c@, old(self)@.aux.len()),
        ensures
            final(self)@.wf(),
            final(self)@ == (CsModel {
                constraints: old(self)@.constraints.push((a@, b@, c@)),
                ..old(self)@
            }),
    {
        self.constraints.push((a, b, c));
        proof {
            assert(self@.constraints =~= old(self)@.constraints.push((a@, b@, c@)));
            assert(self@.aux =~= old(self)@.aux);
            assert forall|k: int| 0 <= k < self@.constraints.len() implies closed(
                #[trigger] self@.constraints[k],
                self@.aux.len(),
            ) by {
                if k < old(self)@.constraints.len() {
                    assert(closed(old(self)@.constraints[k], old(self)@.aux.len()));
                }
            }
        }
    }

    /// The value of a combination under the witness.
    fn eval(&self, l: &LinearCombination<F>) -> (r: F)
        requires
            self@.wf(),
            self@.witness,
            in_range(l@, self@.aux.len()),
        ensures
            is(F::modulus(), r.val(), lc_eval(l@, self@.values())),
    {
        let ghost p = F::modulus();
        let ghost a = self@.values();
        let mut acc = F::zero();
        let mut k: usize = 0;
        proof {
            lemma_seed_const::<F>(0);
        }
        while k < l.terms.len()
            invariant
                k <= l.terms@.len(),
                p == F::modulus(),
                p > u64::MAX,
                self@.wf(),
                self@.witness,
                in_range(l@, self@.aux.len()),
                a == self@.values(),
                is(p, acc.val(), sum(|j: int| lc_term(l@, a, j), 0, k as int)),
            decreases l.terms@.len() - k,
        {
            let (v, c) = l.terms[k];
            proof {
                assert(l@[k as int] == (v, c.val()));
                assert(l@[k as int].0 == v);
                assert(0 <= k < l@.len() && l@[k as int].0 == v);
                assert(mentions(l@, v));
                assert(exists_in(v, self@.aux.len()));
            }
            let x = match v.0 {
                Index::Input(i) => if i == 0 {
                    F::one()
                } else {
                    F::zero()
                },
                Index::Aux(i) => {
                    assert(self@.aux[i as int] is Some);
                    match self.aux[i] {
                        Some(x) => x,
                        None => F::zero(),
                    }
                },
            };
            acc = acc.add(c.mul(x));
            proof {
                broadcast use group_is;

                lemma_seed(c);
                lemma_seed(x);
                assert(val_of(v, a) == x.val());
                assert(is(p, fmul(p, c.val(), x.val()), c.val() * x.val()));
                assert(lc_term(l@, a, k as int) == c.val() * x.val());
            }
            k += 1;
        }
        acc
    }

    /// Whether there is a witness and it satisfies every constraint.
    pub fn is_satisfied(&self) -> (r: bool)
        requires
            self@.wf(),
        ensures
            r == self@.satisfied(F::modulus()),
    {
        self.is_satisfied_by(self)
    }

    /// Whether the witness of another system satisfies every constraint of this one, which has to
    /// have as many private variables.
    pub fn is_satisfied_by(&self, other: &Self) -> (r: bool)
        requires
            self@.wf(),
            other@.wf(),
        ensures
            r == self@.satisfied_by(F::modulus(), other@),
    {
        let ghost p = F::modulus();
        let ghost s = other@.values();
        proof {
            F::lemma_modulus();
        }
        if !other.witness || other.aux.len() != self.aux.len() {
            return false;
        }
        let mut k: usize = 0;
        while k < self.constraints.len()
            invariant
                k <= self.constraints@.len(),
                p == F::modulus(),
                p > u64::MAX,
                self@.wf(),
                other@.wf(),
                other@.witness,
                other@.aux.len() == self@.aux.len(),
                s == other@.values(),
                forall|j: int| 0 <= j < k ==> holds(p, #[trigger] self@.constraints[j], s),
            decreases self.constraints@.len() - k,
        {
            let (a, b, c) = &self.constraints[k];
            proof {
                assert(self@.constraints[k as int] == (a@, b@, c@));
                assert(closed(self@.constraints[k as int], self@.aux.len()));
            }
            let (x, y, z) = (other.eval(a), other.eval(b), other.eval(c));
            let xy = x.mul(y);
            proof {
                let (u, v, w) = (lc_eval(a@, s), lc_eval(b@, s), lc_eval(c@, s));
                lemma_mod(p, u);
                lemma_mod(p, v);
                lemma_cong_mul(p, x.val(), y.val(), u, v);
                lemma_zero_diff(p, u * v, w);
            }
            if !xy.equals(z) {
                assert(!holds(p, self@.constraints[k as int], s));
                return false;
            }
            k += 1;
        }
        true
    }
}

/// A difference vanishes modulo `p` exactly if its parts are congruent.
pub proof fn lemma_zero_diff(p: int, x: int, y: int)
    requires
        p > 0,
    ensures
        (x - y) % p == 0 <==> x % p == y % p,
{
    vstd::arithmetic::div_mod::lemma_small_mod(0, p as nat);
    if (x - y) % p == 0 {
        lemma_cong_add(p, x - y, y, 0, y);
    }
    if x % p == y % p {
        lemma_cong_sub(p, x, y, y, y);
    }
}

} // verus!
