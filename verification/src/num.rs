//! Field elements inside a circuit.
use vstd::prelude::*;
use crate::arith::{fmul, group_is, is, lemma_cong_add, lemma_cong_mul, lemma_cong_sub, lemma_mod};
use crate::errors::SynthesisError;
use crate::field::{lemma_seed, lemma_seed_const, Field};
use crate::frontend::{
    agrees, exists_in, holds, in_range, lc_eval, lemma_chain, lemma_zero_diff, mentions,
    new_hold, opt_val, val_of, ConstraintSystem, CsModel, Index, LinearCombination, Variable,
};

verus! {

/// A variable of the circuit, with its value if there is a witness.
#[derive(Clone, Copy, Debug, PartialEq, Eq)]
pub struct AllocatedNum<F> {
    /// The value of the variable.
    pub value: Option<F>,
    /// The variable.
    pub variable: Variable,
}

/// The witness satisfies the constraints that were added.
pub open spec fn complete(p: int, before: CsModel, after: CsModel) -> bool {
    forall|a: Seq<int>| #[trigger] agrees(a, after) ==> new_hold(p, before, after, a)
}

impl<F: Field> AllocatedNum<F> {
    /// The value under an assignment.
    pub open spec fn at(self, a: Seq<int>) -> int {
        val_of(self.variable, a)
    }

    /// The variable is a private one of the system, and has there the value that is recorded.
    pub open spec fn wf(self, cs: CsModel) -> bool {
        match self.variable.0 {
            Index::Input(_) => false,
            Index::Aux(i) => i < cs.aux.len() && cs.aux[i as int] == opt_val(self.value),
        }
    }

    /// The variable is private variable `n`.
    pub open spec fn sits(self, n: int) -> bool {
        0 <= n <= usize::MAX && self.variable == Variable(Index::Aux(n as usize))
    }

    /// A new variable.
    pub fn allocate(cs: &mut ConstraintSystem<F>, value: Result<F, SynthesisError>) -> (r: Result<
        Self,
        SynthesisError,
    >)
        requires
            old(cs)@.wf(),
        ensures
            match r {
                Ok(n) => {
                    &&& old(cs)@.extended_by(final(cs)@)
                    &&& final(cs)@.constraints == old(cs)@.constraints
                    &&& final(cs)@.aux.len() == old(cs)@.aux.len() + 1
                    &&& n.wf(final(cs)@)
                    &&& n.sits(old(cs)@.aux.len() as int)
                    &&& old(cs)@.witness ==> value is Ok && n.value == Some(value->Ok_0)
                },
                Err(e) => {
                    &&& old(cs)@.witness
                    &&& value is Err
                    &&& e == value->Err_0
                    &&& final(cs)@ == old(cs)@
                },
            },
    {
        match cs.allocate(value) {
            Ok((variable, value)) => Ok(AllocatedNum { value, variable }),
            Err(e) => Err(e),
        }
    }

    /// The value of the variable.
    pub fn get_value(&self) -> (r: Option<F>)
        ensures
            r == self.value,
    {
        self.value
    }

    /// The variable.
    pub fn get_variable(&self) -> (r: Variable)
        ensures
            r == self.variable,
    {
        self.variable
    }

    /// What is known of a variable stays true when the system grows.
    pub proof fn lemma_grow(self, s: CsModel, t: CsModel)
        requires
            self.wf(s),
            s.extended_by(t),
        ensures
            self.wf(t),
    {
    }

    /// An assignment that agrees with the witness gives the variable its value.
    pub proof fn lemma_at(self, cs: CsModel, a: Seq<int>)
        requires
            cs.wf(),
            self.wf(cs),
            agrees(a, cs),
        ensures
            self.value is Some,
            self.at(a) == self.value->0.val(),
    {
    }
}

/// A new variable that nothing is demanded of.
pub fn fresh<F: Field>(cs: &mut ConstraintSystem<F>, value: Option<F>) -> (r: AllocatedNum<F>)
    requires
        old(cs)@.wf(),
        old(cs)@.witness ==> value is Some,
    ensures
        old(cs)@.extended_by(final(cs)@),
        final(cs)@.constraints == old(cs)@.constraints,
        final(cs)@.aux.len() == old(cs)@.aux.len() + 1,
        r.sits(old(cs)@.aux.len() as int),
        r.wf(final(cs)@),
        old(cs)@.witness ==> r.value == value,
{
    let x = match value {
        Some(x) => x,
        None => F::zero(),
    };
    match AllocatedNum::allocate(cs, Ok(x)) {
        Ok(n) => n,
        Err(_) => AllocatedNum { value, variable: Variable(Index::Input(0)) },
    }
}

/// A linear combination of variables, with its value if there is a witness.
pub struct Lin<F> {
    pub(crate) lc: LinearCombination<F>,
    pub(crate) value: Option<F>,
}

impl<F: Field> Lin<F> {
    /// The value under an assignment.
    pub closed spec fn at(self, a: Seq<int>) -> int {
        lc_eval(self.lc@, a)
    }

    /// The combination is of variables of the system, and has there the value that is recorded.
    pub closed spec fn wf(self, cs: CsModel) -> bool {
        &&& in_range(self.lc@, cs.aux.len())
        &&& self.value is Some <==> cs.witness
        &&& forall|a: Seq<int>| #[trigger]
            agrees(a, cs) ==> is(F::modulus(), self.value->0.val(), lc_eval(self.lc@, a))
    }

    /// What is known of a combination stays true when the system grows.
    pub proof fn lemma_grow(self, s: CsModel, t: CsModel)
        requires
            self.wf(s),
            s.extended_by(t),
        ensures
            self.wf(t),
    {
        assert forall|a: Seq<int>| #[trigger] agrees(a, t) implies is(
            F::modulus(),
            self.value->0.val(),
            lc_eval(self.lc@, a),
        ) by {
            assert forall|i: int| 0 <= i < s.aux.len() implies #[trigger] s.aux[i] == Some(a[i]) by {
                assert(t.aux[i] == s.aux[i]);
            }
            assert(agrees(a, s));
        }
        assert forall|v: Variable| #[trigger] mentions(self.lc@, v) implies exists_in(
            v,
            t.aux.len(),
        ) by {
            assert(exists_in(v, s.aux.len()));
        }
    }

    /// The empty combination.
    pub fn zero(cs: &ConstraintSystem<F>) -> (r: Self)
        requires
            cs@.wf(),
        ensures
            r.wf(cs@),
            forall|a: Seq<int>| #[trigger] r.at(a) == 0,
    {
        let lc = LinearCombination::zero();
        let value = if cs.has_witness() {
            Some(F::zero())
        } else {
            None
        };
        proof {
            lemma_seed_const::<F>(0);
        }
        Lin { lc, value }
    }

    /// A constant.
    pub fn constant(cs: &ConstraintSystem<F>, c: F) -> (r: Self)
        requires
            cs@.wf(),
        ensures
            r.wf(cs@),
            forall|a: Seq<int>| #[trigger] r.at(a) % F::modulus() == c.val(),
    {
        let lc = LinearCombination::zero().add_term(c, ConstraintSystem::<F>::one());
        let value = if cs.has_witness() {
            Some(c)
        } else {
            None
        };
        proof {
            lemma_seed(c);
            assert forall|a: Seq<int>| #[trigger] lc_eval(lc@, a) % F::modulus() == c.val() by {
                assert(c.val() * 1 == c.val());
            }
        }
        Lin { lc, value }
    }

    /// A variable.
    pub fn var(cs: &ConstraintSystem<F>, n: &AllocatedNum<F>) -> (r: Self)
        requires
            cs@.wf(),
            n.wf(cs@),
        ensures
            r.wf(cs@),
            forall|a: Seq<int>| #[trigger] r.at(a) % F::modulus() == n.at(a) % F::modulus(),
    {
        Self::zero(cs).plus(Ghost(cs@), n)
    }

    /// Adds a variable.
    pub fn plus(self, Ghost(cs): Ghost<CsModel>, n: &AllocatedNum<F>) -> (r: Self)
        requires
            cs.wf(),
            self.wf(cs),
            n.wf(cs),
        ensures
            r.wf(cs),
            forall|a: Seq<int>| #[trigger]
                r.at(a) % F::modulus() == (self.at(a) + n.at(a)) % F::modulus(),
    {
        self.plus_multiple(Ghost(cs), F::one(), n)
    }

    /// Adds a multiple of a variable.
    pub fn plus_multiple(self, Ghost(cs): Ghost<CsModel>, c: F, n: &AllocatedNum<F>) -> (r: Self)
        requires
            cs.wf(),
            self.wf(cs),
            n.wf(cs),
        ensures
            r.wf(cs),
            forall|a: Seq<int>| #[trigger]
                r.at(a) % F::modulus() == (self.at(a) + c.val() * n.at(a)) % F::modulus(),
    {
        let ghost p = F::modulus();
        let ghost before = self;
        let value = match (self.value, n.value) {
            (Some(x), Some(y)) => Some(x.add(c.mul(y))),
            _ => None,
        };
        let lc = self.lc.add_term(c, n.variable);
        let r = Lin { lc, value };
        proof {
            assert forall|a: Seq<int>| #[trigger] agrees(a, cs) implies is(
                p,
                value->0.val(),
                lc_eval(lc@, a),
            ) by {
                broadcast use group_is;

                n.lemma_at(cs, a);
                lemma_seed(c);
                lemma_seed(n.value->0);
                assert(is(p, before.value->0.val(), lc_eval(before.lc@, a)));
                assert(is(
                    p,
                    fmul(p, c.val(), n.value->0.val()),
                    c.val() * n.value->0.val(),
                ));
            }
            if cs.witness {
                let i = n.variable.0->Aux_0;
                assert(cs.aux[i as int] is Some);
            } else {
                assert(before.value is None);
            }
            assert forall|v: Variable| #[trigger] mentions(lc@, v) implies exists_in(
                v,
                cs.aux.len(),
            ) by {
                if mentions(before.lc@, v) {
                    assert(exists_in(v, cs.aux.len()));
                }
            }
        }
        r
    }

    /// Subtracts a variable.
    pub fn minus(self, Ghost(cs): Ghost<CsModel>, n: &AllocatedNum<F>) -> (r: Self)
        requires
            cs.wf(),
            self.wf(cs),
            n.wf(cs),
        ensures
            r.wf(cs),
            forall|a: Seq<int>| #[trigger]
                r.at(a) % F::modulus() == (self.at(a) - n.at(a)) % F::modulus(),
    {
        let ghost p = F::modulus();
        let m = F::zero().sub(F::one());
        let ghost before = self;
        let r = self.plus_multiple(Ghost(cs), m, n);
        proof {
            lemma_seed_const::<F>(0);
            lemma_mod(p, 0 - 1);
            assert forall|a: Seq<int>| #[trigger] r.at(a) % p == (before.at(a) - n.at(a)) % p by {
                let v = n.at(a);
                lemma_cong_mul(p, m.val(), v, -1, v);
                lemma_cong_add(p, before.at(a), m.val() * v, before.at(a), -1 * v);
            }
        }
        r
    }
}

/// Demands that `x` times `y` equals `z`.
pub fn enforce_product<F: Field>(cs: &mut ConstraintSystem<F>, x: &Lin<F>, y: &Lin<F>, z: &Lin<F>)
    requires
        old(cs)@.wf(),
        x.wf(old(cs)@),
        y.wf(old(cs)@),
        z.wf(old(cs)@),
    ensures
        old(cs)@.extended_by(final(cs)@),
        final(cs)@.aux == old(cs)@.aux,
        final(cs)@.constraints.len() == old(cs)@.constraints.len() + 1,
        forall|a: Seq<int>| #[trigger]
            new_hold(F::modulus(), old(cs)@, final(cs)@, a) <==> (x.at(a) * y.at(a)) % F::modulus()
                == z.at(a) % F::modulus(),
{
    let ghost p = F::modulus();
    cs.enforce(x.lc.duplicate(), y.lc.duplicate(), z.lc.duplicate());
    proof {
        F::lemma_modulus();
        let k = old(cs)@.constraints.len() as int;
        assert forall|a: Seq<int>| #[trigger] new_hold(p, old(cs)@, cs@, a) <==> (x.at(a) * y.at(a))
            % p == z.at(a) % p by {
            lemma_zero_diff(p, x.at(a) * y.at(a), z.at(a));
            assert(cs@.constraints[k] == (x.lc@, y.lc@, z.lc@));
            if new_hold(p, old(cs)@, cs@, a) {
                assert(holds(p, cs@.constraints[k], a));
            }
        }
    }
}

/// A new variable that equals `x` times `y` plus `z`.
pub fn mul_add<F: Field>(cs: &mut ConstraintSystem<F>, x: &Lin<F>, y: &Lin<F>, z: &Lin<F>) -> (r:
    AllocatedNum<F>)
    requires
        old(cs)@.wf(),
        x.wf(old(cs)@),
        y.wf(old(cs)@),
        z.wf(old(cs)@),
    ensures
        old(cs)@.extended_by(final(cs)@),
        final(cs)@.aux.len() == old(cs)@.aux.len() + 1,
        final(cs)@.constraints.len() == old(cs)@.constraints.len() + 1,
        r.sits(old(cs)@.aux.len() as int),
        r.wf(final(cs)@),
        forall|a: Seq<int>| #[trigger]
            new_hold(F::modulus(), old(cs)@, final(cs)@, a) <==> r.at(a) % F::modulus() == (x.at(a)
                * y.at(a) + z.at(a)) % F::modulus(),
        complete(F::modulus(), old(cs)@, final(cs)@),
{
    let ghost p = F::modulus();
    let value = match (x.value, y.value, z.value) {
        (Some(u), Some(v), Some(w)) => Some(u.mul(v).add(w)),
        _ => None,
    };
    let r = fresh(cs, value);
    let ghost s1 = cs@;
    proof {
        F::lemma_modulus();
        x.lemma_grow(old(cs)@, s1);
        y.lemma_grow(old(cs)@, s1);
        z.lemma_grow(old(cs)@, s1);
    }
    let rhs = lin_difference(cs, &r, z);
    enforce_product(cs, x, y, &rhs);
    proof {
        lemma_chain(p, old(cs)@, s1, cs@);
        r.lemma_grow(s1, cs@);
        assert forall|a: Seq<int>| #[trigger] new_hold(p, old(cs)@, cs@, a) <==> r.at(a) % p == (
        x.at(a) * y.at(a) + z.at(a)) % p by {
            assert(new_hold(p, old(cs)@, s1, a));
            let e = x.at(a) * y.at(a);
            if new_hold(p, old(cs)@, cs@, a) {
                assert(new_hold(p, s1, cs@, a));
                lemma_cong_add(p, e, z.at(a), r.at(a) - z.at(a), z.at(a));
            }
            if r.at(a) % p == (e + z.at(a)) % p {
                lemma_cong_sub(p, r.at(a), z.at(a), e + z.at(a), z.at(a));
                assert(new_hold(p, s1, cs@, a));
            }
        }
        assert forall|a: Seq<int>| #[trigger] agrees(a, cs@) implies new_hold(
            p,
            old(cs)@,
            cs@,
            a,
        ) by {
            broadcast use group_is;

            assert(agrees(a, s1));
            r.lemma_at(s1, a);
            let (u, v, w) = (x.value->0.val(), y.value->0.val(), z.value->0.val());
            assert(is(p, u, x.at(a)) && is(p, v, y.at(a)) && is(p, w, z.at(a)));
            assert(is(p, fmul(p, u, v), x.at(a) * y.at(a)));
            assert(is(p, r.value->0.val(), x.at(a) * y.at(a) + z.at(a)));
            lemma_mod(p, x.at(a) * y.at(a) + z.at(a));
            lemma_cong_sub(p, r.at(a), z.at(a), x.at(a) * y.at(a) + z.at(a), z.at(a));
            assert(new_hold(p, s1, cs@, a));
            assert(new_hold(p, old(cs)@, s1, a));
        }
    }
    r
}

/// A new variable that equals a combination.
pub fn assign<F: Field>(cs: &mut ConstraintSystem<F>, x: &Lin<F>) -> (r: AllocatedNum<F>)
    requires
        old(cs)@.wf(),
        x.wf(old(cs)@),
    ensures
        old(cs)@.extended_by(final(cs)@),
        final(cs)@.aux.len() == old(cs)@.aux.len() + 1,
        final(cs)@.constraints.len() == old(cs)@.constraints.len() + 1,
        r.sits(old(cs)@.aux.len() as int),
        r.wf(final(cs)@),
        forall|a: Seq<int>| #[trigger]
            new_hold(F::modulus(), old(cs)@, final(cs)@, a) <==> r.at(a) % F::modulus() == x.at(a)
                % F::modulus(),
        complete(F::modulus(), old(cs)@, final(cs)@),
{
    let ghost p = F::modulus();
    let y = Lin::constant(cs, F::one());
    let z = Lin::zero(cs);
    let r = mul_add(cs, x, &y, &z);
    proof {
        lemma_seed_const::<F>(1);
        assert forall|a: Seq<int>| #[trigger] new_hold(p, old(cs)@, cs@, a) <==> r.at(a) % p
            == x.at(a) % p by {
            lemma_cong_mul(p, x.at(a), y.at(a), x.at(a), 1);
        }
    }
    r
}

/// A new variable that equals a product of combinations.
pub fn product<F: Field>(cs: &mut ConstraintSystem<F>, x: &Lin<F>, y: &Lin<F>) -> (r: AllocatedNum<F>)
    requires
        old(cs)@.wf(),
        x.wf(old(cs)@),
        y.wf(old(cs)@),
    ensures
        old(cs)@.extended_by(final(cs)@),
        final(cs)@.aux.len() == old(cs)@.aux.len() + 1,
        final(cs)@.constraints.len() == old(cs)@.constraints.len() + 1,
        r.sits(old(cs)@.aux.len() as int),
        r.wf(final(cs)@),
        forall|a: Seq<int>| #[trigger]
            new_hold(F::modulus(), old(cs)@, final(cs)@, a) <==> r.at(a) % F::modulus() == (x.at(a)
                * y.at(a)) % F::modulus(),
        complete(F::modulus(), old(cs)@, final(cs)@),
{
    let z = Lin::zero(cs);
    mul_add(cs, x, y, &z)
}

/// A variable minus a combination.
fn lin_difference<F: Field>(cs: &ConstraintSystem<F>, n: &AllocatedNum<F>, z: &Lin<F>) -> (r: Lin<F>)
    requires
        cs@.wf(),
        n.wf(cs@),
        z.wf(cs@),
    ensures
        r.wf(cs@),
        forall|a: Seq<int>| #[trigger]
            r.at(a) % F::modulus() == (n.at(a) - z.at(a)) % F::modulus(),
{
    let ghost p = F::modulus();
    let value = match (n.value, z.value) {
        (Some(x), Some(y)) => Some(x.sub(y)),
        _ => None,
    };
    let neg = z.lc.negated();
    let ghost neg_model = neg@;
    let lc = neg.plus(n.variable);
    proof {
        F::lemma_modulus();
        assert forall|a: Seq<int>| #[trigger] lc_eval(lc@, a) % p == (n.at(a) - z.at(a)) % p by {
            lemma_cong_add(p, lc_eval(neg_model, a), n.at(a), -z.at(a), n.at(a));
        }
        assert forall|a: Seq<int>| #[trigger] agrees(a, cs@) implies is(
            p,
            value->0.val(),
            lc_eval(lc@, a),
        ) by {
            broadcast use group_is;

            n.lemma_at(cs@, a);
            lemma_seed(n.value->0);
            assert(is(p, z.value->0.val(), lc_eval(z.lc@, a)));
        }
        if cs@.witness {
            let i = n.variable.0->Aux_0;
            assert(cs@.aux[i as int] is Some);
        }
    }
    Lin { lc, value }
}

/// A new variable that is the quotient of two. Where there is a witness, the divisor must not be
/// zero there.
pub fn quotient_num<F: Field>(
    cs: &mut ConstraintSystem<F>,
    x: &AllocatedNum<F>,
    y: &AllocatedNum<F>,
) -> (r: Result<AllocatedNum<F>, SynthesisError>)
    requires
        old(cs)@.wf(),
        x.wf(old(cs)@),
        y.wf(old(cs)@),
    ensures
        match r {
            Ok(q) => {
                &&& old(cs)@.extended_by(final(cs)@)
                &&& final(cs)@.aux.len() == old(cs)@.aux.len() + 1
                &&& final(cs)@.constraints.len() == old(cs)@.constraints.len() + 1
                &&& q.sits(old(cs)@.aux.len() as int)
                &&& q.wf(final(cs)@)
                &&& forall|a: Seq<int>| #[trigger]
                    new_hold(F::modulus(), old(cs)@, final(cs)@, a) <==> (q.at(a) * y.at(a))
                        % F::modulus() == x.at(a) % F::modulus()
                &&& complete(F::modulus(), old(cs)@, final(cs)@)
                &&& old(cs)@.witness ==> y.value->0.val() != 0
            },
            Err(e) => {
                &&& e == SynthesisError::DivisionByZero
                &&& final(cs)@ == old(cs)@
                &&& old(cs)@.witness
                &&& y.value->0.val() == 0
            },
        },
{
    let ghost p = F::modulus();
    let ghost s0 = cs@;
    proof {
        F::lemma_modulus();
        if s0.witness {
            assert(s0.aux[x.variable.0->Aux_0 as int] is Some);
            assert(s0.aux[y.variable.0->Aux_0 as int] is Some);
        } else {
            assert(s0.aux[x.variable.0->Aux_0 as int] is None);
        }
    }
    let value = match (x.value, y.value) {
        (Some(u), Some(v)) => match v.invert() {
            Some(inv) => Some(u.mul(inv)),
            None => {
                return Err(SynthesisError::DivisionByZero);
            },
        },
        _ => None,
    };
    let q = fresh(cs, value);
    let ghost s1 = cs@;
    proof {
        x.lemma_grow(s0, s1);
        y.lemma_grow(s0, s1);
    }
    let q_lin = Lin::var(cs, &q);
    let y_lin = Lin::var(cs, y);
    let x_lin = Lin::var(cs, x);
    enforce_product(cs, &q_lin, &y_lin, &x_lin);
    proof {
        lemma_chain(p, s0, s1, cs@);
        q.lemma_grow(s1, cs@);
        assert forall|a: Seq<int>| #[trigger] new_hold(p, s0, cs@, a) <==> (q.at(a) * y.at(a))
            % p == x.at(a) % p by {
            assert(new_hold(p, s0, s1, a));
            lemma_cong_mul(p, q_lin.at(a), y_lin.at(a), q.at(a), y.at(a));
        }
        assert forall|a: Seq<int>| #[trigger] agrees(a, cs@) implies new_hold(p, s0, cs@, a) by {
            assert(agrees(a, s1));
            q.lemma_at(s1, a);
            x.lemma_at(s1, a);
            y.lemma_at(s1, a);
            let (u, v) = (x.value->0, y.value->0);
            let inv = choose|inv: int| q.value->0.val() == fmul(p, u.val(), inv) && fmul(p, v.val(), inv) == 1;
            assert(q.value->0.val() == fmul(p, u.val(), inv) && fmul(p, v.val(), inv) == 1);
            lemma_mod(p, u.val() * inv);
            lemma_cong_mul(p, q.at(a), v.val(), u.val() * inv, v.val());
            lemma_inverse_cancels(p, u.val(), v.val(), inv);
            lemma_cong_mul(p, q_lin.at(a), y_lin.at(a), q.at(a), y.at(a));
            assert(new_hold(p, s1, cs@, a));
            assert(new_hold(p, s0, s1, a));
        }
    }
    Ok(q)
}

/// Multiplying by a number and by its inverse changes nothing.
proof fn lemma_inverse_cancels(p: int, u: int, v: int, inv: int)
    requires
        p > 1,
        (v * inv) % p == 1,
    ensures
        ((u * inv) * v) % p == u % p,
{
    assert((u * inv) * v == u * (v * inv)) by (nonlinear_arith);
    vstd::arithmetic::div_mod::lemma_small_mod(1, p as nat);
    lemma_cong_mul(p, u, v * inv, u, 1);
}

} // verus!
