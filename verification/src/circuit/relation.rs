//! Instances of the main relation inside a circuit.
use vstd::prelude::*;
use crate::arith::{lemma_cong_add, lemma_cong_mul, lemma_cong_sub, lerp, lerp_seq};
use crate::circuit::point::{coordinate_elements, AllocatedNonnativePoint};
use crate::errors::SynthesisError;
use crate::field::{lemma_seed_const, vals, Field};
use crate::frontend::{agrees, lemma_chain, new_hold, ConstraintSystem, CsModel};
use crate::gadgets::{all_wf, at_all, bit_row, lemma_all_grow, sit_from};
use crate::num::{complete, fresh, mul_add, AllocatedNum, Lin};
use crate::r1cs::R1CSInstance;
use crate::relation::{zeros, FoldedInstance};
use crate::ro_circuit::{lemma_complete_chain, PoseidonROCircuit};
use crate::traits::{Engine, Group};
use crate::weight_table::mod_seq;

verus! {

/// The variable on the line through `x1` at 0 and `x2` at 1, at the point `r`.
pub fn fold_num<F: Field>(
    cs: &mut ConstraintSystem<F>,
    x1: &AllocatedNum<F>,
    x2: &AllocatedNum<F>,
    r: &AllocatedNum<F>,
) -> (out: AllocatedNum<F>)
    requires
        old(cs)@.wf(),
        x1.wf(old(cs)@),
        x2.wf(old(cs)@),
        r.wf(old(cs)@),
    ensures
        old(cs)@.extended_by(final(cs)@),
        final(cs)@.aux.len() == old(cs)@.aux.len() + 1,
        final(cs)@.constraints.len() == old(cs)@.constraints.len() + 1,
        out.sits(old(cs)@.aux.len() as int),
        out.wf(final(cs)@),
        forall|a: Seq<int>| #[trigger]
            new_hold(F::modulus(), old(cs)@, final(cs)@, a) <==> out.at(a) % F::modulus() == lerp(
                x1.at(a),
                x2.at(a),
                r.at(a),
            ) % F::modulus(),
        complete(F::modulus(), old(cs)@, final(cs)@),
{
    let ghost p = F::modulus();
    let x = Lin::var(cs, r);
    let second = Lin::var(cs, x2);
    let y = second.minus(Ghost(cs@), x1);
    let z = Lin::var(cs, x1);
    let out = mul_add(cs, &x, &y, &z);
    proof {
        F::lemma_modulus();
        assert forall|a: Seq<int>| #[trigger] new_hold(p, old(cs)@, cs@, a) <==> out.at(a) % p
            == lerp(x1.at(a), x2.at(a), r.at(a)) % p by {
            let (u, v, t) = (x1.at(a), x2.at(a), r.at(a));
            lemma_cong_sub(p, second.at(a), u, v, u);
            lemma_cong_mul(p, x.at(a), y.at(a), t, v - u);
            lemma_cong_add(p, x.at(a) * y.at(a), z.at(a), t * (v - u), u);
        }
    }
    out
}

/// The variable on the line through `x1` at 0 and the constant one at 1, at the point `r`.
fn fold_with_one<F: Field>(
    cs: &mut ConstraintSystem<F>,
    x1: &AllocatedNum<F>,
    r: &AllocatedNum<F>,
) -> (out: AllocatedNum<F>)
    requires
        old(cs)@.wf(),
        x1.wf(old(cs)@),
        r.wf(old(cs)@),
    ensures
        old(cs)@.extended_by(final(cs)@),
        final(cs)@.aux.len() == old(cs)@.aux.len() + 1,
        final(cs)@.constraints.len() == old(cs)@.constraints.len() + 1,
        out.sits(old(cs)@.aux.len() as int),
        out.wf(final(cs)@),
        forall|a: Seq<int>| #[trigger]
            new_hold(F::modulus(), old(cs)@, final(cs)@, a) <==> out.at(a) % F::modulus() == lerp(
                x1.at(a),
                1,
                r.at(a),
            ) % F::modulus(),
        complete(F::modulus(), old(cs)@, final(cs)@),
{
    let ghost p = F::modulus();
    let x = Lin::var(cs, r);
    let one = Lin::constant(cs, F::one());
    let y = one.minus(Ghost(cs@), x1);
    let z = Lin::var(cs, x1);
    let out = mul_add(cs, &x, &y, &z);
    proof {
        lemma_seed_const::<F>(1);
        assert forall|a: Seq<int>| #[trigger] new_hold(p, old(cs)@, cs@, a) <==> out.at(a) % p
            == lerp(x1.at(a), 1, r.at(a)) % p by {
            let (u, t) = (x1.at(a), r.at(a));
            lemma_cong_sub(p, one.at(a), u, 1, u);
            lemma_cong_mul(p, x.at(a), y.at(a), t, 1 - u);
            lemma_cong_add(p, x.at(a) * y.at(a), z.at(a), t * (1 - u), u);
        }
    }
    out
}

/// Variables with the given values.
fn alloc_vec<F: Field>(cs: &mut ConstraintSystem<F>, v: &Vec<F>) -> (r: Vec<AllocatedNum<F>>)
    requires
        old(cs)@.wf(),
    ensures
        old(cs)@.extended_by(final(cs)@),
        final(cs)@.constraints == old(cs)@.constraints,
        final(cs)@.aux.len() == old(cs)@.aux.len() + v@.len(),
        sit_from(r@, old(cs)@.aux.len() as int),
        r@.len() == v@.len(),
        all_wf(r@, final(cs)@),
        forall|a: Seq<int>| #[trigger] agrees(a, final(cs)@) ==> at_all(r@, a) == vals(v@),
{
    let ghost s0 = cs@;
    let mut r: Vec<AllocatedNum<F>> = Vec::new();
    let mut i: usize = 0;
    while i < v.len()
        invariant
            i <= v@.len(),
            cs@.wf(),
            s0.extended_by(cs@),
            cs@.constraints == s0.constraints,
            cs@.aux.len() == s0.aux.len() + i,
            sit_from(r@, s0.aux.len() as int),
            r@.len() == i,
            all_wf(r@, cs@),
            s0.witness ==> forall|j: int| 0 <= j < i ==> (#[trigger] r@[j]).value == Some(v@[j]),
        decreases v@.len() - i,
    {
        let ghost s1 = cs@;
        let ghost before = r@;
        let n = fresh(cs, Some(v[i]));
        r.push(n);
        proof {
            lemma_chain(F::modulus(), s0, s1, cs@);
            lemma_all_grow(before, s1, cs@);
        }
        i += 1;
    }
    proof {
        assert forall|a: Seq<int>| #[trigger] agrees(a, cs@) implies at_all(r@, a) == vals(v@) by {
            assert forall|j: int| 0 <= j < v@.len() implies #[trigger] at_all(r@, a)[j]
                == v@[j].val() by {
                assert(r@[j].value == Some(v@[j]));
                r@[j].lemma_at(cs@, a);
            }
            assert(at_all(r@, a) =~= vals(v@));
        }
    }
    r
}

/// A sequence of zeros.
pub open spec fn zero_seq(n: int) -> Seq<int> {
    Seq::new(n as nat, |i: int| 0int)
}

/// A fresh instance: the commitment to its witness, and its public inputs.
pub struct AllocatedNonnativeR1CSInstance<E: Engine> {
    /// Commitment to the witness.
    pub comm_W: AllocatedNonnativePoint<E>,
    /// Public inputs.
    pub X: Vec<AllocatedNum<E::Scalar>>,
}

impl<E: Engine> AllocatedNonnativeR1CSInstance<E> {
    /// The variables in the order in which they are absorbed.
    pub open spec fn elements(self) -> Seq<AllocatedNum<E::Scalar>> {
        self.comm_W.elements() + self.X@
    }

    /// The variables are those of the system.
    pub open spec fn wf(self, cs: CsModel) -> bool {
        self.comm_W.wf(cs) && all_wf(self.X@, cs)
    }

    /// What is known of an instance stays true when the system grows.
    pub proof fn lemma_grow(self, s: CsModel, t: CsModel)
        requires
            self.wf(s),
            s.extended_by(t),
        ensures
            self.wf(t),
            all_wf(self.elements(), t),
    {
        self.comm_W.lemma_grow(s, t);
        lemma_all_grow(self.X@, s, t);
        assert forall|i: int| 0 <= i < self.elements().len() implies (#[trigger]
        self.elements()[i]).wf(t) by {
            if i < 9 {
                assert(self.elements()[i] == self.comm_W.elements()[i]);
            } else {
                assert(self.elements()[i] == self.X@[i - 9]);
            }
        }
    }

    /// A new instance with the given number of public inputs, zero where none is given.
    pub fn allocate(
        cs: &mut ConstraintSystem<E::Scalar>,
        num_io: usize,
        inst: Option<&R1CSInstance<E>>,
    ) -> (r: Result<Self, SynthesisError>)
        requires
            old(cs)@.wf(),
            inst matches Some(i) ==> i.X@.len() == num_io,
        ensures
            r is Ok,
            old(cs)@.extended_by(final(cs)@),
            r->Ok_0.wf(final(cs)@),
            r->Ok_0.X@.len() == num_io,
            final(cs)@.aux.len() == old(cs)@.aux.len() + 9 + num_io,
            final(cs)@.constraints.len() == old(cs)@.constraints.len() + 1,
            sit_from(r->Ok_0.elements(), old(cs)@.aux.len() as int),
            forall|a: Seq<int>| #[trigger]
                new_hold(E::Scalar::modulus(), old(cs)@, final(cs)@, a) <==> bit_row(
                    E::Scalar::modulus(),
                    r->Ok_0.comm_W.is_infinity.at(a),
                ),
            forall|a: Seq<int>| #[trigger]
                agrees(a, final(cs)@) ==> at_all(r->Ok_0.elements(), a) == r1cs_elements(
                    inst,
                    num_io as int,
                ),
            complete(E::Scalar::modulus(), old(cs)@, final(cs)@),
    {
        let ghost p = E::Scalar::modulus();
        let ghost s0 = cs@;
        let coords = match inst {
            Some(i) => Some(i.comm_W.to_coordinates()),
            None => None,
        };
        let zeros = zeros(num_io);
        assert(vals(zeros@) =~= zero_seq(num_io as int));
        let x = match inst {
            Some(i) => &i.X,
            None => &zeros,
        };
        let comm_W = match AllocatedNonnativePoint::<E>::allocate(cs, coords) {
            Ok(c) => c,
            Err(e) => {
                return Err(e);
            },
        };
        let ghost s1 = cs@;
        let X = alloc_vec(cs, x);
        let r: Self = AllocatedNonnativeR1CSInstance { comm_W, X };
        proof {
            lemma_chain(p, s0, s1, cs@);
            r.comm_W.lemma_grow(s1, cs@);
            assert forall|i: int| 0 <= i < r.elements().len() implies (#[trigger]
            r.elements()[i]).sits(s0.aux.len() + i) by {
                if i < 9 {
                    assert(r.elements()[i] == r.comm_W.elements()[i]);
                } else {
                    assert(r.elements()[i] == r.X@[i - 9]);
                    assert(r.X@[i - 9].sits(s1.aux.len() + (i - 9)));
                }
            }
            assert forall|a: Seq<int>| #[trigger] new_hold(p, s0, cs@, a) <==> bit_row(
                p,
                r.comm_W.is_infinity.at(a),
            ) by {
                assert(new_hold(p, s1, cs@, a));
            }
            assert forall|a: Seq<int>| #[trigger] agrees(a, cs@) implies at_all(r.elements(), a)
                == r1cs_elements(inst, num_io as int) by {
                assert(agrees(a, s1));
                assert(at_all(r.elements(), a) =~= r.comm_W.at(a) + at_all(r.X@, a));
                if inst is Some {
                    lemma_coordinates::<E>(inst->0.comm_W, coords->0);
                }
            }
            assert(complete(p, s0, cs@)) by {
                assert forall|a: Seq<int>| #[trigger] agrees(a, cs@) implies new_hold(
                    p,
                    s0,
                    cs@,
                    a,
                ) by {
                    assert(agrees(a, s1));
                    assert(new_hold(p, s0, s1, a) && new_hold(p, s1, cs@, a));
                }
            }
        }
        Ok(r)
    }

    /// Absorbs the instance.
    pub fn absorb_in_ro(&self, ro: &mut PoseidonROCircuit<E::Scalar>)
        ensures
            final(ro)@ == old(ro)@ + self.elements(),
            final(ro).params() == old(ro).params(),
            final(ro).wf() == old(ro).wf(),
    {
        self.comm_W.absorb_in_ro(ro);
        ro.absorb_all(&self.X);
        assert(ro@ =~= old(ro)@ + self.elements());
    }
}

/// The field elements that stand for a fresh instance, or for the zero instance.
pub open spec fn r1cs_elements<E: Engine>(inst: Option<&R1CSInstance<E>>, num_io: int) -> Seq<int> {
    match inst {
        Some(i) => crate::transcript::point_elements(i.comm_W.coords()) + vals(i.X@),
        None => crate::circuit::point::identity_elements() + zero_seq(num_io),
    }
}

/// The coordinates that come out of the group are those that are absorbed outside the circuit.
pub proof fn lemma_coordinates<E: Engine>(g: E::GE, c: ([u64; 4], [u64; 4], bool))
    requires
        (c.0@, c.1@) == g.coords(),
        c.2 == crate::traits::all_zero(g.coords()),
    ensures
        coordinate_elements(Some(c)) == crate::transcript::point_elements(g.coords()),
{
}

/// A folded instance.
pub struct AllocatedFoldedInstance<E: Engine> {
    /// Commitment to the witness.
    pub comm_W: AllocatedNonnativePoint<E>,
    /// Commitment to the weights.
    pub comm_E: AllocatedNonnativePoint<E>,
    /// The claim.
    pub T: AllocatedNum<E::Scalar>,
    /// The homogenizing scalar.
    pub u: AllocatedNum<E::Scalar>,
    /// Public inputs.
    pub X: Vec<AllocatedNum<E::Scalar>>,
}

impl<E: Engine> AllocatedFoldedInstance<E> {
    /// The variables are those of the system.
    pub open spec fn wf(self, cs: CsModel) -> bool {
        &&& self.comm_W.wf(cs)
        &&& self.comm_E.wf(cs)
        &&& self.T.wf(cs)
        &&& self.u.wf(cs)
        &&& all_wf(self.X@, cs)
    }

    /// What is known of an instance stays true when the system grows.
    pub proof fn lemma_grow(self, s: CsModel, t: CsModel)
        requires
            self.wf(s),
            s.extended_by(t),
        ensures
            self.wf(t),
    {
        self.comm_W.lemma_grow(s, t);
        self.comm_E.lemma_grow(s, t);
        self.T.lemma_grow(s, t);
        self.u.lemma_grow(s, t);
        lemma_all_grow(self.X@, s, t);
    }

    /// A new instance with the given number of public inputs, zero where none is given.
    pub fn allocate(
        cs: &mut ConstraintSystem<E::Scalar>,
        num_io: usize,
        inst: Option<&FoldedInstance<E>>,
    ) -> (r: Result<Self, SynthesisError>)
        requires
            old(cs)@.wf(),
            inst matches Some(i) ==> i.X@.len() == num_io,
        ensures
            r is Ok,
            old(cs)@.extended_by(final(cs)@),
            r->Ok_0.wf(final(cs)@),
            r->Ok_0.X@.len() == num_io,
            final(cs)@.aux.len() == old(cs)@.aux.len() + 20 + num_io,
            final(cs)@.constraints.len() == old(cs)@.constraints.len() + 2,
            r->Ok_0.sits_from(old(cs)@.aux.len() as int),
            forall|a: Seq<int>| #[trigger]
                new_hold(E::Scalar::modulus(), old(cs)@, final(cs)@, a) <==> bit_row(
                    E::Scalar::modulus(),
                    r->Ok_0.comm_W.is_infinity.at(a),
                ) && bit_row(E::Scalar::modulus(), r->Ok_0.comm_E.is_infinity.at(a)),
            forall|a: Seq<int>| #[trigger]
                agrees(a, final(cs)@) ==> r->Ok_0.holds_values_of(a, inst, num_io as int),
            complete(E::Scalar::modulus(), old(cs)@, final(cs)@),
    {
        let ghost p = E::Scalar::modulus();
        let ghost s0 = cs@;
        let zeros = zeros(num_io);
        assert(vals(zeros@) =~= zero_seq(num_io as int));
        let (w_coords, e_coords, t, u_val, x) = match inst {
            Some(i) => (
                Some(i.comm_W.to_coordinates()),
                Some(i.comm_E.to_coordinates()),
                i.T,
                i.u,
                &i.X,
            ),
            None => (None, None, E::Scalar::zero(), E::Scalar::zero(), &zeros),
        };
        let comm_W = match AllocatedNonnativePoint::<E>::allocate(cs, w_coords) {
            Ok(c) => c,
            Err(e) => {
                return Err(e);
            },
        };
        let ghost s1 = cs@;
        let comm_E = match AllocatedNonnativePoint::<E>::allocate(cs, e_coords) {
            Ok(c) => c,
            Err(e) => {
                return Err(e);
            },
        };
        let ghost s2 = cs@;
        let T = fresh(cs, Some(t));
        let ghost s3 = cs@;
        let u = fresh(cs, Some(u_val));
        let ghost s4 = cs@;
        let X = alloc_vec(cs, x);
        let r: Self = AllocatedFoldedInstance { comm_W, comm_E, T, u, X };
        proof {
            lemma_chain(p, s0, s1, s2);
            lemma_complete_chain(p, s0, s1, s2);
            lemma_chain(p, s2, s3, s4);
            lemma_chain(p, s2, s4, cs@);
            lemma_chain(p, s3, s4, cs@);
            lemma_chain(p, s0, s2, cs@);
            lemma_chain(p, s1, s2, cs@);
            assert(complete(p, s2, cs@)) by {
                assert forall|a: Seq<int>| #[trigger] agrees(a, cs@) implies new_hold(
                    p,
                    s2,
                    cs@,
                    a,
                ) by {}
            }
            lemma_complete_chain(p, s0, s2, cs@);
            r.comm_W.lemma_grow(s1, cs@);
            r.comm_E.lemma_grow(s2, cs@);
            r.T.lemma_grow(s3, cs@);
            r.u.lemma_grow(s4, cs@);
            assert forall|a: Seq<int>| #[trigger] new_hold(p, s0, cs@, a) <==> bit_row(
                p,
                r.comm_W.is_infinity.at(a),
            ) && bit_row(p, r.comm_E.is_infinity.at(a)) by {
                assert(new_hold(p, s2, cs@, a));
                assert(new_hold(p, s0, s2, a) <==> new_hold(p, s0, s1, a) && new_hold(
                    p,
                    s1,
                    s2,
                    a,
                ));
            }
            assert forall|a: Seq<int>| #[trigger] agrees(a, cs@) implies r.holds_values_of(
                a,
                inst,
                num_io as int,
            ) by {
                assert(agrees(a, s2) && agrees(a, s1));
                r.T.lemma_at(cs@, a);
                r.u.lemma_at(cs@, a);
                if inst is Some {
                    lemma_coordinates::<E>(inst->0.comm_W, w_coords->0);
                    lemma_coordinates::<E>(inst->0.comm_E, e_coords->0);
                }
            }
        }
        Ok(r)
    }

    /// The variables sit in a row from variable `n` on.
    pub open spec fn sits_from(self, n: int) -> bool {
        &&& sit_from(self.comm_W.elements(), n)
        &&& sit_from(self.comm_E.elements(), n + 9)
        &&& self.T.sits(n + 18)
        &&& self.u.sits(n + 19)
        &&& sit_from(self.X@, n + 20)
    }

    /// Under the assignment, the variables take the values of the instance, or those of the zero
    /// instance.
    pub open spec fn holds_values_of(
        self,
        a: Seq<int>,
        inst: Option<&FoldedInstance<E>>,
        num_io: int,
    ) -> bool {
        match inst {
            Some(i) => {
                &&& self.comm_W.at(a) == crate::transcript::point_elements(i.comm_W.coords())
                &&& self.comm_E.at(a) == crate::transcript::point_elements(i.comm_E.coords())
                &&& self.T.at(a) == i.T.val()
                &&& self.u.at(a) == i.u.val()
                &&& at_all(self.X@, a) == vals(i.X@)
            },
            None => {
                &&& self.comm_W.at(a) == crate::circuit::point::identity_elements()
                &&& self.comm_E.at(a) == crate::circuit::point::identity_elements()
                &&& self.T.at(a) == 0
                &&& self.u.at(a) == 0
                &&& at_all(self.X@, a) == zero_seq(num_io)
            },
        }
    }

    /// Folds a fresh instance, whose homogenizing scalar is one, into this one. The scalars are
    /// constrained; the claim and the commitments are passed through.
    pub fn fold(
        &self,
        cs: &mut ConstraintSystem<E::Scalar>,
        U2: &AllocatedNonnativeR1CSInstance<E>,
        r_b: &AllocatedNum<E::Scalar>,
        T_out: &AllocatedNum<E::Scalar>,
        comm_W_fold: &AllocatedNonnativePoint<E>,
        comm_E_fold: &AllocatedNonnativePoint<E>,
    ) -> (r: Result<Self, SynthesisError>)
        requires
            old(cs)@.wf(),
            self.wf(old(cs)@),
            U2.wf(old(cs)@),
            r_b.wf(old(cs)@),
            T_out.wf(old(cs)@),
            comm_W_fold.wf(old(cs)@),
            comm_E_fold.wf(old(cs)@),
            self.X@.len() == U2.X@.len(),
        ensures
            r is Ok,
            old(cs)@.extended_by(final(cs)@),
            r->Ok_0.wf(final(cs)@),
            r->Ok_0.T == *T_out,
            r->Ok_0.comm_W.elements() == comm_W_fold.elements(),
            r->Ok_0.comm_E.elements() == comm_E_fold.elements(),
            r->Ok_0.X@.len() == self.X@.len(),
            final(cs)@.aux.len() == old(cs)@.aux.len() + 1 + self.X@.len(),
            final(cs)@.constraints.len() == old(cs)@.constraints.len() + 1 + self.X@.len(),
            r->Ok_0.u.sits(old(cs)@.aux.len() as int),
            sit_from(r->Ok_0.X@, (old(cs)@.aux.len() + 1) as int),
            forall|a: Seq<int>| #[trigger]
                new_hold(E::Scalar::modulus(), old(cs)@, final(cs)@, a) <==> {
                    &&& r->Ok_0.u.at(a) % E::Scalar::modulus() == lerp(self.u.at(a), 1, r_b.at(a))
                        % E::Scalar::modulus()
                    &&& mod_seq(E::Scalar::modulus(), at_all(r->Ok_0.X@, a)) == mod_seq(
                        E::Scalar::modulus(),
                        lerp_seq(at_all(self.X@, a), at_all(U2.X@, a), r_b.at(a)),
                    )
                },
            complete(E::Scalar::modulus(), old(cs)@, final(cs)@),
    {
        let ghost p = E::Scalar::modulus();
        let ghost s0 = cs@;
        let u = fold_with_one(cs, &self.u, r_b);
        let mut X: Vec<AllocatedNum<E::Scalar>> = Vec::new();
        let mut i: usize = 0;
        proof {
            self.lemma_grow(s0, cs@);
            U2.lemma_grow(s0, cs@);
            r_b.lemma_grow(s0, cs@);
        }
        while i < self.X.len()
            invariant
                i <= self.X@.len(),
                self.X@.len() == U2.X@.len(),
                p == E::Scalar::modulus(),
                cs@.wf(),
                s0.extended_by(cs@),
                complete(p, s0, cs@),
                self.wf(cs@),
                U2.wf(cs@),
                r_b.wf(cs@),
                u.wf(cs@),
                X@.len() == i,
                all_wf(X@, cs@),
                cs@.aux.len() == s0.aux.len() + 1 + i,
                cs@.constraints.len() == s0.constraints.len() + 1 + i,
                u.sits(s0.aux.len() as int),
                sit_from(X@, (s0.aux.len() + 1) as int),
                forall|a: Seq<int>| #[trigger]
                    new_hold(p, s0, cs@, a) <==> u.at(a) % p == lerp(self.u.at(a), 1, r_b.at(a)) % p
                        && forall|j: int|
                        0 <= j < i ==> (#[trigger] X@[j]).at(a) % p == lerp(
                            self.X@[j].at(a),
                            U2.X@[j].at(a),
                            r_b.at(a),
                        ) % p,
            decreases self.X@.len() - i,
        {
            let ghost s1 = cs@;
            let ghost before = X@;
            let x = fold_num(cs, &self.X[i], &U2.X[i], r_b);
            X.push(x);
            proof {
                lemma_chain(p, s0, s1, cs@);
                lemma_complete_chain(p, s0, s1, cs@);
                self.lemma_grow(s1, cs@);
                U2.lemma_grow(s1, cs@);
                r_b.lemma_grow(s1, cs@);
                u.lemma_grow(s1, cs@);
                lemma_all_grow(before, s1, cs@);
                assert forall|a: Seq<int>| #[trigger] new_hold(p, s0, cs@, a) <==> u.at(a) % p == lerp(
                    self.u.at(a),
                    1,
                    r_b.at(a),
                ) % p && forall|j: int|
                    0 <= j < i + 1 ==> (#[trigger] X@[j]).at(a) % p == lerp(
                        self.X@[j].at(a),
                        U2.X@[j].at(a),
                        r_b.at(a),
                    ) % p by {
                    assert(X@[i as int] == x);
                    if forall|j: int|
                        0 <= j < i + 1 ==> (#[trigger] X@[j]).at(a) % p == lerp(
                            self.X@[j].at(a),
                            U2.X@[j].at(a),
                            r_b.at(a),
                        ) % p {
                        assert forall|j: int| 0 <= j < i implies (#[trigger] before[j]).at(a) % p
                            == lerp(self.X@[j].at(a), U2.X@[j].at(a), r_b.at(a)) % p by {
                            assert(X@[j] == before[j]);
                        }
                    }
                    if new_hold(p, s0, cs@, a) {
                        assert(new_hold(p, s0, s1, a) && new_hold(p, s1, cs@, a));
                        assert forall|j: int| 0 <= j < i + 1 implies (#[trigger] X@[j]).at(a) % p
                            == lerp(self.X@[j].at(a), U2.X@[j].at(a), r_b.at(a)) % p by {
                            if j < i {
                                assert(X@[j] == before[j]);
                            }
                        }
                    }
                }
            }
            i += 1;
        }
        let comm_W = comm_W_fold.clone();
        let comm_E = comm_E_fold.clone();
        let r: Self = AllocatedFoldedInstance { comm_W, comm_E, T: *T_out, u, X };
        proof {
            comm_W_fold.lemma_grow(s0, cs@);
            comm_E_fold.lemma_grow(s0, cs@);
            T_out.lemma_grow(s0, cs@);
            assert forall|a: Seq<int>| #[trigger] new_hold(p, s0, cs@, a) <==> r.u.at(a) % p == lerp(
                self.u.at(a),
                1,
                r_b.at(a),
            ) % p && mod_seq(p, at_all(r.X@, a)) == mod_seq(
                p,
                lerp_seq(at_all(self.X@, a), at_all(U2.X@, a), r_b.at(a)),
            ) by {
                let v = mod_seq(p, at_all(r.X@, a));
                let w = mod_seq(p, lerp_seq(at_all(self.X@, a), at_all(U2.X@, a), r_b.at(a)));
                if new_hold(p, s0, cs@, a) {
                    assert forall|j: int| 0 <= j < v.len() implies #[trigger] v[j] == w[j] by {
                        assert(r.X@[j].at(a) % p == v[j]);
                    }
                    assert(v =~= w);
                }
                if v == w {
                    assert forall|j: int| 0 <= j < r.X@.len() implies (#[trigger] r.X@[j]).at(a) % p
                        == lerp(self.X@[j].at(a), U2.X@[j].at(a), r_b.at(a)) % p by {
                        assert(v[j] == w[j]);
                    }
                }
            }
        }
        Ok(r)
    }
}

} // verus!
