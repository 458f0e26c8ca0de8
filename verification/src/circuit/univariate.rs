//! Univariate polynomials inside a circuit.
use vstd::prelude::*;
use crate::arith::{lemma_cong_add, lemma_cong_mul};
use crate::errors::SynthesisError;
use crate::field::{copy_vec, lemma_seed_const, vals, Field};
use crate::frontend::{agrees, lemma_chain, new_hold, ConstraintSystem, CsModel};
use crate::gadgets::{all_wf, at_all, lemma_all_grow, sit_from};
use crate::num::{complete, enforce_product, fresh, mul_add, AllocatedNum, Lin};
use crate::ro_circuit::{lemma_complete_chain, PoseidonROCircuit};
use crate::traits::Engine;
use crate::univariate::{peval, UniPoly};

verus! {

/// A polynomial: its coefficients, lowest degree first.
pub struct AllocatedUniPoly<E: Engine> {
    /// The coefficients.
    pub coeffs: Vec<AllocatedNum<E::Scalar>>,
}

/// The first `n` coefficients of a polynomial, or zeros where there is none.
pub open spec fn coefficient_elements<F: Field>(poly: Option<&UniPoly<F>>, n: int) -> Seq<int> {
    match poly {
        Some(q) => q@.take(n),
        None => Seq::new(n as nat, |i: int| 0),
    }
}

impl<E: Engine> Clone for AllocatedUniPoly<E> {
    fn clone(&self) -> (r: Self)
        ensures
            r.coeffs@ == self.coeffs@,
    {
        let coeffs = copy_vec(&self.coeffs);
        AllocatedUniPoly { coeffs }
    }
}

/// Evaluation by the lowest coefficient and the rest.
proof fn lemma_peval_step(c: Seq<int>, i: int, x: int)
    requires
        0 <= i < c.len(),
    ensures
        peval(c.skip(i), x) == c[i] + x * peval(c.skip(i + 1), x),
{
    assert(c.skip(i).drop_first() =~= c.skip(i + 1));
}

/// The value after `k` steps of evaluating a polynomial from its highest coefficient down, where the
/// values of the steps sit from variable `n` on.
pub open spec fn horner_at(c: Seq<int>, n: int, a: Seq<int>, k: int) -> int {
    if k <= 0 {
        c[c.len() - 1]
    } else {
        a[n + k - 1]
    }
}

/// The constraint of step `k` of evaluating a polynomial at `r`.
pub open spec fn horner_row(
    p: int,
    n: int,
    c: Seq<int>,
    r: int,
    a: Seq<int>,
    k: int,
) -> bool {
    a[n + k] % p == (r * horner_at(c, n, a, k) + c[c.len() - 2 - k]) % p
}

/// The constraints of the first `k` steps of evaluating a polynomial at `r`.
pub open spec fn horner_rows(
    p: int,
    n: int,
    c: Seq<int>,
    r: int,
    a: Seq<int>,
    k: int,
) -> bool {
    forall|j: int| 0 <= j < k ==> #[trigger] horner_row(p, n, c, r, a, j)
}

impl<E: Engine> AllocatedUniPoly<E> {
    /// The variables are those of the system.
    pub open spec fn wf(self, cs: CsModel) -> bool {
        self.coeffs@.len() > 0 && all_wf(self.coeffs@, cs)
    }

    /// The coefficients under an assignment.
    pub open spec fn at(self, a: Seq<int>) -> Seq<int> {
        at_all(self.coeffs@, a)
    }

    /// What is known of a polynomial stays true when the system grows.
    pub proof fn lemma_grow(self, s: CsModel, t: CsModel)
        requires
            self.wf(s),
            s.extended_by(t),
        ensures
            self.wf(t),
    {
        lemma_all_grow(self.coeffs@, s, t);
    }

    /// A new polynomial of at most the given degree, zero where none is given.
    pub fn allocate(
        cs: &mut ConstraintSystem<E::Scalar>,
        degree: usize,
        poly: Option<&UniPoly<E::Scalar>>,
    ) -> (r: Result<Self, SynthesisError>)
        requires
            old(cs)@.wf(),
            degree < usize::MAX,
            poly matches Some(q) ==> q@.len() > degree,
        ensures
            r is Ok,
            old(cs)@.extended_by(final(cs)@),
            final(cs)@.constraints == old(cs)@.constraints,
            final(cs)@.aux.len() == old(cs)@.aux.len() + degree + 1,
            sit_from(r->Ok_0.coeffs@, old(cs)@.aux.len() as int),
            r->Ok_0.wf(final(cs)@),
            r->Ok_0.coeffs@.len() == degree + 1,
            forall|a: Seq<int>| #[trigger]
                agrees(a, final(cs)@) ==> r->Ok_0.at(a) == coefficient_elements(poly, degree + 1),
    {
        let ghost s0 = cs@;
        let n: usize = degree + 1;
        let ghost target = coefficient_elements(poly, n as int);
        let mut coeffs: Vec<AllocatedNum<E::Scalar>> = Vec::new();
        let mut i: usize = 0;
        while i < n
            invariant
                i <= n,
                n == degree + 1,
                target == coefficient_elements(poly, n as int),
                poly matches Some(q) ==> q@.len() >= n,
                cs@.wf(),
                s0.extended_by(cs@),
                cs@.constraints == s0.constraints,
                cs@.aux.len() == s0.aux.len() + i,
                sit_from(coeffs@, s0.aux.len() as int),
                coeffs@.len() == i,
                all_wf(coeffs@, cs@),
                s0.witness ==> forall|j: int|
                    0 <= j < i ==> (#[trigger] coeffs@[j]).value is Some
                        && coeffs@[j].value->0.val() == target[j],
            decreases n - i,
        {
            let ghost s1 = cs@;
            let ghost before = coeffs@;
            let v = match poly {
                Some(q) => {
                    let c = q.coeffs();
                    assert(vals(c@)[i as int] == c@[i as int].val());
                    c[i]
                },
                None => E::Scalar::zero(),
            };
            let c = fresh(cs, Some(v));
            coeffs.push(c);
            proof {
                lemma_chain(E::Scalar::modulus(), s0, s1, cs@);
                lemma_all_grow(before, s1, cs@);
            }
            i += 1;
        }
        let r: Self = AllocatedUniPoly { coeffs };
        proof {
            assert forall|a: Seq<int>| #[trigger] agrees(a, cs@) implies r.at(a) == target by {
                assert forall|j: int| 0 <= j < n implies #[trigger] r.at(a)[j] == target[j] by {
                    assert(coeffs@[j].value is Some);
                    coeffs@[j].lemma_at(cs@, a);
                }
                assert(r.at(a) =~= target);
            }
        }
        Ok(r)
    }

    /// Demands that the values at zero and at one add up to the claim.
    pub fn check_poly_zero_poly_one_with(
        &self,
        cs: &mut ConstraintSystem<E::Scalar>,
        claim: &AllocatedNum<E::Scalar>,
    )
        requires
            old(cs)@.wf(),
            self.wf(old(cs)@),
            claim.wf(old(cs)@),
        ensures
            old(cs)@.extended_by(final(cs)@),
            final(cs)@.aux == old(cs)@.aux,
            forall|a: Seq<int>| #[trigger]
                new_hold(E::Scalar::modulus(), old(cs)@, final(cs)@, a) <==> (peval(self.at(a), 0)
                    + peval(self.at(a), 1)) % E::Scalar::modulus() == claim.at(a)
                    % E::Scalar::modulus(),
    {
        let ghost p = E::Scalar::modulus();
        let n = self.coeffs.len();
        let mut acc = Lin::zero(cs);
        let mut i: usize = n;
        proof {
            E::Scalar::lemma_modulus();
            assert forall|a: Seq<int>| #[trigger] acc.at(a) % p == peval(
                self.at(a).skip(n as int),
                1,
            ) % p by {
                assert(self.at(a).skip(n as int).len() == 0);
            }
        }
        while i > 0
            invariant
                i <= n,
                n == self.coeffs@.len(),
                p == E::Scalar::modulus(),
                p > 1,
                cs@.wf(),
                self.wf(cs@),
                acc.wf(cs@),
                forall|a: Seq<int>| #[trigger]
                    acc.at(a) % p == peval(self.at(a).skip(i as int), 1) % p,
            decreases i,
        {
            let ghost before = acc;
            i -= 1;
            acc = acc.plus(Ghost(cs@), &self.coeffs[i]);
            proof {
                assert forall|a: Seq<int>| #[trigger] acc.at(a) % p == peval(
                    self.at(a).skip(i as int),
                    1,
                ) % p by {
                    let c = self.at(a);
                    lemma_peval_step(c, i as int, 1);
                    lemma_cong_add(
                        p,
                        before.at(a),
                        c[i as int],
                        peval(c.skip(i + 1), 1),
                        c[i as int],
                    );
                }
            }
        }
        let ghost at_one = acc;
        acc = acc.plus(Ghost(cs@), &self.coeffs[0]);
        let one = Lin::constant(cs, E::Scalar::one());
        let t = Lin::var(cs, claim);
        enforce_product(cs, &acc, &one, &t);
        proof {
            lemma_seed_const::<E::Scalar>(1);
            assert forall|a: Seq<int>| #[trigger] new_hold(p, old(cs)@, cs@, a) <==> (peval(
                self.at(a),
                0,
            ) + peval(self.at(a), 1)) % p == claim.at(a) % p by {
                let c = self.at(a);
                assert(c.skip(0) =~= c);
                assert(at_one.at(a) % p == peval(c, 1) % p);
                let rest = peval(c.drop_first(), 0);
                assert(0 * rest == 0);
                assert(peval(c, 0) == c[0]);
                lemma_cong_add(p, at_one.at(a), c[0], peval(c, 1), c[0]);
                lemma_cong_mul(p, acc.at(a), one.at(a), peval(c, 1) + c[0], 1);
            }
        }
    }

    /// The value at a point.
    pub fn evaluate(
        &self,
        cs: &mut ConstraintSystem<E::Scalar>,
        r: &AllocatedNum<E::Scalar>,
    ) -> (v: Result<AllocatedNum<E::Scalar>, SynthesisError>)
        requires
            old(cs)@.wf(),
            self.wf(old(cs)@),
            r.wf(old(cs)@),
        ensures
            v is Ok,
            old(cs)@.extended_by(final(cs)@),
            final(cs)@.aux.len() == old(cs)@.aux.len() + self.coeffs@.len() - 1,
            forall|a: Seq<int>| #[trigger]
                v->Ok_0.at(a) == horner_at(
                    self.at(a),
                    old(cs)@.aux.len() as int,
                    a,
                    self.coeffs@.len() - 1,
                ),
            forall|a: Seq<int>| #[trigger]
                new_hold(E::Scalar::modulus(), old(cs)@, final(cs)@, a) <==> horner_rows(
                    E::Scalar::modulus(),
                    old(cs)@.aux.len() as int,
                    self.at(a),
                    r.at(a),
                    a,
                    self.coeffs@.len() - 1,
                ),
            v->Ok_0.wf(final(cs)@),
            forall|a: Seq<int>| #[trigger]
                new_hold(E::Scalar::modulus(), old(cs)@, final(cs)@, a) ==> v->Ok_0.at(a)
                    % E::Scalar::modulus() == peval(self.at(a), r.at(a)) % E::Scalar::modulus(),
            complete(E::Scalar::modulus(), old(cs)@, final(cs)@),
    {
        let ghost p = E::Scalar::modulus();
        let ghost s0 = cs@;
        let n = self.coeffs.len();
        let mut acc = self.coeffs[n - 1];
        let mut i: usize = n - 1;
        proof {
            E::Scalar::lemma_modulus();
            assert forall|a: Seq<int>| #[trigger] new_hold(p, s0, cs@, a) implies acc.at(a) % p
                == peval(self.at(a).skip(i as int), r.at(a)) % p by {
                let c = self.at(a);
                lemma_peval_step(c, i as int, r.at(a));
                assert(c.skip(n as int).len() == 0);
                assert(r.at(a) * 0 == 0);
            }
        }
        while i > 0
            invariant
                i < n,
                n == self.coeffs@.len(),
                p == E::Scalar::modulus(),
                p > 1,
                cs@.wf(),
                s0.extended_by(cs@),
                complete(p, s0, cs@),
                self.wf(cs@),
                r.wf(cs@),
                acc.wf(cs@),
                cs@.aux.len() == s0.aux.len() + (n - 1 - i),
                forall|a: Seq<int>| #[trigger]
                    acc.at(a) == horner_at(self.at(a), s0.aux.len() as int, a, n - 1 - i),
                forall|a: Seq<int>| #[trigger]
                    new_hold(p, s0, cs@, a) <==> horner_rows(
                        p,
                        s0.aux.len() as int,
                        self.at(a),
                        r.at(a),
                        a,
                        n - 1 - i,
                    ),
                forall|a: Seq<int>| #[trigger]
                    new_hold(p, s0, cs@, a) ==> acc.at(a) % p == peval(
                        self.at(a).skip(i as int),
                        r.at(a),
                    ) % p,
            decreases i,
        {
            let ghost s1 = cs@;
            let ghost before = acc;
            i -= 1;
            let x = Lin::var(cs, r);
            let y = Lin::var(cs, &acc);
            let z = Lin::var(cs, &self.coeffs[i]);
            acc = mul_add(cs, &x, &y, &z);
            proof {
                lemma_chain(p, s0, s1, cs@);
                lemma_complete_chain(p, s0, s1, cs@);
                self.lemma_grow(s1, cs@);
                r.lemma_grow(s1, cs@);
                let q = s0.aux.len() as int;
                let k = n - 2 - i;
                assert forall|a: Seq<int>| #[trigger] new_hold(p, s0, cs@, a) <==> horner_rows(
                    p,
                    q,
                    self.at(a),
                    r.at(a),
                    a,
                    k + 1,
                ) by {
                    let c = self.at(a);
                    assert(before.at(a) == horner_at(c, q, a, k));
                    lemma_cong_mul(p, x.at(a), y.at(a), r.at(a), before.at(a));
                    lemma_cong_add(
                        p,
                        x.at(a) * y.at(a),
                        z.at(a),
                        r.at(a) * before.at(a),
                        c[i as int],
                    );
                    assert(new_hold(p, s1, cs@, a) <==> horner_row(p, q, c, r.at(a), a, k));
                    if horner_rows(p, q, c, r.at(a), a, k + 1) {
                        assert(horner_row(p, q, c, r.at(a), a, k));
                    }
                }
                assert forall|a: Seq<int>| #[trigger] new_hold(p, s0, cs@, a) implies acc.at(a) % p
                    == peval(self.at(a).skip(i as int), r.at(a)) % p by {
                    assert(new_hold(p, s0, s1, a) && new_hold(p, s1, cs@, a));
                    let c = self.at(a);
                    let q = peval(c.skip(i + 1), r.at(a));
                    lemma_peval_step(c, i as int, r.at(a));
                    lemma_cong_mul(p, x.at(a), y.at(a), r.at(a), q);
                    lemma_cong_add(p, x.at(a) * y.at(a), z.at(a), r.at(a) * q, c[i as int]);
                }
            }
        }
        proof {
            assert forall|a: Seq<int>| #[trigger] new_hold(p, s0, cs@, a) implies acc.at(a) % p
                == peval(self.at(a), r.at(a)) % p by {
                assert(self.at(a).skip(0) =~= self.at(a));
            }
        }
        Ok(acc)
    }

    /// Absorbs the coefficients.
    pub fn absorb_in_ro(&self, ro: &mut PoseidonROCircuit<E::Scalar>)
        ensures
            final(ro)@ == old(ro)@ + self.coeffs@,
            final(ro).params() == old(ro).params(),
            final(ro).wf() == old(ro).wf(),
    {
        ro.absorb_all(&self.coeffs);
    }
}

} // verus!
