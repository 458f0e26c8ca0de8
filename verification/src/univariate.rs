//! Univariate polynomials, in coefficient form.
use vstd::prelude::*;
use crate::arith::{fadd, fmul, group_is, is, lemma_cong_add, lemma_cong_mul, lemma_mod, power};
use crate::field::{lemma_seed, lemma_seed_const, vals, Field};

verus! {

/// The value at `x` of the polynomial with the given coefficients, lowest degree first.
pub open spec fn peval(c: Seq<int>, x: int) -> int
    decreases c.len(),
{
    if c.len() == 0 {
        0
    } else {
        c[0] + x * peval(c.drop_first(), x)
    }
}

/// The coefficient of degree `i`, zero past the last one.
pub open spec fn coeff(c: Seq<int>, i: int) -> int {
    if 0 <= i < c.len() {
        c[i]
    } else {
        0
    }
}

/// The sum of two polynomials over the residues modulo `p`.
pub open spec fn padd(p: int, a: Seq<int>, b: Seq<int>) -> Seq<int> {
    Seq::new(
        if a.len() <= b.len() {
            b.len()
        } else {
            a.len()
        },
        |i: int| fadd(p, coeff(a, i), coeff(b, i)),
    )
}

/// The multiple of a polynomial over the residues modulo `p`.
pub open spec fn pscale(p: int, a: Seq<int>, s: int) -> Seq<int> {
    Seq::new(a.len(), |i: int| fmul(p, a[i], s))
}

/// Entrywise `a s + b t`.
pub open spec fn combine(a: int, s: Seq<int>, b: int, t: Seq<int>) -> Seq<int> {
    Seq::new(s.len(), |i: int| a * s[i] + b * t[i])
}

/// One step of evaluation distributes over a combination.
proof fn lemma_combine_step(a: int, b: int, x: int, s: int, t: int, u: int, v: int)
    ensures
        (a * s + b * t) + x * (a * u + b * v) == a * (s + x * u) + b * (t + x * v),
{
    assert(x * (a * u) == a * (x * u)) by (nonlinear_arith);
    assert(x * (b * v) == b * (x * v)) by (nonlinear_arith);
    assert(x * (a * u + b * v) == x * (a * u) + x * (b * v)) by (nonlinear_arith);
    assert(a * (s + x * u) == a * s + a * (x * u)) by (nonlinear_arith);
    assert(b * (t + x * v) == b * t + b * (x * v)) by (nonlinear_arith);
}

/// Evaluation is linear in the coefficients.
pub proof fn lemma_peval_combine(a: int, s: Seq<int>, b: int, t: Seq<int>, x: int)
    requires
        s.len() == t.len(),
    ensures
        peval(combine(a, s, b, t), x) == a * peval(s, x) + b * peval(t, x),
    decreases s.len(),
{
    if s.len() > 0 {
        let (s1, t1) = (s.drop_first(), t.drop_first());
        lemma_peval_combine(a, s1, b, t1, x);
        assert(combine(a, s, b, t).drop_first() =~= combine(a, s1, b, t1));
        lemma_combine_step(a, b, x, s[0], t[0], peval(s1, x), peval(t1, x));
    } else {
        assert(a * 0 + b * 0 == 0) by (nonlinear_arith);
    }
}

/// Evaluation respects congruence of the coefficients and of the point.
pub proof fn lemma_peval_cong(p: int, s: Seq<int>, t: Seq<int>, x: int, y: int)
    requires
        p > 0,
        s.len() == t.len(),
        forall|i: int| 0 <= i < s.len() ==> #[trigger] s[i] % p == t[i] % p,
        x % p == y % p,
    ensures
        peval(s, x) % p == peval(t, y) % p,
    decreases s.len(),
{
    if s.len() > 0 {
        let (s1, t1) = (s.drop_first(), t.drop_first());
        assert forall|i: int| 0 <= i < s1.len() implies #[trigger] s1[i] % p == t1[i] % p by {
            assert(s[i + 1] % p == t[i + 1] % p);
        }
        lemma_peval_cong(p, s1, t1, x, y);
        lemma_cong_mul(p, x, peval(s1, x), y, peval(t1, y));
        lemma_cong_add(p, s[0], x * peval(s1, x), t[0], y * peval(t1, y));
    }
}

/// Trailing zero coefficients do not matter.
pub proof fn lemma_peval_push_zero(s: Seq<int>, x: int)
    ensures
        peval(s.push(0), x) == peval(s, x),
    decreases s.len(),
{
    if s.len() > 0 {
        lemma_peval_push_zero(s.drop_first(), x);
        assert(s.push(0).drop_first() =~= s.drop_first().push(0));
    } else {
        assert(s.push(0).drop_first() =~= s);
        assert(x * 0 == 0) by (nonlinear_arith);
    }
}

/// A leading zero coefficient multiplies by the variable.
pub proof fn lemma_peval_shift(s: Seq<int>, x: int)
    ensures
        peval(seq![0int] + s, x) == x * peval(s, x),
{
    assert((seq![0int] + s).drop_first() =~= s);
}

/// The product `x (x - 1) ... (x - (k - 1))`.
pub open spec fn node(k: nat, x: int) -> int
    decreases k,
{
    if k == 0 {
        1
    } else {
        node((k - 1) as nat, x) * (x - (k - 1))
    }
}

/// The product vanishes at its nodes.
proof fn lemma_node_zero(k: nat, j: int)
    requires
        0 <= j < k,
    ensures
        node(k, j) == 0,
    decreases k,
{
    let u = node((k - 1) as nat, j);
    if j == k - 1 {
        assert(u * 0 == 0) by (nonlinear_arith);
    } else {
        lemma_node_zero((k - 1) as nat, j);
        assert(0 * (j - (k - 1)) == 0) by (nonlinear_arith);
    }
}

/// The node product is positive past its nodes, and bounded near them.
proof fn lemma_node_bounds(k: nat, x: int)
    requires
        k <= x <= 16,
    ensures
        0 < node(k, x) <= power(16, k),
    decreases k,
{
    if k > 0 {
        lemma_node_bounds((k - 1) as nat, x);
        let u = node((k - 1) as nat, x);
        let v = power(16, (k - 1) as nat);
        assert(0 < u * (x - (k - 1)) <= v * 16) by (nonlinear_arith)
            requires
                0 < u <= v,
                1 <= x - (k - 1) <= 16,
        ;
    }
}

/// The powers of sixteen below the sixteenth fit a machine word.
proof fn lemma_power_16(k: nat)
    requires
        k <= 15,
    ensures
        0 < power(16, k) <= u64::MAX,
    decreases 15 - k,
{
    if k == 15 {
        reveal_with_fuel(power, 16);
    } else {
        lemma_power_16(k + 1);
        assert(power(16, k + 1) == power(16, k) * 16);
    }
}

/// The value at `x` of the polynomial with the given coefficients, from the highest down.
fn evaluate_at<F: Field>(coeffs: &Vec<F>, x: &F) -> (r: F)
    ensures
        is(F::modulus(), r.val(), peval(vals(coeffs@), x.val())),
{
    let ghost c = vals(coeffs@);
    let n = coeffs.len();
    let mut acc = F::zero();
    let mut i: usize = n;
    proof {
        lemma_seed_const::<F>(0);
        lemma_seed(*x);
    }
    while i > 0
        invariant
            i <= n,
            n == coeffs@.len(),
            c == vals(coeffs@),
            is(F::modulus(), x.val(), x.val()),
            F::modulus() > u64::MAX,
            is(F::modulus(), acc.val(), peval(c.skip(i as int), x.val())),
        decreases i,
    {
        i = i - 1;
        let a = coeffs[i];
        proof {
            broadcast use group_is;

            lemma_seed(a);
            assert(c.skip(i as int).drop_first() =~= c.skip(i as int + 1));
            assert(c.skip(i as int)[0] == a.val());
            assert(is(
                F::modulus(),
                fmul(F::modulus(), x.val(), acc.val()),
                x.val() * peval(c.skip(i as int + 1), x.val()),
            ));
        }
        acc = a.add(x.mul(acc));
    }
    proof {
        assert(c.skip(0) =~= c);
    }
    acc
}

/// A univariate polynomial over the field.
#[derive(Clone, Debug, PartialEq, Eq)]
pub struct UniPoly<F> {
    pub(crate) coeffs: Vec<F>,
}

impl<F: Field> UniPoly<F> {
    /// The representatives of the coefficients, lowest degree first.
    pub closed spec fn view(self) -> Seq<int> {
        vals(self.coeffs@)
    }

    /// The view is that of the coefficients.
    pub(crate) proof fn lemma_view(self)
        ensures
            self@ == vals(self.coeffs@),
    {
    }

    /// The polynomial with the given coefficients, lowest degree first.
    pub fn from_coeffs(coeffs: Vec<F>) -> (r: Self)
        ensures
            r@ == vals(coeffs@),
    {
        UniPoly { coeffs }
    }

    /// The coefficients, lowest degree first.
    pub fn coeffs(&self) -> (r: &[F])
        ensures
            vals(r@) == self@,
    {
        self.coeffs.as_slice()
    }

    /// The value of the polynomial at a point.
    pub fn evaluate(&self, x: &F) -> (r: F)
        ensures
            is(F::modulus(), r.val(), peval(self@, x.val())),
    {
        evaluate_at(&self.coeffs, x)
    }

    /// The value at zero, the constant coefficient.
    pub fn eval_at_zero(&self) -> (r: F)
        ensures
            is(F::modulus(), r.val(), peval(self@, 0)),
    {
        let zero = F::zero();
        self.evaluate(&zero)
    }

    /// The value at one, the sum of the coefficients.
    pub fn eval_at_one(&self) -> (r: F)
        ensures
            is(F::modulus(), r.val(), peval(self@, 1)),
    {
        let one = F::one();
        self.evaluate(&one)
    }

    /// The polynomial with every coefficient multiplied by `s`.
    pub fn scaled(&self, s: &F) -> (r: Self)
        ensures
            r@ == pscale(F::modulus(), self@, s.val()),
    {
        let mut out: Vec<F> = Vec::new();
        let mut i: usize = 0;
        while i < self.coeffs.len()
            invariant
                i <= self.coeffs@.len(),
                out@.len() == i,
                forall|k: int| 0 <= k < i ==> #[trigger] out@[k].val() == fmul(
                    F::modulus(),
                    self.coeffs@[k].val(),
                    s.val(),
                ),
            decreases self.coeffs@.len() - i,
        {
            out.push(self.coeffs[i].mul(*s));
            i += 1;
        }
        let r = UniPoly { coeffs: out };
        assert(r@ =~= pscale(F::modulus(), self@, s.val()));
        r
    }

    /// The sum of two polynomials.
    pub fn add(&self, other: &Self) -> (r: Self)
        ensures
            r@ == padd(F::modulus(), self@, other@),
    {
        let (n, m) = (self.coeffs.len(), other.coeffs.len());
        let len = if n <= m {
            m
        } else {
            n
        };
        let mut out: Vec<F> = Vec::new();
        let mut i: usize = 0;
        while i < len
            invariant
                i <= len,
                n == self.coeffs@.len(),
                m == other.coeffs@.len(),
                out@.len() == i,
                forall|k: int| 0 <= k < i ==> #[trigger] out@[k].val() == fadd(
                    F::modulus(),
                    coeff(self@, k),
                    coeff(other@, k),
                ),
            decreases len - i,
        {
            let a = if i < n {
                self.coeffs[i]
            } else {
                F::zero()
            };
            let b = if i < m {
                other.coeffs[i]
            } else {
                F::zero()
            };
            out.push(a.add(b));
            i += 1;
        }
        let r = UniPoly { coeffs: out };
        assert(r@ =~= padd(F::modulus(), self@, other@));
        r
    }

    /// The node polynomial times `x - k`.
    fn next_node(nodes: &Vec<F>, k: usize, Ghost(kk): Ghost<nat>) -> (r: Vec<F>)
        requires
            kk == k,
            k <= 20,
            nodes@.len() == k + 1,
            forall|x: int| #[trigger] peval(vals(nodes@), x) % F::modulus() == node(kk, x)
                % F::modulus(),
        ensures
            r@.len() == nodes@.len() + 1,
            forall|x: int| #[trigger] peval(vals(r@), x) % F::modulus() == node(kk + 1, x)
                % F::modulus(),
    {
        let ghost p = F::modulus();
        let kf = F::from_u64(k as u64);
        let n = nodes.len();
        let ghost s = seq![0int] + vals(nodes@);
        let ghost t = vals(nodes@).push(0);
        let mut out: Vec<F> = Vec::new();
        let mut i: usize = 0;
        proof {
            lemma_seed_const::<F>(0);
            lemma_seed_const::<F>(k as int);
        }
        while i <= n
            invariant
                i <= n + 1,
                n == nodes@.len(),
                n == k + 1,
                out@.len() == i,
                k <= 20,
                kf.val() == k,
                is(p, k as int, k as int),
                is(p, 0, 0),
                p == F::modulus(),
                p > u64::MAX,
                s == seq![0int] + vals(nodes@),
                t == vals(nodes@).push(0),
                forall|j: int| 0 <= j < i ==> #[trigger] out@[j].val() == (1 * s[j] + (-k) * t[j])
                    % p,
            decreases n + 1 - i,
        {
            let a = if i > 0 {
                nodes[i - 1]
            } else {
                F::zero()
            };
            let b = if i < n {
                nodes[i]
            } else {
                F::zero()
            };
            let c = a.sub(kf.mul(b));
            proof {
                broadcast use group_is;

                lemma_seed(a);
                lemma_seed(b);
                assert(a.val() == s[i as int]);
                assert(b.val() == t[i as int]);
                assert(is(p, c.val(), a.val() - k * b.val()));
                assert(s[i as int] - k * t[i as int] == 1 * s[i as int] + (-k) * t[i as int])
                    by (nonlinear_arith);
            }
            out.push(c);
            i += 1;
        }
        proof {
            assert forall|x: int| #[trigger] peval(vals(out@), x) % p == node(kk + 1, x) % p by {
                let m = combine(1, s, -(k as int), t);
                assert forall|j: int| 0 <= j < m.len() implies #[trigger] vals(out@)[j] % p == m[j]
                    % p by {
                    assert(out@[j].val() == (1 * s[j] + (-k) * t[j]) % p);
                    lemma_mod(p, m[j]);
                }
                lemma_peval_cong(p, vals(out@), m, x, x);
                lemma_peval_combine(1, s, -(k as int), t, x);
                lemma_peval_shift(vals(nodes@), x);
                lemma_peval_push_zero(vals(nodes@), x);
                let u = peval(vals(nodes@), x);
                assert(1 * (x * u) + (-(k as int)) * u == u * (x - k)) by (nonlinear_arith);
                assert(u % p == node(kk, x) % p);
                lemma_cong_mul(p, u, x - k, node(kk, x), x - k);
            }
        }
        out
    }

    /// The sum `poly + c nodes`, where `nodes` is one coefficient longer.
    fn add_multiple(poly: &Vec<F>, c: F, nodes: &Vec<F>) -> (r: Vec<F>)
        requires
            nodes@.len() == poly@.len() + 1,
        ensures
            r@.len() == nodes@.len(),
            forall|x: int| #[trigger] peval(vals(r@), x) % F::modulus() == (peval(vals(poly@), x)
                + c.val() * peval(vals(nodes@), x)) % F::modulus(),
    {
        let ghost p = F::modulus();
        let n = nodes.len();
        let ghost s = vals(poly@).push(0);
        let ghost t = vals(nodes@);
        let mut out: Vec<F> = Vec::new();
        let mut i: usize = 0;
        proof {
            lemma_seed_const::<F>(0);
            lemma_seed(c);
        }
        while i < n
            invariant
                i <= n,
                n == nodes@.len(),
                n == poly@.len() + 1,
                out@.len() == i,
                p == F::modulus(),
                p > u64::MAX,
                is(p, c.val(), c.val()),
                s == vals(poly@).push(0),
                t == vals(nodes@),
                forall|j: int| 0 <= j < i ==> #[trigger] out@[j].val() == (1 * s[j] + c.val()
                    * t[j]) % p,
            decreases n - i,
        {
            let a = if i + 1 < n {
                poly[i]
            } else {
                F::zero()
            };
            let b = nodes[i];
            let d = a.add(c.mul(b));
            proof {
                broadcast use group_is;

                lemma_seed(a);
                lemma_seed(b);
                assert(a.val() == s[i as int]);
                assert(b.val() == t[i as int]);
                assert(is(p, d.val(), a.val() + c.val() * b.val()));
            }
            out.push(d);
            i += 1;
        }
        proof {
            assert forall|x: int| #[trigger] peval(vals(out@), x) % p == (peval(vals(poly@), x)
                + c.val() * peval(vals(nodes@), x)) % p by {
                let m = combine(1, s, c.val(), t);
                assert forall|j: int| 0 <= j < m.len() implies #[trigger] vals(out@)[j] % p == m[j]
                    % p by {
                    assert(out@[j].val() == (1 * s[j] + c.val() * t[j]) % p);
                    lemma_mod(p, m[j]);
                }
                lemma_peval_cong(p, vals(out@), m, x, x);
                lemma_peval_combine(1, s, c.val(), t, x);
                lemma_peval_push_zero(vals(poly@), x);
            }
        }
        out
    }

    /// The polynomial with one coefficient per value that takes the given values, sixteen at
    /// most, at `0, 1, 2, ...`.
    pub fn from_evals(evals: &[F]) -> (r: Self)
        requires
            evals@.len() <= 16,
        ensures
            r@.len() == evals@.len(),
            forall|j: int| 0 <= j < evals@.len() ==> is(
                F::modulus(),
                #[trigger] evals@[j].val(),
                peval(r@, j),
            ),
    {
        let ghost p = F::modulus();
        let n = evals.len();
        let mut poly: Vec<F> = Vec::new();
        let mut nodes: Vec<F> = Vec::new();
        nodes.push(F::one());
        proof {
            lemma_seed_const::<F>(0);
            assert forall|x: int| #[trigger] peval(vals(nodes@), x) % p == node(0, x) % p by {
                let c = vals(nodes@);
                assert(c.len() == 1 && c[0] == 1);
                assert(peval(c.drop_first(), x) == 0);
                assert(x * 0 == 0) by (nonlinear_arith);
                assert(peval(c, x) == 1);
            }
        }
        let mut k: usize = 0;
        while k < n
            invariant
                k <= n,
                n == evals@.len(),
                n <= 16,
                p == F::modulus(),
                p > u64::MAX,
                poly@.len() == k,
                nodes@.len() == k + 1,
                forall|x: int| #[trigger] peval(vals(nodes@), x) % p == node(k as nat, x) % p,
                forall|j: int| 0 <= j < k ==> is(p, #[trigger] evals@[j].val(), peval(
                    vals(poly@),
                    j,
                )),
            decreases n - k,
        {
            let kf = F::from_u64(k as u64);
            let cur = evaluate_at(&poly, &kf);
            let den = evaluate_at(&nodes, &kf);
            proof {
                lemma_node_bounds(k as nat, k as int);
                lemma_power_16(k as nat);
                vstd::arithmetic::div_mod::lemma_small_mod(
                    node(k as nat, k as int) as nat,
                    p as nat,
                );
                assert(peval(vals(nodes@), k as int) % p == node(k as nat, k as int) % p);
                assert(den.val() != 0);
            }
            let inv = match den.invert() {
                Some(v) => v,
                None => F::one(),
            };
            let c = evals[k].sub(cur).mul(inv);
            let next = Self::add_multiple(&poly, c, &nodes);
            proof {
                let y = evals@[k as int];
                let e = peval(vals(poly@), k as int);
                let d = peval(vals(nodes@), k as int);
                broadcast use group_is;

                lemma_seed(y);
                lemma_seed(inv);
                lemma_seed_const::<F>(1);
                assert(is(p, c.val(), (y.val() - e) * inv.val()));
                assert(is(p, fmul(p, den.val(), inv.val()), d * inv.val()));
                assert((d * inv.val()) % p == 1);
                lemma_mod(p, (y.val() - e) * inv.val());
                lemma_cong_mul(p, c.val(), d, (y.val() - e) * inv.val(), d);
                assert(((y.val() - e) * inv.val()) * d == (y.val() - e) * (d * inv.val()))
                    by (nonlinear_arith);
                lemma_cong_mul(p, y.val() - e, d * inv.val(), y.val() - e, 1);
                lemma_cong_add(p, e, c.val() * d, e, y.val() - e);
                assert(peval(vals(next@), k as int) % p == (e + c.val() * d) % p);
                assert forall|j: int| 0 <= j < k + 1 implies is(
                    p,
                    #[trigger] evals@[j].val(),
                    peval(vals(next@), j),
                ) by {
                    if j < k {
                        lemma_node_zero(k as nat, j);
                        assert(peval(vals(nodes@), j) % p == node(k as nat, j) % p);
                        lemma_cong_mul(p, c.val(), peval(vals(nodes@), j), c.val(), 0);
                        assert(c.val() * 0 == 0) by (nonlinear_arith);
                        lemma_cong_add(
                            p,
                            peval(vals(poly@), j),
                            c.val() * peval(vals(nodes@), j),
                            peval(vals(poly@), j),
                            0,
                        );
                        assert(peval(vals(next@), j) % p == (peval(vals(poly@), j) + c.val()
                            * peval(vals(nodes@), j)) % p);
                    }
                }
            }
            poly = next;
            nodes = Self::next_node(&nodes, k, Ghost(k as nat));
            k += 1;
        }
        UniPoly { coeffs: poly }
    }
}

} // verus!
