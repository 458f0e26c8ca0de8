//! Synthesized arkworks circuits: their matrices and their assignments.
use ark_ff::PrimeField as _;
use vstd::prelude::*;
use crate::arith::sum;
use crate::arkworks::field_bridge::ArkFr;
use crate::arkworks::sha256_circuit::{
    ark_holds, digest_digits, sha256, step_calls, step_relation, step_values, stepped, ArkCall,
    ArkCs, ArkSha256HashStep, ArkState,
};
use crate::bn254::{limbs_value, scalar_modulus};
use crate::errors::SynthesisError;
use crate::packing::packed;

verus! {

/// The matrices of a constraint system: for each row, the representatives of its coefficients with
/// their columns.
#[verifier::ext_equal]
pub struct ArkMatricesModel {
    pub num_instance_variables: int,
    pub num_witness_variables: int,
    pub num_constraints: int,
    pub a: Seq<Seq<(int, usize)>>,
    pub b: Seq<Seq<(int, usize)>>,
    pub c: Seq<Seq<(int, usize)>>,
}

/// The value of a column: the constant one comes first, then the other public variables, which are
/// zero where `x` ends, then the private ones.
pub open spec fn column_value(n: int, x: Seq<int>, w: Seq<int>, column: int) -> int {
    if column == 0 {
        1
    } else if column < n {
        if column - 1 < x.len() {
            x[column - 1]
        } else {
            0
        }
    } else {
        w[column - n]
    }
}

/// The value of a row.
pub open spec fn row_at(row: Seq<(int, usize)>, n: int, x: Seq<int>, w: Seq<int>) -> int {
    sum(|k: int| row[k].0 * column_value(n, x, w, row[k].1 as int), 0, row.len() as int)
}

/// All columns are below a bound.
pub open spec fn columns_below(m: Seq<Seq<(int, usize)>>, bound: int) -> bool {
    forall|r: int, k: int|
        0 <= r < m.len() && 0 <= k < m[r].len() ==> (#[trigger] m[r][k]).1 < bound
}

impl ArkMatricesModel {
    /// Each matrix has one row for each constraint, and each column stands for a variable.
    pub open spec fn fits(self) -> bool {
        let bound = self.num_instance_variables + self.num_witness_variables;
        &&& self.a.len() == self.num_constraints
        &&& self.b.len() == self.num_constraints
        &&& self.c.len() == self.num_constraints
        &&& columns_below(self.a, bound)
        &&& columns_below(self.b, bound)
        &&& columns_below(self.c, bound)
    }

    /// Row `r` of the constraints holds.
    pub open spec fn row_satisfied(self, x: Seq<int>, w: Seq<int>, r: int) -> bool {
        let n = self.num_instance_variables;
        (row_at(self.a[r], n, x, w) * row_at(self.b[r], n, x, w)) % scalar_modulus() == row_at(
            self.c[r],
            n,
            x,
            w,
        ) % scalar_modulus()
    }

    /// The constraints hold.
    pub open spec fn satisfied(self, x: Seq<int>, w: Seq<int>) -> bool {
        forall|r: int| 0 <= r < self.num_constraints ==> #[trigger] self.row_satisfied(x, w, r)
    }
}

/// The matrices of an arkworks system, which depend on the calls that made it alone.
pub uninterp spec fn ark_matrices(calls: Seq<ArkCall>) -> ArkMatricesModel;

/// Matrices by their rows of coefficients and columns.
#[derive(Clone, Debug, PartialEq, Eq)]
pub struct ArkMatrices {
    /// Number of public variables, the constant one among them.
    pub num_instance_variables: usize,
    /// Number of private variables.
    pub num_witness_variables: usize,
    /// Number of constraints.
    pub num_constraints: usize,
    /// Rows of the first matrix.
    pub a: Vec<Vec<(ArkFr, usize)>>,
    /// Rows of the second matrix.
    pub b: Vec<Vec<(ArkFr, usize)>>,
    /// Rows of the third matrix.
    pub c: Vec<Vec<(ArkFr, usize)>>,
}

/// The row with representatives for coefficients.
pub open spec fn row_model(row: Seq<(ArkFr, usize)>) -> Seq<(int, usize)> {
    Seq::new(row.len(), |k: int| (row[k].0.val(), row[k].1))
}

/// The rows with representatives for coefficients.
pub open spec fn row_values(m: Seq<Vec<(ArkFr, usize)>>) -> Seq<Seq<(int, usize)>> {
    Seq::new(m.len(), |i: int| row_model(m[i]@))
}

/// The representatives of a vector of scalars.
pub open spec fn ark_vals(v: Seq<ArkFr>) -> Seq<int> {
    Seq::new(v.len(), |i: int| v[i].val())
}

impl ArkMatrices {
    /// The mathematical matrices.
    pub open spec fn view(self) -> ArkMatricesModel {
        ArkMatricesModel {
            num_instance_variables: self.num_instance_variables as int,
            num_witness_variables: self.num_witness_variables as int,
            num_constraints: self.num_constraints as int,
            a: row_values(self.a@),
            b: row_values(self.b@),
            c: row_values(self.c@),
        }
    }
}

/// Matrices as they come, with the limbs of coefficients.
struct LimbMatrices {
    num_instance_variables: usize,
    num_witness_variables: usize,
    num_constraints: usize,
    a: Vec<Vec<([u64; 4], usize)>>,
    b: Vec<Vec<([u64; 4], usize)>>,
    c: Vec<Vec<([u64; 4], usize)>>,
}

/// The row with the numbers that its limbs stand for.
spec fn limb_row(row: Seq<([u64; 4], usize)>) -> Seq<(int, usize)> {
    Seq::new(row.len(), |k: int| (limbs_value(row[k].0@), row[k].1))
}

/// The rows with the numbers that their limbs stand for.
spec fn limb_rows(m: Seq<Vec<([u64; 4], usize)>>) -> Seq<Seq<(int, usize)>> {
    Seq::new(m.len(), |i: int| limb_row(m[i]@))
}

/// The limbs in the row stand for numbers below the modulus.
spec fn canonical_row(row: Seq<([u64; 4], usize)>) -> bool {
    forall|k: int| 0 <= k < row.len() ==> limbs_value((#[trigger] row[k]).0@) < scalar_modulus()
}

/// The limbs in the rows stand for numbers below the modulus.
spec fn canonical_rows(m: Seq<Vec<([u64; 4], usize)>>) -> bool {
    forall|i: int| 0 <= i < m.len() ==> canonical_row((#[trigger] m[i])@)
}

/// The numbers that limbs stand for.
spec fn limb_values(v: Seq<[u64; 4]>) -> Seq<int> {
    Seq::new(v.len(), |i: int| limbs_value(v[i]@))
}

/// The limbs stand for numbers below the modulus.
spec fn canonical_limbs(v: Seq<[u64; 4]>) -> bool {
    forall|i: int| 0 <= i < v.len() ==> limbs_value((#[trigger] v[i])@) < scalar_modulus()
}

impl LimbMatrices {
    /// The mathematical matrices.
    spec fn view(self) -> ArkMatricesModel {
        ArkMatricesModel {
            num_instance_variables: self.num_instance_variables as int,
            num_witness_variables: self.num_witness_variables as int,
            num_constraints: self.num_constraints as int,
            a: limb_rows(self.a@),
            b: limb_rows(self.b@),
            c: limb_rows(self.c@),
        }
    }
}

/// `inline_all_lcs` of `ark_relations`: replaces symbolic combinations by what they stand for. That
/// is done once. It adds neither variables nor constraints, and changes none of their values.
#[verifier::external_body]
fn ark_inline_all_lcs(cs: &mut ArkCs)
    requires
        old(cs)@.regular,
    ensures
        final(cs)@ == (ArkState { regular: false, inlined: true, ..old(cs)@ }),
        forall|x: Seq<int>, w: Seq<int>| #[trigger]
            ark_holds(*final(cs), x, w) == ark_holds(*old(cs), x, w),
{
    cs.inner.inline_all_lcs();
}

/// `to_matrices` of `ark_relations`: the matrices of a system whose symbolic combinations were
/// replaced, if it keeps its constraints. They have a row for each constraint and columns for its
/// variables alone, and say what the constraints say. Two systems that the same calls made have
/// the same ones.
#[verifier::external_body]
fn ark_to_matrices(cs: &ArkCs) -> (r: Option<LimbMatrices>)
    requires
        cs@.inlined,
    ensures
        r is Some == (cs@.present && cs@.keeps),
        r matches Some(m) ==> {
            &&& m@ == ark_matrices(cs@.calls)
            &&& m@.num_instance_variables == cs@.public
            &&& m@.num_witness_variables == cs@.private
            &&& m@.num_constraints == cs@.constraints
            &&& m@.fits()
            &&& canonical_rows(m.a@) && canonical_rows(m.b@) && canonical_rows(m.c@)
            &&& forall|x: Seq<int>, w: Seq<int>|
                w.len() == cs@.private ==> #[trigger] m@.satisfied(x, w) == ark_holds(*cs, x, w)
        },
{
    let m = cs.inner.to_matrices()?;
    let row = |r: Vec<(ark_bn254::Fr, usize)>| -> Vec<([u64; 4], usize)> {
        r.into_iter().map(|(c, i)| (c.into_bigint().0, i)).collect()
    };
    Some(LimbMatrices {
        num_instance_variables: m.num_instance_variables,
        num_witness_variables: m.num_witness_variables,
        num_constraints: m.num_constraints,
        a: m.a.into_iter().map(row).collect(),
        b: m.b.into_iter().map(row).collect(),
        c: m.c.into_iter().map(row).collect(),
    })
}

/// `into_inner` of an `ark_relations` reference, and the values that its system recorded for the
/// private and for the public variables. There are none where something else refers to the system,
/// or where the reference is empty. Whether something else refers to it is not stated.
#[verifier::external_body]
fn ark_into_inner(cs: ArkCs) -> (r: Option<(Vec<[u64; 4]>, Vec<[u64; 4]>)>)
    ensures
        r is Some ==> cs@.present,
        r matches Some((w, x)) ==> {
            &&& canonical_limbs(w@) && canonical_limbs(x@)
            &&& limb_values(w@) == cs@.witness
            &&& limb_values(x@) == cs@.instance
            &&& cs@.inlined ==> x@.len() > 0 && limb_values(x@)[0] == 1
        },
{
    let inner = cs.inner.into_inner()?;
    let limbs = |v: Vec<ark_bn254::Fr>| -> Vec<[u64; 4]> {
        v.into_iter().map(|c| c.into_bigint().0).collect()
    };
    Some((limbs(inner.witness_assignment), limbs(inner.instance_assignment)))
}

/// `borrow` of an `ark_relations` reference, and the values that its system recorded for the
/// private and for the public variables.
#[verifier::external_body]
fn ark_assignments(cs: &ArkCs) -> (r: Option<(Vec<[u64; 4]>, Vec<[u64; 4]>)>)
    ensures
        r is Some <==> cs@.present,
        r matches Some((w, x)) ==> {
            &&& canonical_limbs(w@) && canonical_limbs(x@)
            &&& limb_values(w@) == cs@.witness
            &&& limb_values(x@) == cs@.instance
            &&& cs@.inlined ==> x@.len() > 0 && limb_values(x@)[0] == 1
        },
{
    let inner = cs.inner.borrow()?;
    let limbs = |v: &Vec<ark_bn254::Fr>| -> Vec<[u64; 4]> {
        v.iter().map(|c| c.into_bigint().0).collect()
    };
    Some((limbs(&inner.witness_assignment), limbs(&inner.instance_assignment)))
}

/// The scalars with the given limbs.
fn scalars(v: &Vec<[u64; 4]>) -> (r: Vec<ArkFr>)
    requires
        canonical_limbs(v@),
    ensures
        ark_vals(r@) == limb_values(v@),
{
    let mut r: Vec<ArkFr> = Vec::new();
    let mut i: usize = 0;
    while i < v.len()
        invariant
            i <= v@.len(),
            canonical_limbs(v@),
            r@.len() == i,
            forall|j: int| 0 <= j < i ==> (#[trigger] r@[j]).val() == limbs_value(v@[j]@),
        decreases v@.len() - i,
    {
        r.push(ArkFr::from_canonical(v[i]));
        i += 1;
    }
    assert(ark_vals(r@) =~= limb_values(v@));
    r
}

/// The row with scalars for limbs.
fn scalar_row(row: &Vec<([u64; 4], usize)>) -> (r: Vec<(ArkFr, usize)>)
    requires
        canonical_row(row@),
    ensures
        row_model(r@) == limb_row(row@),
{
    let mut r: Vec<(ArkFr, usize)> = Vec::new();
    let mut i: usize = 0;
    while i < row.len()
        invariant
            i <= row@.len(),
            canonical_row(row@),
            r@.len() == i,
            forall|j: int|
                0 <= j < i ==> (#[trigger] r@[j]).0.val() == limbs_value(row@[j].0@) && r@[j].1
                    == row@[j].1,
        decreases row@.len() - i,
    {
        assert(limbs_value(row@[i as int].0@) < scalar_modulus());
        let (c, column) = row[i];
        r.push((ArkFr::from_canonical(c), column));
        i += 1;
    }
    assert(row_model(r@) =~= limb_row(row@));
    r
}

/// The rows with scalars for limbs.
fn scalar_rows(m: &Vec<Vec<([u64; 4], usize)>>) -> (r: Vec<Vec<(ArkFr, usize)>>)
    requires
        canonical_rows(m@),
    ensures
        row_values(r@) == limb_rows(m@),
{
    let mut r: Vec<Vec<(ArkFr, usize)>> = Vec::new();
    let mut i: usize = 0;
    while i < m.len()
        invariant
            i <= m@.len(),
            canonical_rows(m@),
            r@.len() == i,
            forall|j: int| 0 <= j < i ==> row_model((#[trigger] r@[j])@) == limb_row(m@[j]@),
        decreases m@.len() - i,
    {
        assert(canonical_row(m@[i as int]@));
        r.push(scalar_row(&m[i]));
        i += 1;
    }
    assert(row_values(r@) =~= limb_rows(m@));
    r
}

/// A synthesized arkworks circuit: its matrices and its assignments.
#[derive(Clone, Debug, PartialEq, Eq)]
pub struct CompiledArkCircuit {
    /// The matrices.
    pub matrices: ArkMatrices,
    /// The values of the private variables, if there are any.
    pub witness_assignment: Option<Vec<ArkFr>>,
    /// The values of the public variables, the constant one among them.
    pub instance_assignment: Vec<ArkFr>,
    /// Number of private variables.
    pub num_witness_vars: usize,
    /// Number of public variables, the constant one among them.
    pub num_instance_vars: usize,
    /// Number of constraints.
    pub num_constraints: usize,
}

impl CompiledArkCircuit {
    /// The circuit is what the system holds: its matrices say what its constraints say, and its
    /// assignments are those that the system recorded.
    pub open spec fn describes(self, cs: ArkCs) -> bool {
        &&& self.matrices@ == ark_matrices(cs@.calls)
        &&& self.matrices@.fits()
        &&& self.num_witness_vars == cs@.private == self.matrices.num_witness_variables
        &&& self.num_instance_vars == cs@.public == self.matrices.num_instance_variables
        &&& self.num_constraints == cs@.constraints == self.matrices.num_constraints
        &&& forall|x: Seq<int>, w: Seq<int>|
            w.len() == cs@.private ==> #[trigger] self.matrices@.satisfied(x, w) == ark_holds(
                cs,
                x,
                w,
            )
        &&& self.records(cs@.witness, cs@.instance)
        &&& ark_vals(self.instance_assignment@)[0] == 1
        &&& self.instance_assignment@.len() > 0
    }

    /// The assignments are the given ones.
    pub open spec fn records(self, witness: Seq<int>, instance: Seq<int>) -> bool {
        &&& ark_vals(self.instance_assignment@) == instance
        &&& match self.witness_assignment {
            Some(w) => witness.len() > 0 && ark_vals(w@) == witness,
            None => witness.len() == 0,
        }
    }
}

/// The matrices of a system, with the text of the error where there are none.
fn matrices_of(cs: &mut ArkCs, no_matrices: &str) -> (r: Result<ArkMatrices, SynthesisError>)
    requires
        old(cs)@.regular,
    ensures
        final(cs)@ == (ArkState { regular: false, inlined: true, ..old(cs)@ }),
        match r {
            Ok(m) => {
                &&& old(cs)@.present && old(cs)@.keeps
                &&& m@ == ark_matrices(old(cs)@.calls)
                &&& m@.num_instance_variables == old(cs)@.public
                &&& m@.num_witness_variables == old(cs)@.private
                &&& m@.num_constraints == old(cs)@.constraints
                &&& m@.fits()
                &&& forall|x: Seq<int>, w: Seq<int>|
                    w.len() == old(cs)@.private ==> #[trigger] m@.satisfied(x, w) == ark_holds(
                        *old(cs),
                        x,
                        w,
                    )
            },
            Err(SynthesisError::Unsatisfiable(text)) => !(old(cs)@.present && old(cs)@.keeps)
                && text@ == no_matrices@,
            Err(_) => false,
        },
{
    ark_inline_all_lcs(cs);
    match ark_to_matrices(cs) {
        Some(m) => {
            let r = ArkMatrices {
                num_instance_variables: m.num_instance_variables,
                num_witness_variables: m.num_witness_variables,
                num_constraints: m.num_constraints,
                a: scalar_rows(&m.a),
                b: scalar_rows(&m.b),
                c: scalar_rows(&m.c),
            };
            assert(r@ == m@);
            Ok(r)
        },
        None => Err(SynthesisError::Unsatisfiable(no_matrices.to_string())),
    }
}

/// The circuit with the given matrices and the values of its private and its public variables, if
/// there are any. Where there are none it fails, with the given text.
pub fn assemble(
    matrices: ArkMatrices,
    assignments: Option<(Vec<ArkFr>, Vec<ArkFr>)>,
    no_inner: &str,
) -> (r: Result<CompiledArkCircuit, SynthesisError>)
    ensures
        match assignments {
            Some((witness, instance)) => {
                &&& r matches Ok(c)
                &&& c.matrices == matrices
                &&& c.num_witness_vars == matrices.num_witness_variables
                &&& c.num_instance_vars == matrices.num_instance_variables
                &&& c.num_constraints == matrices.num_constraints
                &&& c.records(ark_vals(witness@), ark_vals(instance@))
            },
            None => r matches Err(SynthesisError::Unsatisfiable(text)) && text@ == no_inner@,
        },
{
    match assignments {
        Some((witness, instance_assignment)) => {
            let witness_assignment = if witness.len() == 0 {
                None
            } else {
                Some(witness)
            };
            Ok(
                CompiledArkCircuit {
                    num_witness_vars: matrices.num_witness_variables,
                    num_instance_vars: matrices.num_instance_variables,
                    num_constraints: matrices.num_constraints,
                    matrices,
                    witness_assignment,
                    instance_assignment,
                },
            )
        },
        None => Err(SynthesisError::Unsatisfiable(no_inner.to_string())),
    }
}

/// Compiles a circuit that was synthesized into the given system: expands its symbolic
/// combinations, and takes out its matrices and its assignments. There are matrices if the
/// reference is not empty and the system keeps its constraints. The assignments are taken out if
/// nothing else refers to the system.
pub fn compile_ark_circuit(cs: ArkCs) -> (r: Result<CompiledArkCircuit, SynthesisError>)
    requires
        cs@.regular,
    ensures
        match r {
            Ok(c) => cs@.present && cs@.keeps && c.describes(cs),
            Err(SynthesisError::Unsatisfiable(text)) => text@ == (if cs@.present && cs@.keeps {
                "failed to get inner CS"@
            } else {
                "failed to extract matrices"@
            }),
            Err(_) => false,
        },
{
    let mut cs = cs;
    let matrices = match matrices_of(&mut cs, "failed to extract matrices") {
        Ok(m) => m,
        Err(e) => {
            return Err(e);
        },
    };
    let inner = match ark_into_inner(cs) {
        Some((w, x)) => Some((scalars(&w), scalars(&x))),
        None => None,
    };
    let r = assemble(matrices, inner, "failed to get inner CS");
    proof {
        if let Ok(ref c) = r {
            assert(ark_vals(c.instance_assignment@).len() == c.instance_assignment@.len());
        }
    }
    r
}

/// What the SHA-256 step on the given digits compiles to: its shape does not depend on them, its
/// only public variable is the constant one, every assignment that satisfies its rows has digits
/// first and those of their digest last, and the recorded assignment is one of these.
pub open spec fn compiled_step(c: CompiledArkCircuit, input: Seq<bool>) -> bool {
    &&& c.matrices@ == ark_matrices(step_calls(Seq::empty()))
    &&& c.matrices@.fits()
    &&& c.num_instance_vars == 1 == c.matrices.num_instance_variables
    &&& c.num_witness_vars >= 512
    &&& c.num_witness_vars == c.matrices.num_witness_variables
    &&& c.num_constraints >= 768
    &&& c.num_constraints == c.matrices.num_constraints
    &&& ark_vals(c.instance_assignment@) == seq![1int]
    &&& match c.witness_assignment {
        Some(w) => {
            &&& w@.len() == c.num_witness_vars
            &&& ark_vals(w@) == step_values(Seq::empty(), input)
            &&& digest_digits(input).len() == 256
            &&& packed(digest_digits(input)) == sha256(packed(input))
            &&& c.matrices@.satisfied(Seq::empty(), ark_vals(w@))
        },
        None => false,
    }
    &&& forall|w: Seq<int>|
        w.len() == c.num_witness_vars && #[trigger] c.matrices@.satisfied(Seq::empty(), w)
            ==> step_relation(0, w)
}

/// Compiles the SHA-256 step on the given digits, of which there have to be 256, or on zeros. The
/// shape of the circuit is taken from a synthesis with values as well.
pub fn compile_ark_sha256(input_bits: Option<Vec<bool>>) -> (r: Result<
    CompiledArkCircuit,
    SynthesisError,
>)
    requires
        input_bits matches Some(v) ==> v@.len() == 256,
    ensures
        match r {
            Ok(c) => compiled_step(c, ArkSha256HashStep { in_bits: input_bits }.input()),
            Err(_) => false,
        },
{
    let ghost input = ArkSha256HashStep { in_bits: input_bits }.input();
    let mut cs = ArkCs::new_ref();
    let ghost start = cs;
    let actual_bits = match input_bits {
        Some(bits) => bits,
        None => zero_bits(),
    };
    let circuit = ArkSha256HashStep::new_witness(actual_bits);
    assert(circuit.input() =~= input);
    match circuit.generate_constraints(&mut cs) {
        Ok(()) => {},
        Err(_) => {
            return Err(SynthesisError::Unsatisfiable("SHA256 synthesis failed".to_string()));
        },
    }
    let ghost built = cs;
    let matrices = match matrices_of(&mut cs, "failed to extract SHA256 matrices") {
        Ok(m) => m,
        Err(e) => {
            return Err(e);
        },
    };
    let inner = match ark_assignments(&cs) {
        Some((w, x)) => Some((scalars(&w), scalars(&x))),
        None => None,
    };
    let r = assemble(matrices, inner, "failed to get inner SHA256 CS");
    proof {
        assert(start@.inputs() =~= Seq::<int>::empty());
        assert(ark_holds(start, Seq::empty(), start@.witness));
        assert(built@.inputs() =~= Seq::<int>::empty());
        let c = r->Ok_0;
        assert(c.matrices@.satisfied(Seq::empty(), ark_vals(c.witness_assignment->0@)));
        assert(ark_vals(c.witness_assignment->0@).len() == c.witness_assignment->0@.len());
        assert forall|w: Seq<int>|
            w.len() == c.num_witness_vars && #[trigger] c.matrices@.satisfied(
                Seq::empty(),
                w,
            ) implies step_relation(0, w) by {
            assert(ark_holds(built, Seq::empty(), w));
        }
    }
    r
}

/// Systems that the same calls made compile to the same matrices, whatever values were recorded, or
/// whether any were.
pub proof fn law_same_calls_give_same_matrices(
    c: CompiledArkCircuit,
    d: CompiledArkCircuit,
    cs: ArkCs,
    ds: ArkCs,
)
    requires
        c.describes(cs),
        d.describes(ds),
        cs@.calls == ds@.calls,
    ensures
        c.matrices@ == d.matrices@,
        c.num_witness_vars == d.num_witness_vars,
        c.num_instance_vars == d.num_instance_vars,
        c.num_constraints == d.num_constraints,
{
}

/// The SHA-256 step compiles to the same matrices and public values for all digits: only the private
/// values tell them apart.
pub proof fn law_step_has_one_shape(
    c: CompiledArkCircuit,
    d: CompiledArkCircuit,
    x: Seq<bool>,
    y: Seq<bool>,
)
    requires
        compiled_step(c, x),
        compiled_step(d, y),
    ensures
        c.matrices@ == d.matrices@,
        c.num_witness_vars == d.num_witness_vars,
        c.num_instance_vars == d.num_instance_vars,
        c.num_constraints == d.num_constraints,
        ark_vals(c.instance_assignment@) == ark_vals(d.instance_assignment@),
{
    assert(c.matrices@.num_witness_variables == c.num_witness_vars);
    assert(d.matrices@.num_witness_variables == d.num_witness_vars);
    assert(c.matrices@.num_constraints == c.num_constraints);
    assert(d.matrices@.num_constraints == d.num_constraints);
}

/// Compiling the step on the same digits gives the same circuit in every part. So compiling it
/// without digits gives what compiling it on zeros gives.
pub proof fn law_same_digits_compile_alike(
    c: CompiledArkCircuit,
    d: CompiledArkCircuit,
    input: Seq<bool>,
)
    requires
        compiled_step(c, input),
        compiled_step(d, input),
    ensures
        compiled_alike(c, d),
{
    law_step_has_one_shape(c, d, input, input);
}

/// Compiling the step gives what compiling a new system gives that the step was synthesized into.
pub proof fn law_step_compiles_as_a_circuit(
    c: CompiledArkCircuit,
    d: CompiledArkCircuit,
    start: ArkCs,
    cs: ArkCs,
    input: Seq<bool>,
)
    requires
        compiled_step(c, input),
        start@ == ArkState::fresh(),
        stepped(start, cs, input),
        d.describes(cs),
    ensures
        compiled_alike(c, d),
{
    let values = step_values(Seq::empty(), input);
    assert(start@.witness + values =~= values);
    assert(c.matrices@.num_witness_variables == c.num_witness_vars);
    assert(c.matrices@.num_constraints == c.num_constraints);
    assert(ark_vals(c.witness_assignment->0@).len() == c.witness_assignment->0@.len());
    assert(d.matrices@.num_constraints == d.num_constraints);
}

/// The circuits have the same matrices, assignments and counts.
pub open spec fn compiled_alike(c: CompiledArkCircuit, d: CompiledArkCircuit) -> bool {
    &&& c.matrices@ == d.matrices@
    &&& ark_vals(c.instance_assignment@) == ark_vals(d.instance_assignment@)
    &&& match (c.witness_assignment, d.witness_assignment) {
        (Some(v), Some(w)) => ark_vals(v@) == ark_vals(w@),
        (None, None) => true,
        _ => false,
    }
    &&& c.num_witness_vars == d.num_witness_vars
    &&& c.num_instance_vars == d.num_instance_vars
    &&& c.num_constraints == d.num_constraints
}

/// Zeros for 256 digits.
fn zero_bits() -> (r: Vec<bool>)
    ensures
        r@ == Seq::new(256, |i: int| false),
{
    let mut bits: Vec<bool> = Vec::new();
    while bits.len() < 256
        invariant
            bits@.len() <= 256,
            forall|j: int| 0 <= j < bits@.len() ==> !#[trigger] bits@[j],
        decreases 256 - bits@.len(),
    {
        bits.push(false);
    }
    assert(bits@ =~= Seq::new(256, |i: int| false));
    bits
}

} // verus!
