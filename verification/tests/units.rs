use neutron::bn254::{Bn256EngineKZG, Fr, G1};
use neutron::circuit::point::AllocatedNonnativePoint;
use neutron::circuit::power_check_relation::AllocatedFoldedPowerCheckInstance;
use neutron::circuit::relation::fold_num;
use neutron::circuit::univariate::AllocatedUniPoly;
use neutron::commitment::CommitmentKey;
use neutron::errors::{NovaError, SynthesisError};
use neutron::field::Field;
use neutron::frontend::{ConstraintSystem, Index, LinearCombination, Variable};
use neutron::gadgets::{alloc_bit, alloc_constant, alloc_zero, le_bits_to_num, to_bits_le_strict};
use neutron::nifs::NIFS;
use neutron::nsc_conversion;
use neutron::num::{quotient_num, AllocatedNum};
use neutron::power_check_relation::{generate_power_check_relation, PowerCheckStructure};
use neutron::r1cs::{R1CSInstance, R1CSShape, R1CSWitness, SparseMatrix};
use neutron::relation::{FoldedInstance, FoldedWitness, Structure};
use neutron::ro::{PoseidonConstants, PoseidonRO};
use neutron::ro_circuit::PoseidonROCircuit;
use neutron::sumcheck::{
    add_acc, apply_rho_scaling, comb_powercheck, comb_r1cs, output_claim, prove_helper, zero_acc,
};
use neutron::traits::{Engine, Group};
use neutron::univariate::UniPoly;
use neutron::weight_table::WeightTable;

type E = Bn256EngineKZG;

fn f(x: u64) -> Fr {
    Fr::from_u64(x)
}

fn fs(v: &[u64]) -> Vec<Fr> {
    v.iter().map(|x| f(*x)).collect()
}

fn neg(x: Fr) -> Fr {
    f(0).sub(x)
}

#[test]
fn scalar_arithmetic() {
    assert_eq!(f(3).mul(f(5)), f(15));
    assert_eq!(f(3).add(f(5)), f(8));
    // Minus one, in limbs.
    let minus_one = f(0).sub(f(1));
    assert_eq!(
        minus_one.limbs(),
        [0x43e1f593f0000000, 0x2833e84879b97091, 0xb85045b68181585d, 0x30644e72e131a029]
    );
    assert_eq!(minus_one.add(f(1)), f(0));
    assert_eq!(minus_one.mul(minus_one), f(1));
    assert_eq!(f(0).invert(), None);
    assert_eq!(f(7).invert().unwrap().mul(f(7)), f(1));
    // The inverse of two is (p + 1) / 2.
    assert_eq!(
        f(2).invert().unwrap().limbs(),
        [0xa1f0fac9f8000001, 0x9419f4243cdcb848, 0xdc2822db40c0ac2e, 0x183227397098d014]
    );
    assert!(f(4).equals(f(2).add(f(2))));
    assert!(!f(4).equals(f(5)));
    assert_ne!(Fr::random(), Fr::random());
}

#[test]
fn scalars_from_limbs_are_canonical() {
    assert!(Fr::from_limbs([
        0x43e1f593f0000001,
        0x2833e84879b97091,
        0xb85045b68181585d,
        0x30644e72e131a029
    ])
    .is_none());
    let top = Fr::from_limbs([
        0x43e1f593f0000000,
        0x2833e84879b97091,
        0xb85045b68181585d,
        0x30644e72e131a029,
    ]);
    assert_eq!(top.unwrap().add(f(1)), f(0));
}

#[test]
fn scalar_bits() {
    let bits = f(6).to_le_bits();
    assert_eq!(bits.len(), 256);
    assert_eq!(&bits[..4], &[false, true, true, false]);
    assert!(bits[3..].iter().all(|b| !b));
    let x = Fr::from_limbs([0, 0, 1 << 5, 0]).unwrap();
    let bits = x.to_le_bits();
    assert!(bits.iter().enumerate().all(|(i, b)| *b == (i == 133)));
}

#[test]
fn group_arithmetic() {
    let id = G1::identity();
    let (x, y, infinity) = id.to_coordinates();
    assert_eq!((x, y, infinity), ([0; 4], [0; 4], true));
    let g = G1::hash_to_group("domain", b"message");
    assert!(!g.to_coordinates().2);
    assert_ne!(g, G1::hash_to_group("domain", b"another"));
    assert_ne!(g, G1::hash_to_group("elsewhere", b"message"));
    assert_eq!(g, G1::hash_to_group("domain", b"message"));
    assert!(g.add(id).equals(g));
    assert_eq!(g.add(g).add(g), g.scale(f(3)));
    assert_eq!(g.scale(f(0)), id);
    assert_eq!(g.add(g.scale(f(0).sub(f(1)))), id);
    assert_eq!(g.scale(f(2)).scale(f(5)), g.scale(f(10)));
}

#[test]
fn points_from_coordinates() {
    let g = G1::from_coordinates([1, 0, 0, 0], [2, 0, 0, 0]).unwrap();
    assert_eq!(g.to_coordinates(), ([1, 0, 0, 0], [2, 0, 0, 0], false));
    assert_eq!(G1::from_coordinates([0; 4], [0; 4]), Some(G1::identity()));
    assert_eq!(G1::from_coordinates([1, 0, 0, 0], [3, 0, 0, 0]), None);
    let (x, y, _) = g.scale(f(77)).to_coordinates();
    assert_eq!(G1::from_coordinates(x, y), Some(g.scale(f(77))));
    // One past the modulus of the coordinates is not one.
    let p = [0x3c208c16d87cfd47, 0x97816a916871ca8d, 0xb85045b68181585d, 0x30644e72e131a029];
    assert_eq!(G1::from_coordinates([p[0] + 1, p[1], p[2], p[3]], [2, 0, 0, 0]), None);
    assert_eq!(G1::from_coordinates(p, [0; 4]), None);
}

#[test]
fn commitments_are_linear() {
    let ck = CommitmentKey::<E>::setup("ck", 3);
    assert_eq!(ck.len(), 3);
    let a = ck.commit(&fs(&[1, 2, 3]), &f(4));
    let b = ck.commit(&fs(&[10, 20, 30]), &f(40));
    assert_eq!(a.scale(f(10)), b);
    assert_eq!(a.add(b), ck.commit(&fs(&[11, 22, 33]), &f(44)));
    // Base zero is the hash of the index, and the last base that of the empty message.
    assert_eq!(ck.commit(&fs(&[1]), &f(0)), G1::hash_to_group("ck", &[0; 8]));
    assert_eq!(ck.commit(&[], &f(1)), G1::hash_to_group("ck", &[]));
    // A shorter vector is one that ends in zeros.
    assert_eq!(ck.commit(&fs(&[5]), &f(1)), ck.commit(&fs(&[5, 0, 0]), &f(1)));
}

#[test]
fn polynomials() {
    // 3 + 2 x + x^2
    let p = UniPoly::from_coeffs(fs(&[3, 2, 1]));
    assert_eq!(p.evaluate(&f(10)), f(123));
    assert_eq!((p.eval_at_zero(), p.eval_at_one()), (f(3), f(6)));
    assert_eq!(p.scaled(&f(2)).coeffs(), &fs(&[6, 4, 2])[..]);
    let q = UniPoly::from_coeffs(fs(&[1, 1, 1, 1]));
    assert_eq!(p.add(&q).coeffs(), &fs(&[4, 3, 2, 1])[..]);
    // The polynomial is found again from its values at 0 to 5.
    let evals: Vec<Fr> = (0..6).map(|i| p.evaluate(&f(i))).collect();
    let r = UniPoly::from_evals(&evals);
    assert_eq!(r.coeffs(), &fs(&[3, 2, 1, 0, 0, 0])[..]);
    assert_eq!(r.evaluate(&f(77)), p.evaluate(&f(77)));
}

#[test]
fn accumulators() {
    let a = (f(1), f(2), f(3), f(4), f(5));
    assert_eq!(add_acc(zero_acc(), a), a);
    assert_eq!(add_acc(a, a), (f(2), f(4), f(6), f(8), f(10)));
    // The scales are 1 - rho, 3 rho - 1, 5 rho - 2, 7 rho - 3 and 9 rho - 4.
    let one = (f(1), f(1), f(1), f(1), f(1));
    assert_eq!(
        apply_rho_scaling(one, &f(2)),
        (neg(f(1)), f(5), f(8), f(11), f(14))
    );
    assert_eq!(comb_r1cs(f(2), f(3), f(5), f(4)), f(22));
    assert_eq!(comb_powercheck(f(2), f(20), f(3), f(4)), f(16));
}

#[test]
fn round_of_the_main_relation() {
    // One constraint, with weights that are one.
    let (e1, e2) = (fs(&[1, 1]), fs(&[1, 1]));
    let rho = f(3);
    // Running: 2 * 3 = 6. Fresh: 1 * 1 = 1.
    let r = prove_helper::<E>(
        &rho,
        (1, 1),
        &e1,
        &fs(&[2]),
        &fs(&[3]),
        &fs(&[6]),
        &e2,
        &fs(&[1]),
        &fs(&[1]),
        &fs(&[1]),
    );
    // At t the residual is (2 - t)(3 - 2t) - (6 - 5t) = 2t^2 - 2t.
    let raw = |t: u64| f(2 * t * t - 2 * t);
    assert_eq!(r.0, neg(f(2)).mul(raw(0)));
    assert_eq!(r.1, f(8).mul(raw(2)));
    assert_eq!(r.2, f(13).mul(raw(3)));
    assert_eq!(r.3, f(18).mul(raw(4)));
    assert_eq!(r.4, f(23).mul(raw(5)));
}

#[test]
fn claims_that_are_left() {
    let p = UniPoly::from_coeffs(fs(&[10, 1]));
    // eq(1, 2) = (1 - 1)(1 - 2) + 1 * 2 = 2
    assert_eq!(output_claim(&p, &f(1), &f(2)), Ok(f(6)));
    // eq(0, 1) = 0
    assert_eq!(output_claim(&p, &f(0), &f(1)), Err(NovaError::DivideByZero));
}

fn small_constants() -> PoseidonConstants<Fr> {
    PoseidonConstants::new(2, 0, 1, fs(&[3, 4]), fs(&[5, 6, 7, 8])).unwrap()
}

#[test]
fn poseidon_by_hand() {
    let k = small_constants();
    // The state is the length and the element; constants are added, and the first element is
    // raised to the fifth power, before the matrix is applied.
    let first = f(4 * 4 * 4 * 4 * 4);
    let second = f(10 + 4);
    assert_eq!(k.hash(&fs(&[10])), f(7).mul(first).add(f(8).mul(second)));
    assert_eq!(k.hash(&vec![]), f(0));
    // Parts that do not fit are refused.
    assert!(PoseidonConstants::new(2, 0, 1, fs(&[3]), fs(&[5, 6, 7, 8])).is_none());
    assert!(PoseidonConstants::new(1, 0, 1, fs(&[3]), fs(&[5])).is_none());
}

#[test]
fn oracle_remembers_its_hash() {
    let mut ro = PoseidonRO::new(small_constants());
    ro.absorb(f(10));
    let h = small_constants().hash(&fs(&[10]));
    assert_eq!(ro.squeeze(128), h);
    ro.absorb(f(1));
    assert_eq!(ro.squeeze(128), low_bits(small_constants().hash(&vec![h, f(1)]), 128));
    // A short challenge is the low bits of the hash.
    let mut ro = PoseidonRO::new(small_constants());
    ro.absorb(f(10));
    assert_eq!(ro.squeeze(5), f(7280 % 32));
    assert_eq!(h, f(7280));
}

fn low_bits(x: Fr, n: usize) -> Fr {
    let mut acc = f(0);
    let mut weight = f(1);
    for b in x.to_le_bits().iter().take(n) {
        if *b {
            acc = acc.add(weight);
        }
        weight = weight.add(weight);
    }
    acc
}

#[test]
fn oracle_of_the_engine() {
    let k = E::ro_constants();
    assert_eq!((k.width(), k.num_rounds()), (2, 64));
    // The state has two elements, and the generator yields different constants for them.
    assert_ne!(k.round_constant(0, 0), k.round_constant(0, 1));
    assert_ne!(k.round_constant(0, 0), k.round_constant(1, 0));
    // The matrix is invertible.
    let det = k
        .mix_entry(0, 0)
        .mul(k.mix_entry(1, 1))
        .sub(k.mix_entry(0, 1).mul(k.mix_entry(1, 0)));
    assert_ne!(det, f(0));
    assert!(k.has_sbox(0, 1) && !k.has_sbox(4, 1) && k.has_sbox(4, 0) && k.has_sbox(60, 1));
    let mut a = PoseidonRO::new(E::ro_constants());
    let mut b = PoseidonRO::new(E::ro_constants());
    a.absorb(f(1));
    b.absorb(f(2));
    assert_ne!(a.squeeze(128), b.squeeze(128));
}

#[test]
fn oracle_in_a_circuit_agrees_with_the_one_outside() {
    let mut cs = ConstraintSystem::<Fr>::new_witness();
    let mut inside = PoseidonROCircuit::new(E::ro_constants());
    let mut outside = PoseidonRO::new(E::ro_constants());
    for x in [5u64, 6, 7] {
        let n = AllocatedNum::allocate(&mut cs, Ok(f(x))).unwrap();
        inside.absorb(&n);
        outside.absorb(f(x));
    }
    let c = inside.squeeze_num(&mut cs, 128);
    assert_eq!(c.get_value().unwrap(), outside.squeeze(128));
    inside.absorb(&c);
    outside.absorb(c.get_value().unwrap());
    let d = inside.squeeze_num(&mut cs, 128);
    assert_eq!(d.get_value().unwrap(), outside.squeeze(128));
    assert!(cs.is_satisfied());
}

#[test]
fn combinations_merge_terms() {
    let (a, b) = (Variable::new_unchecked(Index::Aux(0)), Variable::new_unchecked(Index::Aux(1)));
    let lc = LinearCombination::zero().plus(a).add_term(f(4), b).minus(a);
    assert_eq!(lc.len(), 2);
    assert_eq!(lc.negated().len(), 2);
    assert_eq!(lc.duplicate(), lc);
    assert!(LinearCombination::<Fr>::zero().is_empty());
}

#[test]
fn systems_record_constraints() {
    let mut cs = ConstraintSystem::<Fr>::new_witness();
    let (x, v) = cs.allocate(Ok(f(3))).unwrap();
    assert_eq!((x.get_unchecked(), v), (Index::Aux(0), Some(f(3))));
    let (y, _) = cs.allocate(Ok(f(9))).unwrap();
    let lc = |v: Variable| LinearCombination::<Fr>::zero().plus(v);
    cs.enforce(lc(x), lc(x), lc(y));
    assert!(cs.is_satisfied());
    cs.enforce(lc(x), lc(ConstraintSystem::<Fr>::one()), lc(y));
    assert!(!cs.is_satisfied());
    assert_eq!((cs.num_aux(), cs.num_constraints()), (2, 2));
    assert!(cs.has_witness());
    // A value that is missing matters only where values are recorded.
    assert_eq!(
        cs.allocate(Err(SynthesisError::AssignmentMissing)),
        Err(SynthesisError::AssignmentMissing)
    );
    let mut shape = ConstraintSystem::<Fr>::new_shape();
    assert!(shape.allocate(Err(SynthesisError::AssignmentMissing)).is_ok());
    assert_eq!(shape.num_aux(), 1);
    assert!(!shape.is_satisfied());
}

#[test]
fn numbers_in_a_circuit() {
    let mut cs = ConstraintSystem::<Fr>::new_witness();
    let z = alloc_zero(&mut cs);
    let c = alloc_constant(&mut cs, f(12));
    assert_eq!((z.get_value(), c.get_value()), (Some(f(0)), Some(f(12))));
    let d = AllocatedNum::allocate(&mut cs, Ok(f(4))).unwrap();
    assert_eq!(quotient_num(&mut cs, &c, &d).unwrap().get_value(), Some(f(3)));
    assert_eq!(quotient_num(&mut cs, &c, &z), Err(SynthesisError::DivisionByZero));
    let r = AllocatedNum::allocate(&mut cs, Ok(f(2))).unwrap();
    // 12 + 2 (4 - 12)
    assert_eq!(fold_num(&mut cs, &c, &d, &r).get_value(), Some(neg(f(4))));
    let bits: Vec<_> = [true, false, true].iter().map(|b| alloc_bit(&mut cs, Some(*b))).collect();
    assert_eq!(le_bits_to_num(&mut cs, &bits).get_value(), Some(f(5)));
    assert!(cs.is_satisfied());
}

#[test]
fn digits_in_a_circuit_are_canonical() {
    for x in [f(0), f(11), neg(f(1))] {
        let mut cs = ConstraintSystem::<Fr>::new_witness();
        let n = AllocatedNum::allocate(&mut cs, Ok(x)).unwrap();
        let bits = to_bits_le_strict(&mut cs, &n);
        assert_eq!(bits.len(), 256);
        for (b, e) in bits.iter().zip(x.to_le_bits()) {
            assert_eq!(b.get_value(), Some(f(e as u64)));
        }
        assert!(cs.is_satisfied());
    }
}

#[test]
fn polynomials_in_a_circuit() {
    let p = UniPoly::from_coeffs(fs(&[3, 2, 1]));
    let mut cs = ConstraintSystem::<Fr>::new_witness();
    let q = AllocatedUniPoly::<E>::allocate(&mut cs, 2, Some(&p)).unwrap();
    let r = AllocatedNum::allocate(&mut cs, Ok(f(10))).unwrap();
    assert_eq!(q.evaluate(&mut cs, &r).unwrap().get_value(), Some(f(123)));
    let claim = AllocatedNum::allocate(&mut cs, Ok(f(9))).unwrap();
    q.check_poly_zero_poly_one_with(&mut cs, &claim);
    assert!(cs.is_satisfied());
    let wrong = AllocatedNum::allocate(&mut cs, Ok(f(8))).unwrap();
    q.check_poly_zero_poly_one_with(&mut cs, &wrong);
    assert!(!cs.is_satisfied());
    // Without a polynomial the coefficients are zero.
    let zero = AllocatedUniPoly::<E>::allocate(&mut cs, 2, None).unwrap();
    assert!(zero.coeffs.iter().all(|c| c.get_value() == Some(f(0))));
}

#[test]
fn points_in_a_circuit() {
    let mut cs = ConstraintSystem::<Fr>::new_witness();
    let g = G1::hash_to_group("domain", b"message");
    let (x, y, _) = g.to_coordinates();
    let p = AllocatedNonnativePoint::<E>::allocate(&mut cs, Some(g.to_coordinates())).unwrap();
    for i in 0..4 {
        assert_eq!(p.x[i].get_value(), Some(f(x[i])));
        assert_eq!(p.y[i].get_value(), Some(f(y[i])));
    }
    assert_eq!(p.is_infinity.get_value(), Some(f(0)));
    let d = AllocatedNonnativePoint::<E>::default(&mut cs).unwrap();
    assert_eq!(d.is_infinity.get_value(), Some(f(1)));
    let none = AllocatedNonnativePoint::<E>::allocate(&mut cs, None).unwrap();
    assert_eq!(none.is_infinity.get_value(), Some(f(1)));
    let u = AllocatedFoldedPowerCheckInstance::<E>::default(&mut cs).unwrap();
    assert_eq!(u.tau.get_value(), Some(f(0)));
    assert_eq!(u.comm_weights.is_infinity.get_value(), Some(f(1)));
    assert!(cs.is_satisfied());
}

/// Constraints of the form `x * x = x`.
fn booleans(n: usize) -> R1CSShape<E> {
    let m = || -> SparseMatrix<Fr> {
        SparseMatrix::new(&(0..n).map(|i| (i, i, f(1))).collect::<Vec<_>>())
    };
    R1CSShape::new(n, n, 1, m(), m(), m()).unwrap()
}

#[test]
fn bench_nifs_simple() {
    let num_cons = 1024;
    let shape = booleans(num_cons);
    let ck = CommitmentKey::<E>::setup("ck", num_cons);
    let w: Vec<Fr> = (0..num_cons).map(|i| f((i * i / 3 % 2) as u64)).collect();
    let witness = R1CSWitness::<E> { W: w, r_W: Fr::random() };
    let x = fs(&[0]);

    let s = Structure::new(&shape);
    let f_w = FoldedWitness::default(&s);
    let f_u = FoldedInstance::default(&s);
    let res = s.is_sat(&ck, &f_u, &f_w);
    assert!(res.is_ok());

    let u = R1CSInstance::<E> { comm_W: ck.commit(&witness.W, &witness.r_W), X: x };
    let res = NIFS::prove(&ck, &E::ro_constants(), &f(0), &s, &f_u, &f_w, &u, &witness);
    assert!(res.is_ok());
}

#[test]
fn matrices_multiply() {
    let m: SparseMatrix<Fr> = SparseMatrix::new(&[(0, 0, f(2)), (0, 2, f(3)), (1, 1, f(5))]);
    let other: SparseMatrix<Fr> = SparseMatrix::new(&[(1, 3, f(7)), (1, 3, f(1))]);
    let empty: SparseMatrix<Fr> = SparseMatrix::new(&[]);
    let s = R1CSShape::<E>::new(2, 2, 1, m, other, empty).unwrap();
    assert_eq!((s.num_cons(), s.num_vars(), s.num_io()), (2, 2, 1));
    let (az, bz, cz) = s.multiply_vec(&fs(&[10, 20, 1, 4])).unwrap();
    assert_eq!(az, fs(&[23, 100]));
    assert_eq!(bz, fs(&[0, 32]));
    assert_eq!(cz, fs(&[0, 0]));
    assert_eq!(s.multiply_vec(&fs(&[1])), Err(NovaError::InvalidWitnessLength));
    let padded = s.pad_constraints(4);
    assert_eq!(padded.multiply_vec(&fs(&[10, 20, 1, 4])).unwrap().0, fs(&[23, 100, 0, 0]));
}

#[test]
fn conversion_without_the_main_relation() {
    let shape = booleans(4);
    let s = Structure::new(&shape);
    let s_pc = PowerCheckStructure::from_main(&s);
    let ck = CommitmentKey::<E>::setup("ck", 8);
    let w = R1CSWitness::<E> { W: fs(&[0, 1, 1, 0]), r_W: f(3) };
    let u = R1CSInstance::<E> { comm_W: ck.commit(&w.W, &w.r_W), X: fs(&[0]) };
    let (pc_u, pc_w) = generate_power_check_relation::<E>(&f(5), s.left(), s.right(), &ck);
    let mut ro = PoseidonRO::new(E::ro_constants());
    let out =
        nsc_conversion::convert_to_nsc::<E>(&ck, &s, &s_pc, (&u, &w), (&pc_u, &pc_w), &mut ro)
            .unwrap();
    assert_eq!(out.Az, fs(&[0, 1, 1, 0]));
    // The weights are the powers of the challenge.
    let e = &out.E;
    assert_eq!(e.as_slice()[0], f(1));
    assert_eq!(e.as_slice()[1], out.tau);
    assert_eq!(e.as_slice()[3], out.tau.mul(out.tau));
    assert_eq!(e.commit(&ck), out.comm_E);
    // A witness of another length is refused.
    let short = R1CSWitness::<E> { W: fs(&[0]), r_W: f(3) };
    let mut ro = PoseidonRO::new(E::ro_constants());
    assert_eq!(
        nsc_conversion::convert_to_nsc::<E>(&ck, &s, &s_pc, (&u, &short), (&pc_u, &pc_w), &mut ro)
            .err(),
        Some(NovaError::InvalidWitnessLength)
    );
}

#[test]
fn tables_fold_on_the_line() {
    let a = WeightTable::<E>::new(fs(&[1, 2, 3]), f(4), 2);
    let b = WeightTable::<E>::new(fs(&[10, 20, 30]), f(40), 2);
    let c = a.fold(&b, &f(2));
    assert_eq!(c.as_slice(), &fs(&[19, 38, 57])[..]);
    assert_eq!(c.r(), f(76));
    assert_eq!(c.left(), 2);
    assert_eq!(a.clone(), a);
    // Folding at zero and at one gives the ends.
    assert_eq!(a.fold(&b, &f(0)), a);
    assert_eq!(a.fold(&b, &f(1)), b);
}
