use neutron::arkworks::compile::{
    assemble, compile_ark_circuit, compile_ark_sha256, CompiledArkCircuit,
};
use neutron::arkworks::field_bridge::{ArkFr, Bn254Bridge, FieldBridge};
use neutron::arkworks::sha256_circuit::{compute_expected_hash, ArkCs, ArkSha256HashStep};
use neutron::arkworks::step_circuit::{replay, NovaArkSha256Step};
use neutron::arkworks::translate::{ark_row_to_nova_lc, ark_var_to_nova, build_witness_map};
use neutron::bn254::Fr;
use neutron::errors::SynthesisError;
use neutron::field::Field;
use neutron::frontend::{ConstraintSystem, Index, Variable};
use neutron::num::AllocatedNum;
use neutron::packing::{bits_to_bytes, bytes_to_bits};

fn ark_cs() -> ArkCs {
    ArkCs { inner: ark_relations::r1cs::ConstraintSystem::new_ref() }
}

fn aux(i: usize) -> Variable {
    Variable::new_unchecked(Index::Aux(i))
}

#[test]
fn test_ark_row_to_nova_lc_one_only() {
    let one_var = Variable::new_unchecked(Index::Input(0));
    let witness_map = vec![aux(0), aux(1)];
    let row: Vec<(ArkFr, usize)> = vec![(ArkFr::from_u64(5), 0)];
    let lc = ark_row_to_nova_lc::<ArkFr, Fr, Bn254Bridge>(&row, 1, one_var, &witness_map);
    assert_eq!(lc.len(), 1);
}

#[test]
fn test_ark_row_to_nova_lc_witness_vars() {
    let one_var = Variable::new_unchecked(Index::Input(0));
    let witness_map = vec![aux(0), aux(1), aux(2)];
    let row: Vec<(ArkFr, usize)> = vec![
        (ArkFr::from_u64(1), 0),
        (ArkFr::from_u64(2), 1),
        (ArkFr::from_u64(3), 2),
    ];
    let lc = ark_row_to_nova_lc::<ArkFr, Fr, Bn254Bridge>(&row, 1, one_var, &witness_map);
    assert_eq!(lc.len(), 3);
}

#[test]
fn repeated_columns_share_a_term() {
    let one_var = Variable::new_unchecked(Index::Input(0));
    let row = vec![(ArkFr::from_u64(2), 1), (ArkFr::from_u64(3), 1), (ArkFr::from_u64(4), 0)];
    let lc = ark_row_to_nova_lc::<ArkFr, Fr, Bn254Bridge>(&row, 1, one_var, &[aux(7)]);
    assert_eq!(lc.len(), 2);
    assert!(!lc.is_empty());
    let var = ark_var_to_nova::<ArkFr, Fr, Bn254Bridge>(1, 1, one_var, &[aux(7)]);
    assert_eq!(var, aux(7));
    let var = ark_var_to_nova::<ArkFr, Fr, Bn254Bridge>(0, 1, one_var, &[aux(7)]);
    assert_eq!(var.get_unchecked(), Index::Input(0));
}

#[test]
fn test_build_witness_map() {
    let input_vars = vec![aux(100), aux(101), aux(102)];
    let mut next_idx = 200;
    let map = build_witness_map::<Fr, _>(&input_vars, 3, 5, |_| {
        let var = aux(next_idx);
        next_idx += 1;
        var
    });

    assert_eq!(map.len(), 5);
    assert_eq!(map[0], input_vars[0]);
    assert_eq!(map[1], input_vars[1]);
    assert_eq!(map[2], input_vars[2]);
    assert_eq!(map[3], aux(200));
    assert_eq!(map[4], aux(201));
}

/// The value of a row of the circuit, with one public variable, the constant one.
fn row_at(row: &[(ArkFr, usize)], w: &[ArkFr]) -> Fr {
    row.iter().fold(Fr::zero(), |acc, (c, column)| {
        let x = if *column == 0 { ArkFr::from_u64(1) } else { w[column - 1] };
        acc.add(Bn254Bridge::ark_to_nova(*c).mul(Bn254Bridge::ark_to_nova(x)))
    })
}

fn rows_hold(compiled: &CompiledArkCircuit) -> bool {
    let m = &compiled.matrices;
    let w = compiled.witness_assignment.as_ref().unwrap();
    (0..m.num_constraints).all(|r| {
        let (a, b, c) = (row_at(&m.a[r], w), row_at(&m.b[r], w), row_at(&m.c[r], w));
        a.mul(b) == c
    })
}

#[test]
fn rows_have_their_places() {
    let compiled = compile_ark_sha256(None).unwrap();
    let m = &compiled.matrices;
    let columns = m.num_instance_variables + m.num_witness_variables;
    for rows in [&m.a, &m.b, &m.c] {
        assert_eq!(rows.len(), m.num_constraints);
        assert!(rows.iter().flatten().all(|(_, column)| *column < columns));
    }
    assert_eq!(compiled.num_witness_vars, m.num_witness_variables);
    assert_eq!(compiled.num_instance_vars, m.num_instance_variables);
    assert_eq!(compiled.num_constraints, m.num_constraints);
}

#[test]
fn wrong_digits_break_the_rows() {
    let mut compiled = compile_ark_sha256(Some(vec![true; 256])).unwrap();
    assert!(rows_hold(&compiled));
    let last = compiled.num_witness_vars - 1;
    for i in [0, last] {
        let w = compiled.witness_assignment.as_mut().unwrap();
        let (before, one) = (w[i], ArkFr::from_u64(1));
        w[i] = if before == one { ArkFr::from_u64(0) } else { one };
        assert!(!rows_hold(&compiled));
        compiled.witness_assignment.as_mut().unwrap()[i] = before;
    }
    // What is no digit breaks them as well.
    compiled.witness_assignment.as_mut().unwrap()[3] = ArkFr::from_u64(2);
    assert!(!rows_hold(&compiled));
}

#[test]
fn rows_do_not_depend_on_digits() {
    let bits: Vec<bool> = (0..256).map(|i| i % 5 == 1).collect();
    let one = compile_ark_sha256(Some(bits)).unwrap();
    let other = compile_ark_sha256(None).unwrap();
    assert_eq!(one.matrices, other.matrices);
    assert_eq!(one.instance_assignment, other.instance_assignment);
    assert_ne!(one.witness_assignment, other.witness_assignment);
}

#[test]
fn steps_on_the_same_digits_compile_alike() {
    let bits: Vec<bool> = (0..256).map(|i| i % 7 < 3).collect();
    let compiled = compile_ark_sha256(Some(bits.clone())).unwrap();
    assert_eq!(compile_ark_sha256(Some(bits.clone())).unwrap(), compiled);
    // A synthesis into a new system compiles to the same circuit.
    let mut cs = ArkCs::new_ref();
    ArkSha256HashStep::new_witness(bits).generate_constraints(&mut cs).unwrap();
    assert_eq!(compile_ark_circuit(cs).unwrap(), compiled);
    // Without digits, the step is the one on zeros.
    let zeros = compile_ark_sha256(Some(vec![false; 256])).unwrap();
    assert_eq!(compile_ark_sha256(None).unwrap(), zeros);
}

#[test]
fn assembling_needs_assignments() {
    let matrices = compile_ark_circuit(ark_cs()).unwrap().matrices;
    assert_eq!(
        assemble(matrices.clone(), None, "nothing there"),
        Err(SynthesisError::Unsatisfiable("nothing there".to_string()))
    );
    let one = ArkFr::from_u64(1);
    let compiled = assemble(matrices, Some((vec![one], vec![one])), "nothing there").unwrap();
    assert_eq!(compiled.witness_assignment, Some(vec![one]));
    assert_eq!((compiled.num_instance_vars, compiled.num_constraints), (1, 0));
}

#[test]
fn a_step_may_follow_another() {
    let mut cs = ArkCs::new_ref();
    ArkSha256HashStep::new_witness(vec![true; 256]).generate_constraints(&mut cs).unwrap();
    let vars = cs.inner.num_witness_variables();
    ArkSha256HashStep::new_witness(vec![false; 256]).generate_constraints(&mut cs).unwrap();
    assert_eq!(cs.inner.num_witness_variables(), 2 * vars);
    assert_eq!(cs.inner.num_instance_variables(), 1);
    assert!(cs.inner.is_satisfied().unwrap());
}

#[test]
fn each_index_is_allocated_for() {
    let map = build_witness_map::<Fr, _>(&[aux(9)], 1, 4, |i| aux(10 * i));
    assert_eq!(map, vec![aux(9), aux(10), aux(20), aux(30)]);
    // Nothing is allocated where the inputs are enough.
    let map = build_witness_map::<Fr, _>(&[aux(9), aux(8)], 2, 1, |i| aux(i));
    assert_eq!(map, vec![aux(9), aux(8)]);
}

#[test]
fn test_compile_sha256_setup() {
    let compiled = compile_ark_sha256(None).unwrap();
    assert_eq!(compiled.num_instance_vars, 1);
    assert!(
        compiled.num_witness_vars >= 512,
        "expected >= 512 witness vars, got {}",
        compiled.num_witness_vars
    );
    assert!(compiled.num_constraints > 0);
    assert_eq!(compiled.instance_assignment, vec![ArkFr::from_u64(1)]);
    assert!(rows_hold(&compiled));
}

#[test]
fn test_compile_sha256_witness() {
    let input_bits = vec![false; 256];
    let compiled = compile_ark_sha256(Some(input_bits)).unwrap();
    assert!(compiled.witness_assignment.is_some());
    let witness = compiled.witness_assignment.unwrap();
    assert_eq!(witness.len(), compiled.num_witness_vars);
}

#[test]
fn test_sha256_circuit_setup() {
    let mut cs = ark_cs();
    let circuit = ArkSha256HashStep::new_setup();
    circuit.generate_constraints(&mut cs).unwrap();
    assert!(cs.inner.num_constraints() > 0);
    assert!(cs.inner.num_witness_variables() >= 512);
}

#[test]
fn test_sha256_circuit_witness() {
    let mut cs = ark_cs();
    let in_bits = vec![false; 256];
    let circuit = ArkSha256HashStep::new_witness(in_bits);
    circuit.generate_constraints(&mut cs).unwrap();
    assert!(cs.inner.is_satisfied().unwrap());
}

#[test]
fn setup_mode_records_no_values() {
    let mut cs = ark_cs();
    cs.inner.set_mode(ark_relations::r1cs::SynthesisMode::Setup);
    ArkSha256HashStep::new_setup().generate_constraints(&mut cs).unwrap();
    let vars = cs.inner.num_witness_variables();
    let compiled = compile_ark_circuit(cs).unwrap();
    assert_eq!(compiled.num_witness_vars, vars);
    assert_eq!(compiled.witness_assignment, None);
    // The shape is that of a synthesis with values.
    let with_values = compile_ark_sha256(None).unwrap();
    assert_eq!(compiled.matrices, with_values.matrices);
}

#[test]
fn an_empty_reference_is_refused() {
    let mut cs = ArkCs { inner: ark_relations::r1cs::ConstraintSystemRef::None };
    assert_eq!(
        ArkSha256HashStep::new_witness(vec![true; 256]).generate_constraints(&mut cs),
        Err(SynthesisError::MissingCS)
    );
    // Neither has it matrices.
    assert_eq!(
        compile_ark_circuit(cs),
        Err(SynthesisError::Unsatisfiable("failed to extract matrices".to_string()))
    );
    // The missing system comes before missing digits.
    let mut cs = ArkCs { inner: ark_relations::r1cs::ConstraintSystemRef::None };
    let circuit = ArkSha256HashStep { in_bits: Some(vec![]) };
    assert_eq!(circuit.generate_constraints(&mut cs), Err(SynthesisError::MissingCS));
}

#[test]
fn a_system_without_matrices_is_refused() {
    let cs = ark_cs();
    let construct_matrices = false;
    cs.inner.set_mode(ark_relations::r1cs::SynthesisMode::Prove { construct_matrices });
    assert_eq!(
        compile_ark_circuit(cs),
        Err(SynthesisError::Unsatisfiable("failed to extract matrices".to_string()))
    );
}

#[test]
fn missing_digits_are_refused() {
    let mut cs = ark_cs();
    let circuit = ArkSha256HashStep { in_bits: Some(vec![true; 255]) };
    assert_eq!(
        circuit.generate_constraints(&mut cs),
        Err(SynthesisError::AssignmentMissing)
    );
}

#[test]
fn an_empty_system_compiles_to_nothing() {
    let compiled = compile_ark_circuit(ark_cs()).unwrap();
    assert_eq!(compiled.witness_assignment, None);
    assert_eq!((compiled.num_constraints, compiled.num_witness_vars), (0, 0));
    assert_eq!(compiled.instance_assignment, vec![ArkFr::from_u64(1)]);
    // A second reference keeps the system from being taken apart.
    let cs = ark_cs();
    let _other = cs.inner.clone();
    assert_eq!(
        compile_ark_circuit(cs),
        Err(SynthesisError::Unsatisfiable("failed to get inner CS".to_string()))
    );
}

#[test]
fn inputs_come_first_and_outputs_last() {
    let bits: Vec<bool> = (0..256).map(|i| i % 3 == 0).collect();
    let compiled = compile_ark_sha256(Some(bits.clone())).unwrap();
    let w = compiled.witness_assignment.unwrap();
    for (i, b) in bits.iter().enumerate() {
        assert_eq!(w[i], ArkFr::from_u64(*b as u64));
    }
    let input: Vec<Fr> = bits.iter().map(|b| Fr::from_u64(*b as u64)).collect();
    let expected = compute_expected_hash(&input);
    let start = compiled.num_witness_vars - 256;
    for j in 0..256 {
        assert_eq!(Bn254Bridge::ark_to_nova(w[start + j]), expected[j]);
    }
}

#[test]
fn test_step_circuit_arity() {
    let circuit = NovaArkSha256Step::new();
    assert_eq!(circuit.arity(), 256);
}

/// SHA-256 of the bytes of "hello".
const HELLO: [u8; 32] = [
    0x2c, 0xf2, 0x4d, 0xba, 0x5f, 0xb0, 0xa3, 0x0e, 0x26, 0xe8, 0x3b, 0x2a, 0xc5, 0xb9, 0xe2, 0x9e,
    0x1b, 0x16, 0x1e, 0x5c, 0x1f, 0xa7, 0x42, 0x5e, 0x73, 0x04, 0x33, 0x62, 0x93, 0x8b, 0x98, 0x24,
];

/// SHA-256 of the 32 bytes above.
const HELLO_TWICE: [u8; 32] = [
    0x95, 0x95, 0xc9, 0xdf, 0x90, 0x07, 0x51, 0x48, 0xeb, 0x06, 0x86, 0x03, 0x65, 0xdf, 0x33, 0x58,
    0x4b, 0x75, 0xbf, 0xf7, 0x82, 0xa5, 0x10, 0xc6, 0xcd, 0x48, 0x83, 0xa4, 0x19, 0x83, 0x3d, 0x50,
];

#[test]
fn hash_of_a_known_value() {
    let z0: Vec<Fr> = bytes_to_bits(&HELLO);
    let expected = compute_expected_hash(&z0);
    assert_eq!(bits_to_bytes(&expected), HELLO_TWICE);
}

fn allocate_all(cs: &mut ConstraintSystem<Fr>, z: &[Fr]) -> Vec<AllocatedNum<Fr>> {
    z.iter().map(|x| AllocatedNum::allocate(cs, Ok(*x)).unwrap()).collect()
}

#[test]
fn step_hashes_its_state() {
    let z0: Vec<Fr> = bytes_to_bits(&HELLO);
    let mut cs = ConstraintSystem::<Fr>::new_witness();
    let z = allocate_all(&mut cs, &z0);
    let out = NovaArkSha256Step::new().synthesize(&mut cs, &z).unwrap();
    let values: Vec<Fr> = out.iter().map(|n| n.get_value().unwrap()).collect();
    assert_eq!(bits_to_bytes(&values), HELLO_TWICE);
    assert!(cs.is_satisfied());

    // The shape is the same without values.
    let mut shape = ConstraintSystem::<Fr>::new_shape();
    let z = allocate_all(&mut shape, &z0);
    let in_shape = NovaArkSha256Step::new().synthesize(&mut shape, &z).unwrap();
    assert!(in_shape.iter().all(|n| n.get_value().is_none()));
    assert!(in_shape.iter().zip(&out).all(|(x, y)| x.variable == y.variable));
    assert_eq!(shape.num_constraints(), cs.num_constraints());
    assert_eq!(shape.num_aux(), cs.num_aux());
    assert!(shape.is_satisfied_by(&cs));
}

#[test]
fn step_records_what_arkworks_records() {
    let bits: Vec<bool> = (0..256).map(|i| i % 6 == 4).collect();
    let w = compile_ark_sha256(Some(bits.clone())).unwrap().witness_assignment.unwrap();
    let z0: Vec<Fr> = bits.iter().map(|b| Fr::from_u64(*b as u64)).collect();
    let mut cs = ConstraintSystem::<Fr>::new_witness();
    let z = allocate_all(&mut cs, &z0);
    NovaArkSha256Step::new().synthesize(&mut cs, &z).unwrap();
    // The new variables behind the digits are those of the circuit, in order.
    let mut wanted = ConstraintSystem::<Fr>::new_witness();
    for x in w.iter().chain(&w[w.len() - 256..]) {
        AllocatedNum::allocate(&mut wanted, Ok(Bn254Bridge::ark_to_nova(*x))).unwrap();
    }
    assert_eq!(wanted.num_aux(), cs.num_aux());
    assert!(cs.is_satisfied_by(&wanted));
}

#[test]
fn step_refuses_what_is_no_digit() {
    let mut z0: Vec<Fr> = bytes_to_bits(&HELLO);
    z0[7] = Fr::from_u64(2);
    let mut cs = ConstraintSystem::<Fr>::new_witness();
    let z = allocate_all(&mut cs, &z0);
    assert_eq!(
        NovaArkSha256Step::new().synthesize(&mut cs, &z),
        Err(SynthesisError::Unsatisfiable("expected 0 or 1".to_string()))
    );
}

#[test]
fn replay_needs_the_assignment() {
    let mut compiled = compile_ark_sha256(None).unwrap();
    compiled.witness_assignment = None;
    let mut cs = ConstraintSystem::<Fr>::new_witness();
    let z = allocate_all(&mut cs, &[Fr::zero(); 256]);
    assert_eq!(
        replay(&mut cs, &z, &compiled),
        Err(SynthesisError::AssignmentMissing)
    );
}

#[test]
fn bridge_goes_both_ways() {
    // The greatest canonical scalar.
    let top = Fr::zero().sub(Fr::one());
    let ark = Bn254Bridge::nova_to_ark(top);
    assert_eq!(ark.limbs(), top.limbs());
    assert_eq!(Bn254Bridge::ark_to_nova(ark), top);
    let x = ArkFr::from_limbs([1, 2, 3, 4]).unwrap();
    assert_eq!(Bn254Bridge::ark_to_nova(x).limbs(), [1, 2, 3, 4]);
    assert_eq!(Bn254Bridge::nova_to_ark(Bn254Bridge::ark_to_nova(x)), x);
    assert_eq!(ArkFr::from_limbs([u64::MAX; 4]), None);
}

#[test]
fn bridge_reads_bits() {
    assert_eq!(Bn254Bridge::nova_bit(Fr::zero()), Ok(false));
    assert_eq!(Bn254Bridge::nova_bit(Fr::one()), Ok(true));
    assert_eq!(
        Bn254Bridge::nova_bit(Fr::from_u64(2)),
        Err(SynthesisError::Unsatisfiable("expected 0 or 1".to_string()))
    );
}

#[test]
fn bytes_unpack_lowest_digit_first() {
    let mut bytes = [0u8; 32];
    bytes[0] = 0b0000_0101;
    bytes[31] = 0b1000_0000;
    let bits: Vec<Fr> = bytes_to_bits(&bytes);
    assert_eq!(bits.len(), 256);
    for (i, b) in bits.iter().enumerate() {
        let expected = i == 0 || i == 2 || i == 255;
        assert_eq!(*b, Fr::from_u64(expected as u64));
    }
    assert_eq!(bits_to_bytes(&bits), bytes);
    // Whatever is not one counts as zero.
    let twos = vec![Fr::from_u64(2); 256];
    assert_eq!(bits_to_bytes(&twos), [0u8; 32]);
}
