use neutron::bn254::{Bn256EngineKZG, Fr, G1};
use neutron::circuit::point::AllocatedNonnativePoint;
use neutron::circuit::power_check_relation::{
    AllocatedFoldedPowerCheckInstance, AllocatedPowerCheckInstance,
};
use neutron::circuit::relation::{AllocatedFoldedInstance, AllocatedNonnativeR1CSInstance};
use neutron::circuit::zerofold_nifs::AllocatedZeroFoldNIFS;
use neutron::commitment::CommitmentKey;
use neutron::errors::NovaError;
use neutron::field::Field;
use neutron::frontend::ConstraintSystem;
use neutron::nested_sumcheck::{
    convert_to_nsc, reconstruct_fresh_from_tau, verify_nsc_claim_bruteforce,
    verify_nsc_pc_claim_bruteforce,
};
use neutron::nifs::NIFS;
use neutron::num::AllocatedNum;
use neutron::power_check_relation::{
    generate_power_check_relation, pc_residual_at, FoldedPowerCheckInstance, PowerCheckInstance,
    PowerCheckStructure, PowerCheckWitness,
};
use neutron::r1cs::{R1CSInstance, R1CSShape, R1CSWitness, SparseMatrix};
use neutron::relation::{FoldedInstance, FoldedWitness, Structure};
use neutron::ro::PoseidonRO;
use neutron::traits::{Engine, Group};
use neutron::univariate::UniPoly;
use neutron::zerofold_nifs::{
    run_combined_sumfold, setup_nsc, setup_nsc_pc, setup_zc_pc, FoldedState, ZeroFoldNIFS, ZeroFoldOutput,
};

type E = Bn256EngineKZG;

fn f(x: u64) -> Fr {
    Fr::from_u64(x)
}

/// Squares its input `num_cons` times; input and result are public.
fn generate_test_circuit(num_cons: usize) -> (R1CSShape<E>, CommitmentKey<E>) {
    let num_vars = num_cons + 1;
    let one_col = num_vars;
    let mut a: Vec<(usize, usize, Fr)> = (0..num_cons).map(|i| (i, i, f(1))).collect();
    let mut b = a.clone();
    let mut c: Vec<(usize, usize, Fr)> = (0..num_cons).map(|i| (i, i + 1, f(1))).collect();
    for (k, var) in [0, num_cons].iter().enumerate() {
        a.push((num_cons + k, *var, f(1)));
        b.push((num_cons + k, one_col, f(1)));
        c.push((num_cons + k, one_col + 1 + k, f(1)));
    }
    let shape = R1CSShape::new(
        num_cons + 2,
        num_vars,
        2,
        SparseMatrix::new(&a),
        SparseMatrix::new(&b),
        SparseMatrix::new(&c),
    )
    .unwrap();
    let ck = CommitmentKey::<E>::setup("ck", 2 * (num_cons + 2));
    (shape, ck)
}

fn generate_satisfying_witness(
    ck: &CommitmentKey<E>,
    input: u64,
    num_cons: usize,
) -> (R1CSInstance<E>, R1CSWitness<E>) {
    let mut w = vec![f(input)];
    for i in 0..num_cons {
        w.push(w[i].mul(w[i]));
    }
    let r_w = Fr::random();
    let u = R1CSInstance {
        comm_W: ck.commit(&w, &r_w),
        X: vec![w[0], w[num_cons]],
    };
    (u, R1CSWitness { W: w, r_W: r_w })
}

fn verify_zc_pc_valid(
    s_pc: &PowerCheckStructure,
    instance: &PowerCheckInstance<E>,
    witness: &PowerCheckWitness<E>,
) {
    for i in 0..s_pc.num_cons {
        let residual = pc_residual_at(
            i,
            s_pc.left,
            witness.powers.e1(),
            witness.powers.e2(),
            instance.tau,
        );
        assert_eq!(residual, f(0));
    }
}

fn lerp(a: Fr, b: Fr, r: Fr) -> Fr {
    a.mul(f(1).sub(r)).add(b.mul(r))
}

fn lerp_point(a: G1, b: G1, r: Fr) -> G1 {
    a.scale(f(1).sub(r)).add(b.scale(r))
}

struct Running {
    nsc: (FoldedInstance<E>, FoldedWitness<E>),
    abc: (Vec<Fr>, Vec<Fr>, Vec<Fr>),
    nsc_pc: (
        FoldedPowerCheckInstance<E>,
        neutron::power_check_relation::FoldedPowerCheckWitness<E>,
    ),
    zc_pc: (PowerCheckInstance<E>, PowerCheckWitness<E>),
}

fn start(ck: &CommitmentKey<E>, s: &Structure<E>, s_pc: &PowerCheckStructure) -> Running {
    let (u, w, abc) = setup_nsc::<E>(s);
    Running {
        nsc: (u, w),
        abc,
        nsc_pc: setup_nsc_pc::<E>(ck, s_pc),
        zc_pc: setup_zc_pc::<E>(ck, s_pc),
    }
}

fn prove(
    ck: &CommitmentKey<E>,
    s: &Structure<E>,
    s_pc: &PowerCheckStructure,
    st: &Running,
    u: &R1CSInstance<E>,
    w: &R1CSWitness<E>,
) -> Result<ZeroFoldOutput<E>, NovaError> {
    ZeroFoldNIFS::prove(
        ck,
        &E::ro_constants(),
        &f(0),
        s,
        s_pc,
        (&st.nsc.0, &st.nsc.1),
        (&st.abc.0, &st.abc.1, &st.abc.2),
        (&st.nsc_pc.0, &st.nsc_pc.1),
        (u, w),
        (&st.zc_pc.0, &st.zc_pc.1),
    )
}

/// Verifies the proof, and the state that came out.
fn check_fold(
    ck: &CommitmentKey<E>,
    s: &Structure<E>,
    s_pc: &PowerCheckStructure,
    before: &Running,
    u: &R1CSInstance<E>,
    result: &ZeroFoldOutput<E>,
) {
    let (verified_nsc, verified_pc, verified_zc_pc) = result
        .nifs
        .verify(
            &E::ro_constants(),
            &f(0),
            &before.nsc.0,
            &before.nsc_pc.0,
            u,
            &before.zc_pc.0,
        )
        .expect("verify should succeed");
    assert_eq!(verified_nsc, result.folded.nsc_instance);
    assert_eq!(verified_pc, result.folded.pc_instance);
    assert_eq!(verified_zc_pc, result.new_zc_pc.0);

    s.is_sat(ck, &result.folded.nsc_instance, &result.folded.nsc_witness)
        .expect("Folded NSC should satisfy Structure::is_sat");
    verify_nsc_claim_bruteforce::<E>(s, &result.folded.nsc_instance, &result.folded.nsc_witness)
        .expect("NSC claim should match brute force computation");
    verify_nsc_pc_claim_bruteforce::<E>(
        s_pc,
        &result.folded.pc_instance,
        &result.folded.pc_witness,
    )
    .expect("NSC_PC claim should match brute force computation");
    verify_zc_pc_valid(s_pc, &result.new_zc_pc.0, &result.new_zc_pc.1);
}

fn advance(folded: FoldedState<E>, zc_pc: (PowerCheckInstance<E>, PowerCheckWitness<E>)) -> Running {
    Running {
        nsc: (folded.nsc_instance, folded.nsc_witness),
        abc: (folded.Az, folded.Bz, folded.Cz),
        nsc_pc: (folded.pc_instance, folded.pc_witness),
        zc_pc,
    }
}

#[test]
fn test_single_fold() {
    let num_cons = 32usize;
    let (shape, ck) = generate_test_circuit(num_cons);
    let s = Structure::new(&shape);
    let s_pc = PowerCheckStructure::from_main(&s);
    let st = start(&ck, &s, &s_pc);
    verify_zc_pc_valid(&s_pc, &st.zc_pc.0, &st.zc_pc.1);

    let (u_fresh, w_fresh) = generate_satisfying_witness(&ck, 2, num_cons);
    let result = prove(&ck, &s, &s_pc, &st, &u_fresh, &w_fresh)
        .expect("ZeroFoldNIFS::prove should succeed");
    check_fold(&ck, &s, &s_pc, &st, &u_fresh, &result);

    let fresh = reconstruct_fresh_from_tau::<E>(
        &s,
        (&u_fresh, &w_fresh),
        (&st.zc_pc.0, &st.zc_pc.1),
        &result.tau,
        &result.nifs.comm_E,
    )
    .expect("Reconstruction should succeed");
    let r_b = result.r_b;

    // Linear folding of the main relation.
    let (u1, w1) = (&st.nsc.0, &st.nsc.1);
    let (u2, w2) = (&fresh.nsc.0, &fresh.nsc.1);
    let (uf, wf) = (&result.folded.nsc_instance, &result.folded.nsc_witness);
    for i in 0..wf.W.len() {
        assert_eq!(wf.W[i], lerp(w1.W[i], w2.W[i], r_b));
    }
    for i in 0..wf.E.len() {
        assert_eq!(
            wf.E.as_slice()[i],
            lerp(w1.E.as_slice()[i], w2.E.as_slice()[i], r_b)
        );
    }
    assert_eq!(uf.u, lerp(u1.u, u2.u, r_b));
    for i in 0..uf.X.len() {
        assert_eq!(uf.X[i], lerp(u1.X[i], u2.X[i], r_b));
    }

    // Linear folding of the power check.
    let (p1, q1) = (&st.nsc_pc.0, &st.nsc_pc.1);
    let (p2, q2) = (&fresh.nsc_pc.0, &fresh.nsc_pc.1);
    assert_eq!(result.folded.pc_instance.tau, lerp(p1.tau, p2.tau, r_b));
    let qf = &result.folded.pc_witness;
    for i in 0..qf.witness.len() {
        assert_eq!(
            qf.witness.as_slice()[i],
            lerp(q1.witness.as_slice()[i], q2.witness.as_slice()[i], r_b)
        );
    }
    for i in 0..qf.weights.len() {
        assert_eq!(
            qf.weights.as_slice()[i],
            lerp(q1.weights.as_slice()[i], q2.weights.as_slice()[i], r_b)
        );
    }

    // Commitments fold as what they commit to.
    assert_eq!(uf.comm_W, lerp_point(u1.comm_W, u2.comm_W, r_b));
    assert_eq!(uf.comm_E, lerp_point(u1.comm_E, u2.comm_E, r_b));

    // Sum-check identities.
    let one_minus_rho = f(1).sub(result.rho);
    let sum = |p: &UniPoly<Fr>| p.eval_at_zero().add(p.eval_at_one());
    assert_eq!(sum(&result.nifs.poly_nsc), one_minus_rho.mul(u1.T));
    assert_eq!(sum(&result.nifs.poly_pc), one_minus_rho.mul(p1.pc_sumcheck_claim));

    // Commitments open to the witness.
    assert_eq!(ck.commit(&wf.W, &wf.r_W), uf.comm_W);
    assert_eq!(wf.E.commit(&ck), uf.comm_E);
    assert_eq!(qf.witness.commit(&ck), result.folded.pc_instance.comm_witness);
    assert_eq!(qf.weights.commit(&ck), result.folded.pc_instance.comm_weights);
}

#[test]
fn test_two_sequential_folds() {
    let num_cons = 32usize;
    let (shape, ck) = generate_test_circuit(num_cons);
    let s = Structure::new(&shape);
    let s_pc = PowerCheckStructure::from_main(&s);
    let st = start(&ck, &s, &s_pc);

    let (u1, w1) = generate_satisfying_witness(&ck, 2, num_cons);
    let (u2, w2) = generate_satisfying_witness(&ck, 3, num_cons);

    let result1 = prove(&ck, &s, &s_pc, &st, &u1, &w1).expect("Fold 1 should succeed");
    check_fold(&ck, &s, &s_pc, &st, &u1, &result1);
    let st = advance(result1.folded, result1.new_zc_pc);

    let result2 = prove(&ck, &s, &s_pc, &st, &u2, &w2).expect("Fold 2 should succeed");
    check_fold(&ck, &s, &s_pc, &st, &u2, &result2);
}

#[test]
fn test_three_step_folding() {
    let num_cons = 32usize;
    let (shape, ck) = generate_test_circuit(num_cons);
    let s = Structure::new(&shape);
    let s_pc = PowerCheckStructure::from_main(&s);
    let mut st = start(&ck, &s, &s_pc);

    let witnesses: Vec<_> = (2..5).map(|i| generate_satisfying_witness(&ck, i, num_cons)).collect();
    for (step, (u, w)) in witnesses.iter().enumerate() {
        let result = prove(&ck, &s, &s_pc, &st, u, w)
            .unwrap_or_else(|e| panic!("Step {}: ZeroFoldNIFS::prove failed: {:?}", step, e));
        check_fold(&ck, &s, &s_pc, &st, u, &result);
        st = advance(result.folded, result.new_zc_pc);
    }
}

#[test]
fn test_convert_to_nsc_claims_are_zero() {
    let num_cons = 16;
    let (shape, ck) = generate_test_circuit(num_cons);
    let s = Structure::new(&shape);
    let s_pc = PowerCheckStructure::from_main(&s);
    let (zc_instance, zc_witness) = generate_satisfying_witness(&ck, 42, num_cons);

    let tau_input = f(123);
    let (zc_pc_instance, zc_pc_witness) =
        generate_power_check_relation::<E>(&tau_input, s.left(), s.right(), &ck);

    let mut transcript = PoseidonRO::new(E::ro_constants());
    let output = convert_to_nsc::<E>(
        &ck,
        &s,
        (&zc_instance, &zc_witness),
        (&zc_pc_instance, &zc_pc_witness),
        &mut transcript,
    )
    .expect("convert_to_nsc should succeed");

    let (nsc_instance, nsc_witness) = output.nsc;
    let (nsc_pc_instance, nsc_pc_witness) = output.nsc_pc;
    assert_eq!(nsc_instance.T, f(0), "NSC instance T should be zero");
    assert_eq!(
        nsc_pc_instance.pc_sumcheck_claim,
        f(0),
        "NSC_PC instance pc_sumcheck_claim should be zero"
    );
    verify_nsc_claim_bruteforce::<E>(&s, &nsc_instance, &nsc_witness)
        .expect("NSC brute-force verification should pass");
    verify_nsc_pc_claim_bruteforce::<E>(&s_pc, &nsc_pc_instance, &nsc_pc_witness)
        .expect("NSC_PC brute-force verification should pass");

    // A claim that is off by one is refused.
    let off = FoldedInstance { T: f(1), ..nsc_instance };
    assert!(matches!(
        verify_nsc_claim_bruteforce::<E>(&s, &off, &nsc_witness),
        Err(NovaError::UnSat { .. })
    ));
}

#[test]
fn test_tiny_r1cs_bellpepper() {
    let num_cons: usize = 32;
    let (shape, ck) = generate_test_circuit(num_cons);
    let (u1, w1) = generate_satisfying_witness(&ck, 2, num_cons);
    let (u2, w2) = generate_satisfying_witness(&ck, 3, num_cons);
    let ro_consts = E::ro_constants();
    let pp_digest = f(0);

    let s = Structure::new(&shape);
    let mut running_w = FoldedWitness::default(&s);
    let mut running_u = FoldedInstance::default(&s);
    assert!(s.is_sat(&ck, &running_u, &running_w).is_ok());

    for (u_in, w_in) in [(&u1, &w1), (&u2, &w2)] {
        let res = NIFS::prove(&ck, &ro_consts, &pp_digest, &s, &running_u, &running_w, u_in, w_in);
        assert!(res.is_ok());
        let (nifs, (u_prover, w)) = res.unwrap();

        let res = nifs.verify(&ro_consts, &pp_digest, &running_u, u_in);
        assert!(res.is_ok());
        let u = res.unwrap();
        assert_eq!(u, u_prover);

        running_w = w;
        running_u = u;
        assert!(s.is_sat(&ck, &running_u, &running_w).is_ok());
    }
}

struct CircuitInput<'a> {
    before: &'a Running,
    u: &'a R1CSInstance<E>,
    nifs: &'a ZeroFoldNIFS<E>,
    comm_w_fold: G1,
    comm_e_fold: G1,
    comm_witness_fold: G1,
}

/// Allocates everything, and runs the verifier in the circuit.
fn synthesize_verifier(
    cs: &mut ConstraintSystem<Fr>,
    input: &CircuitInput,
    degree: usize,
) -> AllocatedFoldedInstance<E> {
    let pp_digest = AllocatedNum::allocate(cs, Ok(f(0))).unwrap();
    let u1 = AllocatedFoldedInstance::allocate(cs, 2, Some(&input.before.nsc.0)).unwrap();
    let u1_pc =
        AllocatedFoldedPowerCheckInstance::allocate(cs, Some(&input.before.nsc_pc.0)).unwrap();
    let u2 = AllocatedNonnativeR1CSInstance::allocate(cs, 2, Some(input.u)).unwrap();
    let u2_pc = AllocatedPowerCheckInstance::allocate(cs, Some(&input.before.zc_pc.0)).unwrap();
    let nifs = AllocatedZeroFoldNIFS::allocate(cs, Some(input.nifs), degree).unwrap();
    let comm_w_fold =
        AllocatedNonnativePoint::allocate(cs, Some(input.comm_w_fold.to_coordinates())).unwrap();
    let comm_e_fold =
        AllocatedNonnativePoint::allocate(cs, Some(input.comm_e_fold.to_coordinates())).unwrap();
    let comm_witness_fold =
        AllocatedNonnativePoint::allocate(cs, Some(input.comm_witness_fold.to_coordinates()))
            .unwrap();
    let (folded_nsc, _folded_pc, new_zc_pc) = nifs
        .verify(
            cs,
            &pp_digest,
            &u1,
            &u1_pc,
            &u2,
            &u2_pc,
            &comm_w_fold,
            &comm_e_fold,
            &comm_witness_fold,
            E::ro_constants(),
        )
        .expect("circuit synthesis should succeed");
    assert_eq!(new_zc_pc.comm_powers.x, nifs.comm_E.x);
    folded_nsc
}

#[test]
fn test_zerofold_circuit() {
    let num_cons = 32usize;
    let (shape, ck) = generate_test_circuit(num_cons);
    let s = Structure::new(&shape);
    let s_pc = PowerCheckStructure::from_main(&s);
    let degree = 5usize;
    let st = start(&ck, &s, &s_pc);
    let (u_fresh, w_fresh) = generate_satisfying_witness(&ck, 2, num_cons);
    let result = prove(&ck, &s, &s_pc, &st, &u_fresh, &w_fresh).expect("prove should succeed");
    result
        .nifs
        .verify(
            &E::ro_constants(),
            &f(0),
            &st.nsc.0,
            &st.nsc_pc.0,
            &u_fresh,
            &st.zc_pc.0,
        )
        .expect("native verify should succeed");

    let input = CircuitInput {
        before: &st,
        u: &u_fresh,
        nifs: &result.nifs,
        comm_w_fold: result.folded.nsc_instance.comm_W,
        comm_e_fold: result.folded.nsc_instance.comm_E,
        comm_witness_fold: result.folded.pc_instance.comm_witness,
    };

    // The shape of the circuit.
    let mut shape_cs = ConstraintSystem::<Fr>::new_shape();
    synthesize_verifier(&mut shape_cs, &input, degree);
    assert!(!shape_cs.is_satisfied());

    // The circuit with values.
    let mut cs = ConstraintSystem::<Fr>::new_witness();
    synthesize_verifier(&mut cs, &input, degree);
    assert_eq!(cs.num_constraints(), shape_cs.num_constraints());
    assert_eq!(cs.num_aux(), shape_cs.num_aux());
    assert!(cs.is_satisfied(), "circuit should be satisfied");

    // The recorded values satisfy the constraints of the shape.
    assert!(shape_cs.is_satisfied_by(&cs), "shape should be satisfied");
    // A shape has no values to offer.
    assert!(!cs.is_satisfied_by(&shape_cs));
}

#[test]
fn one_shape_serves_every_fold() {
    let num_cons = 4usize;
    let (shape, ck) = generate_test_circuit(num_cons);
    let s = Structure::new(&shape);
    let s_pc = PowerCheckStructure::from_main(&s);
    let mut systems = Vec::new();
    let mut shape_cs = ConstraintSystem::<Fr>::new_shape();
    for x in [2u64, 9] {
        let st = start(&ck, &s, &s_pc);
        let (u, w) = generate_satisfying_witness(&ck, x, num_cons);
        let result = prove(&ck, &s, &s_pc, &st, &u, &w).unwrap();
        let input = CircuitInput {
            before: &st,
            u: &u,
            nifs: &result.nifs,
            comm_w_fold: result.folded.nsc_instance.comm_W,
            comm_e_fold: result.folded.nsc_instance.comm_E,
            comm_witness_fold: result.folded.pc_instance.comm_witness,
        };
        let mut cs = ConstraintSystem::<Fr>::new_witness();
        synthesize_verifier(&mut cs, &input, 5);
        if x == 2 {
            synthesize_verifier(&mut shape_cs, &input, 5);
        }
        systems.push(cs);
    }
    assert!(shape_cs.is_satisfied_by(&systems[0]));
    assert!(shape_cs.is_satisfied_by(&systems[1]));
    assert!(systems[0].is_satisfied_by(&systems[1]));
    assert!(systems[1].is_satisfied_by(&systems[0]));
    // More private variables than the shape has are too many.
    AllocatedNum::allocate(&mut systems[1], Ok(f(0))).unwrap();
    assert!(systems[1].is_satisfied());
    assert!(!shape_cs.is_satisfied_by(&systems[1]));
}

#[test]
fn defaults_are_zero_inside_and_outside() {
    let s_pc = PowerCheckStructure::new(4, 4);
    let (shape, _) = generate_test_circuit(4);
    let pc = FoldedPowerCheckInstance::<E>::default(&s_pc);
    let nsc = FoldedInstance::<E>::default(&Structure::new(&shape));
    for c in [pc.comm_witness, pc.comm_weights, nsc.comm_W, nsc.comm_E] {
        let (x, y, infinity) = c.to_coordinates();
        assert_eq!((x, y, infinity), ([0; 4], [0; 4], true));
    }
    // What the circuit demands by default holds of the values outside, and of no others.
    let mut demanded = ConstraintSystem::<Fr>::new_shape();
    AllocatedFoldedPowerCheckInstance::<E>::default(&mut demanded).unwrap();
    let mut cs = ConstraintSystem::<Fr>::new_witness();
    AllocatedFoldedPowerCheckInstance::allocate(&mut cs, Some(&pc)).unwrap();
    assert!(demanded.is_satisfied_by(&cs));
    let mut cs = ConstraintSystem::<Fr>::new_witness();
    let other = FoldedPowerCheckInstance::<E> { tau: f(1), ..pc };
    AllocatedFoldedPowerCheckInstance::allocate(&mut cs, Some(&other)).unwrap();
    assert!(!demanded.is_satisfied_by(&cs));
}

#[test]
fn oracle_remembers_the_combined_round() {
    let s_pc = PowerCheckStructure::new(2, 2);
    let table = |k: u64, n: u64| -> Vec<Fr> { (0..n).map(|i| f(k * i + 3)).collect() };
    let mut ro = PoseidonRO::<Fr>::new(E::ro_constants());
    ro.absorb(f(17));
    let out = run_combined_sumfold::<E>(
        &f(5),
        f(6),
        (2, 2),
        &table(1, 4),
        (&table(2, 4), &table(3, 4), &table(4, 4)),
        &table(5, 4),
        (&table(6, 4), &table(7, 4), &table(8, 4)),
        f(9),
        &s_pc,
        (&table(9, 2), &table(10, 2)),
        (&table(11, 2), &table(12, 2)),
        (&table(13, 2), &table(14, 2)),
        (&table(15, 2), &table(16, 2)),
        &f(7),
        &f(8),
        &mut ro,
    )
    .unwrap();
    // The oracle absorbs the combined polynomial behind the first challenge, and draws the second.
    let mut expected = PoseidonRO::<Fr>::new(E::ro_constants());
    expected.absorb(f(17));
    assert_eq!(expected.squeeze(128), out.gamma);
    for (x, y) in out.poly_nsc.coeffs().iter().zip(out.poly_pc.coeffs()) {
        expected.absorb(x.add(out.gamma.mul(*y)));
    }
    assert_eq!(expected.squeeze(128), out.r_b);
    assert_eq!(ro.squeeze(128), expected.squeeze(128));
}

#[test]
fn circuit_refuses_a_changed_polynomial() {
    let num_cons = 4usize;
    let (shape, ck) = generate_test_circuit(num_cons);
    let s = Structure::new(&shape);
    let s_pc = PowerCheckStructure::from_main(&s);
    let st = start(&ck, &s, &s_pc);
    let (u, w) = generate_satisfying_witness(&ck, 2, num_cons);
    let result = prove(&ck, &s, &s_pc, &st, &u, &w).unwrap();

    let mut coeffs = result.nifs.poly_pc.coeffs().to_vec();
    coeffs[0] = coeffs[0].add(f(1));
    let changed = ZeroFoldNIFS::<E> {
        comm_E: result.nifs.comm_E,
        poly_nsc: UniPoly::from_coeffs(result.nifs.poly_nsc.coeffs().to_vec()),
        poly_pc: UniPoly::from_coeffs(coeffs),
    };
    let input = CircuitInput {
        before: &st,
        u: &u,
        nifs: &changed,
        comm_w_fold: result.folded.nsc_instance.comm_W,
        comm_e_fold: result.folded.nsc_instance.comm_E,
        comm_witness_fold: result.folded.pc_instance.comm_witness,
    };
    let mut cs = ConstraintSystem::<Fr>::new_witness();
    synthesize_verifier(&mut cs, &input, 5);
    assert!(!cs.is_satisfied());
    let mut shape_cs = ConstraintSystem::<Fr>::new_shape();
    synthesize_verifier(&mut shape_cs, &input, 5);
    assert!(!shape_cs.is_satisfied_by(&cs));

    // The verifier outside refuses it too.
    assert_eq!(
        changed.verify(&E::ro_constants(), &f(0), &st.nsc.0, &st.nsc_pc.0, &u, &st.zc_pc.0),
        Err(NovaError::InvalidSumcheckProof)
    );
}

#[test]
fn circuit_folds_scalars_on_the_line() {
    let num_cons = 4usize;
    let (shape, ck) = generate_test_circuit(num_cons);
    let s = Structure::new(&shape);
    let s_pc = PowerCheckStructure::from_main(&s);
    let st = start(&ck, &s, &s_pc);
    let (u, w) = generate_satisfying_witness(&ck, 3, num_cons);
    let result = prove(&ck, &s, &s_pc, &st, &u, &w).unwrap();
    let input = CircuitInput {
        before: &st,
        u: &u,
        nifs: &result.nifs,
        comm_w_fold: result.folded.nsc_instance.comm_W,
        comm_e_fold: result.folded.nsc_instance.comm_E,
        comm_witness_fold: result.folded.pc_instance.comm_witness,
    };
    let mut cs = ConstraintSystem::<Fr>::new_witness();
    let folded = synthesize_verifier(&mut cs, &input, 5);
    // The running instance is zero, so that the scalar is the folding challenge itself.
    let r_b = folded.u.get_value().unwrap();
    assert_eq!(folded.X[0].get_value().unwrap(), r_b.mul(u.X[0]));
    assert_eq!(folded.X[1].get_value().unwrap(), r_b.mul(u.X[1]));
    // A challenge has 128 bits.
    let l = r_b.limbs();
    assert_eq!((l[2], l[3]), (0, 0));
    assert_ne!(l[1], 0);
}

#[test]
fn verifiers_refuse_a_changed_claim() {
    let num_cons = 4usize;
    let (shape, ck) = generate_test_circuit(num_cons);
    let s = Structure::new(&shape);
    let (u, w) = generate_satisfying_witness(&ck, 2, num_cons);
    let ro_consts = E::ro_constants();
    let running_u = FoldedInstance::default(&s);
    let running_w = FoldedWitness::default(&s);
    let (nifs, (folded_u, folded_w)) =
        NIFS::prove(&ck, &ro_consts, &f(0), &s, &running_u, &running_w, &u, &w).unwrap();
    let off = FoldedInstance { T: f(1), ..FoldedInstance::default(&s) };
    assert_eq!(
        nifs.verify(&ro_consts, &f(0), &off, &u),
        Err(NovaError::InvalidSumcheckProof)
    );
    // Another digest gives other challenges, and another fold.
    let other = nifs.verify(&ro_consts, &f(1), &running_u, &u).unwrap();
    assert_ne!(other, folded_u);

    // The relation refuses a claim or a commitment that does not match.
    let wrong_claim = FoldedInstance { T: folded_u.T.add(f(1)), ..folded_u.clone() };
    assert_eq!(
        s.is_sat(&ck, &wrong_claim, &folded_w),
        Err(NovaError::UnSat { reason: "claim mismatch".to_string() })
    );
    let wrong_commitment = FoldedInstance {
        comm_W: folded_u.comm_W.add(folded_u.comm_W),
        ..folded_u.clone()
    };
    assert_eq!(
        s.is_sat(&ck, &wrong_commitment, &folded_w),
        Err(NovaError::UnSat { reason: "commitment mismatch".to_string() })
    );
}

#[test]
fn lengths_are_checked() {
    let num_cons = 4usize;
    let (shape, ck) = generate_test_circuit(num_cons);
    let s = Structure::new(&shape);
    let (u, w) = generate_satisfying_witness(&ck, 2, num_cons);
    let running_u = FoldedInstance::default(&s);
    let running_w = FoldedWitness::default(&s);
    let short = R1CSWitness { W: w.W[1..].to_vec(), r_W: w.r_W };
    assert_eq!(
        NIFS::prove(&ck, &E::ro_constants(), &f(0), &s, &running_u, &running_w, &u, &short).err(),
        Some(NovaError::InvalidWitnessLength)
    );
    let no_input = R1CSInstance::<E> { comm_W: u.comm_W, X: vec![] };
    assert_eq!(
        running_u.fold(&no_input, &u.comm_W, &f(1), &f(0)).err(),
        Some(NovaError::InvalidInputLength)
    );
    // An entry outside the matrix is refused.
    let far: SparseMatrix<Fr> = SparseMatrix::new(&[(0, 9, f(1))]);
    let near = || SparseMatrix::new(&[(0, 0, f(1))]);
    assert_eq!(
        R1CSShape::<E>::new(1, 1, 1, far, near(), near()).err(),
        Some(NovaError::InvalidIndex)
    );
}

#[test]
fn structure_splits_the_constraints() {
    let (shape, _) = generate_test_circuit(32);
    // 34 constraints are covered by 2^6, split into 2^3 and 2^3.
    let s = Structure::new(&shape);
    assert_eq!((s.left(), s.right()), (8, 8));
    assert_eq!(s.shape().num_cons(), 64);
}

#[test]
fn fold_of_a_false_pair_is_false() {
    let num_cons = 6usize;
    let (shape, ck) = generate_test_circuit(num_cons);
    let s = Structure::new(&shape);
    let (running, running_w, _) = setup_nsc::<E>(&s);
    // A constraint fails, though the commitment opens to the witness.
    let (mut u, mut w) = generate_satisfying_witness(&ck, 3, num_cons);
    w.W[2] = w.W[2].add(f(1));
    u.comm_W = ck.commit(&w.W, &w.r_W);
    let (proof, (uf, wf)) =
        NIFS::prove(&ck, &E::ro_constants(), &f(7), &s, &running, &running_w, &u, &w).unwrap();
    assert!(s.is_sat(&ck, &uf, &wf).is_err());
    // The verifier arrives at the same instance: the failure shows in the claim alone.
    assert_eq!(proof.verify(&E::ro_constants(), &f(7), &running, &u).unwrap(), uf);
    // The constraints hold, though the commitment opens to another witness.
    let (mut u, w) = generate_satisfying_witness(&ck, 3, num_cons);
    u.comm_W = u.comm_W.add(u.comm_W);
    let (_, (uf, wf)) =
        NIFS::prove(&ck, &E::ro_constants(), &f(7), &s, &running, &running_w, &u, &w).unwrap();
    assert!(s.is_sat(&ck, &uf, &wf).is_err());
    // A running claim that is off.
    let (u, w) = generate_satisfying_witness(&ck, 3, num_cons);
    let mut off = FoldedInstance::<E>::default(&s);
    off.T = f(1);
    let (_, (uf, wf)) =
        NIFS::prove(&ck, &E::ro_constants(), &f(7), &s, &off, &running_w, &u, &w).unwrap();
    assert!(s.is_sat(&ck, &uf, &wf).is_err());
}

#[test]
fn combined_fold_of_a_false_pair_is_false() {
    let num_cons = 6usize;
    let (shape, ck) = generate_test_circuit(num_cons);
    let s = Structure::new(&shape);
    let s_pc = PowerCheckStructure::from_main(&s);
    let st = start(&ck, &s, &s_pc);
    let (u, mut w) = generate_satisfying_witness(&ck, 3, num_cons);
    w.W[1] = w.W[1].add(f(1));
    let u = R1CSInstance { comm_W: ck.commit(&w.W, &w.r_W), X: u.X };
    let out = prove(&ck, &s, &s_pc, &st, &u, &w).unwrap();
    assert!(s.is_sat(&ck, &out.folded.nsc_instance, &out.folded.nsc_witness).is_err());
    // The power check is not concerned.
    assert!(verify_nsc_pc_claim_bruteforce::<E>(
        &s_pc,
        &out.folded.pc_instance,
        &out.folded.pc_witness
    )
    .is_ok());
}

#[test]
fn round_polynomials_miss_a_false_claim_at_five_points() {
    // The values of 1 + t at 0, 2, 3, 4 and 5, under the claim 9 where 3 is right.
    let poly = UniPoly::from_evals(&[f(1), f(8), f(3), f(4), f(5), f(6)]);
    for t in [0u64, 2, 3, 4, 5] {
        assert_eq!(poly.evaluate(&f(t)), f(1 + t));
    }
    for t in [1u64, 6, 7, 100] {
        assert_ne!(poly.evaluate(&f(t)), f(1 + t));
        // Off by the defect times the distances from the five points.
        let off = poly.evaluate(&f(t)).sub(f(1 + t)).mul(f(24));
        let missed = f(t)
            .mul(f(t).sub(f(2)))
            .mul(f(t).sub(f(3)))
            .mul(f(t).sub(f(4)))
            .mul(f(t).sub(f(5)));
        assert_eq!(off, f(6).mul(missed));
    }
}

#[test]
fn combined_fold_checks_lengths() {
    let num_cons = 4usize;
    let (shape, ck) = generate_test_circuit(num_cons);
    let s = Structure::new(&shape);
    let s_pc = PowerCheckStructure::from_main(&s);
    let (u, w) = generate_satisfying_witness(&ck, 2, num_cons);
    let mut st = start(&ck, &s, &s_pc);
    st.nsc.0.X.push(f(0));
    assert_eq!(
        prove(&ck, &s, &s_pc, &st, &u, &w).err(),
        Some(NovaError::InvalidInputLength)
    );
    let mut st = start(&ck, &s, &s_pc);
    st.nsc.1.W.push(f(0));
    assert_eq!(
        prove(&ck, &s, &s_pc, &st, &u, &w).err(),
        Some(NovaError::InvalidWitnessLength)
    );
}

#[test]
fn circuit_draws_nothing_from_running_instances() {
    let num_cons = 4usize;
    let (shape, ck) = generate_test_circuit(num_cons);
    let s = Structure::new(&shape);
    let s_pc = PowerCheckStructure::from_main(&s);
    let st = start(&ck, &s, &s_pc);
    let (u, w) = generate_satisfying_witness(&ck, 3, num_cons);
    let result = prove(&ck, &s, &s_pc, &st, &u, &w).unwrap();
    let mut values = Vec::new();
    for shift in 0..2 {
        let mut other = start(&ck, &s, &s_pc);
        other.nsc_pc.0.tau = other.nsc_pc.0.tau.add(f(shift));
        other.nsc_pc.0.pc_sumcheck_claim = f(7 * shift);
        let input = CircuitInput {
            before: &other,
            u: &u,
            nifs: &result.nifs,
            comm_w_fold: result.folded.nsc_instance.comm_W,
            comm_e_fold: result.folded.nsc_instance.comm_E,
            comm_witness_fold: result.folded.pc_instance.comm_witness,
        };
        let mut cs = ConstraintSystem::<Fr>::new_witness();
        let folded = synthesize_verifier(&mut cs, &input, 5);
        // A false claim of the power check is found, and what is folded stays the same.
        assert_eq!(cs.is_satisfied(), shift == 0);
        values.push([folded.u, folded.T, folded.X[0]].map(|n| n.get_value().unwrap()));
    }
    assert_eq!(values[0], values[1]);
}

#[test]
fn folding_the_power_check_takes_one_variable() {
    let mut cs = ConstraintSystem::<Fr>::new_witness();
    let u = AllocatedFoldedPowerCheckInstance::<E>::default(&mut cs).unwrap();
    let v = AllocatedFoldedPowerCheckInstance::<E>::allocate(&mut cs, None).unwrap();
    let r_b = AllocatedNum::allocate(&mut cs, Ok(f(5))).unwrap();
    let (vars, cons) = (cs.num_aux(), cs.num_constraints());
    let point = AllocatedNonnativePoint::allocate(&mut cs, None).unwrap();
    let (vars_point, cons_point) = (cs.num_aux(), cs.num_constraints());
    assert_eq!((vars_point - vars, cons_point - cons), (9, 1));
    u.fold(&mut cs, &v, &r_b, &r_b, &point, &point).unwrap();
    assert_eq!((cs.num_aux(), cs.num_constraints()), (vars_point + 1, cons_point + 1));
    // Both hold the zero instance.
    for (x, y) in [(&u.comm_witness, &v.comm_witness), (&u.comm_weights, &v.comm_weights)] {
        assert_eq!(x.is_infinity.get_value(), y.is_infinity.get_value());
        assert_eq!(x.x[0].get_value(), y.x[0].get_value());
        assert_eq!(x.y[3].get_value(), y.y[3].get_value());
    }
    assert_eq!(u.tau.get_value(), v.tau.get_value());
    assert_eq!(u.pc_sumcheck_claim.get_value(), v.pc_sumcheck_claim.get_value());
    assert!(cs.is_satisfied());
}
