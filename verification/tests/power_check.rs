use neutron::bn254::{Bn256EngineKZG, Fr};
use neutron::commitment::CommitmentKey;
use neutron::field::Field;
use neutron::power_check_relation::{
    compute_pc_weighted_sum_bruteforce, pc_g_at, pc_residual_at, FoldedPowerCheckInstance,
    FoldedPowerCheckWitness, PowerCheckStructure,
};
use neutron::sumcheck::prove_helper_pc;
use neutron::traits::Group;
use neutron::univariate::UniPoly;
use neutron::weight_table::WeightTable;
use rand::rngs::StdRng;
use rand::{RngCore, SeedableRng};

type E = Bn256EngineKZG;

fn f(x: u64) -> Fr {
    Fr::from_u64(x)
}

fn random_scalar(rng: &mut StdRng) -> Fr {
    loop {
        let l = [rng.next_u64(), rng.next_u64(), rng.next_u64(), rng.next_u64() >> 2];
        if let Some(x) = Fr::from_limbs(l) {
            return x;
        }
    }
}

fn pow(x: Fr, n: usize) -> Fr {
    let mut acc = f(1);
    for _ in 0..n {
        acc = acc.mul(x);
    }
    acc
}

fn create_valid_power_table(tau: &Fr, left: usize, right: usize) -> (Vec<Fr>, Vec<Fr>) {
    let e1: Vec<Fr> = (0..left).map(|i| pow(*tau, i)).collect();
    let tau_left = pow(*tau, left);
    let e2: Vec<Fr> = (0..right).map(|i| pow(tau_left, i)).collect();
    (e1, e2)
}

fn fresh_power_table(rng: &mut StdRng, left: usize, right: usize) -> (WeightTable<E>, Fr) {
    let tau = random_scalar(rng);
    let r = random_scalar(rng);
    (WeightTable::from_powers(&tau, left, right, r), tau)
}

fn random_weights(rng: &mut StdRng, left_pc: usize, right_pc: usize) -> WeightTable<E> {
    let vec: Vec<Fr> = (0..left_pc + right_pc).map(|_| random_scalar(rng)).collect();
    let r = random_scalar(rng);
    WeightTable::new(vec, r, left_pc)
}

fn compute_t_pc_naive(
    s_pc: &PowerCheckStructure,
    weights: &WeightTable<E>,
    table: &WeightTable<E>,
    tau: Fr,
) -> Fr {
    let (e1, e2, left) = (table.e1(), table.e2(), table.left());
    let (weights_e1, weights_e2) = (weights.e1(), weights.e2());
    (0..s_pc.num_cons).fold(f(0), |acc, i| {
        let residual = pc_residual_at(i, left, e1, e2, tau);
        let row = i / s_pc.left_pc;
        let col = i % s_pc.left_pc;
        acc.add(weights_e2[row].mul(weights_e1[col]).mul(residual))
    })
}

#[test]
fn test_prove_helper_pc_claim() {
    let left = 4usize;
    let right = 4usize;
    let s_pc = PowerCheckStructure::new(left, right);

    let tau_1 = f(7);
    let tau_2 = f(11);
    let (e1_1, e2_1) = create_valid_power_table(&tau_1, left, right);
    let (e1_2, e2_2) = create_valid_power_table(&tau_2, left, right);

    let w1_left: Vec<Fr> = (0..left).map(|i| f((i + 1) as u64)).collect();
    let w1_right: Vec<Fr> = (0..right).map(|i| f((i + 10) as u64)).collect();
    let w2_left: Vec<Fr> = (0..left).map(|i| f((i + 100) as u64)).collect();
    let w2_right: Vec<Fr> = (0..right).map(|i| f((i + 200) as u64)).collect();

    let pc_claim_1 = compute_pc_weighted_sum_bruteforce(&e1_1, &e2_1, &tau_1, &w1_left, &w1_right);
    assert_eq!(pc_claim_1, f(0), "Valid power table should have pc_sumcheck_claim = 0");

    let mut e1_corrupted = e1_1.clone();
    e1_corrupted[2] = f(999);
    let pc_claim_corrupted =
        compute_pc_weighted_sum_bruteforce(&e1_corrupted, &e2_1, &tau_1, &w1_left, &w1_right);
    assert_ne!(
        pc_claim_corrupted,
        f(0),
        "Corrupted power table should have pc_sumcheck_claim ≠ 0"
    );

    let rho = f(123);
    let (e0, e2, e3, e4, e5) = prove_helper_pc::<E>(
        &rho,
        &s_pc,
        (&w1_left, &w1_right),
        (&w2_left, &w2_right),
        (&e1_1, &e2_1),
        (&e1_2, &e2_2),
        &tau_1,
        &tau_2,
    );

    let t_claim = f(0);
    let eval_1 = t_claim.sub(e0);
    let evals = vec![e0, eval_1, e2, e3, e4, e5];
    let poly = UniPoly::<Fr>::from_evals(&evals);
    assert_eq!(
        poly.eval_at_zero().add(poly.eval_at_one()),
        t_claim,
        "Sumcheck identity must hold: poly(0) + poly(1) = T_claim"
    );
}

#[test]
fn test_powercheck_sumcheck_claim_is_rlc() {
    let left = 4usize;
    let right = 4usize;
    let s_pc = PowerCheckStructure::new(left, right);

    let tau_1 = f(7);
    let tau_2 = f(11);
    let (mut e1_1, e2_1) = create_valid_power_table(&tau_1, left, right);
    e1_1[2] = f(999);
    let (e1_2, e2_2) = create_valid_power_table(&tau_2, left, right);

    let w1_left: Vec<Fr> = (0..left).map(|i| f((i + 1) as u64)).collect();
    let w1_right: Vec<Fr> = (0..right).map(|i| f((i + 10) as u64)).collect();
    let w2_left: Vec<Fr> = (0..left).map(|i| f((i + 100) as u64)).collect();
    let w2_right: Vec<Fr> = (0..right).map(|i| f((i + 200) as u64)).collect();

    let pc_claim_1 = compute_pc_weighted_sum_bruteforce(&e1_1, &e2_1, &tau_1, &w1_left, &w1_right);
    let pc_claim_2 = compute_pc_weighted_sum_bruteforce(&e1_2, &e2_2, &tau_2, &w2_left, &w2_right);
    assert_ne!(
        pc_claim_1,
        f(0),
        "Running instance should have non-zero pc_sumcheck_claim"
    );
    assert_eq!(
        pc_claim_2,
        f(0),
        "Fresh valid instance should have pc_sumcheck_claim = 0"
    );

    let rho = f(42);
    let t_claim_expected = f(1).sub(rho).mul(pc_claim_1).add(rho.mul(pc_claim_2));
    let (e0, e2, e3, e4, e5) = prove_helper_pc::<E>(
        &rho,
        &s_pc,
        (&w1_left, &w1_right),
        (&w2_left, &w2_right),
        (&e1_1, &e2_1),
        (&e1_2, &e2_2),
        &tau_1,
        &tau_2,
    );

    let eval_1 = t_claim_expected.sub(e0);
    let evals = vec![e0, eval_1, e2, e3, e4, e5];
    let poly = UniPoly::<Fr>::from_evals(&evals);
    assert_eq!(
        poly.eval_at_zero().add(poly.eval_at_one()),
        t_claim_expected,
        "Sumcheck claim must equal RLC of individual claims: (1-ρ)·T_1 + ρ·T_2"
    );
}

struct Tables<'a> {
    w1: (&'a [Fr], &'a [Fr]),
    w2: (&'a [Fr], &'a [Fr]),
    t1: (&'a [Fr], &'a [Fr]),
    t2: (&'a [Fr], &'a [Fr]),
    tau_1: Fr,
    tau_2: Fr,
}

fn interp(a: &[Fr], b: &[Fr], t: Fr) -> Vec<Fr> {
    a.iter().zip(b).map(|(x, y)| x.add(t.mul(y.sub(*x)))).collect()
}

fn compute_pc_at_point_raw(t: Fr, d: &Tables, left: usize, right: usize, num_cons: usize) -> Fr {
    let w_left = interp(d.w1.0, d.w2.0, t);
    let w_right = interp(d.w1.1, d.w2.1, t);
    let e_first = interp(d.t1.0, d.t2.0, t);
    let e_second = interp(d.t1.1, d.t2.1, t);
    let tau = interp(&[d.tau_1], &[d.tau_2], t)[0];
    let mut sum = f(0);
    for row in 0..right {
        for col in 0..left {
            let i = row * left + col;
            if i >= num_cons {
                continue;
            }
            let (g1, g2, g3) = pc_g_at(i, left, &e_first, &e_second, tau);
            let residual = g1.sub(g2.mul(g3));
            sum = sum.add(w_left[col].mul(w_right[row]).mul(residual));
        }
    }
    sum
}

#[test]
fn test_prove_helper_pc_evaluations_at_all_points() {
    let left = 4usize;
    let right = 4usize;
    let s_pc = PowerCheckStructure::new(left, right);

    let tau_1 = f(7);
    let tau_2 = f(13);
    let (mut e1_1, e2_1) = create_valid_power_table(&tau_1, left, right);
    e1_1[2] = f(999);
    let (e1_2, e2_2) = create_valid_power_table(&tau_2, left, right);

    let w1_left: Vec<Fr> = (0..left).map(|i| f((i * 3 + 1) as u64)).collect();
    let w1_right: Vec<Fr> = (0..right).map(|i| f((i * 5 + 2) as u64)).collect();
    let w2_left: Vec<Fr> = (0..left).map(|i| f((i * 7 + 3) as u64)).collect();
    let w2_right: Vec<Fr> = (0..right).map(|i| f((i * 11 + 4) as u64)).collect();

    let rho = f(42);
    let (e0, e2, e3, e4, e5) = prove_helper_pc::<E>(
        &rho,
        &s_pc,
        (&w1_left, &w1_right),
        (&w2_left, &w2_right),
        (&e1_1, &e2_1),
        (&e1_2, &e2_2),
        &tau_1,
        &tau_2,
    );

    let scale_0 = f(1).sub(rho);
    let scale_2 = f(3).mul(rho).sub(f(1));
    let scale_3 = f(5).mul(rho).sub(f(2));
    let scale_4 = f(7).mul(rho).sub(f(3));
    let scale_5 = f(9).mul(rho).sub(f(4));

    let d = Tables {
        w1: (&w1_left, &w1_right),
        w2: (&w2_left, &w2_right),
        t1: (&e1_1, &e2_1),
        t2: (&e1_2, &e2_2),
        tau_1,
        tau_2,
    };
    let raw = |t: u64| compute_pc_at_point_raw(f(t), &d, left, right, s_pc.num_cons);

    assert_eq!(e0, scale_0.mul(raw(0)), "Evaluation at t=0 should match brute-force");
    assert_eq!(e2, scale_2.mul(raw(2)), "Evaluation at t=2 should match brute-force");
    assert_eq!(e3, scale_3.mul(raw(3)), "Evaluation at t=3 should match brute-force");
    assert_eq!(e4, scale_4.mul(raw(4)), "Evaluation at t=4 should match brute-force");
    assert_eq!(e5, scale_5.mul(raw(5)), "Evaluation at t=5 should match brute-force");
}

#[test]
fn test_powercheck_constraint_regions() {
    let left = 8usize;
    let right = 4usize;
    let tau = f(5);
    let (e1, e2) = create_valid_power_table(&tau, left, right);
    let num_cons = left + right;
    for i in 0..num_cons {
        let (g1, g2, g3) = pc_g_at(i, left, &e1, &e2, tau);
        let residual = g1.sub(g2.mul(g3));
        assert_eq!(
            residual,
            f(0),
            "Constraint {} should be satisfied (residual = 0)",
            i
        );
    }
}

#[test]
fn test_pc_residuals_zero_for_fresh_table() {
    let mut rng = StdRng::seed_from_u64(0xC0FFEE);
    let test_cases = [(32, 32), (64, 32)];
    for (left, right) in test_cases {
        let (table, tau) = fresh_power_table(&mut rng, left, right);
        let e1 = table.e1();
        let e2 = table.e2();
        for i in 0..(left + right) {
            let residual = pc_residual_at(i, left, e1, e2, tau);
            assert_eq!(
                residual,
                f(0),
                "Residual nonzero at i={} for left={}, right={}",
                i,
                left,
                right
            );
        }
    }
}

#[test]
fn test_pc_detects_corruption() {
    let mut rng = StdRng::seed_from_u64(123);
    let left = 64;
    let right = 32;
    let (valid, tau) = fresh_power_table(&mut rng, left, right);
    let mut vec = valid.as_slice().to_vec();
    vec[10] = vec[10].add(f(1));
    let table = WeightTable::<E>::new(vec, f(0), left);
    let e1 = table.e1();
    let e2 = table.e2();
    let any_nonzero = (0..(left + right)).any(|i| pc_residual_at(i, left, e1, e2, tau) != f(0));
    assert!(any_nonzero, "Corruption was not detected (unexpected)");
}

#[test]
fn test_pc_residuals_boundary_cases() {
    let mut rng = StdRng::seed_from_u64(456);
    let left = 64;
    let right = 32;
    let (table, tau) = fresh_power_table(&mut rng, left, right);
    let e1 = table.e1();
    let e2 = table.e2();
    let boundary_indices = [
        0,
        1,
        left - 1,
        left,
        left + 1,
        left + 2,
        left + 3,
        left + right - 1,
    ];
    for &i in &boundary_indices {
        let residual = pc_residual_at(i, left, e1, e2, tau);
        assert_eq!(residual, f(0), "Residual nonzero at boundary index i={}", i);
    }
}

#[test]
fn test_nsc_pc_weighted_sum_zero_for_valid_table() {
    let mut rng = StdRng::seed_from_u64(789);
    let left = 64;
    let right = 32;
    let s_pc = PowerCheckStructure::new(left, right);
    let (table, tau) = fresh_power_table(&mut rng, left, right);
    let weights = random_weights(&mut rng, s_pc.left_pc, s_pc.right_pc);
    let t_pc = compute_t_pc_naive(&s_pc, &weights, &table, tau);
    assert_eq!(t_pc, f(0), "Weighted sum should be zero for valid table");
}

#[test]
fn test_nsc_pc_closed_under_folding_when_tpc_is_correct() {
    let mut rng = StdRng::seed_from_u64(999);
    let left = 64;
    let right = 32;
    let s_pc = PowerCheckStructure::new(left, right);

    let (table1, tau1) = fresh_power_table(&mut rng, left, right);
    let (table2, tau2) = fresh_power_table(&mut rng, left, right);
    let weights1 = random_weights(&mut rng, s_pc.left_pc, s_pc.right_pc);
    let weights2 = random_weights(&mut rng, s_pc.left_pc, s_pc.right_pc);
    let r_b = random_scalar(&mut rng);

    let table_f = table1.fold(&table2, &r_b);
    let weights_f = weights1.fold(&weights2, &r_b);
    let tau_f = f(1).sub(r_b).mul(tau1).add(r_b.mul(tau2));
    let tpc_f = compute_t_pc_naive(&s_pc, &weights_f, &table_f, tau_f);

    let tpc1 = compute_t_pc_naive(&s_pc, &weights1, &table1, tau1);
    let tpc2 = compute_t_pc_naive(&s_pc, &weights2, &table2, tau2);
    assert_eq!(tpc1, f(0), "Fresh table 1 should have T_pc = 0");
    assert_eq!(tpc2, f(0), "Fresh table 2 should have T_pc = 0");
    let _ = tpc_f;
}

#[test]
fn test_commitment_homomorphism() {
    let mut rng = StdRng::seed_from_u64(0xBEEF);
    let left = 64;
    let right = 32;
    let table_size = left + right;
    let ck = CommitmentKey::<E>::setup("ck", table_size);

    let (table1, _tau1) = fresh_power_table(&mut rng, left, right);
    let (table2, _tau2) = fresh_power_table(&mut rng, left, right);
    let r_b = random_scalar(&mut rng);
    let table_f = table1.fold(&table2, &r_b);

    let comm1 = table1.commit(&ck);
    let comm2 = table2.commit(&ck);
    let comm_f = table_f.commit(&ck);
    let expected = comm1.scale(f(1).sub(r_b)).add(comm2.scale(r_b));
    assert_eq!(
        comm_f, expected,
        "Commitment homomorphism violated: Commit(fold) ≠ (1-r_b)·Commit(1) + r_b·Commit(2)"
    );
    assert!(comm_f.equals(expected));
    assert!(!comm1.equals(comm2));
}

#[test]
fn structure_of_small_tables() {
    // 96 constraints are covered by 2^7, split into 2^4 and 2^3.
    let s = PowerCheckStructure::new(64, 32);
    assert_eq!((s.left, s.right, s.num_cons), (64, 32, 96));
    assert_eq!((s.left_pc, s.right_pc), (16, 8));
    // 8 constraints are 2^3, split into 2^2 and 2^1.
    let s = PowerCheckStructure::new(4, 4);
    assert_eq!((s.left_pc, s.right_pc), (4, 2));
}

#[test]
fn table_of_powers_has_the_powers() {
    let table = WeightTable::<E>::from_powers(&f(3), 4, 2, f(9));
    let expected: Vec<Fr> = [1, 3, 9, 27, 1, 81].iter().map(|x| f(*x)).collect();
    assert_eq!(table.as_slice(), &expected[..]);
    assert_eq!(table.e1(), &expected[..4]);
    assert_eq!(table.e2(), &expected[4..]);
    assert_eq!((table.left(), table.right(), table.len()), (4, 2, 6));
    assert_eq!(table.r(), f(9));
    assert!(!table.is_empty());
    // Every residual of the table vanishes, and the table determines its scalar.
    for i in 0..6 {
        assert_eq!(pc_residual_at(i, 4, table.e1(), table.e2(), f(3)), f(0));
    }
    assert_ne!(pc_residual_at(1, 4, table.e1(), table.e2(), f(4)), f(0));
}

#[test]
fn constraint_values_by_region() {
    let e1 = [f(2), f(3), f(5)];
    let e2 = [f(7), f(11), f(13), f(17)];
    let tau = f(19);
    let expected = [
        (2, 1, 1),
        (3, 2, 19),
        (5, 3, 19),
        (7, 1, 1),
        (11, 5, 19),
        (13, 11, 11),
        (17, 11, 13),
    ];
    for (i, (a, b, c)) in expected.iter().enumerate() {
        assert_eq!(pc_g_at(i, 3, &e1, &e2, tau), (f(*a), f(*b), f(*c)));
    }
    assert_eq!(pc_residual_at(2, 3, &e1, &e2, tau), f(0).sub(f(52)));
}

#[test]
fn default_power_check_is_zero() {
    let s = PowerCheckStructure::new(4, 4);
    let u = FoldedPowerCheckInstance::<E>::default(&s);
    assert_eq!(u.pc_sumcheck_claim, f(0));
    assert_eq!(u.tau, f(0));
    assert!(u.comm_witness.to_coordinates().2);
    let w = FoldedPowerCheckWitness::<E>::default(&s);
    assert_eq!(w.witness.as_slice()[0], f(1));
    assert_eq!(w.witness.as_slice()[4], f(1));
    assert_eq!(w.weights.len(), s.left_pc + s.right_pc);
}

#[test]
fn padding_does_not_count_in_a_round() {
    let (left, right) = (4usize, 4usize);
    let s_pc = PowerCheckStructure::new(left, right);
    // Tables that do not pass, so that the round function does not vanish.
    let table = |k: u64| -> Vec<Fr> { (0..4).map(|i| f(k * i + 3)).collect() };
    let (w_left, other_left) = (table(1), table(2));
    let other_right = table(5);
    let run = |w_right: &[Fr]| {
        prove_helper_pc::<E>(
            &f(123),
            &s_pc,
            (&w_left, w_right),
            (&other_left, &other_right),
            (&table(7), &table(8)),
            (&table(9), &table(10)),
            &f(7),
            &f(11),
        )
    };
    // The eight constraints fill the first two rows.
    let plain = run(&table(6));
    let mut changed = table(6);
    changed[2] = f(1000);
    changed[3] = f(2000);
    assert!(run(&changed) == plain);
    changed[1] = f(3000);
    assert!(run(&changed) != plain);
}
