use deep_fri::deep_ali::{deep_ali_merge_evals, is_in_domain, lagrange_eval_on_h, zh_at, DomainH};
use deep_fri::field::{fe_add, fe_from_bytes32, fe_mul, fe_sub, fe_to_bytes32, Fe};
use deep_fri::merkle::{DsLabel, MerkleChannelCfg, MerkleTree};
use deep_fri::poseidon::{
    dynamic_from_static_t17, generate_params_t17_x5, hash_with_ds_dynamic, static_from_dynamic_t17,
};
use rand::{Rng, SeedableRng};

fn fe_rand(rng: &mut rand::rngs::StdRng) -> Fe {
    Fe::from_u64(rng.gen::<u64>())
}

fn poly_eval(coeffs: &[Fe], x: &Fe) -> Fe {
    let mut acc = Fe::zero();
    for c in coeffs.iter().rev() {
        acc = fe_mul(&acc, x);
        acc = fe_add(&acc, c);
    }
    acc
}

fn eval_on_domain(coeffs: &[Fe], omega: &Fe, n: usize) -> Vec<Fe> {
    let mut out = Vec::with_capacity(n);
    let mut x = Fe::one();
    for _ in 0..n {
        out.push(poly_eval(coeffs, &x));
        x = fe_mul(&x, omega);
    }
    out
}

#[test]
fn test_deterministic_z_edge_cases_small_n() {
    for &n in &[8usize, 16usize] {
        let domain = DomainH::new_radix2(n);
        let omega = domain.omega;

        for &zv in &[2u64, 3u64] {
            let z = Fe::from_u64(zv);
            if is_in_domain(&z, n) {
                continue;
            }

            let mut rng = rand::rngs::StdRng::seed_from_u64(2025 + n as u64);
            let deg = (n - 2).max(1);
            let coeffs: Vec<Fe> = (0..=deg).map(|_| fe_rand(&mut rng)).collect();
            let evals = eval_on_domain(&coeffs, &omega, n);

            let fz1 = lagrange_eval_on_h(&evals, &z, &omega);
            let fz2 = domain.eval_lagrange(&evals, &z);
            assert_eq!(fz1, fz2);
        }
    }
}

#[test]
fn test_multiple_merges_reuse_two_z() {
    let n = 32usize;
    let domain = DomainH::new_radix2(n);
    let omega = domain.omega;

    let mut rng = rand::rngs::StdRng::seed_from_u64(9090);
    let a_coeffs: Vec<Fe> = (0..=12).map(|_| fe_rand(&mut rng)).collect();
    let s_coeffs: Vec<Fe> = (0..=14).map(|_| fe_rand(&mut rng)).collect();
    let e_coeffs: Vec<Fe> = (0..=8).map(|_| fe_rand(&mut rng)).collect();

    let a_eval = eval_on_domain(&a_coeffs, &omega, n);
    let s_eval = eval_on_domain(&s_coeffs, &omega, n);
    let e_eval = eval_on_domain(&e_coeffs, &omega, n);
    let mut t_eval = Vec::with_capacity(n);
    for i in 0..n {
        t_eval.push(fe_add(&fe_mul(&a_eval[i], &s_eval[i]), &e_eval[i]));
    }

    let z1 = Fe::from_u64(2);
    let z2 = Fe::from_u64(3);
    assert!(!is_in_domain(&z1, n));
    assert!(!is_in_domain(&z2, n));

    let (f0_1, _, c1) = deep_ali_merge_evals(&a_eval, &s_eval, &e_eval, &t_eval, &omega, &z1);
    let (f0_2, _, c2) = deep_ali_merge_evals(&a_eval, &s_eval, &e_eval, &t_eval, &omega, &z2);

    let (g0_1, _, d1) = domain.merge_deep_ali(&a_eval, &s_eval, &e_eval, &t_eval, &z1);
    let (g0_2, _, d2) = domain.merge_deep_ali(&a_eval, &s_eval, &e_eval, &t_eval, &z2);

    assert_eq!(f0_1, g0_1);
    assert_eq!(f0_2, g0_2);
    assert_eq!(c1, d1);
    assert_eq!(c2, d2);
}

#[test]
fn test_deep_ali_merge_blinding_does_not_break_degree() {
    let n = 32usize;
    let domain = DomainH::new_radix2(n);
    let omega = domain.omega;

    let mut rng = rand::rngs::StdRng::seed_from_u64(5555);
    let a_coeffs: Vec<Fe> = (0..=10).map(|_| fe_rand(&mut rng)).collect();
    let s_coeffs: Vec<Fe> = (0..=9).map(|_| fe_rand(&mut rng)).collect();
    let e_coeffs: Vec<Fe> = (0..=7).map(|_| fe_rand(&mut rng)).collect();
    let r_coeffs: Vec<Fe> = (0..=6).map(|_| fe_rand(&mut rng)).collect();

    let a_eval = eval_on_domain(&a_coeffs, &omega, n);
    let s_eval = eval_on_domain(&s_coeffs, &omega, n);
    let e_eval = eval_on_domain(&e_coeffs, &omega, n);
    let r_eval = eval_on_domain(&r_coeffs, &omega, n);
    let t_zero = vec![Fe::zero(); n];

    let mut rngz = rand::rngs::StdRng::seed_from_u64(123456);
    let z = loop {
        let cand = fe_rand(&mut rngz);
        if !is_in_domain(&cand, n) {
            break cand;
        }
    };

    let (f0_u, _, _c_u) = domain.merge_deep_ali(&a_eval, &s_eval, &e_eval, &t_zero, &z);

    let beta = Fe::from_u64(7);
    let (f0_b, _, c_b) = domain.merge_deep_ali_blinded(
        &a_eval,
        &s_eval,
        &e_eval,
        &t_zero,
        Some(&r_eval),
        &beta,
        &z,
    );

    assert_ne!(f0_u, f0_b);

    // identity on H for the blinded column
    for j in 0..n {
        let x = domain.omega_pows[j];
        let lhs = fe_add(&fe_mul(&f0_b[j], &fe_sub(&x, &z)), &fe_mul(&c_b, &zh_at(&x, n)));
        let rhs = fe_add(
            &fe_add(&fe_mul(&a_eval[j], &s_eval[j]), &e_eval[j]),
            &fe_mul(&beta, &r_eval[j]),
        );
        assert_eq!(lhs, rhs);
    }
}

#[test]
fn merkle_ds_hygiene_negatives_arity16() {
    let leaves: Vec<Fe> = (1..=32).map(|x| Fe::from_u64(x as u64)).collect();
    let cfg = MerkleChannelCfg::new(16).with_tree_label(1234);
    let arity = cfg.arity;
    let tree_label = cfg.tree_label;
    let params = deep_fri::poseidon::poseidon_params_for_width(17);
    let tree = MerkleTree::new(leaves.clone(), cfg);

    assert!(tree.check_level_consistency(0));

    let parent_idx = 1usize;
    let base = parent_idx * arity;
    let end = (base + arity).min(tree.levels[0].len());
    let children: Vec<Fe> = tree.levels[0][base..end].to_vec();

    let ds = DsLabel { arity, level: 0, position: parent_idx as u64, tree_label };
    let parent_digest = hash_with_ds_dynamic(&ds.to_fields(), &children, &params);
    assert_eq!(parent_digest, tree.levels[1][parent_idx]);

    let d2 = hash_with_ds_dynamic(&DsLabel { level: 1, ..ds }.to_fields(), &children, &params);
    assert_ne!(parent_digest, d2);

    let d3 = hash_with_ds_dynamic(
        &DsLabel { position: parent_idx as u64 + 1, ..ds }.to_fields(),
        &children,
        &params,
    );
    assert_ne!(parent_digest, d3);

    let d4 = hash_with_ds_dynamic(
        &DsLabel { tree_label: tree_label + 1, ..ds }.to_fields(),
        &children,
        &params,
    );
    assert_ne!(parent_digest, d4);

    let mut shuffled = children.clone();
    if shuffled.len() >= 2 {
        shuffled.swap(0, 1);
    }
    let d5 = hash_with_ds_dynamic(&ds.to_fields(), &shuffled, &params);
    assert_ne!(parent_digest, d5);
}

#[test]
fn static_dynamic_roundtrip_t17() {
    let p_static = generate_params_t17_x5(b"POSEIDON-T17-X5-SEED");
    let d = dynamic_from_static_t17(&p_static);
    assert_eq!(d.t, 17);
    assert_eq!(d.rate, 16);
    assert_eq!(d.rounds_full, 8);
    assert_eq!(d.rounds_partial, 64);
    assert_eq!(d.alpha, 5);

    let p_back = static_from_dynamic_t17(&d);
    assert_eq!(p_back.mds[0][0], p_static.mds[0][0]);
    assert_eq!(p_back.rc_full[0][0], p_static.rc_full[0][0]);
    assert_eq!(p_back.rc_partial[0], p_static.rc_partial[0]);
}

#[test]
fn test_serialize_roundtrip() {
    let x = Fe::from_u64(42);
    let bytes = fe_to_bytes32(&x);
    let y = fe_from_bytes32(&bytes).expect("canonical bytes decode");
    assert_eq!(x, y);
}
