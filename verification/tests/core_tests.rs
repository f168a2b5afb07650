use deep_fri::deep_ali::{
    deep_ali_merge_evals, is_in_domain, lagrange_eval_on_h, sample_z_beta_from_seed, zh_at, DomainH,
};
use deep_fri::field::{fe_add, fe_invert, fe_mul, fe_root_of_unity, fe_sub, Fe};
use deep_fri::fri::{
    deep_fri_prove, deep_fri_verify, fri_fold_layer, fri_sample_z_ell, layer_sizes_from_schedule,
    pick_arity_for_layer, DeepAliMock, DeepFriParams, FriDomain,
};
use deep_fri::merkle::{
    verify_many, verify_many_ds, verify_pairs_ds, verify_pairs_legacy, MerkleChannelCfg,
    MerkleProver, MerkleTree,
};
use deep_fri::mle::MLE;
use deep_fri::merkle::DsLabel;
use deep_fri::poseidon::{generate_params_t17_x5, hash_with_ds_dynamic, poseidon_params_for_width};
use deep_fri::transcript::{default_params, Transcript};
use deep_fri::utils::{ds_tag_for_arity, fr_from_hash, salt_for_node, ByteSize};
use rand::{Rng, SeedableRng};

fn fe_rand(rng: &mut rand::rngs::StdRng) -> Fe {
    Fe::from_u64(rng.gen::<u64>())
}

fn poly_eval(coeffs: &[Fe], x: &Fe) -> Fe {
    let mut acc = Fe::zero();
    for c in coeffs.iter().rev() {
        acc = fe_mul(&acc, x);
        acc = fe_add(&acc, c);
    }
    acc
}

fn eval_on_domain(coeffs: &[Fe], omega: &Fe, n: usize) -> Vec<Fe> {
    let mut out = Vec::with_capacity(n);
    let mut x = Fe::one();
    for _ in 0..n {
        out.push(poly_eval(coeffs, &x));
        x = fe_mul(&x, omega);
    }
    out
}

#[test]
fn bytesize_display() {
    let b = ByteSize(1536);
    assert_eq!(b.display_string(), "1.50 KiB");
}

#[test]
fn eval_at_boolean_points_matches_table() {
    let n = 3;
    let size = 1usize << n;
    let mut vals = Vec::new();
    for idx in 0..size {
        let mut s = Fe::zero();
        for i in 0..n {
            if (idx >> i) & 1 == 1 {
                s = fe_add(&s, &Fe::one());
            }
        }
        vals.push(s);
    }
    let mle = MLE::from_values(vals.clone());
    for idx in 0..size {
        let mut r = vec![Fe::zero(); n];
        for i in 0..n {
            if (idx >> i) & 1 == 1 {
                r[i] = Fe::one();
            }
        }
        let y = mle.eval(&r);
        assert_eq!(y, mle.values()[idx]);
    }
}

#[test]
fn fr_hash_deterministic() {
    let a = fr_from_hash(b"TAG", b"data");
    let b = fr_from_hash(b"TAG", b"data");
    assert_eq!(a, b);
    let c = fr_from_hash(b"TAG", b"data2");
    assert_ne!(a, c);
}

#[test]
fn salt_changes_with_inputs() {
    let seed = [7u8; 32];
    let s1 = salt_for_node(0, 0, &seed);
    let s2 = salt_for_node(0, 1, &seed);
    let s3 = salt_for_node(1, 0, &seed);
    assert_ne!(s1, s2);
    assert_ne!(s1, s3);
    assert_ne!(s2, s3);
}

#[test]
fn ds_tag_depends_on_arity() {
    let t16 = ds_tag_for_arity(16);
    let t32 = ds_tag_for_arity(32);
    assert_ne!(t16, t32);
    let t16b = ds_tag_for_arity(16);
    assert_eq!(t16, t16b);
}

#[test]
fn deterministic() {
    let params = default_params();
    let mut t1 = Transcript::new(b"ctx-A", params);
    t1.absorb_bytes(b"hello");
    let c1 = t1.challenges(b"alpha", 3);

    let params2 = default_params();
    let mut t2 = Transcript::new(b"ctx-A", params2);
    t2.absorb_bytes(b"hello");
    let c2 = t2.challenges(b"alpha", 3);

    assert_eq!(c1, c2);
}

#[test]
fn sensitive_to_input() {
    let params = default_params();
    let mut t1 = Transcript::new(b"ctx-A", params);
    t1.absorb_bytes(b"hello");
    let c1 = t1.challenge(b"alpha");

    let params2 = default_params();
    let mut t2 = Transcript::new(b"ctx-A", params2);
    t2.absorb_bytes(b"hellp");
    let c2 = t2.challenge(b"alpha");

    assert_ne!(c1, c2);
}

#[test]
fn merkle_roundtrip_arity16_ds_hygiene() {
    let n = 64usize;
    let leaves: Vec<Fe> = (0..n).map(|i| Fe::from_u64(i as u64 + 1)).collect();

    let cfg = MerkleChannelCfg::new(16).with_tree_label(42);
    let tree_label = cfg.tree_label;
    let tree = MerkleTree::new(leaves.clone(), cfg);

    assert!(tree.check_level_consistency(0));
    if tree.height() >= 2 {
        assert!(tree.check_level_consistency(1));
    }

    let root = tree.root();
    let idx = vec![0usize, 15, 16, 31, 47, 63];
    let vals: Vec<Fe> = idx.iter().map(|&i| leaves[i]).collect();
    let proof = tree.open_many_single(&idx);

    let dyn_params = poseidon_params_for_width(16 + 1);
    assert!(verify_many_ds(&root, &idx, &vals, &proof, tree_label, &dyn_params));

    // flip one opened value: rejection
    let mut bad_vals = vals.clone();
    bad_vals[1] = fe_add(&bad_vals[1], &Fe::one());
    assert!(!verify_many_ds(&root, &idx, &bad_vals, &proof, tree_label, &dyn_params));

    // replace one sibling in the proof with an unrelated field: rejection
    let mut bad_proof = proof.clone();
    bad_proof.siblings[0][0] = Fe::from_u64(123456789);
    assert!(!verify_many_ds(&root, &idx, &vals, &bad_proof, tree_label, &dyn_params));
}

#[test]
fn merkle_proof_roundtrip_arbitrary_size_legacy() {
    let mut rng = rand::rngs::StdRng::seed_from_u64(123);
    let n = 55usize;
    let leaves: Vec<Fe> = (0..n).map(|_| fe_rand(&mut rng)).collect();
    let params = generate_params_t17_x5(b"POSEIDON-T17-X5-SEED");
    let ds = Fe::from_u64(77);
    let tree = MerkleTree::new_legacy(leaves.clone(), ds, params);

    assert!(tree.check_level_consistency(0));

    let root = tree.root();
    let idx = vec![0usize, 3, 7, 11, 54];
    let vals: Vec<Fe> = idx.iter().map(|&i| leaves[i]).collect();
    let proof = tree.open_many(&idx);
    let params2 = generate_params_t17_x5(b"POSEIDON-T17-X5-SEED");
    assert!(verify_many(&root, &idx, &vals, &proof, ds, &params2));
}

#[test]
fn test_poseidon_params_roundtrip_t17() {
    let params = poseidon_params_for_width(17);
    let children: Vec<Fe> = (0..16).map(|i| Fe::from_u64(i as u64 + 1)).collect();
    let ds = DsLabel { arity: 16, level: 0, position: 3, tree_label: 42 };
    let d1 = hash_with_ds_dynamic(&ds.to_fields(), &children, &params);
    let d2 = hash_with_ds_dynamic(&ds.to_fields(), &children, &params);
    assert_eq!(d1, d2);

    let ds_level = DsLabel { level: 1, ..ds };
    assert_ne!(d1, hash_with_ds_dynamic(&ds_level.to_fields(), &children, &params));
    let ds_pos = DsLabel { position: 4, ..ds };
    assert_ne!(d1, hash_with_ds_dynamic(&ds_pos.to_fields(), &children, &params));
    let ds_tree = DsLabel { tree_label: 43, ..ds };
    assert_ne!(d1, hash_with_ds_dynamic(&ds_tree.to_fields(), &children, &params));
    let ds_arity8 = DsLabel { arity: 8, ..ds };
    assert_ne!(d1, hash_with_ds_dynamic(&ds_arity8.to_fields(), &children, &params));

    let fewer: Vec<Fe> = (0..5).map(|i| Fe::from_u64(i as u64 + 1)).collect();
    let df1 = hash_with_ds_dynamic(&ds.to_fields(), &fewer, &params);
    let df2 = hash_with_ds_dynamic(&ds.to_fields(), &fewer, &params);
    assert_eq!(df1, df2);
    let mut with_zero = fewer.clone();
    with_zero.push(Fe::zero());
    assert_ne!(df1, hash_with_ds_dynamic(&ds.to_fields(), &with_zero, &params));
}

#[test]
fn test_poseidon_params_roundtrip_t9() {
    let params = poseidon_params_for_width(9);
    let children: Vec<Fe> = (0..8).map(|i| Fe::from_u64(i as u64 + 11)).collect();
    let ds = DsLabel { arity: 8, level: 2, position: 5, tree_label: 7 };
    let d1 = hash_with_ds_dynamic(&ds.to_fields(), &children, &params);
    let d2 = hash_with_ds_dynamic(&ds.to_fields(), &children, &params);
    assert_eq!(d1, d2);
    assert_ne!(d1, hash_with_ds_dynamic(&DsLabel { level: 3, ..ds }.to_fields(), &children, &params));
    assert_ne!(d1, hash_with_ds_dynamic(&DsLabel { position: 6, ..ds }.to_fields(), &children, &params));
    assert_ne!(d1, hash_with_ds_dynamic(&DsLabel { tree_label: 8, ..ds }.to_fields(), &children, &params));
    assert_ne!(d1, hash_with_ds_dynamic(&DsLabel { arity: 16, ..ds }.to_fields(), &children, &params));

    let fewer: Vec<Fe> = (0..3).map(|i| Fe::from_u64(i as u64 + 21)).collect();
    let df = hash_with_ds_dynamic(&ds.to_fields(), &fewer, &params);
    let mut with_zero = fewer.clone();
    with_zero.push(Fe::zero());
    assert_ne!(df, hash_with_ds_dynamic(&ds.to_fields(), &with_zero, &params));
}

#[test]
fn test_combined_leaf_commit_open_ds_arity8() {
    // pair-leaf tree of arity 8, n = 32, tree label 8888, drawn from seed 3030
    let mut rng = rand::rngs::StdRng::seed_from_u64(3030);
    let n = 32usize;
    let f_vals: Vec<Fe> = (0..n).map(|_| fe_rand(&mut rng)).collect();
    let cp_vals: Vec<Fe> = (0..n).map(|_| fe_rand(&mut rng)).collect();

    let cfg = MerkleChannelCfg::new(8).with_tree_label(8888);
    let tree_label = cfg.tree_label;
    let tree = MerkleTree::new_pairs(&f_vals, &cp_vals, cfg);
    let root = tree.root();

    let idx = vec![0usize, 3, 7, 8, 15, 23, 31];
    let pairs: Vec<(Fe, Fe)> = idx.iter().map(|&i| (f_vals[i], cp_vals[i])).collect();
    let proof = tree.open_many(&idx);

    let dyn_params = poseidon_params_for_width(8 + 1);
    assert!(verify_pairs_ds(&root, &idx, &pairs, &proof, tree_label, &dyn_params));

    let mut tampered = pairs.clone();
    tampered[2].0 = fe_add(&tampered[2].0, &Fe::one());
    assert!(!verify_pairs_ds(&root, &idx, &tampered, &proof, tree_label, &dyn_params));

    // reorder two opened pairs across positions: rejection
    let mut swapped = pairs.clone();
    swapped.swap(0, 1);
    assert!(!verify_pairs_ds(&root, &idx, &swapped, &proof, tree_label, &dyn_params));

    // facades agree
    let cfg2 = MerkleChannelCfg::new(8).with_tree_label(8888);
    let prover = MerkleProver::new(cfg2);
    let (root2, tree2) = prover.commit_pairs(&f_vals, &cp_vals);
    assert_eq!(root, root2);
    let (pairs2, proof2) = prover.open_pairs(&tree2, &f_vals, &cp_vals, &idx);
    assert_eq!(pairs, pairs2);
    assert!(prover.verify_pairs(&root2, &idx, &pairs2, &proof2));

    let (root3, tree3) = prover.commit_single(&f_vals);
    assert_eq!(root3, tree3.root());
    let proof3 = prover.open_single(&tree3, &idx);
    let single_vals: Vec<Fe> = idx.iter().map(|&i| f_vals[i]).collect();
    assert!(prover.verify_single(&root3, &idx, &single_vals, &proof3));
}

#[test]
fn test_combined_leaf_commit_open_ds_arity16() {
    let mut rng = rand::rngs::StdRng::seed_from_u64(2025);
    let n = 64usize;
    let f_vals: Vec<Fe> = (0..n).map(|_| fe_rand(&mut rng)).collect();
    let cp_vals: Vec<Fe> = (0..n).map(|_| fe_rand(&mut rng)).collect();

    let cfg = MerkleChannelCfg::new(16).with_tree_label(777);
    let tree_label = cfg.tree_label;
    let tree = MerkleTree::new_pairs(&f_vals, &cp_vals, cfg);
    let root = tree.root();

    let idx = vec![0usize, 7, 16, 31, 63];
    let pairs: Vec<(Fe, Fe)> = idx.iter().map(|&i| (f_vals[i], cp_vals[i])).collect();
    let proof = tree.open_many(&idx);

    let dyn_params = poseidon_params_for_width(16 + 1);
    assert!(verify_pairs_ds(&root, &idx, &pairs, &proof, tree_label, &dyn_params));

    let mut tampered = pairs.clone();
    tampered[0].1 = fe_add(&tampered[0].1, &Fe::one());
    assert!(!verify_pairs_ds(&root, &idx, &tampered, &proof, tree_label, &dyn_params));
}

#[test]
fn test_combined_leaf_commit_open_legacy() {
    let mut rng = rand::rngs::StdRng::seed_from_u64(2024);
    let n = 37usize;
    let f_vals: Vec<Fe> = (0..n).map(|_| fe_rand(&mut rng)).collect();
    let cp_vals: Vec<Fe> = (0..n).map(|_| fe_rand(&mut rng)).collect();

    let params = generate_params_t17_x5(b"POSEIDON-T17-X5-SEED");
    let ds_tag = Fe::from_u64(99);
    let tree = MerkleTree::new_pairs_legacy(&f_vals, &cp_vals, ds_tag, params);
    let root = tree.root();

    let idx = vec![0usize, 1, 5, 19, 36];
    let pairs: Vec<(Fe, Fe)> = idx.iter().map(|&i| (f_vals[i], cp_vals[i])).collect();
    let proof = tree.open_many(&idx);
    let params2 = generate_params_t17_x5(b"POSEIDON-T17-X5-SEED");
    assert!(verify_pairs_legacy(&root, &idx, &pairs, &proof, ds_tag, &params2));
}

#[test]
fn test_lagrange_eval_matches_polyeval_off_domain() {
    let n = 32usize;
    let omega = fe_root_of_unity(n as u64).unwrap();
    let mut rng = rand::rngs::StdRng::seed_from_u64(7);
    let deg = 20usize;
    let coeffs: Vec<Fe> = (0..=deg).map(|_| fe_rand(&mut rng)).collect();
    let evals = eval_on_domain(&coeffs, &omega, n);

    let mut rngz = rand::rngs::StdRng::seed_from_u64(99);
    let z = loop {
        let z = fe_rand(&mut rngz);
        if !is_in_domain(&z, n) {
            break z;
        }
    };

    let fz_eval = lagrange_eval_on_h(&evals, &z, &omega);
    let fz_poly = poly_eval(&coeffs, &z);
    assert_eq!(fz_eval, fz_poly);
}

#[test]
fn test_deep_ali_merge_completeness() {
    // n = 64, A, S, E of degree <= 20 from seed 2024, T = A*S + E, z = field(5)
    let n = 64usize;
    let omega = fe_root_of_unity(n as u64).unwrap();

    let mut rng = rand::rngs::StdRng::seed_from_u64(2024);
    let a_coeffs: Vec<Fe> = (0..=15).map(|_| fe_rand(&mut rng)).collect();
    let s_coeffs: Vec<Fe> = (0..=17).map(|_| fe_rand(&mut rng)).collect();
    let e_coeffs: Vec<Fe> = (0..=7).map(|_| fe_rand(&mut rng)).collect();

    let a_eval = eval_on_domain(&a_coeffs, &omega, n);
    let s_eval = eval_on_domain(&s_coeffs, &omega, n);
    let e_eval = eval_on_domain(&e_coeffs, &omega, n);
    let mut t_eval = Vec::with_capacity(n);
    for i in 0..n {
        t_eval.push(fe_add(&fe_mul(&a_eval[i], &s_eval[i]), &e_eval[i]));
    }

    let z = Fe::from_u64(5);
    assert!(!is_in_domain(&z, n));

    let (f0_eval, z_out, c_star) = deep_ali_merge_evals(&a_eval, &s_eval, &e_eval, &t_eval, &omega, &z);
    assert_eq!(z_out, z);

    for &j in &[0usize, 1, 7, 13, 31, 47, 63] {
        let x = omega.pow_u64(j as u64);
        let phi_x = fe_sub(&fe_add(&fe_mul(&a_eval[j], &s_eval[j]), &e_eval[j]), &t_eval[j]);
        let zh_x = zh_at(&x, n);
        let left = fe_add(&fe_mul(&f0_eval[j], &fe_sub(&x, &z)), &fe_mul(&c_star, &zh_x));
        assert_eq!(left, phi_x);
    }
}

#[test]
fn test_domainh_eval_and_merge_equivalence() {
    let n = 16usize;
    let domain = DomainH::new_radix2(n);
    let omega = domain.omega;

    let mut rng = rand::rngs::StdRng::seed_from_u64(4242);
    let coeffs: Vec<Fe> = (0..=10).map(|_| fe_rand(&mut rng)).collect();
    let evals = eval_on_domain(&coeffs, &omega, n);

    let z = Fe::from_u64(2);
    assert!(!is_in_domain(&z, n));

    let fz1 = lagrange_eval_on_h(&evals, &z, &omega);
    let fz2 = domain.eval_lagrange(&evals, &z);
    assert_eq!(fz1, fz2);

    let a_coeffs: Vec<Fe> = (0..=7).map(|_| fe_rand(&mut rng)).collect();
    let s_coeffs: Vec<Fe> = (0..=9).map(|_| fe_rand(&mut rng)).collect();
    let e_coeffs: Vec<Fe> = (0..=5).map(|_| fe_rand(&mut rng)).collect();
    let a_eval = eval_on_domain(&a_coeffs, &omega, n);
    let s_eval = eval_on_domain(&s_coeffs, &omega, n);
    let e_eval = eval_on_domain(&e_coeffs, &omega, n);
    let mut t_eval = Vec::with_capacity(n);
    for i in 0..n {
        t_eval.push(fe_add(&fe_mul(&a_eval[i], &s_eval[i]), &e_eval[i]));
    }

    let (f0a, z1, c1) = deep_ali_merge_evals(&a_eval, &s_eval, &e_eval, &t_eval, &omega, &z);
    let (f0b, z2, c2) = domain.merge_deep_ali(&a_eval, &s_eval, &e_eval, &t_eval, &z);
    assert_eq!(z1, z2);
    assert_eq!(c1, c2);
    assert_eq!(f0a, f0b);
}

#[test]
fn test_degree_boundary_deg_n_minus_1() {
    let n = 32usize;
    let domain = DomainH::new_radix2(n);
    let omega = domain.omega;
    let mut rng = rand::rngs::StdRng::seed_from_u64(4444);
    let coeffs: Vec<Fe> = (0..n).map(|_| fe_rand(&mut rng)).collect();
    let evals = eval_on_domain(&coeffs, &omega, n);
    let z = Fe::from_u64(5);
    assert!(!is_in_domain(&z, n));
    let fz1 = lagrange_eval_on_h(&evals, &z, &omega);
    let fz2 = domain.eval_lagrange(&evals, &z);
    assert_eq!(fz1, fz2);
}

#[test]
fn test_simulatable_view_seed_stability() {
    let n = 32usize;
    let (z1, b1) = sample_z_beta_from_seed(42, n);
    let (z2, b2) = sample_z_beta_from_seed(42, n);
    let (z3, _b3) = sample_z_beta_from_seed(43, n);
    assert_eq!(z1, z2);
    assert_eq!(b1, b2);
    assert_ne!(z1, z3);
}

#[test]
fn fri_fold_layer_formula() {
    // fold [1,2,3,4] by 2 with z = 10: buckets 1+2*10 = 21 and 3+4*10 = 43
    let f: Vec<Fe> = [1u64, 2, 3, 4].iter().map(|&x| Fe::from_u64(x)).collect();
    let z = Fe::from_u64(10);
    let out = fri_fold_layer(&f, &z, 2);
    assert_eq!(out.len(), 2);
    assert_eq!(out[0], Fe::from_u64(21));
    assert_eq!(out[1], Fe::from_u64(43));
}

#[test]
fn fri_layer_sizes_and_arities() {
    let sizes = layer_sizes_from_schedule(128, &[8, 8, 2]);
    assert_eq!(sizes, vec![128, 16, 2, 1]);
    assert_eq!(pick_arity_for_layer(128, 8), 8);
    assert_eq!(pick_arity_for_layer(16, 8), 8);
    assert_eq!(pick_arity_for_layer(2, 2), 2);
    assert_eq!(pick_arity_for_layer(1, 1), 1);
}

#[test]
fn fri_sample_z_rejects_roots() {
    let z = fri_sample_z_ell(7, 0, 128);
    assert!(!is_in_domain(&z, 128));
    let z2 = fri_sample_z_ell(7, 0, 128);
    assert_eq!(z, z2);
    let z3 = fri_sample_z_ell(8, 0, 128);
    assert_ne!(z, z3);
}

fn sample_inputs(n0: usize, seed: u64) -> (Vec<Fe>, Vec<Fe>, Vec<Fe>, Vec<Fe>) {
    let mut rng = rand::rngs::StdRng::seed_from_u64(seed);
    let a: Vec<Fe> = (0..n0).map(|_| fe_rand(&mut rng)).collect();
    let s: Vec<Fe> = (0..n0).map(|_| fe_rand(&mut rng)).collect();
    let e: Vec<Fe> = (0..n0).map(|_| fe_rand(&mut rng)).collect();
    let t: Vec<Fe> = (0..n0).map(|_| fe_rand(&mut rng)).collect();
    (a, s, e, t)
}

#[test]
fn deep_fri_roundtrip() {
    // n0 = 128, schedule [8, 8, 2], r = 32 queries, first column from seed 2025
    let n0 = 128usize;
    let params = DeepFriParams { schedule: vec![8, 8, 2], r: 32, seed_z: 0x1234_5678_ABCD };
    let (a, s, e, t) = sample_inputs(n0, 2025);
    let builder = DeepAliMock;
    let proof = deep_fri_prove(&builder, &a, &s, &e, &t, n0, &params);
    assert!(deep_fri_verify(&params, &proof));
}

#[test]
fn deep_fri_rejects_tampering() {
    let n0 = 128usize;
    let params = DeepFriParams { schedule: vec![8, 8, 2], r: 32, seed_z: 0x1234_5678_ABCD };
    let (a, s, e, t) = sample_inputs(n0, 2025);
    let builder = DeepAliMock;
    let mut proof = deep_fri_prove(&builder, &a, &s, &e, &t, n0, &params);

    // flip the opened f value of query 0 at layer 0: rejection
    let orig = proof.queries[0].per_layer_payloads[0].f_i;
    proof.queries[0].per_layer_payloads[0].f_i = fe_add(&orig, &Fe::one());
    assert!(!deep_fri_verify(&params, &proof));
    proof.queries[0].per_layer_payloads[0].f_i = orig;
    assert!(deep_fri_verify(&params, &proof));

    // corrupt a batched sibling: rejection
    let orig_sib = proof.layer_batches.layers[0].child_proof.siblings[0][0];
    proof.layer_batches.layers[0].child_proof.siblings[0][0] = Fe::from_u64(424242);
    assert!(!deep_fri_verify(&params, &proof));
    proof.layer_batches.layers[0].child_proof.siblings[0][0] = orig_sib;

    // parameter mismatch: a different schedule or query count
    let wrong_sched = DeepFriParams { schedule: vec![8, 4, 4], r: 32, seed_z: 0x1234_5678_ABCD };
    assert!(!deep_fri_verify(&wrong_sched, &proof));
    let wrong_r = DeepFriParams { schedule: vec![8, 8, 2], r: 16, seed_z: 0x1234_5678_ABCD };
    assert!(!deep_fri_verify(&wrong_r, &proof));
}

#[test]
fn field_arithmetic_basics() {
    let a = Fe::from_u64(7);
    let b = Fe::from_u64(5);
    assert_eq!(fe_add(&a, &b), Fe::from_u64(12));
    assert_eq!(fe_mul(&a, &b), Fe::from_u64(35));
    assert_eq!(fe_sub(&a, &b), Fe::from_u64(2));
    let inv = fe_invert(&a).unwrap();
    assert_eq!(fe_mul(&a, &inv), Fe::one());
    assert!(fe_invert(&Fe::zero()).is_none());
    let w = fe_root_of_unity(8).unwrap();
    assert_eq!(w.pow_u64(8), Fe::one());
    assert_ne!(w.pow_u64(4), Fe::one());
    assert!(fe_root_of_unity(3).is_none());
    let d = FriDomain::new_radix2(16);
    assert_eq!(d.size, 16);
    assert!(is_in_domain(&d.omega, 16));
}
