use deep_fri::channel::{ProverChannel, VerifierChannel};
use deep_fri::field::{fe_add, Fe};
use deep_fri::fri::{deep_fri_prove, deep_fri_proof_size_bytes, merkle_proof_size_bytes, DeepAliMock, DeepFriParams};
use deep_fri::merkle::{MerkleChannelCfg, MerkleTree};
use deep_fri::mle::MLE;
use deep_fri::transcript::{default_params, Transcript};
use rand::{Rng, SeedableRng};

fn fe_rand(rng: &mut rand::rngs::StdRng) -> Fe {
    Fe::from_u64(rng.gen::<u64>())
}

fn mle_sum_vars(n: usize) -> MLE {
    let size = 1usize << n;
    let mut vals = Vec::new();
    for idx in 0..size {
        let mut s = Fe::zero();
        for i in 0..n {
            if (idx >> i) & 1 == 1 {
                s = fe_add(&s, &Fe::one());
            }
        }
        vals.push(s);
    }
    MLE::from_values(vals)
}

#[test]
fn fold_last_matches_eval() {
    let n = 4;
    let r: Vec<Fe> = [2u64, 3, 5, 7].iter().map(|&x| Fe::from_u64(x)).collect();

    let direct = mle_sum_vars(n).eval(&r);

    let folded = mle_sum_vars(n).fold_last(&r[n - 1]);
    let direct2 = folded.eval(&r[..n - 1]);

    assert_eq!(direct, direct2);
}

#[test]
fn fold_arbitrary_matches_eval() {
    let n = 4;
    let r: Vec<Fe> = [11u64, 13, 17, 19].iter().map(|&x| Fe::from_u64(x)).collect();

    let direct = mle_sum_vars(n).eval(&r);

    let folded = mle_sum_vars(n).fold(1, &r[1]);
    let r_rem = vec![r[0], r[2], r[3]];
    let direct2 = folded.eval(&r_rem);

    assert_eq!(direct, direct2);
}

#[test]
fn fix_var_selects_half() {
    let n = 3;
    let fixed = mle_sum_vars(n).fix(1, true);
    assert_eq!(fixed.n_vars(), n - 1);
    for a0 in [false, true] {
        for a2 in [false, true] {
            let bit = |b: bool| if b { Fe::one() } else { Fe::zero() };
            let r = [bit(a0), Fe::one(), bit(a2)];
            let r_small = [bit(a0), bit(a2)];
            assert_eq!(mle_sum_vars(n).eval(&r), fixed.eval(&r_small));
        }
    }
}

#[test]
fn channel_lockstep() {
    let p_tr = Transcript::new(b"MERKLE-CHAN-E2E", default_params());
    let v_tr = Transcript::new(b"MERKLE-CHAN-E2E", default_params());
    let mut pchan = ProverChannel::new(p_tr);
    let mut vchan = VerifierChannel::new(v_tr);

    let mut rng = rand::rngs::StdRng::seed_from_u64(7);
    let n = 55usize;
    let table: Vec<Fe> = (0..n).map(|_| fe_rand(&mut rng)).collect();

    let cfg = MerkleChannelCfg::new(16).with_tree_label(2025);
    let tree = MerkleTree::new(table.clone(), cfg);
    let root = tree.root();

    pchan.send_digest(b"commit/root", &root);
    vchan.recv_digest(b"commit/root", &root);

    let alpha_p = pchan.challenge_scalar(b"alpha");
    let alpha_v = vchan.challenge_scalar(b"alpha");
    assert_eq!(alpha_p, alpha_v);

    let indices = vec![0usize, 3, 7, 11, 54];
    let values: Vec<Fe> = indices.iter().map(|&i| table[i]).collect();
    let proof = tree.open_many(&indices);

    pchan.send_opening(&indices, &values, &proof);
    vchan.recv_opening(&indices, &values, &proof);

    let beta_p = pchan.challenge_scalar(b"beta");
    let beta_v = vchan.challenge_scalar(b"beta");
    assert_eq!(beta_p, beta_v);

    // a one-bit divergence in an absorb desynchronises the channels
    let mut other = values.clone();
    other[0] = fe_add(&other[0], &Fe::one());
    pchan.send_opening(&indices, &values, &proof);
    vchan.recv_opening(&indices, &other, &proof);
    assert_ne!(pchan.challenge_scalar(b"gamma"), vchan.challenge_scalar(b"gamma"));
}

#[test]
fn proof_sizes_are_accounted() {
    let n0 = 128usize;
    let params = DeepFriParams { schedule: vec![8, 8, 2], r: 4, seed_z: 7 };
    let mut rng = rand::rngs::StdRng::seed_from_u64(99);
    let a: Vec<Fe> = (0..n0).map(|_| fe_rand(&mut rng)).collect();
    let s: Vec<Fe> = (0..n0).map(|_| fe_rand(&mut rng)).collect();
    let e: Vec<Fe> = (0..n0).map(|_| fe_rand(&mut rng)).collect();
    let t: Vec<Fe> = (0..n0).map(|_| fe_rand(&mut rng)).collect();
    let proof = deep_fri_prove(&DeepAliMock, &a, &s, &e, &t, n0, &params);

    // the preamble alone is 4 roots * 32 + 32 + 8 bytes; everything else adds
    let base = proof.roots.len() * 32 + 40;
    let total = deep_fri_proof_size_bytes(&proof);
    assert!(total > base);

    // one multiproof: 1 byte of arity plus 8 per level for each of the two lists
    let mp = &proof.layer_batches.final_proof;
    let expected_min = 1 + 16 * mp.siblings.len();
    assert!(merkle_proof_size_bytes(mp) >= expected_min);
}
