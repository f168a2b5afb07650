//! DEEP-FRI: fold an evaluation vector through a schedule of factors, commit
//! each layer, and spot-check fold consistency at transcript-derived indices.

use vstd::prelude::*;
use vstd::pervasive::VecAdditionalExecFns;
use vstd::string::StringSliceAdditionalSpecFns;
use crate::field::{
    f_add, f_inv, f_mul, f_pow, f_sub, fe_add, fe_mul, fe_root_of_unity, fe_seq_v, fe_to_bytes32,
    field_order, is_pow2, le32_of, lemma_f_mul_comm, lemma_f_pow_succ, lemma_view_injective,
    omega_of, Fe,
};
use crate::merkle::{
    pair_leaves_ds_v, sort_dedup_of, tree_levels_v, tree_root_v, usize_seq_v, verify_many_ds_v,
    verify_pairs_ds_v, MerkleChannelCfg, MerkleProof, MerkleProver, MerkleTree, NodeHasher,
};
use crate::poseidon::{derived_mds_v, derived_rcf_v, derived_rcp_v, PoseidonParamsDynamic};
use crate::rng::{rng_word, SeededRng};
use crate::deep_ali::{in_domain_v, phi_v};
use crate::transcript::{default_params, tr_absorb_bytes_v, tr_absorb_seq_v, tr_challenge_v, tr_init_v, Transcript};

verus! {

/// The MDS view of the transcript parameter set every FRI transcript runs on.
pub open spec fn ftr_mds() -> Seq<Seq<int>> {
    derived_mds_v("POSEIDON-T17-X5-TRANSCRIPT".spec_bytes(), 17)
}

pub open spec fn ftr_rcf() -> Seq<Seq<int>> {
    derived_rcf_v("POSEIDON-T17-X5-TRANSCRIPT".spec_bytes(), 8, 17)
}

pub open spec fn ftr_rcp() -> Seq<int> {
    derived_rcp_v("POSEIDON-T17-X5-TRANSCRIPT".spec_bytes(), 64)
}

/// A fresh tagged transcript hash: context "FRI/FS", the tag, the fields, one
/// challenge under "out".
#[verifier::opaque]
pub open spec fn fs_hash_v(tag: Seq<u8>, fields: Seq<int>) -> int {
    let st0 = tr_init_v(ftr_mds(), ftr_rcf(), ftr_rcp(), "FRI/FS".spec_bytes());
    let st1 = tr_absorb_bytes_v(ftr_mds(), ftr_rcf(), ftr_rcp(), st0, tag);
    let st2 = tr_absorb_seq_v(ftr_mds(), ftr_rcf(), ftr_rcp(), st1, fields);
    tr_challenge_v(ftr_mds(), ftr_rcf(), ftr_rcp(), st2, "out".spec_bytes()).0
}

/// Hash a byte tag and field elements through a fresh transcript.
pub fn tr_hash_fields_tagged(tag: &[u8], fields: &[Fe]) -> (r: Fe)
    ensures
        r@ == fs_hash_v(tag@, fe_seq_v(fields@)),
{
    proof {
        reveal(fs_hash_v);
    }
    let params = default_params();
    let mut tr = Transcript::new("FRI/FS".as_bytes(), params);
    tr.absorb_bytes(tag);
    tr.absorb_fields(fields);
    tr.challenge("out".as_bytes())
}

/// The digest binding one `(f, s)` pair into a single leaf.
#[verifier::opaque]
pub open spec fn leaf_pair_v(f: int, s: int) -> int {
    let st0 = tr_init_v(ftr_mds(), ftr_rcf(), ftr_rcp(), "FRI/leaf/poseidon".spec_bytes());
    let st1 = tr_absorb_bytes_v(ftr_mds(), ftr_rcf(), ftr_rcp(), st0, "FRI/leaf".spec_bytes());
    let st2 = tr_absorb_seq_v(ftr_mds(), ftr_rcf(), ftr_rcp(), st1, seq![f, s]);
    tr_challenge_v(ftr_mds(), ftr_rcf(), ftr_rcp(), st2, "leaf".spec_bytes()).0
}

/// Hash an `(f, s)` pair to one field element, domain-separated for leaves.
pub fn hash_leaf_pair(f: &Fe, s: &Fe) -> (r: Fe)
    ensures
        r@ == leaf_pair_v(f@, s@),
{
    proof {
        reveal(leaf_pair_v);
    }
    let params = default_params();
    let mut tr = Transcript::new("FRI/leaf/poseidon".as_bytes(), params);
    tr.absorb_bytes("FRI/leaf".as_bytes());
    let mut pair: Vec<Fe> = Vec::new();
    pair.push(*f);
    pair.push(*s);
    proof {
        assert(fe_seq_v(pair@) =~= seq![f@, s@]);
    }
    tr.absorb_fields(pair.as_slice());
    tr.challenge("leaf".as_bytes())
}

/// An evaluation domain for one layer.
#[derive(Clone, Copy, Debug)]
pub struct FriDomain {
    pub omega: Fe,
    pub size: usize,
}

impl FriDomain {
    pub fn new_radix2(size: usize) -> (r: FriDomain)
        requires
            is_pow2(size as nat),
            size <= 0x100000000,
        ensures
            r.size == size,
            r.omega@ == omega_of(size as nat),
            f_pow(r.omega@, size as nat) == 1,
    {
        let w = fe_root_of_unity(size as u64);
        FriDomain { omega: w.unwrap(), size }
    }
}

/// The deterministic fallback for the per-layer folding point.
pub open spec fn zl_fallback_v(seed_z: u64, level: nat, nsize: nat) -> int {
    let f = ((seed_z + level + 7) % 0x10000000000000000) as int;
    if f != 0 && f_pow(f, nsize) != 1 {
        f
    } else {
        11
    }
}

/// Candidates from the stream, rejecting zero and elements of H, within the
/// retry budget.
pub open spec fn zl_try_v(sb: Seq<u8>, nsize: nat, seed_z: u64, level: nat, k: nat, fuel: nat) -> int
    decreases fuel,
{
    if fuel == 0 {
        zl_fallback_v(seed_z, level, nsize)
    } else {
        let c = rng_word(sb, k) as int;
        if c != 0 && f_pow(c, nsize) != 1 {
            c
        } else {
            zl_try_v(sb, nsize, seed_z, level, k + 1, (fuel - 1) as nat)
        }
    }
}

/// The per-layer folding point: a transcript-seeded stream, rejection
/// sampling, and a deterministic fallback.
pub open spec fn sample_zl_v(seed_z: u64, level: nat, nsize: nat) -> int {
    let fused = fs_hash_v(
        "FRI/z/l".spec_bytes(),
        seq![seed_z as int, level as int, nsize as int],
    );
    zl_try_v(le32_of(fused), nsize, seed_z, level, 0, 1000)
}

/// Sample the folding point for one layer.
pub fn fri_sample_z_ell(seed_z: u64, level: usize, domain_size: usize) -> (r: Fe)
    ensures
        r@ == sample_zl_v(seed_z, level as nat, domain_size as nat),
{
    let mut fields: Vec<Fe> = Vec::new();
    fields.push(Fe::from_u64(seed_z));
    fields.push(Fe::from_u64(level as u64));
    fields.push(Fe::from_u64(domain_size as u64));
    proof {
        assert(fe_seq_v(fields@) =~= seq![seed_z as int, level as int, domain_size as int]);
    }
    let fused = tr_hash_fields_tagged("FRI/z/l".as_bytes(), fields.as_slice());
    let seed_bytes = fe_to_bytes32(&fused);
    let mut rng = SeededRng::from_seed_bytes(&seed_bytes);
    let ghost sb = le32_of(fused@);
    let mut tries: usize = 0;
    while tries < 1000
        invariant
            tries <= 1000,
            rng.seed() == sb,
            rng.drawn() == tries,
            sb == le32_of(
                fs_hash_v(
                    "FRI/z/l".spec_bytes(),
                    seq![seed_z as int, level as int, domain_size as int],
                ),
            ),
            zl_try_v(sb, domain_size as nat, seed_z, level as nat, 0, 1000) == zl_try_v(
                sb,
                domain_size as nat,
                seed_z,
                level as nat,
                tries as nat,
                (1000 - tries) as nat,
            ),
        decreases 1000 - tries,
    {
        let w = rng.next_u64();
        let cand = Fe::from_u64(w);
        if !cand.is_zero() {
            let cn = cand.pow_u64(domain_size as u64);
            let one = Fe::one();
            let is_root = cn == one;
            proof {
                use_type_invariant(cn);
                use_type_invariant(one);
                if cn@ == one@ {
                    lemma_view_injective(cn, one);
                }
            }
            if !is_root {
                return cand;
            }
        }
        tries = tries + 1;
    }
    let fb_wide: u128 = seed_z as u128 + level as u128 + 7;
    let fb_word: u64 = (fb_wide % 0x10000000000000000) as u64;
    let fallback = Fe::from_u64(fb_word);
    let fn_pow = fallback.pow_u64(domain_size as u64);
    let one = Fe::one();
    let fb_is_root = fn_pow == one;
    proof {
        use_type_invariant(fn_pow);
        use_type_invariant(one);
        if fn_pow@ == one@ {
            lemma_view_injective(fn_pow, one);
        }
    }
    if fb_word != 0 && !fb_is_root {
        fallback
    } else {
        Fe::from_u64(11)
    }
}

/// One folded bucket: `Σ_t f[base + t]·z^t`, accumulated left to right.
pub open spec fn fold_acc_v(fl: Seq<int>, z: int, base: int, t: nat, m: nat, acc: int) -> int
    decreases m - t,
{
    if t >= m {
        acc
    } else {
        fold_acc_v(fl, z, base, t + 1, m, f_add(acc, f_mul(fl[base + t], f_pow(z, t))))
    }
}

/// The value of bucket `b` after folding with point `z` and factor `m`.
pub open spec fn fold_at_v(fl: Seq<int>, z: int, m: nat, b: int) -> int {
    fold_acc_v(fl, z, b * m, 0, m, 0)
}

/// Fold one layer: each chunk of `m` values is combined with powers of `z`.
pub fn fri_fold_layer(f_l: &[Fe], z_l: &Fe, m: usize) -> (r: Vec<Fe>)
    requires
        m >= 2,
        f_l@.len() as int % m as int == 0,
    ensures
        r@.len() as int == f_l@.len() as int / m as int,
        forall|b: int|
            0 <= b < r@.len() ==> (#[trigger] r@[b])@ == fold_at_v(
                fe_seq_v(f_l@),
                z_l@,
                m as nat,
                b,
            ),
{
    let n_next = f_l.len() / m;
    let ghost flv = fe_seq_v(f_l@);
    let mut z_pows: Vec<Fe> = Vec::new();
    let mut acc = Fe::one();
    let mut t: usize = 0;
    while t < m
        invariant
            t <= m,
            acc@ == f_pow(z_l@, t as nat),
            z_pows@.len() == t,
            forall|k: int| 0 <= k < t ==> (#[trigger] z_pows@[k])@ == f_pow(z_l@, k as nat),
        decreases m - t,
    {
        z_pows.push(acc);
        proof {
            lemma_f_pow_succ(z_l@, t as nat);
            lemma_f_mul_comm(f_pow(z_l@, t as nat), z_l@);
        }
        acc = fe_mul(&acc, z_l);
        t = t + 1;
    }

    let mut out: Vec<Fe> = Vec::new();
    let mut b: usize = 0;
    while b < n_next
        invariant
            b <= n_next,
            m >= 2,
            f_l@.len() <= usize::MAX,
            n_next as int == f_l@.len() as int / m as int,
            f_l@.len() as int % m as int == 0,
            flv == fe_seq_v(f_l@),
            z_pows@.len() == m,
            forall|k: int| 0 <= k < m ==> (#[trigger] z_pows@[k])@ == f_pow(z_l@, k as nat),
            out@.len() == b,
            forall|k: int| 0 <= k < b ==> (#[trigger] out@[k])@ == fold_at_v(flv, z_l@, m as nat, k),
        decreases n_next - b,
    {
        proof {
            vstd::arithmetic::div_mod::lemma_fundamental_div_mod(f_l@.len() as int, m as int);
            vstd::arithmetic::mul::lemma_mul_is_commutative(m as int, n_next as int);
            vstd::arithmetic::mul::lemma_mul_inequality(b as int + 1, n_next as int, m as int);
            vstd::arithmetic::mul::lemma_mul_is_distributive_add_other_way(
                m as int,
                b as int,
                1,
            );
            assert((b as int) * (m as int) + (m as int) <= f_l@.len() as int);
        }
        let base = b * m;
        assert(base + m <= f_l@.len());
        let mut s = Fe::zero();
        let mut t2: usize = 0;
        while t2 < m
            invariant
                t2 <= m,
                base == b as int * m as int,
                base + m <= f_l@.len(),
                f_l@.len() <= usize::MAX,
                flv == fe_seq_v(f_l@),
                z_pows@.len() == m,
                forall|k: int| 0 <= k < m ==> (#[trigger] z_pows@[k])@ == f_pow(z_l@, k as nat),
                fold_at_v(flv, z_l@, m as nat, b as int) == fold_acc_v(
                    flv,
                    z_l@,
                    base as int,
                    t2 as nat,
                    m as nat,
                    s@,
                ),
            decreases m - t2,
        {
            let prod = fe_mul(&f_l[base + t2], &z_pows[t2]);
            s = fe_add(&s, &prod);
            t2 = t2 + 1;
        }
        out.push(s);
        b = b + 1;
    }
    out
}

/// The derived S column: every position carries its bucket's folded value.
pub fn compute_s_layer(f_l: &[Fe], z_l: &Fe, m: usize) -> (r: Vec<Fe>)
    requires
        m >= 2,
        f_l@.len() as int % m as int == 0,
    ensures
        r@.len() == f_l@.len(),
        forall|i: int|
            0 <= i < r@.len() ==> (#[trigger] r@[i])@ == fold_at_v(
                fe_seq_v(f_l@),
                z_l@,
                m as nat,
                i / m as int,
            ),
{
    let s_bucket = fri_fold_layer(f_l, z_l, m);
    let n = f_l.len();
    let ghost flv = fe_seq_v(f_l@);
    let mut out: Vec<Fe> = Vec::new();
    let mut i: usize = 0;
    while i < n
        invariant
            i <= n,
            m >= 2,
            n == f_l@.len(),
            n as int % m as int == 0,
            flv == fe_seq_v(f_l@),
            s_bucket@.len() as int == n as int / m as int,
            forall|k: int|
                0 <= k < s_bucket@.len() ==> (#[trigger] s_bucket@[k])@ == fold_at_v(
                    flv,
                    z_l@,
                    m as nat,
                    k,
                ),
            out@.len() == i,
            forall|k: int|
                0 <= k < i ==> (#[trigger] out@[k])@ == fold_at_v(flv, z_l@, m as nat, k / m as int),
        decreases n - i,
    {
        proof {
            vstd::arithmetic::div_mod::lemma_fundamental_div_mod(n as int, m as int);
            vstd::arithmetic::mul::lemma_mul_is_commutative(m as int, n as int / (m as int));
            assert((i as int) < (m as int) * (n as int / (m as int)));
            vstd::arithmetic::div_mod::lemma_multiply_divide_lt(
                i as int,
                m as int,
                n as int / (m as int),
            );
        }
        let bi = i / m;
        out.push(s_bucket[bi]);
        i = i + 1;
    }
    out
}

/// The sizes of every layer: each folding factor divides what is left.
pub open spec fn sizes_v(n0: int, sched: Seq<int>) -> Seq<int>
    decreases sched.len(),
{
    if sched.len() == 0 {
        seq![n0]
    } else {
        seq![n0] + sizes_v(n0 / sched[0], sched.drop_first())
    }
}

/// Every schedule entry is at least 2 and divides what is left of the size.
pub open spec fn divides_chain(n0: int, sched: Seq<int>) -> bool
    decreases sched.len(),
{
    if sched.len() == 0 {
        true
    } else {
        sched[0] >= 2 && n0 % sched[0] == 0 && divides_chain(n0 / sched[0], sched.drop_first())
    }
}

/// A schedule of length L yields L + 1 layer sizes.
pub proof fn lemma_sizes_len(n0: int, sched: Seq<int>)
    ensures
        sizes_v(n0, sched).len() == sched.len() + 1,
    decreases sched.len(),
{
    if sched.len() > 0 {
        lemma_sizes_len(n0 / sched[0], sched.drop_first());
    }
}

/// Compute the layer sizes from the schedule.
pub fn layer_sizes_from_schedule(n0: usize, schedule: &[usize]) -> (r: Vec<usize>)
    requires
        divides_chain(n0 as int, usize_seq_v(schedule@)),
    ensures
        usize_seq_v(r@) == sizes_v(n0 as int, usize_seq_v(schedule@)),
        r@.len() == schedule@.len() + 1,
    decreases schedule@.len(),
{
    if schedule.len() == 0 {
        let mut v: Vec<usize> = Vec::new();
        v.push(n0);
        proof {
            assert(usize_seq_v(v@) =~= sizes_v(n0 as int, usize_seq_v(schedule@)));
        }
        v
    } else {
        let m = schedule[0];
        proof {
            assert(usize_seq_v(schedule@).drop_first() =~= usize_seq_v(
                schedule@.subrange(1, schedule@.len() as int),
            ));
        }
        let rest = layer_sizes_from_schedule(n0 / m, vstd::slice::slice_subrange(schedule, 1, schedule.len()));
        let mut v: Vec<usize> = Vec::new();
        v.push(n0);
        let mut i: usize = 0;
        while i < rest.len()
            invariant
                i <= rest@.len(),
                v@.len() == i + 1,
                v@[0] == n0,
                forall|k: int| 1 <= k < v@.len() ==> v@[k] == rest@[k - 1],
            decreases rest@.len() - i,
        {
            v.push(rest[i]);
            i = i + 1;
        }
        proof {
            assert(usize_seq_v(schedule@).drop_first() =~= usize_seq_v(
                schedule@.subrange(1, schedule@.len() as int),
            ));
            assert(usize_seq_v(v@) =~= sizes_v(n0 as int, usize_seq_v(schedule@)));
        }
        v
    }
}

/// Fold-consistency local check: the opened S value must equal the parent's F value.
pub open spec fn local_check_v(i: int, m: nat, n_layer: int, s: int, parent_f: int) -> bool {
    (i / (m as int)) < (n_layer / (m as int)) && s == parent_f
}

/// One combined `(f, s)` leaf.
#[derive(Clone, Copy, Debug)]
pub struct CombinedLeaf {
    pub f: Fe,
    pub s: Fe,
}

/// Enforce `s_i == f_parent[b]` with the parent index in range.
pub fn verify_local_check_fold(
    i: usize,
    m: usize,
    n_layer: usize,
    child_leaf: &CombinedLeaf,
    parent_f_b: &Fe,
) -> (r: bool)
    requires
        m >= 1,
    ensures
        r == local_check_v(i as int, m as nat, n_layer as int, child_leaf.s@, parent_f_b@),
{
    let b = i / m;
    if b >= n_layer / m {
        return false;
    }
    let eq = child_leaf.s == *parent_f_b;
    proof {
        use_type_invariant(child_leaf.s);
        use_type_invariant(*parent_f_b);
        if child_leaf.s@ == parent_f_b@ {
            lemma_view_injective(child_leaf.s, *parent_f_b);
        }
    }
    eq
}

/// The seed binding all layer roots.
pub open spec fn roots_seed_v(roots: Seq<int>) -> int {
    fs_hash_v("FRI/seed".spec_bytes(), roots)
}

/// Derive the root-binding seed.
pub fn fs_seed_from_roots(roots: &[Fe]) -> (r: Fe)
    ensures
        r@ == roots_seed_v(fe_seq_v(roots@)),
{
    tr_hash_fields_tagged("FRI/seed".as_bytes(), roots)
}

/// The masked index a seed element yields for a power-of-two range.
pub open spec fn index_from_seed_v(fv: int, n_pow2: nat) -> int {
    (rng_word(le32_of(fv), 0) & ((n_pow2 - 1) as u64)) as int
}

/// Draw an index below the power-of-two bound from a seed element.
pub fn index_from_seed(seed_f: &Fe, n_pow2: usize) -> (r: usize)
    requires
        1 <= n_pow2,
    ensures
        r as int == index_from_seed_v(seed_f@, n_pow2 as nat),
        r < n_pow2 || n_pow2 == 0,
        r <= n_pow2 - 1,
    decreases 0int,
{
    let seed_bytes = fe_to_bytes32(seed_f);
    let mut rng = SeededRng::from_seed_bytes(&seed_bytes);
    let w = rng.next_u64();
    let mask: u64 = (n_pow2 as u64) - 1;
    let masked = w & mask;
    proof {
        assert(masked <= mask) by (bit_vector)
            requires
                masked == w & mask,
        ;
    }
    masked as usize
}

/// The per-query, per-layer index seed.
pub open spec fn index_seed_v(roots_seed: int, ell: nat, q: nat) -> int {
    fs_hash_v("FRI/index".spec_bytes(), seq![roots_seed, ell as int, q as int])
}

/// Derive the index seed for one query at one layer.
pub fn index_seed(roots_seed: &Fe, ell: usize, q: usize) -> (r: Fe)
    ensures
        r@ == index_seed_v(roots_seed@, ell as nat, q as nat),
{
    let mut fields: Vec<Fe> = Vec::new();
    fields.push(*roots_seed);
    fields.push(Fe::from_u64(ell as u64));
    fields.push(Fe::from_u64(q as u64));
    proof {
        assert(fe_seq_v(fields@) =~= seq![roots_seed@, ell as int, q as int]);
    }
    tr_hash_fields_tagged("FRI/index".as_bytes(), fields.as_slice())
}

/// The commitment arity for a layer: the largest of 16, 8, 2 that divides the
/// layer and does not exceed the requested factor, else 1.
pub open spec fn pick_arity_v(n: int, requested_m: int) -> int {
    if requested_m >= 16 && n % 16 == 0 {
        16
    } else if requested_m >= 8 && n % 8 == 0 {
        8
    } else if requested_m >= 2 && n % 2 == 0 {
        2
    } else {
        1
    }
}

pub fn pick_arity_for_layer(n: usize, requested_m: usize) -> (r: usize)
    ensures
        r as int == pick_arity_v(n as int, requested_m as int),
        1 <= r <= 16,
{
    if requested_m >= 16 && n % 16 == 0 {
        16
    } else if requested_m >= 8 && n % 8 == 0 {
        8
    } else if requested_m >= 2 && n % 2 == 0 {
        2
    } else {
        1
    }
}

/// One committed layer: its length, fold factor, root, both columns, the
/// leaf mode, and the tree with its configuration.
pub struct FriLayerCommitment {
    pub n: usize,
    pub m: usize,
    pub root: Fe,
    pub f: Vec<Fe>,
    pub s: Vec<Fe>,
    pub hashed_leaves: bool,
    pub tree: MerkleTree,
    pub cfg: MerkleChannelCfg,
}

impl FriLayerCommitment {
    /// The bottom row this layer's tree was built over.
    pub open spec fn leaves_v(self) -> Seq<int> {
        if self.hashed_leaves {
            Seq::new(self.f@.len(), |i: int| leaf_pair_v(self.f@[i]@, self.s@[i]@))
        } else {
            pair_leaves_ds_v(self.cfg, fe_seq_v(self.f@), fe_seq_v(self.s@))
        }
    }

    /// A faithfully committed layer.
    #[verifier::opaque]
    pub open spec fn committed(self) -> bool {
        &&& self.cfg.wf()
        &&& self.cfg.arity as int == pick_arity_v(self.n as int, self.m as int)
        &&& self.hashed_leaves == (self.cfg.arity == 16 || self.cfg.arity == 8)
        &&& self.f@.len() == self.n
        &&& self.s@.len() == self.n
        &&& self.n >= 1
        &&& self.tree.wf()
        &&& self.tree.cfg is Some
        &&& self.tree.cfg->Some_0.arity == self.cfg.arity
        &&& self.tree.levels_v() == tree_levels_v(NodeHasher::DsAware(self.cfg), self.leaves_v(), 0)
        &&& self.root == self.tree.root
        &&& self.root@ == tree_root_v(NodeHasher::DsAware(self.cfg), self.leaves_v())
    }
}

pub struct FriTranscript {
    pub schedule: Vec<usize>,
    pub layers: Vec<FriLayerCommitment>,
}

pub struct FriProverParams {
    pub schedule: Vec<usize>,
    pub seed_z: u64,
}

pub struct FriProverState {
    pub f_layers: Vec<Vec<Fe>>,
    pub s_layers: Vec<Vec<Fe>>,
    pub transcript: FriTranscript,
    pub omega_layers: Vec<Fe>,
    pub z_layers: Vec<Fe>,
}

impl FriProverState {
    /// The whole folding chain is faithful: every layer folds the one before
    /// at its sampled point, every column pair is committed, and the derived
    /// S columns carry their buckets' folded values.
    #[verifier::opaque]
    pub open spec fn folded_ok(self, f0: Seq<int>, seed_z: u64) -> bool {
        let sched = self.transcript.schedule@;
        let ll = sched.len() as int;
        &&& self.f_layers@.len() == ll + 1
        &&& self.s_layers@.len() == ll + 1
        &&& self.z_layers@.len() == ll
        &&& self.transcript.layers@.len() == ll + 1
        &&& fe_seq_v(self.f_layers@[0]@) == f0
        &&& forall|l: int|
            0 <= l < ll ==> (#[trigger] self.z_layers@[l])@ == sample_zl_v(
                seed_z,
                l as nat,
                self.f_layers@[l]@.len(),
            )
        &&& forall|l: int|
            0 <= l < ll ==> (#[trigger] self.f_layers@[l + 1])@.len() as int == self.f_layers@[l]@.len()
                as int / sched[l] as int
        &&& forall|l: int, b: int|
            0 <= l < ll && 0 <= b < self.f_layers@[l + 1]@.len() ==> (
            #[trigger] self.f_layers@[l + 1]@[b])@ == fold_at_v(
                fe_seq_v(self.f_layers@[l]@),
                self.z_layers@[l]@,
                sched[l] as nat,
                b,
            )
        &&& forall|l: int|
            0 <= l < ll ==> (#[trigger] self.s_layers@[l])@.len() == self.f_layers@[l]@.len()
        &&& forall|l: int, i: int|
            0 <= l < ll && 0 <= i < self.s_layers@[l]@.len() ==> (
            #[trigger] self.s_layers@[l]@[i])@ == fold_at_v(
                fe_seq_v(self.f_layers@[l]@),
                self.z_layers@[l]@,
                sched[l] as nat,
                i / (sched[l] as int),
            )
        &&& self.s_layers@[ll]@.len() == self.f_layers@[ll]@.len()
        &&& forall|i: int|
            0 <= i < self.s_layers@[ll]@.len() ==> (#[trigger] self.s_layers@[ll]@[i])@ == 0
        &&& forall|l: int|
            0 <= l <= ll ==> {
                let lc = #[trigger] self.transcript.layers@[l];
                &&& lc.committed()
                &&& lc.n == self.f_layers@[l]@.len()
                &&& lc.m as int == (if l < ll {
                    sched[l] as int
                } else {
                    1
                })
                &&& lc.f@ == self.f_layers@[l]@
                &&& lc.s@ == self.s_layers@[l]@
                &&& lc.cfg.tree_label == l
            }
    }
}

/// Fold the whole schedule, derive the S columns, and commit every layer.
/// The schedule must fold the column down to a single value: the final layer
/// is committed at arity 1, which only a length-one vector admits.
#[verifier::rlimit(100)]
#[verifier::spinoff_prover]
pub fn fri_build_transcript(f0: Vec<Fe>, domain0: FriDomain, params: &FriProverParams) -> (r:
    FriProverState)
    requires
        1 <= f0@.len() <= 0xffffffff,
        domain0.size == f0@.len(),
        divides_chain(f0@.len() as int, usize_seq_v(params.schedule@)),
        params.schedule@.len() <= 0xffff,
        sizes_v(f0@.len() as int, usize_seq_v(params.schedule@)).last() == 1,
        forall|i: int|
            0 <= i < sizes_v(f0@.len() as int, usize_seq_v(params.schedule@)).len()
                ==> is_pow2(
                #[trigger] sizes_v(f0@.len() as int, usize_seq_v(params.schedule@))[i] as nat,
            ),
    ensures
        r.folded_ok(fe_seq_v(f0@), params.seed_z),
        r.transcript.schedule@ == params.schedule@,
        r.omega_layers@.len() == params.schedule@.len(),
        forall|l: int|
            0 <= l < r.omega_layers@.len() ==> (#[trigger] r.omega_layers@[l])@ == omega_of(
                r.f_layers@[l]@.len(),
            ),
{
    let ghost f0v = fe_seq_v(f0@);
    let ghost schedv = usize_seq_v(params.schedule@);
    let l_count = params.schedule.len();

    let mut f_layers: Vec<Vec<Fe>> = Vec::new();
    let mut z_layers: Vec<Fe> = Vec::new();
    let mut omega_layers: Vec<Fe> = Vec::new();
    let n0 = f0.len();
    f_layers.push(f0);
    proof {
        assert(schedv.skip(0) =~= schedv);
        assert(sizes_v(f0v.len() as int, schedv)[0] == f0v.len() as int);
        assert(f_layers@[0]@.len() == f0v.len());
        assert(fe_seq_v(f_layers@[0]@).len() == f_layers@[0]@.len());
    }
    let mut ell: usize = 0;
    while ell < l_count
        invariant
            ell <= l_count,
            l_count == params.schedule@.len(),
            l_count <= 0xffff,
            schedv == usize_seq_v(params.schedule@),
            f_layers@.len() == ell + 1,
            z_layers@.len() == ell,
            omega_layers@.len() == ell,
            fe_seq_v(f_layers@[0]@) == f0v,
            divides_chain(f_layers@[ell as int]@.len() as int, schedv.skip(ell as int)),
            sizes_v(f_layers@[ell as int]@.len() as int, schedv.skip(ell as int)).last() == 1,
            forall|i: int|
                0 <= i < sizes_v(f_layers@[ell as int]@.len() as int, schedv.skip(ell as int)).len()
                    ==> is_pow2(
                    #[trigger] sizes_v(
                        f_layers@[ell as int]@.len() as int,
                        schedv.skip(ell as int),
                    )[i] as nat,
                ),
            forall|k: int|
                0 <= k <= ell ==> is_pow2((#[trigger] f_layers@[k]@).len()) && f_layers@[k]@.len()
                    >= 1 && f_layers@[k]@.len() <= 0xffffffff,
            forall|l: int|
                0 <= l < ell ==> #[trigger] schedv[l] >= 2 && f_layers@[l]@.len() as int
                    % schedv[l] == 0,
            forall|l: int|
                0 <= l < ell ==> (#[trigger] z_layers@[l])@ == sample_zl_v(
                    params.seed_z,
                    l as nat,
                    f_layers@[l]@.len(),
                ),
            forall|l: int|
                0 <= l < ell ==> (#[trigger] f_layers@[l + 1])@.len() as int == f_layers@[l]@.len()
                    as int / schedv[l],
            forall|l: int, b: int|
                0 <= l < ell && 0 <= b < f_layers@[l + 1]@.len() ==> (
                #[trigger] f_layers@[l + 1]@[b])@ == fold_at_v(
                    fe_seq_v(f_layers@[l]@),
                    z_layers@[l]@,
                    schedv[l] as nat,
                    b,
                ),
            forall|l: int|
                0 <= l < ell ==> (#[trigger] omega_layers@[l])@ == omega_of(f_layers@[l]@.len()),
        decreases l_count - ell,
    {
        let m = params.schedule[ell];
        let li = f_layers.len() - 1;
        let cur_len = f_layers[li].len();
        proof {
            assert(schedv.skip(ell as int)[0] == schedv[ell as int]);
            assert(schedv.skip(ell as int).drop_first() =~= schedv.skip(ell + 1));
            assert(sizes_v(cur_len as int, schedv.skip(ell as int))[0] == cur_len as int);
            assert(sizes_v(cur_len as int, schedv.skip(ell as int)).drop_first() =~= sizes_v(
                cur_len as int / (m as int),
                schedv.skip(ell + 1),
            ));
            assert(sizes_v(cur_len as int, schedv.skip(ell as int))[1] == sizes_v(
                cur_len as int / (m as int),
                schedv.skip(ell + 1),
            )[0]);
        }
        let z = fri_sample_z_ell(params.seed_z, ell, cur_len);
        z_layers.push(z);
        let w = fe_root_of_unity(cur_len as u64);
        proof {
            crate::field::lemma_is_pow2_le(cur_len as nat);
        }
        omega_layers.push(w.unwrap());
        let folded = fri_fold_layer(f_layers[li].as_slice(), &z, m);
        let new_len = folded.len();
        let ghost pre_layers = f_layers@;
        f_layers.push(folded);
        proof {
            assert(f_layers@ =~= pre_layers.push(f_layers@.last()));
            assert forall|k: int|
                0 <= k <= ell implies is_pow2((#[trigger] f_layers@[k]@).len())
                && f_layers@[k]@.len() >= 1 && f_layers@[k]@.len() <= 0xffffffff by {
                assert(f_layers@[k] == pre_layers[k]);
                assert(is_pow2(pre_layers[k]@.len()) && pre_layers[k]@.len() >= 1
                    && pre_layers[k]@.len() <= 0xffffffff);
            }
            assert(f_layers@[ell + 1]@.len() == new_len);
            assert forall|l: int|
                0 <= l < ell + 1 implies #[trigger] schedv[l] >= 2 && f_layers@[l]@.len() as int
                % schedv[l] == 0 by {
                assert(f_layers@[l] == pre_layers[l]);
                if l < ell {
                    assert(schedv[l] >= 2 && pre_layers[l]@.len() as int % schedv[l] == 0);
                } else {
                    assert(f_layers@[l]@.len() == cur_len);
                    assert(schedv[ell as int] == m as int);
                    assert(m >= 2 && cur_len as int % (m as int) == 0);
                }
            }
            assert forall|i: int|
                0 <= i < sizes_v(new_len as int, schedv.skip(ell + 1)).len() implies is_pow2(
                #[trigger] sizes_v(new_len as int, schedv.skip(ell + 1))[i] as nat,
            ) by {
                assert(sizes_v(cur_len as int, schedv.skip(ell as int))[i + 1] == sizes_v(
                    new_len as int,
                    schedv.skip(ell + 1),
                )[i]);
            }
            assert(is_pow2(new_len as nat));
            lemma_sizes_len(cur_len as int, schedv.skip(ell as int));
            lemma_sizes_len(new_len as int, schedv.skip(ell + 1));
            assert(sizes_v(cur_len as int, schedv.skip(ell as int)).len() == schedv.skip(
                ell as int,
            ).len() + 1);
            assert(sizes_v(cur_len as int, schedv.skip(ell as int)).last() == sizes_v(
                cur_len as int,
                schedv.skip(ell as int),
            ).drop_first().last());
            assert(sizes_v(cur_len as int, schedv.skip(ell as int)).last() == sizes_v(
                new_len as int,
                schedv.skip(ell + 1),
            ).last());
            assert(new_len >= 1);
            assert(new_len <= cur_len) by {
                vstd::arithmetic::div_mod::lemma_div_nonincreasing(cur_len as int, m as int);
            }
        }
        ell = ell + 1;
    }
    proof {
        assert(schedv.skip(l_count as int).len() == 0);
        assert(sizes_v(f_layers@[l_count as int]@.len() as int, schedv.skip(l_count as int))
            =~= seq![f_layers@[l_count as int]@.len() as int]);
        assert(f_layers@[l_count as int]@.len() == 1);
    }

    let mut s_layers: Vec<Vec<Fe>> = Vec::new();
    let mut ell2: usize = 0;
    while ell2 < l_count
        invariant
            ell2 <= l_count,
            l_count == params.schedule@.len(),
            schedv == usize_seq_v(params.schedule@),
            f_layers@.len() == l_count + 1,
            z_layers@.len() == l_count,
            forall|l: int|
                0 <= l < l_count ==> #[trigger] schedv[l] >= 2 && f_layers@[l]@.len() as int
                    % schedv[l] == 0,
            s_layers@.len() == ell2,
            forall|l: int|
                0 <= l < ell2 ==> (#[trigger] s_layers@[l])@.len() == f_layers@[l]@.len(),
            forall|l: int, i: int|
                0 <= l < ell2 && 0 <= i < s_layers@[l]@.len() ==> (
                #[trigger] s_layers@[l]@[i])@ == fold_at_v(
                    fe_seq_v(f_layers@[l]@),
                    z_layers@[l]@,
                    schedv[l] as nat,
                    i / (schedv[l] as int),
                ),
        decreases l_count - ell2,
    {
        let m = params.schedule[ell2];
        proof {
            assert(schedv[ell2 as int] >= 2 && f_layers@[ell2 as int]@.len() as int
                % schedv[ell2 as int] == 0);
        }
        let z = z_layers[ell2];
        let s = compute_s_layer(f_layers[ell2].as_slice(), &z, m);
        s_layers.push(s);
        ell2 = ell2 + 1;
    }
    let last_len = f_layers[l_count].len();
    let mut s_last: Vec<Fe> = Vec::new();
    let mut k: usize = 0;
    while k < last_len
        invariant
            k <= last_len,
            s_last@.len() == k,
            forall|i: int| 0 <= i < k ==> (#[trigger] s_last@[i])@ == 0,
        decreases last_len - k,
    {
        s_last.push(Fe::zero());
        k = k + 1;
    }
    s_layers.push(s_last);

    let mut layers: Vec<FriLayerCommitment> = Vec::new();
    let mut ell3: usize = 0;
    while ell3 <= l_count
        invariant
            ell3 <= l_count + 1,
            l_count == params.schedule@.len(),
            l_count <= 0xffff,
            schedv == usize_seq_v(params.schedule@),
            f_layers@.len() == l_count + 1,
            s_layers@.len() == l_count + 1,
            z_layers@.len() == l_count,
            forall|l: int|
                0 <= l <= l_count ==> is_pow2((#[trigger] f_layers@[l]@).len()) && f_layers@[l]@.len()
                    >= 1 && f_layers@[l]@.len() <= 0xffffffff,
            forall|l: int|
                0 <= l <= l_count ==> (#[trigger] s_layers@[l])@.len() == f_layers@[l]@.len(),
            f_layers@[l_count as int]@.len() == 1,
            forall|l: int|
                0 <= l < l_count ==> #[trigger] schedv[l] >= 2 && f_layers@[l]@.len() as int
                    % schedv[l] == 0,
            layers@.len() == ell3,
            forall|l: int|
                0 <= l < ell3 ==> {
                    let lc = #[trigger] layers@[l];
                    &&& lc.committed()
                    &&& lc.n == f_layers@[l]@.len()
                    &&& lc.m as int == (if l < l_count {
                        schedv[l]
                    } else {
                        1
                    })
                    &&& lc.f@ == f_layers@[l]@
                    &&& lc.s@ == s_layers@[l]@
                    &&& lc.cfg.tree_label == l
                },
        decreases l_count + 1 - ell3,
    {
        proof {
            reveal(FriLayerCommitment::committed);
        }
        let n = f_layers[ell3].len();
        let m_ell = if ell3 < l_count {
            params.schedule[ell3]
        } else {
            1
        };
        let arity = pick_arity_for_layer(n, m_ell);
        let use_hashed = arity == 16 || arity == 8;
        let cfg = MerkleChannelCfg::new(arity).with_tree_label(ell3 as u64);
        let prover = MerkleProver::new(crate::merkle::clone_cfg(&cfg));
        proof {
            if ell3 < l_count {
                assert(schedv[ell3 as int] >= 2 && f_layers@[ell3 as int]@.len() as int
                    % schedv[ell3 as int] == 0);
                assert(n >= 2) by {
                    if (n as int) < schedv[ell3 as int] {
                        vstd::arithmetic::div_mod::lemma_small_mod(
                            n as nat,
                            schedv[ell3 as int] as nat,
                        );
                    }
                }
                assert(n % 2 == 0);
                assert(arity >= 2);
            } else {
                assert(n == 1);
            }
        }
        let f_col = crate::merkle::clone_fe_vec(&f_layers[ell3]);
        let s_col = crate::merkle::clone_fe_vec(&s_layers[ell3]);
        let ghost h1 = NodeHasher::DsAware(prover.cfg);
        let ghost h2 = NodeHasher::DsAware(cfg);
        let (root, tree) = if use_hashed {
            let mut hl: Vec<Fe> = Vec::new();
            let mut i: usize = 0;
            while i < n
                invariant
                    i <= n,
                    n == f_col@.len(),
                    n == s_col@.len(),
                    hl@.len() == i,
                    forall|j: int|
                        0 <= j < i ==> (#[trigger] hl@[j])@ == leaf_pair_v(f_col@[j]@, s_col@[j]@),
                decreases n - i,
            {
                let d = hash_leaf_pair(&f_col[i], &s_col[i]);
                hl.push(d);
                i = i + 1;
            }
            let rt = prover.commit_single(hl.as_slice());
            proof {
                assert(fe_seq_v(hl@) =~= Seq::new(
                    f_col@.len(),
                    |j: int| leaf_pair_v(f_col@[j]@, s_col@[j]@),
                ));
                crate::merkle::lemma_tree_levels_like(h1, h2, fe_seq_v(hl@), 0);
            }
            rt
        } else {
            let rt = prover.commit_pairs(f_col.as_slice(), s_col.as_slice());
            proof {
                assert forall|j: int|
                    0 <= j < f_col@.len() implies pair_leaves_ds_v(
                    prover.cfg,
                    fe_seq_v(f_col@),
                    fe_seq_v(s_col@),
                )[j] == pair_leaves_ds_v(cfg, fe_seq_v(f_col@), fe_seq_v(s_col@))[j] by {
                    crate::merkle::lemma_node_digest_like(
                        h1,
                        h2,
                        crate::merkle::LEAF_LEVEL_DS as nat,
                        j as nat,
                        seq![fe_seq_v(f_col@)[j], fe_seq_v(s_col@)[j]],
                    );
                }
                assert(pair_leaves_ds_v(prover.cfg, fe_seq_v(f_col@), fe_seq_v(s_col@))
                    =~= pair_leaves_ds_v(cfg, fe_seq_v(f_col@), fe_seq_v(s_col@)));
                crate::merkle::lemma_tree_levels_like(
                    h1,
                    h2,
                    pair_leaves_ds_v(cfg, fe_seq_v(f_col@), fe_seq_v(s_col@)),
                    0,
                );
            }
            rt
        };
        let lc = FriLayerCommitment {
            n,
            m: m_ell,
            root,
            f: f_col,
            s: s_col,
            hashed_leaves: use_hashed,
            tree,
            cfg,
        };
        layers.push(lc);
        ell3 = ell3 + 1;
    }

    let schedule_copy = crate::merkle::clone_usize_vec(&params.schedule);
    proof {
        reveal(FriProverState::folded_ok);
    }
    FriProverState {
        f_layers,
        s_layers,
        transcript: FriTranscript { schedule: schedule_copy, layers },
        omega_layers,
        z_layers,
    }
}

/// Per-layer batched multiproofs shared by all queries.
pub struct LayerBatchProof {
    pub hashed_leaves: bool,
    pub child_indices: Vec<usize>,
    pub child_proof: MerkleProof,
    pub parent_indices: Vec<usize>,
    pub parent_proof: MerkleProof,
}

/// One query's references into the batched arrays.
#[derive(Clone, Copy, Debug)]
pub struct LayerQueryRef {
    pub i: usize,
    pub child_pos: usize,
    pub parent_index: usize,
    pub parent_pos: usize,
}

pub struct FriQueryOpenings {
    pub per_layer_refs: Vec<LayerQueryRef>,
    pub final_index: usize,
    pub final_pair: (Fe, Fe),
}

pub struct FriLayerBatches {
    pub layers: Vec<LayerBatchProof>,
    pub final_proof: MerkleProof,
}

/// The transcript-derived child index for one query at one layer: a masked
/// draw, one reseed if it misses, then a final mask.
pub open spec fn query_index_v(roots_seed: int, ell: nat, q: nat, n: nat) -> int {
    let s1 = index_seed_v(roots_seed, ell, q);
    let i0 = index_from_seed_v(s1, n);
    if i0 < n {
        i0
    } else {
        let s2 = fs_hash_v("FRI/index".spec_bytes(), seq![s1, 1]);
        let i2 = index_from_seed_v(s2, n);
        if i2 < n {
            i2
        } else {
            (i2 as u64 & ((n - 1) as u64)) as int
        }
    }
}

/// Derive the child index for one query at one layer.
pub fn fri_query_index(roots_seed: &Fe, ell: usize, q: usize, n: usize) -> (r: usize)
    requires
        1 <= n,
    ensures
        r as int == query_index_v(roots_seed@, ell as nat, q as nat, n as nat),
        r < n || r as int <= n as int - 1,
{
    let seed = index_seed(roots_seed, ell, q);
    let i0 = index_from_seed(&seed, n);
    if i0 < n {
        i0
    } else {
        let mut fields: Vec<Fe> = Vec::new();
        fields.push(seed);
        fields.push(Fe::one());
        proof {
            assert(fe_seq_v(fields@) =~= seq![seed@, 1int]);
        }
        let reseed = tr_hash_fields_tagged("FRI/index".as_bytes(), fields.as_slice());
        let i2 = index_from_seed(&reseed, n);
        if i2 < n {
            i2
        } else {
            let mask64: u64 = (n as u64) - 1;
            let masked = (i2 as u64) & mask64;
            proof {
                assert(masked <= mask64) by (bit_vector)
                    requires
                        masked == (i2 as u64) & mask64,
                ;
            }
            masked as usize
        }
    }
}

/// Find the position of a value in an ascending, duplicate-free vector.
pub fn pos_in_sorted(xs: &[usize], x: usize) -> (r: usize)
    requires
        exists|j: int| 0 <= j < xs@.len() && xs@[j] == x,
    ensures
        r < xs@.len(),
        xs@[r as int] == x,
{
    let mut i: usize = 0;
    while i < xs.len()
        invariant
            i <= xs@.len(),
            exists|j: int| i <= j < xs@.len() && xs@[j] == x,
        decreases xs@.len() - i,
    {
        if xs[i] == x {
            return i;
        }
        i = i + 1;
    }
    proof {
        assert(false);
    }
    0
}

/// Open the batched per-layer proofs and fill each query's references: every
/// index is derived from the roots seed, every batch is the sorted unique set
/// of its layer's indices, and every proof opens the committed tree.
#[verifier::rlimit(100)]
#[verifier::spinoff_prover]
pub fn fri_prove_queries(st: &FriProverState, r: usize, roots_seed: &Fe) -> (res: (
    Vec<FriQueryOpenings>,
    Vec<Fe>,
    FriLayerBatches,
))
    requires
        st.transcript.layers@.len() == st.transcript.schedule@.len() + 1,
        forall|l: int|
            0 <= l < st.transcript.layers@.len() ==> (#[trigger] st.transcript.layers@[l]).committed(),
        forall|l: int|
            0 <= l < st.transcript.layers@.len() - 1 ==> (#[trigger] st.transcript.layers@[l]).m
                >= 1,
        1 <= r,
    ensures
        res.1@.len() == st.transcript.layers@.len(),
        forall|l: int|
            0 <= l < res.1@.len() ==> (#[trigger] res.1@[l]) == st.transcript.layers@[l].root,
        res.0@.len() == r,
        res.2.layers@.len() == st.transcript.schedule@.len(),
        forall|q: int|
            0 <= q < r ==> (#[trigger] res.0@[q]).per_layer_refs@.len()
                == st.transcript.schedule@.len(),
        forall|q: int, l: int|
            0 <= q < r && 0 <= l < st.transcript.schedule@.len() ==> {
                let rref = #[trigger] res.0@[q].per_layer_refs@[l];
                let lay = st.transcript.layers@[l];
                &&& rref.i as int == query_index_v(roots_seed@, l as nat, q as nat, lay.n as nat)
                &&& rref.parent_index as int == rref.i as int / (lay.m as int)
                &&& rref.child_pos < res.2.layers@[l].child_indices@.len()
                &&& res.2.layers@[l].child_indices@[rref.child_pos as int] == rref.i
                &&& rref.parent_pos < res.2.layers@[l].parent_indices@.len()
                &&& res.2.layers@[l].parent_indices@[rref.parent_pos as int] == rref.parent_index
            },
        forall|q: int|
            0 <= q < r ==> (#[trigger] res.0@[q]).final_index == 0 && res.0@[q].final_pair.0
                == st.transcript.layers@.last().f@[0] && res.0@[q].final_pair.1
                == st.transcript.layers@.last().s@[0],
        forall|l: int|
            0 <= l < res.2.layers@.len() ==> {
                let lb = #[trigger] res.2.layers@[l];
                let lay = st.transcript.layers@[l];
                let parent = st.transcript.layers@[l + 1];
                &&& lb.hashed_leaves == lay.hashed_leaves
                &&& usize_seq_v(lb.child_indices@) == sort_dedup_of(
                    Seq::new(r as nat, |q: int| query_index_v(roots_seed@, l as nat, q as nat, lay.n as nat)),
                )
                &&& usize_seq_v(lb.parent_indices@) == sort_dedup_of(
                    Seq::new(
                        r as nat,
                        |q: int|
                            query_index_v(roots_seed@, l as nat, q as nat, lay.n as nat) / (
                            lay.m as int),
                    ),
                )
                &&& usize_seq_v(lb.child_proof.indices@) == usize_seq_v(lb.child_indices@)
                &&& lb.child_proof.siblings_v() == crate::merkle::open_paths_v(
                    lay.tree.levels_v(),
                    usize_seq_v(lb.child_indices@),
                    lay.cfg.arity as int,
                    0,
                ).0
                &&& lb.child_proof.group_sizes_v() == crate::merkle::open_paths_v(
                    lay.tree.levels_v(),
                    usize_seq_v(lb.child_indices@),
                    lay.cfg.arity as int,
                    0,
                ).1
                &&& usize_seq_v(lb.parent_proof.indices@) == usize_seq_v(lb.parent_indices@)
                &&& lb.parent_proof.siblings_v() == crate::merkle::open_paths_v(
                    parent.tree.levels_v(),
                    usize_seq_v(lb.parent_indices@),
                    parent.cfg.arity as int,
                    0,
                ).0
                &&& lb.parent_proof.group_sizes_v() == crate::merkle::open_paths_v(
                    parent.tree.levels_v(),
                    usize_seq_v(lb.parent_indices@),
                    parent.cfg.arity as int,
                    0,
                ).1
            },
        usize_seq_v(res.2.final_proof.indices@) == seq![0int],
        res.2.final_proof.siblings_v() == crate::merkle::open_paths_v(
            st.transcript.layers@.last().tree.levels_v(),
            seq![0int],
            st.transcript.layers@.last().cfg.arity as int,
            0,
        ).0,
        res.2.final_proof.group_sizes_v() == crate::merkle::open_paths_v(
            st.transcript.layers@.last().tree.levels_v(),
            seq![0int],
            st.transcript.layers@.last().cfg.arity as int,
            0,
        ).1,
{
    proof {
        reveal(FriLayerCommitment::committed);
    }
    let big_l = st.transcript.schedule.len();
    let ghost rsv = roots_seed@;

    let mut layer_batches: Vec<LayerBatchProof> = Vec::new();
    let mut per_query_idx: Vec<Vec<usize>> = Vec::new();
    let mut q0: usize = 0;
    while q0 < r
        invariant
            q0 <= r,
            per_query_idx@.len() == q0,
            forall|q: int| 0 <= q < q0 ==> (#[trigger] per_query_idx@[q])@.len() == 0,
        decreases r - q0,
    {
        per_query_idx.push(Vec::new());
        q0 = q0 + 1;
    }

    let mut ell: usize = 0;
    while ell < big_l
        invariant
            ell <= big_l,
            big_l == st.transcript.schedule@.len(),
            rsv == roots_seed@,
            r >= 1,
            st.transcript.layers@.len() == big_l + 1,
            forall|l: int|
                0 <= l < st.transcript.layers@.len() ==> (
                #[trigger] st.transcript.layers@[l]).committed(),
            forall|l: int|
                0 <= l < big_l ==> (#[trigger] st.transcript.layers@[l]).m >= 1,
            per_query_idx@.len() == r,
            forall|q: int|
                0 <= q < r ==> (#[trigger] per_query_idx@[q])@.len() == ell,
            forall|q: int, l: int|
                0 <= q < r && 0 <= l < ell ==> #[trigger] per_query_idx@[q]@[l] as int
                    == query_index_v(rsv, l as nat, q as nat, st.transcript.layers@[l].n as nat),
            layer_batches@.len() == ell,
            forall|l: int|
                0 <= l < ell ==> {
                    let lb = #[trigger] layer_batches@[l];
                    let lay = st.transcript.layers@[l];
                    let parent = st.transcript.layers@[l + 1];
                    &&& lb.hashed_leaves == lay.hashed_leaves
                    &&& usize_seq_v(lb.child_indices@) == sort_dedup_of(
                        Seq::new(
                            r as nat,
                            |q: int| query_index_v(rsv, l as nat, q as nat, lay.n as nat),
                        ),
                    )
                    &&& usize_seq_v(lb.parent_indices@) == sort_dedup_of(
                        Seq::new(
                            r as nat,
                            |q: int|
                                query_index_v(rsv, l as nat, q as nat, lay.n as nat) / (
                                lay.m as int),
                        ),
                    )
                    &&& usize_seq_v(lb.child_proof.indices@) == usize_seq_v(lb.child_indices@)
                    &&& lb.child_proof.siblings_v() == crate::merkle::open_paths_v(
                        lay.tree.levels_v(),
                        usize_seq_v(lb.child_indices@),
                        lay.cfg.arity as int,
                        0,
                    ).0
                    &&& lb.child_proof.group_sizes_v() == crate::merkle::open_paths_v(
                        lay.tree.levels_v(),
                        usize_seq_v(lb.child_indices@),
                        lay.cfg.arity as int,
                        0,
                    ).1
                    &&& usize_seq_v(lb.parent_proof.indices@) == usize_seq_v(lb.parent_indices@)
                    &&& lb.parent_proof.siblings_v() == crate::merkle::open_paths_v(
                        parent.tree.levels_v(),
                        usize_seq_v(lb.parent_indices@),
                        parent.cfg.arity as int,
                        0,
                    ).0
                    &&& lb.parent_proof.group_sizes_v() == crate::merkle::open_paths_v(
                        parent.tree.levels_v(),
                        usize_seq_v(lb.parent_indices@),
                        parent.cfg.arity as int,
                        0,
                    ).1
                },
        decreases big_l - ell,
    {
        proof {
            reveal(FriLayerCommitment::committed);
            assert(st.transcript.layers@[ell as int].committed());
        }
        let lay_n = {
            let lay = &st.transcript.layers[ell];
            lay.n
        };
        let mut child_bucket: Vec<usize> = Vec::new();
        let mut parent_bucket: Vec<usize> = Vec::new();
        let m_ell = st.transcript.layers[ell].m;
        let mut q: usize = 0;
        while q < r
            invariant
                q <= r,
                rsv == roots_seed@,
                ell < big_l,
                big_l == st.transcript.schedule@.len(),
                st.transcript.layers@.len() == big_l + 1,
                lay_n == st.transcript.layers@[ell as int].n,
                lay_n >= 1,
                m_ell == st.transcript.layers@[ell as int].m,
                m_ell >= 1,
                per_query_idx@.len() == r,
                forall|qq: int|
                    0 <= qq < r ==> (#[trigger] per_query_idx@[qq])@.len() == (if qq < q {
                        ell + 1
                    } else {
                        ell as int
                    }),
                forall|qq: int, l: int|
                    0 <= qq < r && 0 <= l < ell ==> #[trigger] per_query_idx@[qq]@[l] as int
                        == query_index_v(rsv, l as nat, qq as nat, st.transcript.layers@[l].n as nat),
                forall|qq: int|
                    0 <= qq < q ==> (#[trigger] per_query_idx@[qq])@[ell as int] as int
                        == query_index_v(rsv, ell as nat, qq as nat, lay_n as nat),
                child_bucket@.len() == q,
                parent_bucket@.len() == q,
                forall|qq: int|
                    0 <= qq < q ==> (#[trigger] child_bucket@[qq]) as int == query_index_v(
                        rsv,
                        ell as nat,
                        qq as nat,
                        lay_n as nat,
                    ),
                forall|qq: int|
                    0 <= qq < q ==> (#[trigger] parent_bucket@[qq]) as int == query_index_v(
                        rsv,
                        ell as nat,
                        qq as nat,
                        lay_n as nat,
                    ) / (m_ell as int),
            decreases r - q,
        {
            proof {
                reveal(FriLayerCommitment::committed);
            }
            let i = fri_query_index(roots_seed, ell, q, lay_n);
            let b = i / m_ell;
            child_bucket.push(i);
            parent_bucket.push(b);
            let ghost pre = per_query_idx@[q as int]@;
            let mut row = core_take_row(&mut per_query_idx, q);
            row.push(i);
            core_put_row(&mut per_query_idx, q, row);
            q = q + 1;
        }
        let child_idx = crate::merkle::sort_dedup(child_bucket.as_slice());
        let parent_idx = crate::merkle::sort_dedup(parent_bucket.as_slice());
        proof {
            assert(usize_seq_v(child_bucket@) =~= Seq::new(
                r as nat,
                |qq: int| query_index_v(rsv, ell as nat, qq as nat, lay_n as nat),
            ));
            assert(usize_seq_v(parent_bucket@) =~= Seq::new(
                r as nat,
                |qq: int|
                    query_index_v(rsv, ell as nat, qq as nat, lay_n as nat) / (m_ell as int),
            ));
        }
        proof {
            crate::merkle::lemma_sort_dedup_of(usize_seq_v(child_bucket@));
            crate::merkle::lemma_sort_dedup_of(usize_seq_v(parent_bucket@));
            assert(usize_seq_v(child_bucket@).contains(usize_seq_v(child_bucket@)[0]));
            assert(sort_dedup_of(usize_seq_v(child_bucket@)).contains(
                usize_seq_v(child_bucket@)[0],
            ));
            assert(child_idx@.len() >= 1);
            assert(usize_seq_v(parent_bucket@).contains(usize_seq_v(parent_bucket@)[0]));
            assert(sort_dedup_of(usize_seq_v(parent_bucket@)).contains(
                usize_seq_v(parent_bucket@)[0],
            ));
            assert(parent_idx@.len() >= 1);
        }
        let child_proof = st.transcript.layers[ell].tree.open_union_of_paths(
            child_idx.as_slice(),
        );
        let parent_proof = st.transcript.layers[ell + 1].tree.open_union_of_paths(
            parent_idx.as_slice(),
        );
        proof {
            crate::merkle::lemma_sort_dedup_identity(usize_seq_v(child_idx@));
            crate::merkle::lemma_sort_dedup_identity(usize_seq_v(parent_idx@));
            crate::merkle::lemma_sort_dedup_of(usize_seq_v(child_bucket@));
            crate::merkle::lemma_sort_dedup_of(usize_seq_v(parent_bucket@));
        }
        let lb = LayerBatchProof {
            hashed_leaves: st.transcript.layers[ell].hashed_leaves,
            child_indices: child_idx,
            child_proof,
            parent_indices: parent_idx,
            parent_proof,
        };
        layer_batches.push(lb);
        ell = ell + 1;
    }

    let last_li = st.transcript.layers.len() - 1;
    let mut last_indices: Vec<usize> = Vec::new();
    last_indices.push(0);
    proof {
        assert(st.transcript.layers@.last().committed());
        assert(usize_seq_v(last_indices@) =~= seq![0int]);
        crate::merkle::lemma_sort_dedup_identity(seq![0int]);
    }
    let final_proof = st.transcript.layers[last_li].tree.open_union_of_paths(
        last_indices.as_slice(),
    );

    let mut all_refs: Vec<FriQueryOpenings> = Vec::new();
    let mut q2: usize = 0;
    while q2 < r
        invariant
            q2 <= r,
            rsv == roots_seed@,
            r >= 1,
            big_l == st.transcript.schedule@.len(),
            st.transcript.layers@.len() == big_l + 1,
            forall|l: int|
                0 <= l < st.transcript.layers@.len() ==> (
                #[trigger] st.transcript.layers@[l]).committed(),
            forall|l: int|
                0 <= l < big_l ==> (#[trigger] st.transcript.layers@[l]).m >= 1,
            per_query_idx@.len() == r,
            forall|qq: int|
                0 <= qq < r ==> (#[trigger] per_query_idx@[qq])@.len() == big_l,
            forall|qq: int, l: int|
                0 <= qq < r && 0 <= l < big_l ==> #[trigger] per_query_idx@[qq]@[l] as int
                    == query_index_v(rsv, l as nat, qq as nat, st.transcript.layers@[l].n as nat),
            layer_batches@.len() == big_l,
            forall|l: int|
                0 <= l < big_l ==> usize_seq_v(
                    (#[trigger] layer_batches@[l]).child_indices@,
                ) == sort_dedup_of(
                    Seq::new(
                        r as nat,
                        |qq: int|
                            query_index_v(
                                rsv,
                                l as nat,
                                qq as nat,
                                st.transcript.layers@[l].n as nat,
                            ),
                    ),
                ) && usize_seq_v(layer_batches@[l].parent_indices@) == sort_dedup_of(
                    Seq::new(
                        r as nat,
                        |qq: int|
                            query_index_v(
                                rsv,
                                l as nat,
                                qq as nat,
                                st.transcript.layers@[l].n as nat,
                            ) / (st.transcript.layers@[l].m as int),
                    ),
                ),
            last_li as int == st.transcript.layers@.len() - 1,
            all_refs@.len() == q2,
            forall|qq: int|
                0 <= qq < q2 ==> (#[trigger] all_refs@[qq]).per_layer_refs@.len() == big_l
                    && all_refs@[qq].final_index == 0 && all_refs@[qq].final_pair.0
                    == st.transcript.layers@.last().f@[0] && all_refs@[qq].final_pair.1
                    == st.transcript.layers@.last().s@[0],
            forall|qq: int, l: int|
                0 <= qq < q2 && 0 <= l < big_l ==> {
                    let rref = #[trigger] all_refs@[qq].per_layer_refs@[l];
                    let lay = st.transcript.layers@[l];
                    &&& rref.i as int == query_index_v(rsv, l as nat, qq as nat, lay.n as nat)
                    &&& rref.parent_index as int == rref.i as int / (lay.m as int)
                    &&& rref.child_pos < layer_batches@[l].child_indices@.len()
                    &&& layer_batches@[l].child_indices@[rref.child_pos as int] == rref.i
                    &&& rref.parent_pos < layer_batches@[l].parent_indices@.len()
                    &&& layer_batches@[l].parent_indices@[rref.parent_pos as int]
                        == rref.parent_index
                },
        decreases r - q2,
    {
        proof {
            reveal(FriLayerCommitment::committed);
        }
        let mut refs: Vec<LayerQueryRef> = Vec::new();
        let mut l2: usize = 0;
        while l2 < big_l
            invariant
                l2 <= big_l,
                q2 < r,
                rsv == roots_seed@,
                big_l == st.transcript.schedule@.len(),
                st.transcript.layers@.len() == big_l + 1,
                forall|l: int|
                    0 <= l < big_l ==> (#[trigger] st.transcript.layers@[l]).m >= 1,
                per_query_idx@.len() == r,
                forall|qq: int|
                    0 <= qq < r ==> (#[trigger] per_query_idx@[qq])@.len() == big_l,
                forall|qq: int, l: int|
                    0 <= qq < r && 0 <= l < big_l ==> #[trigger] per_query_idx@[qq]@[l] as int
                        == query_index_v(
                        rsv,
                        l as nat,
                        qq as nat,
                        st.transcript.layers@[l].n as nat,
                    ),
                layer_batches@.len() == big_l,
                forall|l: int|
                    0 <= l < big_l ==> usize_seq_v(
                        (#[trigger] layer_batches@[l]).child_indices@,
                    ) == sort_dedup_of(
                        Seq::new(
                            r as nat,
                            |qq: int|
                                query_index_v(
                                    rsv,
                                    l as nat,
                                    qq as nat,
                                    st.transcript.layers@[l].n as nat,
                                ),
                        ),
                    ) && usize_seq_v(layer_batches@[l].parent_indices@) == sort_dedup_of(
                        Seq::new(
                            r as nat,
                            |qq: int|
                                query_index_v(
                                    rsv,
                                    l as nat,
                                    qq as nat,
                                    st.transcript.layers@[l].n as nat,
                                ) / (st.transcript.layers@[l].m as int),
                        ),
                    ),
                refs@.len() == l2,
                forall|l: int|
                    0 <= l < l2 ==> {
                        let rref = #[trigger] refs@[l];
                        let lay = st.transcript.layers@[l];
                        &&& rref.i as int == query_index_v(rsv, l as nat, q2 as nat, lay.n as nat)
                        &&& rref.parent_index as int == rref.i as int / (lay.m as int)
                        &&& rref.child_pos < layer_batches@[l].child_indices@.len()
                        &&& layer_batches@[l].child_indices@[rref.child_pos as int] == rref.i
                        &&& rref.parent_pos < layer_batches@[l].parent_indices@.len()
                        &&& layer_batches@[l].parent_indices@[rref.parent_pos as int]
                            == rref.parent_index
                    },
            decreases big_l - l2,
        {
            proof {
                reveal(FriLayerCommitment::committed);
            }
            let i = per_query_idx[q2][l2];
            let m_l = st.transcript.layers[l2].m;
            let b = i / m_l;
            proof {
                let whole = Seq::new(
                    r as nat,
                    |qq: int|
                        query_index_v(
                            rsv,
                            l2 as nat,
                            qq as nat,
                            st.transcript.layers@[l2 as int].n as nat,
                        ),
                );
                crate::merkle::lemma_sort_dedup_of(whole);
                assert(whole[q2 as int] == i as int);
                assert(whole.contains(i as int));
                assert(sort_dedup_of(whole).contains(i as int));
                let cj = choose|j: int|
                    0 <= j < sort_dedup_of(whole).len() && sort_dedup_of(whole)[j] == i as int;
                assert(usize_seq_v(layer_batches@[l2 as int].child_indices@)[cj] == i as int);
                assert(layer_batches@[l2 as int].child_indices@[cj] == i);
                assert(exists|j: int|
                    0 <= j < layer_batches@[l2 as int].child_indices@.len()
                        && layer_batches@[l2 as int].child_indices@[j] == i);
                let pwhole = Seq::new(
                    r as nat,
                    |qq: int|
                        query_index_v(
                            rsv,
                            l2 as nat,
                            qq as nat,
                            st.transcript.layers@[l2 as int].n as nat,
                        ) / (st.transcript.layers@[l2 as int].m as int),
                );
                crate::merkle::lemma_sort_dedup_of(pwhole);
                assert(pwhole[q2 as int] == b as int);
                assert(pwhole.contains(b as int));
                assert(sort_dedup_of(pwhole).contains(b as int));
                let pj = choose|j: int|
                    0 <= j < sort_dedup_of(pwhole).len() && sort_dedup_of(pwhole)[j] == b as int;
                assert(usize_seq_v(layer_batches@[l2 as int].parent_indices@)[pj] == b as int);
                assert(layer_batches@[l2 as int].parent_indices@[pj] == b);
                assert(exists|j: int|
                    0 <= j < layer_batches@[l2 as int].parent_indices@.len()
                        && layer_batches@[l2 as int].parent_indices@[j] == b);
            }
            let cpos = pos_in_sorted(layer_batches[l2].child_indices.as_slice(), i);
            let ppos = pos_in_sorted(layer_batches[l2].parent_indices.as_slice(), b);
            refs.push(LayerQueryRef { i, child_pos: cpos, parent_index: b, parent_pos: ppos });
            l2 = l2 + 1;
        }
        let last = &st.transcript.layers[last_li];
        proof {
            assert(st.transcript.layers@.last().committed());
        }
        let fp = (last.f[0], last.s[0]);
        all_refs.push(FriQueryOpenings { per_layer_refs: refs, final_index: 0, final_pair: fp });
        q2 = q2 + 1;
    }

    let mut roots: Vec<Fe> = Vec::new();
    let mut l3: usize = 0;
    while l3 < st.transcript.layers.len()
        invariant
            l3 <= st.transcript.layers@.len(),
            roots@.len() == l3,
            forall|l: int|
                0 <= l < l3 ==> (#[trigger] roots@[l]) == st.transcript.layers@[l].root,
        decreases st.transcript.layers@.len() - l3,
    {
        roots.push(st.transcript.layers[l3].root);
        l3 = l3 + 1;
    }

    (all_refs, roots, FriLayerBatches { layers: layer_batches, final_proof })
}

/// Take one row out of the table of per-query indices.
fn core_take_row(table: &mut Vec<Vec<usize>>, q: usize) -> (r: Vec<usize>)
    requires
        q < old(table)@.len(),
    ensures
        r@ == old(table)@[q as int]@,
        final(table)@.len() == old(table)@.len(),
        forall|k: int|
            0 <= k < final(table)@.len() && k != q ==> (#[trigger] final(table)@[k])
                == old(table)@[k],
{
    let mut row: Vec<usize> = Vec::new();
    table.set_and_swap(q, &mut row);
    row
}

/// Put one row back into the table.
fn core_put_row(table: &mut Vec<Vec<usize>>, q: usize, row: Vec<usize>)
    requires
        q < old(table)@.len(),
    ensures
        final(table)@.len() == old(table)@.len(),
        final(table)@[q as int]@ == row@,
        forall|k: int|
            0 <= k < final(table)@.len() && k != q ==> (#[trigger] final(table)@[k])
                == old(table)@[k],
{
    let mut r = row;
    table.set_and_swap(q, &mut r);
}

pub type AliA = Vec<Fe>;

pub type AliS = Vec<Fe>;

pub type AliE = Vec<Fe>;

pub type AliT = Vec<Fe>;

/// How the first FRI column is built from the public inputs. Implementations
/// promise the column's length; their exact content is their own. The
/// preconditions are the caller-bug conditions: aligned input lengths and a
/// domain whose generator spans the evaluation grid.
pub trait DeepAliBuilder {
    fn build_f0(&self, a: &AliA, s: &AliS, e: &AliE, t: &AliT, n0: usize, domain: FriDomain) -> (r:
        Vec<Fe>)
        requires
            a@.len() == n0,
            s@.len() == n0,
            e@.len() == n0,
            t@.len() == n0,
            domain.size == n0,
            1 <= n0,
            f_pow(domain.omega@, n0 as nat) == 1,
        ensures
            r@.len() == n0,
    ;
}

/// A seeded stand-in builder: the column is drawn from a stream keyed by a
/// hash of all inputs.
#[derive(Clone, Copy, Debug)]
pub struct DeepAliMock;

/// Hash a tagged batch of field elements.
pub fn tr_hash_many(tag: &[u8], xs: &[Fe]) -> (r: Fe)
    ensures
        r@ == fs_hash_v(tag@, fe_seq_v(xs@)),
{
    tr_hash_fields_tagged(tag, xs)
}

impl DeepAliBuilder for DeepAliMock {
    fn build_f0(&self, a: &AliA, s: &AliS, e: &AliE, t: &AliT, n0: usize, _domain: FriDomain) -> (r:
        Vec<Fe>)
    {
        let ha = tr_hash_fields_tagged("ALI/a".as_bytes(), a.as_slice());
        let hs = tr_hash_fields_tagged("ALI/s".as_bytes(), s.as_slice());
        let he = tr_hash_fields_tagged("ALI/e".as_bytes(), e.as_slice());
        let ht = tr_hash_fields_tagged("ALI/t".as_bytes(), t.as_slice());
        let mut fields: Vec<Fe> = Vec::new();
        fields.push(ha);
        fields.push(hs);
        fields.push(he);
        fields.push(ht);
        fields.push(Fe::from_u64(n0 as u64));
        let seed_f = tr_hash_fields_tagged("ALI/mock/seed".as_bytes(), fields.as_slice());
        let seed_bytes = fe_to_bytes32(&seed_f);
        let mut rng = SeededRng::from_seed_bytes(&seed_bytes);
        let mut out: Vec<Fe> = Vec::new();
        let mut i: usize = 0;
        while i < n0
            invariant
                i <= n0,
                out@.len() == i,
            decreases n0 - i,
        {
            let w = rng.next_u64();
            out.push(Fe::from_u64(w));
            i = i + 1;
        }
        out
    }
}

/// The input-bound seed the real builder derives its substitution point from.
pub open spec fn ali_seed_of(a: Seq<int>, s: Seq<int>, e: Seq<int>, t: Seq<int>, n0: nat) -> int {
    fs_hash_v(
        "ALI/seed".spec_bytes(),
        seq![
            fs_hash_v("ALI/A".spec_bytes(), a),
            fs_hash_v("ALI/S".spec_bytes(), s),
            fs_hash_v("ALI/E".spec_bytes(), e),
            fs_hash_v("ALI/T".spec_bytes(), t),
            n0 as int,
        ],
    )
}

/// The substitution point the tagged sampler settles on.
pub open spec fn ali_z_of(tag: Seq<u8>, n0: nat, seed: int) -> int {
    ali_z_try_v(le32_of(fs_hash_v(tag, seq![seed, n0 as int])), n0, seed, 1, 1000)
}

/// The blinding scalar the tagged sampler settles on.
pub open spec fn ali_beta_of(tag: Seq<u8>, n0: nat, seed: int) -> int {
    rng_word(le32_of(fs_hash_v(tag, seq![seed, n0 as int])), 0) as int
}

/// Candidates for the DEEP-ALI substitution point, with budget and fallbacks.
pub open spec fn ali_z_try_v(sb: Seq<u8>, n0: nat, roots_seed: int, k: nat, fuel: nat) -> int
    decreases fuel,
{
    if fuel == 0 {
        let fb = f_add(roots_seed, 17);
        if f_pow(fb, n0) != 1 {
            fb
        } else {
            19
        }
    } else {
        let c = rng_word(sb, k) as int;
        if c != 0 && f_pow(c, n0) != 1 {
            c
        } else {
            ali_z_try_v(sb, n0, roots_seed, k + 1, (fuel - 1) as nat)
        }
    }
}

/// Deterministically derive (z, beta) for the DEEP-ALI merge from a seed.
pub fn ali_sample_z_beta_fs(tag: &[u8], n0: usize, roots_seed: &Fe) -> (r: (Fe, Fe))
    ensures
        ({
            let fused = fs_hash_v(tag@, seq![roots_seed@, n0 as int]);
            let sb = le32_of(fused);
            r.1@ == rng_word(sb, 0) as int && r.0@ == ali_z_try_v(sb, n0 as nat, roots_seed@, 1, 1000)
        }),
{
    let mut fields: Vec<Fe> = Vec::new();
    fields.push(*roots_seed);
    fields.push(Fe::from_u64(n0 as u64));
    proof {
        assert(fe_seq_v(fields@) =~= seq![roots_seed@, n0 as int]);
    }
    let fused = tr_hash_fields_tagged(tag, fields.as_slice());
    let seed_bytes = fe_to_bytes32(&fused);
    let mut rng = SeededRng::from_seed_bytes(&seed_bytes);
    let ghost sb = le32_of(fused@);
    let beta_w = rng.next_u64();
    let beta = Fe::from_u64(beta_w);
    let mut tries: usize = 0;
    while tries < 1000
        invariant
            tries <= 1000,
            rng.seed() == sb,
            rng.drawn() == 1 + tries,
            beta@ == rng_word(sb, 0) as int,
            sb == le32_of(fs_hash_v(tag@, seq![roots_seed@, n0 as int])),
            ali_z_try_v(sb, n0 as nat, roots_seed@, 1, 1000) == ali_z_try_v(
                sb,
                n0 as nat,
                roots_seed@,
                (1 + tries) as nat,
                (1000 - tries) as nat,
            ),
        decreases 1000 - tries,
    {
        let w = rng.next_u64();
        let cand = Fe::from_u64(w);
        if !cand.is_zero() {
            let cn = cand.pow_u64(n0 as u64);
            let one = Fe::one();
            let is_root = cn == one;
            proof {
                use_type_invariant(cn);
                use_type_invariant(one);
                if cn@ == one@ {
                    lemma_view_injective(cn, one);
                }
            }
            if !is_root {
                return (cand, beta);
            }
        }
        tries = tries + 1;
    }
    let seventeen = Fe::from_u64(17);
    let fb = fe_add(roots_seed, &seventeen);
    let fbn = fb.pow_u64(n0 as u64);
    let one = Fe::one();
    let fb_is_root = fbn == one;
    proof {
        use_type_invariant(fbn);
        use_type_invariant(one);
        if fbn@ == one@ {
            lemma_view_injective(fbn, one);
        }
    }
    if !fb_is_root {
        (fb, beta)
    } else {
        (Fe::from_u64(19), beta)
    }
}

/// The opened values for one query at one layer.
#[derive(Clone, Copy, Debug)]
pub struct LayerOpenPayload {
    pub f_i: Fe,
    pub s_i: Fe,
    pub f_parent_b: Fe,
    pub s_parent_b: Fe,
}

pub struct FriQueryPayload {
    pub per_layer_refs: Vec<LayerQueryRef>,
    pub per_layer_payloads: Vec<LayerOpenPayload>,
    pub final_index: usize,
    pub final_pair: (Fe, Fe),
}

pub struct DeepFriParams {
    pub schedule: Vec<usize>,
    pub r: usize,
    pub seed_z: u64,
}

pub struct DeepFriProof {
    pub roots: Vec<Fe>,
    pub layer_batches: FriLayerBatches,
    pub queries: Vec<FriQueryPayload>,
    pub n0: usize,
    pub omega0: Fe,
}

/// A parameter set for the given width; all such sets share their views, so
/// any witness fixes the verifier's hashing.
pub open spec fn canon_wparams(t: nat) -> PoseidonParamsDynamic {
    choose|p: PoseidonParamsDynamic| crate::poseidon::params_for_width_v(p, t)
}

/// The payload the verifier adopts for a child index: the first query that
/// opened it.
pub open spec fn child_lookup_v(
    queries: Seq<FriQueryPayload>,
    l: int,
    idx: int,
    q: nat,
) -> Option<(int, int)>
    decreases queries.len() - q,
{
    if q >= queries.len() {
        None
    } else if queries[q as int].per_layer_refs@[l].i as int == idx {
        Some(
            (
                queries[q as int].per_layer_payloads@[l].f_i@,
                queries[q as int].per_layer_payloads@[l].s_i@,
            ),
        )
    } else {
        child_lookup_v(queries, l, idx, q + 1)
    }
}

/// The payload the verifier adopts for a parent index.
pub open spec fn parent_lookup_v(
    queries: Seq<FriQueryPayload>,
    l: int,
    idx: int,
    q: nat,
) -> Option<(int, int)>
    decreases queries.len() - q,
{
    if q >= queries.len() {
        None
    } else if queries[q as int].per_layer_refs@[l].parent_index as int == idx {
        Some(
            (
                queries[q as int].per_layer_payloads@[l].f_parent_b@,
                queries[q as int].per_layer_payloads@[l].s_parent_b@,
            ),
        )
    } else {
        parent_lookup_v(queries, l, idx, q + 1)
    }
}

/// Whether every index of a batch was opened by some query.
pub open spec fn all_covered_v(
    queries: Seq<FriQueryPayload>,
    l: int,
    idxs: Seq<int>,
    parent: bool,
) -> bool {
    forall|k: int|
        0 <= k < idxs.len() ==> (if parent {
            parent_lookup_v(queries, l, #[trigger] idxs[k], 0)
        } else {
            child_lookup_v(queries, l, idxs[k], 0)
        }) is Some
}

/// The adopted pair for each batch index (zero where none was opened).
pub open spec fn batch_pairs_v(
    queries: Seq<FriQueryPayload>,
    l: int,
    idxs: Seq<int>,
    parent: bool,
) -> (Seq<int>, Seq<int>) {
    (
        Seq::new(
            idxs.len(),
            |k: int|
                match (if parent {
                    parent_lookup_v(queries, l, idxs[k], 0)
                } else {
                    child_lookup_v(queries, l, idxs[k], 0)
                }) {
                    Some(p) => p.0,
                    None => 0,
                },
        ),
        Seq::new(
            idxs.len(),
            |k: int|
                match (if parent {
                    parent_lookup_v(queries, l, idxs[k], 0)
                } else {
                    child_lookup_v(queries, l, idxs[k], 0)
                }) {
                    Some(p) => p.1,
                    None => 0,
                },
        ),
    )
}

/// One side of one layer verified: the adopted values hashed as the arity
/// demands and checked against the root.
pub open spec fn side_ok_v(
    queries: Seq<FriQueryPayload>,
    l: int,
    label: nat,
    root: int,
    idxs: Seq<int>,
    prf: MerkleProof,
    nsize: int,
    msize: int,
    parent: bool,
) -> bool {
    let ar = pick_arity_v(nsize, msize);
    let hashed = ar == 16 || ar == 8;
    let p = canon_wparams(crate::poseidon::width_for_arity(ar as nat));
    let pairs = batch_pairs_v(queries, l, idxs, parent);
    &&& all_covered_v(queries, l, idxs, parent)
    &&& if hashed {
        verify_many_ds_v(
            root,
            idxs,
            Seq::new(idxs.len(), |k: int| leaf_pair_v(pairs.0[k], pairs.1[k])),
            prf,
            label as u64,
            p,
        )
    } else {
        verify_pairs_ds_v(root, idxs, pairs.0, pairs.1, prf, label as u64, p)
    }
}

/// Every layer's child and parent batches verified.
pub open spec fn layers_ok_v(
    sched: Seq<int>,
    sizes: Seq<int>,
    roots: Seq<int>,
    lbs: Seq<LayerBatchProof>,
    queries: Seq<FriQueryPayload>,
    l: nat,
) -> bool
    decreases sched.len() - l,
{
    if l >= sched.len() {
        true
    } else {
        let lb = lbs[l as int];
        let child_ok = side_ok_v(
            queries,
            l as int,
            l,
            roots[l as int],
            usize_seq_v(lb.child_indices@),
            lb.child_proof,
            sizes[l as int],
            sched[l as int],
            false,
        );
        let parent_m: int = if l + 1 < sched.len() {
            sched[l as int + 1]
        } else {
            1
        };
        let parent_ok = side_ok_v(
            queries,
            l as int,
            l + 1,
            roots[l as int + 1],
            usize_seq_v(lb.parent_indices@),
            lb.parent_proof,
            sizes[l as int + 1],
            parent_m,
            true,
        );
        child_ok && parent_ok && layers_ok_v(sched, sizes, roots, lbs, queries, l + 1)
    }
}

/// Dividing schedules keep every layer size positive.
pub proof fn lemma_sizes_pos(n0: int, sched: Seq<int>)
    requires
        divides_chain(n0, sched),
        n0 >= 1,
    ensures
        forall|i: int| 0 <= i < sizes_v(n0, sched).len() ==> #[trigger] sizes_v(n0, sched)[i] >= 1,
    decreases sched.len(),
{
    if sched.len() == 0 {
    } else {
        let m = sched[0];
        assert(n0 >= m) by {
            if n0 < m {
                vstd::arithmetic::div_mod::lemma_small_mod(n0 as nat, m as nat);
            }
        }
        assert(n0 / m >= 1) by {
            vstd::arithmetic::div_mod::lemma_fundamental_div_mod(n0, m);
            vstd::arithmetic::div_mod::lemma_mod_bound(n0, m);
            if n0 / m < 1 {
                vstd::arithmetic::mul::lemma_mul_is_commutative(m, n0 / m);
                vstd::arithmetic::mul::lemma_mul_inequality(n0 / m, 0, m);
            }
        }
        lemma_sizes_pos(n0 / m, sched.drop_first());
        assert forall|i: int|
            0 <= i < sizes_v(n0, sched).len() implies #[trigger] sizes_v(n0, sched)[i] >= 1 by {
            if i > 0 {
                assert(sizes_v(n0, sched)[i] == sizes_v(n0 / m, sched.drop_first())[i - 1]);
            }
        }
    }
}

/// Every query's opened indices are exactly the ones the roots-bound
/// transcript derives.
pub open spec fn indices_ok_v(
    sched: Seq<int>,
    sizes: Seq<int>,
    roots: Seq<int>,
    queries: Seq<FriQueryPayload>,
) -> bool {
    forall|q: int, l: int|
        0 <= q < queries.len() && 0 <= l < sched.len() ==> {
            let rref = #[trigger] queries[q].per_layer_refs@[l];
            rref.i as int == query_index_v(
                roots_seed_v(roots),
                l as nat,
                q as nat,
                sizes[l] as nat,
            ) && rref.parent_index as int == rref.i as int / sched[l]
        }
}

/// Every query's local fold predicate at every layer.
pub open spec fn locals_ok_v(
    sched: Seq<int>,
    sizes: Seq<int>,
    queries: Seq<FriQueryPayload>,
) -> bool {
    forall|q: int, l: int|
        0 <= q < queries.len() && 0 <= l < sched.len() ==> {
            let rref = #[trigger] queries[q].per_layer_refs@[l];
            let pay = queries[q].per_layer_payloads@[l];
            local_check_v(rref.i as int, sched[l] as nat, sizes[l], pay.s_i@, pay.f_parent_b@)
        }
}

/// The final layer's opened pair verified at index 0 under the last root.
pub open spec fn final_ok_v(
    sched: Seq<int>,
    sizes: Seq<int>,
    roots: Seq<int>,
    final_proof: MerkleProof,
    queries: Seq<FriQueryPayload>,
) -> bool {
    let ll = sched.len() as int;
    let ar = pick_arity_v(sizes[ll], 1);
    let hashed = ar == 16 || ar == 8;
    let p = canon_wparams(crate::poseidon::width_for_arity(ar as nat));
    let fp = queries[0].final_pair;
    &&& queries[0].final_index == 0
    &&& if hashed {
        verify_many_ds_v(
            roots[ll],
            seq![0int],
            seq![leaf_pair_v(fp.0@, fp.1@)],
            final_proof,
            ll as u64,
            p,
        )
    } else {
        verify_pairs_ds_v(
            roots[ll],
            seq![0int],
            seq![fp.0@],
            seq![fp.1@],
            final_proof,
            ll as u64,
            p,
        )
    }
}

/// What DEEP-FRI verification accepts: well-shaped input whose opened indices
/// are the roots-derived ones and whose batches, local predicates and final
/// opening all check out.
pub open spec fn deep_fri_verify_v(params: DeepFriParams, proof: DeepFriProof) -> bool {
    let sched = usize_seq_v(params.schedule@);
    let ll = sched.len();
    let sizes = sizes_v(proof.n0 as int, sched);
    let roots = fe_seq_v(proof.roots@);
    &&& proof.roots@.len() == ll + 1
    &&& proof.layer_batches.layers@.len() == ll
    &&& proof.queries@.len() == params.r
    &&& params.r >= 1
    &&& proof.n0 >= 1
    &&& divides_chain(proof.n0 as int, sched)
    &&& forall|q: int|
        0 <= q < params.r ==> (#[trigger] proof.queries@[q]).per_layer_refs@.len() == ll
            && proof.queries@[q].per_layer_payloads@.len() == ll
    &&& indices_ok_v(sched, sizes, roots, proof.queries@)
    &&& layers_ok_v(sched, sizes, roots, proof.layer_batches.layers@, proof.queries@, 0)
    &&& locals_ok_v(sched, sizes, proof.queries@)
    &&& final_ok_v(sched, sizes, roots, proof.layer_batches.final_proof, proof.queries@)
}

/// Whether every schedule entry is at least 2 and divides what is left.
pub fn divides_chain_check(n0: usize, schedule: &[usize]) -> (r: bool)
    ensures
        r == divides_chain(n0 as int, usize_seq_v(schedule@)),
    decreases schedule@.len(),
{
    if schedule.len() == 0 {
        true
    } else {
        let m = schedule[0];
        if m < 2 || n0 % m != 0 {
            false
        } else {
            let r = divides_chain_check(
                n0 / m,
                vstd::slice::slice_subrange(schedule, 1, schedule.len()),
            );
            proof {
                assert(usize_seq_v(schedule@).drop_first() =~= usize_seq_v(
                    schedule@.subrange(1, schedule@.len() as int),
                ));
            }
            r
        }
    }
}

/// The first query that opened this index at this layer, if any.
fn payload_lookup(queries: &Vec<FriQueryPayload>, l: usize, idx: usize, parent: bool) -> (r:
    Option<(Fe, Fe)>)
    requires
        forall|q: int|
            0 <= q < queries@.len() ==> (#[trigger] queries@[q]).per_layer_refs@.len() > l
                && queries@[q].per_layer_payloads@.len() > l,
    ensures
        ({
            let sp = if parent {
                parent_lookup_v(queries@, l as int, idx as int, 0)
            } else {
                child_lookup_v(queries@, l as int, idx as int, 0)
            };
            match r {
                Some(p) => sp is Some && p.0@ == sp->Some_0.0 && p.1@ == sp->Some_0.1,
                None => sp is None,
            }
        }),
{
    let ghost sp = if parent {
        parent_lookup_v(queries@, l as int, idx as int, 0)
    } else {
        child_lookup_v(queries@, l as int, idx as int, 0)
    };
    let n = queries.len();
    let mut q: usize = 0;
    while q < n
        invariant
            q <= n,
            n == queries@.len(),
            forall|qq: int|
                0 <= qq < queries@.len() ==> (#[trigger] queries@[qq]).per_layer_refs@.len() > l
                    && queries@[qq].per_layer_payloads@.len() > l,
            sp == (if parent {
                parent_lookup_v(queries@, l as int, idx as int, 0)
            } else {
                child_lookup_v(queries@, l as int, idx as int, 0)
            }),
            sp == (if parent {
                parent_lookup_v(queries@, l as int, idx as int, q as nat)
            } else {
                child_lookup_v(queries@, l as int, idx as int, q as nat)
            }),
        decreases n - q,
    {
        let rref = queries[q].per_layer_refs[l];
        let hit = if parent {
            rref.parent_index == idx
        } else {
            rref.i == idx
        };
        if hit {
            let pay = queries[q].per_layer_payloads[l];
            if parent {
                return Some((pay.f_parent_b, pay.s_parent_b));
            } else {
                return Some((pay.f_i, pay.s_i));
            }
        }
        q = q + 1;
    }
    None
}

/// Check one side of one layer: adopt the opened values for every batch index
/// and verify them against the root under the derived arity.
fn check_side(
    queries: &Vec<FriQueryPayload>,
    l: usize,
    label: usize,
    root: &Fe,
    idxs: &Vec<usize>,
    prf: &MerkleProof,
    nsize: usize,
    msize: usize,
    parent: bool,
) -> (r: bool)
    requires
        forall|q: int|
            0 <= q < queries@.len() ==> (#[trigger] queries@[q]).per_layer_refs@.len() > l
                && queries@[q].per_layer_payloads@.len() > l,
    ensures
        r == side_ok_v(
            queries@,
            l as int,
            label as nat,
            root@,
            usize_seq_v(idxs@),
            *prf,
            nsize as int,
            msize as int,
            parent,
        ),
{
    let ghost idv = usize_seq_v(idxs@);
    let ar = pick_arity_for_layer(nsize, msize);
    let hashed = ar == 16 || ar == 8;
    let wparams = crate::poseidon::poseidon_params_for_arity(ar);
    proof {
        assert(crate::poseidon::params_for_width_v(
            wparams,
            crate::poseidon::width_for_arity(ar as nat),
        ));
        assert(crate::poseidon::params_for_width_v(
            canon_wparams(crate::poseidon::width_for_arity(ar as nat)),
            crate::poseidon::width_for_arity(ar as nat),
        ));
    }
    let mut f_vals: Vec<Fe> = Vec::new();
    let mut s_vals: Vec<Fe> = Vec::new();
    let mut k: usize = 0;
    while k < idxs.len()
        invariant
            k <= idxs@.len(),
            idv == usize_seq_v(idxs@),
            forall|q: int|
                0 <= q < queries@.len() ==> (#[trigger] queries@[q]).per_layer_refs@.len() > l
                    && queries@[q].per_layer_payloads@.len() > l,
            f_vals@.len() == k,
            s_vals@.len() == k,
            parent ==> forall|j: int|
                0 <= j < k ==> parent_lookup_v(queries@, l as int, #[trigger] idv[j], 0) is Some,
            !parent ==> forall|j: int|
                0 <= j < k ==> child_lookup_v(queries@, l as int, #[trigger] idv[j], 0) is Some,
            forall|j: int|
                0 <= j < k ==> (#[trigger] f_vals@[j])@ == batch_pairs_v(
                    queries@,
                    l as int,
                    idv,
                    parent,
                ).0[j],
            forall|j: int|
                0 <= j < k ==> (#[trigger] s_vals@[j])@ == batch_pairs_v(
                    queries@,
                    l as int,
                    idv,
                    parent,
                ).1[j],
        decreases idxs@.len() - k,
    {
        match payload_lookup(queries, l, idxs[k], parent) {
            Some(p) => {
                f_vals.push(p.0);
                s_vals.push(p.1);
            },
            None => {
                proof {
                    assert(idv[k as int] == idxs@[k as int] as int);
                    if parent {
                        assert(parent_lookup_v(queries@, l as int, idv[k as int], 0) is None);
                    } else {
                        assert(child_lookup_v(queries@, l as int, idv[k as int], 0) is None);
                    }
                    assert(!all_covered_v(queries@, l as int, idv, parent));
                }
                return false;
            },
        }
        k = k + 1;
    }
    proof {
        assert forall|j: int| 0 <= j < idv.len() implies (if parent {
            parent_lookup_v(queries@, l as int, #[trigger] idv[j], 0)
        } else {
            child_lookup_v(queries@, l as int, idv[j], 0)
        }) is Some by {
            if parent {
                assert(parent_lookup_v(queries@, l as int, idv[j], 0) is Some);
            } else {
                assert(child_lookup_v(queries@, l as int, idv[j], 0) is Some);
            }
        }
        assert(all_covered_v(queries@, l as int, idv, parent));
        assert(fe_seq_v(f_vals@) =~= batch_pairs_v(queries@, l as int, idv, parent).0);
        assert(fe_seq_v(s_vals@) =~= batch_pairs_v(queries@, l as int, idv, parent).1);
    }
    if hashed {
        let mut leaves: Vec<Fe> = Vec::new();
        let mut j: usize = 0;
        while j < f_vals.len()
            invariant
                j <= f_vals@.len(),
                f_vals@.len() == s_vals@.len(),
                leaves@.len() == j,
                forall|t: int|
                    0 <= t < j ==> (#[trigger] leaves@[t])@ == leaf_pair_v(
                        f_vals@[t]@,
                        s_vals@[t]@,
                    ),
            decreases f_vals@.len() - j,
        {
            let d = hash_leaf_pair(&f_vals[j], &s_vals[j]);
            leaves.push(d);
            j = j + 1;
        }
        proof {
            assert(fe_seq_v(leaves@) =~= Seq::new(
                idv.len(),
                |t: int|
                    leaf_pair_v(
                        batch_pairs_v(queries@, l as int, idv, parent).0[t],
                        batch_pairs_v(queries@, l as int, idv, parent).1[t],
                    ),
            ));
        }
        let ok = verify_many_ds_v_exec(root, idxs, &leaves, prf, label as u64, &wparams);
        proof {
            crate::merkle::lemma_verify_many_ds_like(
                root@,
                idv,
                fe_seq_v(leaves@),
                *prf,
                label as u64,
                wparams,
                canon_wparams(crate::poseidon::width_for_arity(ar as nat)),
            );
        }
        ok
    } else {
        let mut pairs: Vec<(Fe, Fe)> = Vec::new();
        let mut j: usize = 0;
        while j < f_vals.len()
            invariant
                j <= f_vals@.len(),
                f_vals@.len() == s_vals@.len(),
                pairs@.len() == j,
                forall|t: int|
                    0 <= t < j ==> (#[trigger] pairs@[t]).0 == f_vals@[t] && pairs@[t].1
                        == s_vals@[t],
            decreases f_vals@.len() - j,
        {
            pairs.push((f_vals[j], s_vals[j]));
            j = j + 1;
        }
        proof {
            assert(Seq::new(pairs@.len(), |t: int| pairs@[t].0@) =~= fe_seq_v(f_vals@));
            assert(Seq::new(pairs@.len(), |t: int| pairs@[t].1@) =~= fe_seq_v(s_vals@));
        }
        let ok = crate::merkle::verify_pairs_ds(
            root,
            idxs.as_slice(),
            pairs.as_slice(),
            prf,
            label as u64,
            &wparams,
        );
        proof {
            crate::merkle::lemma_verify_pairs_ds_like(
                root@,
                idv,
                fe_seq_v(f_vals@),
                fe_seq_v(s_vals@),
                *prf,
                label as u64,
                wparams,
                canon_wparams(crate::poseidon::width_for_arity(ar as nat)),
            );
        }
        ok
    }
}

/// Verify single-column values under a borrowed parameter set.
fn verify_many_ds_v_exec(
    root: &Fe,
    indices: &Vec<usize>,
    leaves: &Vec<Fe>,
    prf: &MerkleProof,
    tree_label: u64,
    wparams: &PoseidonParamsDynamic,
) -> (r: bool)
    requires
        wparams.wf(),
    ensures
        r == verify_many_ds_v(
            root@,
            usize_seq_v(indices@),
            fe_seq_v(leaves@),
            *prf,
            tree_label,
            *wparams,
        ),
{
    crate::merkle::verify_many_ds(
        root,
        indices.as_slice(),
        leaves.as_slice(),
        prf,
        tree_label,
        wparams,
    )
}

/// Verify a DEEP-FRI proof: shape, the re-derived query indices against the
/// roots-bound transcript, per-layer batches, local fold predicates, and the
/// final opening; any failure rejects.
pub fn deep_fri_verify(params: &DeepFriParams, proof: &DeepFriProof) -> (r: bool)
    ensures
        r == deep_fri_verify_v(*params, *proof),
{
    let big_l = params.schedule.len();
    let ghost sched = usize_seq_v(params.schedule@);
    if proof.roots.len() < 1 || proof.roots.len() - 1 != big_l {
        return false;
    }
    if proof.layer_batches.layers.len() != big_l {
        return false;
    }
    if proof.queries.len() != params.r {
        return false;
    }
    if params.r < 1 {
        return false;
    }
    if proof.n0 < 1 {
        return false;
    }
    if !divides_chain_check(proof.n0, params.schedule.as_slice()) {
        return false;
    }
    let mut q0: usize = 0;
    while q0 < proof.queries.len()
        invariant
            q0 <= proof.queries@.len(),
            forall|q: int|
                0 <= q < q0 ==> (#[trigger] proof.queries@[q]).per_layer_refs@.len()
                    == params.schedule@.len() && proof.queries@[q].per_layer_payloads@.len()
                    == params.schedule@.len(),
            big_l == params.schedule@.len(),
        decreases proof.queries@.len() - q0,
    {
        if proof.queries[q0].per_layer_refs.len() != big_l || proof.queries[q0].per_layer_payloads.len() != big_l {
            return false;
        }
        q0 = q0 + 1;
    }

    let sizes = layer_sizes_from_schedule(proof.n0, params.schedule.as_slice());
    let ghost sizesv = sizes_v(proof.n0 as int, sched);
    let ghost rootsv = fe_seq_v(proof.roots@);

    let roots_seed = fs_seed_from_roots(proof.roots.as_slice());
    proof {
        lemma_sizes_pos(proof.n0 as int, sched);
        lemma_divides_chain_entries(proof.n0 as int, sched);
    }
    let mut qi: usize = 0;
    while qi < proof.queries.len()
        invariant
            qi <= proof.queries@.len(),
            big_l == params.schedule@.len(),
            sched == usize_seq_v(params.schedule@),
            sizesv == sizes_v(proof.n0 as int, sched),
            usize_seq_v(sizes@) == sizesv,
            sizes@.len() == big_l + 1,
            rootsv == fe_seq_v(proof.roots@),
            roots_seed@ == roots_seed_v(rootsv),
            forall|i: int| 0 <= i < sizesv.len() ==> #[trigger] sizesv[i] >= 1,
            forall|l: int| 0 <= l < big_l ==> #[trigger] sched[l] >= 2,
            forall|q: int|
                0 <= q < proof.queries@.len() ==> (#[trigger] proof.queries@[q]).per_layer_refs@.len()
                    == big_l && proof.queries@[q].per_layer_payloads@.len() == big_l,
            forall|q: int, l: int|
                0 <= q < qi && 0 <= l < big_l ==> {
                    let rref = #[trigger] proof.queries@[q].per_layer_refs@[l];
                    rref.i as int == query_index_v(
                        roots_seed_v(rootsv),
                        l as nat,
                        q as nat,
                        sizesv[l] as nat,
                    ) && rref.parent_index as int == rref.i as int / sched[l]
                },
        decreases proof.queries@.len() - qi,
    {
        let mut li: usize = 0;
        while li < big_l
            invariant
                li <= big_l,
                qi < proof.queries@.len(),
                big_l == params.schedule@.len(),
                sched == usize_seq_v(params.schedule@),
                sizesv == sizes_v(proof.n0 as int, sched),
                usize_seq_v(sizes@) == sizesv,
                sizes@.len() == big_l + 1,
                rootsv == fe_seq_v(proof.roots@),
                roots_seed@ == roots_seed_v(rootsv),
                forall|i: int| 0 <= i < sizesv.len() ==> #[trigger] sizesv[i] >= 1,
                forall|l: int| 0 <= l < big_l ==> #[trigger] sched[l] >= 2,
                forall|q: int|
                    0 <= q < proof.queries@.len() ==> (
                    #[trigger] proof.queries@[q]).per_layer_refs@.len() == big_l
                        && proof.queries@[q].per_layer_payloads@.len() == big_l,
                forall|l: int|
                    0 <= l < li ==> {
                        let rref = #[trigger] proof.queries@[qi as int].per_layer_refs@[l];
                        rref.i as int == query_index_v(
                            roots_seed_v(rootsv),
                            l as nat,
                            qi as nat,
                            sizesv[l] as nat,
                        ) && rref.parent_index as int == rref.i as int / sched[l]
                    },
            decreases big_l - li,
        {
            let rref = proof.queries[qi].per_layer_refs[li];
            proof {
                assert(usize_seq_v(sizes@)[li as int] == sizesv[li as int]);
                assert(sizesv[li as int] >= 1);
            }
            let expected = fri_query_index(&roots_seed, li, qi, sizes[li]);
            if rref.i != expected {
                return false;
            }
            let m_l = params.schedule[li];
            proof {
                assert(sched[li as int] >= 2);
            }
            if rref.parent_index != rref.i / m_l {
                return false;
            }
            li = li + 1;
        }
        qi = qi + 1;
    }

    let mut ell: usize = 0;
    while ell < big_l
        invariant
            ell <= big_l,
            big_l == params.schedule@.len(),
            sched == usize_seq_v(params.schedule@),
            sizesv == sizes_v(proof.n0 as int, sched),
            rootsv == fe_seq_v(proof.roots@),
            usize_seq_v(sizes@) == sizesv,
            sizes@.len() == big_l + 1,
            proof.roots@.len() == big_l + 1,
            proof.layer_batches.layers@.len() == big_l,
            proof.queries@.len() == params.r,
            forall|q: int|
                0 <= q < proof.queries@.len() ==> (#[trigger] proof.queries@[q]).per_layer_refs@.len()
                    == big_l && proof.queries@[q].per_layer_payloads@.len() == big_l,
            layers_ok_v(sched, sizesv, rootsv, proof.layer_batches.layers@, proof.queries@, 0)
                == layers_ok_v(
                sched,
                sizesv,
                rootsv,
                proof.layer_batches.layers@,
                proof.queries@,
                ell as nat,
            ),
        decreases big_l - ell,
    {
        let lb = &proof.layer_batches.layers[ell];
        let child_ok = check_side(
            &proof.queries,
            ell,
            ell,
            &proof.roots[ell],
            &lb.child_indices,
            &lb.child_proof,
            sizes[ell],
            params.schedule[ell],
            false,
        );
        if !child_ok {
            return false;
        }
        let parent_m = if ell + 1 < big_l {
            params.schedule[ell + 1]
        } else {
            1
        };
        let parent_ok = check_side(
            &proof.queries,
            ell,
            ell + 1,
            &proof.roots[ell + 1],
            &lb.parent_indices,
            &lb.parent_proof,
            sizes[ell + 1],
            parent_m,
            true,
        );
        if !parent_ok {
            return false;
        }
        ell = ell + 1;
    }

    let mut q: usize = 0;
    while q < proof.queries.len()
        invariant
            q <= proof.queries@.len(),
            big_l == params.schedule@.len(),
            sched == usize_seq_v(params.schedule@),
            sizesv == sizes_v(proof.n0 as int, sched),
            usize_seq_v(sizes@) == sizesv,
            sizes@.len() == big_l + 1,
            proof.queries@.len() == params.r,
            forall|qq: int|
                0 <= qq < proof.queries@.len() ==> (
                #[trigger] proof.queries@[qq]).per_layer_refs@.len() == big_l
                    && proof.queries@[qq].per_layer_payloads@.len() == big_l,
            divides_chain(proof.n0 as int, sched),
            forall|qq: int, l: int|
                0 <= qq < q && 0 <= l < big_l ==> {
                    let rref = #[trigger] proof.queries@[qq].per_layer_refs@[l];
                    let pay = proof.queries@[qq].per_layer_payloads@[l];
                    local_check_v(
                        rref.i as int,
                        sched[l] as nat,
                        sizesv[l],
                        pay.s_i@,
                        pay.f_parent_b@,
                    )
                },
        decreases proof.queries@.len() - q,
    {
        let mut l: usize = 0;
        while l < big_l
            invariant
                l <= big_l,
                q < proof.queries@.len(),
                big_l == params.schedule@.len(),
                sched == usize_seq_v(params.schedule@),
                sizesv == sizes_v(proof.n0 as int, sched),
                usize_seq_v(sizes@) == sizesv,
                sizes@.len() == big_l + 1,
                forall|qq: int|
                    0 <= qq < proof.queries@.len() ==> (
                    #[trigger] proof.queries@[qq]).per_layer_refs@.len() == big_l
                        && proof.queries@[qq].per_layer_payloads@.len() == big_l,
                divides_chain(proof.n0 as int, sched),
                forall|ll: int|
                    0 <= ll < l ==> {
                        let rref = #[trigger] proof.queries@[q as int].per_layer_refs@[ll];
                        let pay = proof.queries@[q as int].per_layer_payloads@[ll];
                        local_check_v(
                            rref.i as int,
                            sched[ll] as nat,
                            sizesv[ll],
                            pay.s_i@,
                            pay.f_parent_b@,
                        )
                    },
            decreases big_l - l,
        {
            let rref = proof.queries[q].per_layer_refs[l];
            let pay = proof.queries[q].per_layer_payloads[l];
            let child_leaf = CombinedLeaf { f: pay.f_i, s: pay.s_i };
            let m_l = params.schedule[l];
            proof {
                lemma_divides_chain_entries(proof.n0 as int, sched);
                assert(sched[l as int] >= 2);
            }
            let lc = verify_local_check_fold(rref.i, m_l, sizes[l], &child_leaf, &pay.f_parent_b);
            if !lc {
                return false;
            }
            l = l + 1;
        }
        q = q + 1;
    }

    let ar_last = pick_arity_for_layer(sizes[big_l], 1);
    let hashed_last = ar_last == 16 || ar_last == 8;
    let wparams = crate::poseidon::poseidon_params_for_arity(ar_last);
    proof {
        assert(crate::poseidon::params_for_width_v(
            canon_wparams(crate::poseidon::width_for_arity(ar_last as nat)),
            crate::poseidon::width_for_arity(ar_last as nat),
        ));
    }
    let final_idx = proof.queries[0].final_index;
    if final_idx != 0 {
        return false;
    }
    let fp = proof.queries[0].final_pair;
    let mut one_index: Vec<usize> = Vec::new();
    one_index.push(0);
    proof {
        assert(usize_seq_v(one_index@) =~= seq![0int]);
    }
    let last_root = proof.roots[big_l];
    let r = if hashed_last {
        let leaf = hash_leaf_pair(&fp.0, &fp.1);
        let mut leaves: Vec<Fe> = Vec::new();
        leaves.push(leaf);
        proof {
            assert(fe_seq_v(leaves@) =~= seq![leaf_pair_v(fp.0@, fp.1@)]);
        }
        let ok = verify_many_ds_v_exec(
            &last_root,
            &one_index,
            &leaves,
            &proof.layer_batches.final_proof,
            big_l as u64,
            &wparams,
        );
        proof {
            crate::merkle::lemma_verify_many_ds_like(
                last_root@,
                seq![0int],
                seq![leaf_pair_v(fp.0@, fp.1@)],
                proof.layer_batches.final_proof,
                big_l as u64,
                wparams,
                canon_wparams(crate::poseidon::width_for_arity(ar_last as nat)),
            );
        }
        ok
    } else {
        let mut prs: Vec<(Fe, Fe)> = Vec::new();
        prs.push((fp.0, fp.1));
        proof {
            assert(Seq::new(prs@.len(), |t: int| prs@[t].0@) =~= seq![fp.0@]);
            assert(Seq::new(prs@.len(), |t: int| prs@[t].1@) =~= seq![fp.1@]);
        }
        let ok = crate::merkle::verify_pairs_ds(
            &last_root,
            one_index.as_slice(),
            prs.as_slice(),
            &proof.layer_batches.final_proof,
            big_l as u64,
            &wparams,
        );
        proof {
            crate::merkle::lemma_verify_pairs_ds_like(
                last_root@,
                seq![0int],
                seq![fp.0@],
                seq![fp.1@],
                proof.layer_batches.final_proof,
                big_l as u64,
                wparams,
                canon_wparams(crate::poseidon::width_for_arity(ar_last as nat)),
            );
        }
        ok
    };
    r
}

/// Every entry of a dividing schedule is at least 2.
proof fn lemma_divides_chain_entries(n0: int, sched: Seq<int>)
    requires
        divides_chain(n0, sched),
    ensures
        forall|l: int| 0 <= l < sched.len() ==> #[trigger] sched[l] >= 2,
    decreases sched.len(),
{
    if sched.len() == 0 {
    } else {
        lemma_divides_chain_entries(n0 / sched[0], sched.drop_first());
        assert forall|l: int| 0 <= l < sched.len() implies #[trigger] sched[l] >= 2 by {
            if l > 0 {
                assert(sched.drop_first()[l - 1] == sched[l]);
                assert(sched.drop_first()[l - 1] >= 2);
            }
        }
    }
}

/// The real DEEP-ALI builder: a transcript-seeded substitution point and the
/// verified merge; optional blinding.
pub struct DeepAliRealBuilder {
    pub r_eval_opt: Option<Vec<Fe>>,
    pub use_blinding: bool,
    pub ds_tag: Vec<u8>,
}

impl Default for DeepAliRealBuilder {
    fn default() -> (r: DeepAliRealBuilder)
        ensures
            r.r_eval_opt is None,
            !r.use_blinding,
    {
        let mut tag: Vec<u8> = Vec::new();
        crate::utils::extend_bytes(&mut tag, "ALI/DEEP".as_bytes());
        DeepAliRealBuilder { r_eval_opt: None, use_blinding: false, ds_tag: tag }
    }
}

impl DeepAliRealBuilder {
    /// The DEEP-ALI merge under this builder's transcript-derived point: the
    /// deep quotient of the merged column, or an all-zero column in the
    /// practically unreachable corner where the sampled point lands in H.
    pub fn merge_f0(&self, a: &AliA, s: &AliS, e: &AliE, t: &AliT, n0: usize, domain: FriDomain) -> (r:
        Vec<Fe>)
        requires
            a@.len() == n0,
            s@.len() == n0,
            e@.len() == n0,
            t@.len() == n0,
            self.r_eval_opt is Some ==> self.r_eval_opt->Some_0@.len() == n0,
            1 < n0,
            (n0 as int) < field_order(),
            f_pow(domain.omega@, n0 as nat) == 1,
        ensures
            r@.len() == n0,
            ({
                let seed = ali_seed_of(
                    fe_seq_v(a@),
                    fe_seq_v(s@),
                    fe_seq_v(e@),
                    fe_seq_v(t@),
                    n0 as nat,
                );
                let z = ali_z_of(self.ds_tag@, n0 as nat, seed);
                let beta = ali_beta_of(self.ds_tag@, n0 as nat, seed);
                let phis = phi_v(
                    fe_seq_v(a@),
                    fe_seq_v(s@),
                    fe_seq_v(e@),
                    fe_seq_v(t@),
                    if self.use_blinding {
                        match self.r_eval_opt {
                            Some(rv) => Some(fe_seq_v(rv@)),
                            None => None,
                        }
                    } else {
                        None
                    },
                    if self.use_blinding {
                        beta
                    } else {
                        0
                    },
                );
                if !in_domain_v(z, n0 as nat) {
                    forall|j: int|
                        0 <= j < n0 ==> (#[trigger] r@[j])@ == f_mul(
                            phis[j],
                            f_inv(f_sub(f_pow(domain.omega@, j as nat), z)),
                        )
                } else {
                    forall|j: int| 0 <= j < n0 ==> (#[trigger] r@[j])@ == 0
                }
            }),
    {
        let ha = tr_hash_fields_tagged("ALI/A".as_bytes(), a.as_slice());
        let hs = tr_hash_fields_tagged("ALI/S".as_bytes(), s.as_slice());
        let he = tr_hash_fields_tagged("ALI/E".as_bytes(), e.as_slice());
        let ht = tr_hash_fields_tagged("ALI/T".as_bytes(), t.as_slice());
        let mut fields: Vec<Fe> = Vec::new();
        fields.push(ha);
        fields.push(hs);
        fields.push(he);
        fields.push(ht);
        fields.push(Fe::from_u64(n0 as u64));
        proof {
            assert(fe_seq_v(fields@) =~= seq![ha@, hs@, he@, ht@, n0 as int]);
        }
        let seed_f = tr_hash_fields_tagged("ALI/seed".as_bytes(), fields.as_slice());
        let (z, beta) = ali_sample_z_beta_fs(self.ds_tag.as_slice(), n0, &seed_f);
        if !crate::deep_ali::is_in_domain(&z, n0) {
            let (f0, _z_out, _c_star) = if self.use_blinding {
                crate::deep_ali::deep_ali_merge_evals_blinded(
                    a.as_slice(),
                    s.as_slice(),
                    e.as_slice(),
                    t.as_slice(),
                    match &self.r_eval_opt {
                        Some(rv) => Some(rv.as_slice()),
                        None => None,
                    },
                    &beta,
                    &domain.omega,
                    &z,
                )
            } else {
                crate::deep_ali::deep_ali_merge_evals(
                    a.as_slice(),
                    s.as_slice(),
                    e.as_slice(),
                    t.as_slice(),
                    &domain.omega,
                    &z,
                )
            };
            f0
        } else {
            let mut zeros: Vec<Fe> = Vec::new();
            let mut i: usize = 0;
            while i < n0
                invariant
                    i <= n0,
                    zeros@.len() == i,
                    forall|j: int| 0 <= j < i ==> (#[trigger] zeros@[j])@ == 0,
                decreases n0 - i,
            {
                zeros.push(Fe::zero());
                i = i + 1;
            }
            zeros
        }
    }
}

impl DeepAliBuilder for DeepAliRealBuilder {
    fn build_f0(&self, a: &AliA, s: &AliS, e: &AliE, t: &AliT, n0: usize, domain: FriDomain) -> (r:
        Vec<Fe>)
    {
        let blinding_ok = match &self.r_eval_opt {
            Some(rv) => rv.len() == n0,
            None => true,
        };
        if n0 > 1 && blinding_ok {
            self.merge_f0(a, s, e, t, n0, domain)
        } else {
            let mut zeros: Vec<Fe> = Vec::new();
            let mut i: usize = 0;
            while i < n0
                invariant
                    i <= n0,
                    zeros@.len() == i,
                decreases n0 - i,
            {
                zeros.push(Fe::zero());
                i = i + 1;
            }
            zeros
        }
    }
}

/// Bound on a derived query index: always within the power-of-two range.
proof fn lemma_masked_le(x: u64, m: u64)
    ensures
        x & m <= m,
{
    assert(x & m <= m) by (bit_vector);
}

proof fn lemma_query_index_bound(rs: int, ell: nat, q: nat, n: nat)
    requires
        1 <= n,
    ensures
        0 <= query_index_v(rs, ell, q, n) <= n - 1,
{
    let s1 = index_seed_v(rs, ell, q);
    lemma_masked_le(rng_word(le32_of(s1), 0), (n - 1) as u64);
    let s2 = fs_hash_v("FRI/index".spec_bytes(), seq![s1, 1]);
    lemma_masked_le(rng_word(le32_of(s2), 0), (n - 1) as u64);
    let i2 = index_from_seed_v(s2, n);
    if i2 >= n {
        lemma_masked_le(i2 as u64, (n - 1) as u64);
    }
}

/// Assemble the per-query payloads: each reference's opened values are read
/// from the committed columns.
#[verifier::rlimit(100)]
#[verifier::spinoff_prover]
fn assemble_queries(
    st: &FriProverState,
    refs_only: &Vec<FriQueryOpenings>,
    r: usize,
    big_l: usize,
    rs: Ghost<int>,
) -> (queries: Vec<FriQueryPayload>)
    requires
        st.transcript.layers@.len() == big_l + 1,
        forall|l: int|
            0 <= l <= big_l ==> {
                let lay = #[trigger] st.transcript.layers@[l];
                lay.f@.len() == lay.n && lay.s@.len() == lay.n && lay.n >= 1
            },
        forall|l: int|
            0 <= l < big_l ==> {
                let lay = #[trigger] st.transcript.layers@[l];
                let nxt = st.transcript.layers@[l + 1];
                lay.m >= 1 && nxt.n as int == lay.n as int / (lay.m as int) && lay.n as int % (
                lay.m as int) == 0
            },
        refs_only@.len() == r,
        forall|qq: int|
            0 <= qq < r ==> (#[trigger] refs_only@[qq]).per_layer_refs@.len() == big_l
                && refs_only@[qq].final_index == 0,
        forall|qq: int, l: int|
            0 <= qq < r && 0 <= l < big_l ==> {
                let rref = #[trigger] refs_only@[qq].per_layer_refs@[l];
                let lay = st.transcript.layers@[l];
                rref.i as int == query_index_v(rs@, l as nat, qq as nat, lay.n as nat)
                    && rref.parent_index as int == rref.i as int / (lay.m as int)
            },
    ensures
        queries@.len() == r,
        forall|qq: int|
            0 <= qq < r ==> (#[trigger] queries@[qq]).per_layer_refs@.len() == big_l
                && queries@[qq].per_layer_payloads@.len() == big_l && queries@[qq].final_index == 0
                && queries@[qq].final_pair.0 == st.transcript.layers@.last().f@[0]
                && queries@[qq].final_pair.1 == st.transcript.layers@.last().s@[0],
        forall|qq: int, l: int|
            0 <= qq < r && 0 <= l < big_l ==> #[trigger] queries@[qq].per_layer_refs@[l]
                == refs_only@[qq].per_layer_refs@[l],
        forall|qq: int, l: int|
            0 <= qq < r && 0 <= l < big_l ==> {
                let rref = refs_only@[qq].per_layer_refs@[l];
                let pay = #[trigger] queries@[qq].per_layer_payloads@[l];
                pay.f_i == st.transcript.layers@[l].f@[rref.i as int] && pay.s_i
                    == st.transcript.layers@[l].s@[rref.i as int] && pay.f_parent_b
                    == st.transcript.layers@[l + 1].f@[rref.parent_index as int] && pay.s_parent_b
                    == st.transcript.layers@[l + 1].s@[rref.parent_index as int]
            },
{
    let mut queries: Vec<FriQueryPayload> = Vec::new();
    let mut q: usize = 0;
    while q < r
        invariant
            q <= r,
            st.transcript.layers@.len() == big_l + 1,
            forall|l: int|
                0 <= l <= big_l ==> {
                    let lay = #[trigger] st.transcript.layers@[l];
                    lay.f@.len() == lay.n && lay.s@.len() == lay.n && lay.n >= 1
                },
            forall|l: int|
                0 <= l < big_l ==> {
                    let lay = #[trigger] st.transcript.layers@[l];
                    let nxt = st.transcript.layers@[l + 1];
                    lay.m >= 1 && nxt.n as int == lay.n as int / (lay.m as int) && lay.n as int
                        % (lay.m as int) == 0
                },
            refs_only@.len() == r,
            forall|qq: int|
                0 <= qq < r ==> (#[trigger] refs_only@[qq]).per_layer_refs@.len() == big_l
                    && refs_only@[qq].final_index == 0,
            forall|qq: int, l: int|
                0 <= qq < r && 0 <= l < big_l ==> {
                    let rref = #[trigger] refs_only@[qq].per_layer_refs@[l];
                    let lay = st.transcript.layers@[l];
                    rref.i as int == query_index_v(rs@, l as nat, qq as nat, lay.n as nat)
                        && rref.parent_index as int == rref.i as int / (lay.m as int)
                },
            queries@.len() == q,
            forall|qq: int|
                0 <= qq < q ==> (#[trigger] queries@[qq]).per_layer_refs@.len() == big_l
                    && queries@[qq].per_layer_payloads@.len() == big_l && queries@[qq].final_index
                    == 0 && queries@[qq].final_pair.0 == st.transcript.layers@.last().f@[0]
                    && queries@[qq].final_pair.1 == st.transcript.layers@.last().s@[0],
            forall|qq: int, l: int|
                0 <= qq < q && 0 <= l < big_l ==> #[trigger] queries@[qq].per_layer_refs@[l]
                    == refs_only@[qq].per_layer_refs@[l],
            forall|qq: int, l: int|
                0 <= qq < q && 0 <= l < big_l ==> {
                    let rref = refs_only@[qq].per_layer_refs@[l];
                    let pay = #[trigger] queries@[qq].per_layer_payloads@[l];
                    pay.f_i == st.transcript.layers@[l].f@[rref.i as int] && pay.s_i
                        == st.transcript.layers@[l].s@[rref.i as int] && pay.f_parent_b
                        == st.transcript.layers@[l + 1].f@[rref.parent_index as int]
                        && pay.s_parent_b == st.transcript.layers@[l + 1].s@[
                        rref.parent_index as int]
                },
        decreases r - q,
    {
        let mut payloads: Vec<LayerOpenPayload> = Vec::new();
        let mut refs: Vec<LayerQueryRef> = Vec::new();
        let mut l: usize = 0;
        while l < big_l
            invariant
                l <= big_l,
                q < r,
                    st.transcript.layers@.len() == big_l + 1,
                forall|ll: int|
                    0 <= ll <= big_l ==> {
                        let lay = #[trigger] st.transcript.layers@[ll];
                        lay.f@.len() == lay.n && lay.s@.len() == lay.n && lay.n >= 1
                    },
                forall|ll: int|
                    0 <= ll < big_l ==> {
                        let lay = #[trigger] st.transcript.layers@[ll];
                        let nxt = st.transcript.layers@[ll + 1];
                        lay.m >= 1 && nxt.n as int == lay.n as int / (lay.m as int) && lay.n as int
                            % (lay.m as int) == 0
                    },
                refs_only@.len() == r,
                forall|qq: int|
                    0 <= qq < r ==> (#[trigger] refs_only@[qq]).per_layer_refs@.len()
                        == big_l,
                forall|qq: int, ll: int|
                    0 <= qq < r && 0 <= ll < big_l ==> {
                        let rref = #[trigger] refs_only@[qq].per_layer_refs@[ll];
                        let lay = st.transcript.layers@[ll];
                        rref.i as int == query_index_v(rs@, ll as nat, qq as nat, lay.n as nat)
                            && rref.parent_index as int == rref.i as int / (lay.m as int)
                    },
                payloads@.len() == l,
                refs@.len() == l,
                forall|ll: int|
                    0 <= ll < l ==> #[trigger] refs@[ll] == refs_only@[q as int].per_layer_refs@[ll],
                forall|ll: int|
                    0 <= ll < l ==> {
                        let rref = refs_only@[q as int].per_layer_refs@[ll];
                        let pay = #[trigger] payloads@[ll];
                        pay.f_i == st.transcript.layers@[ll].f@[rref.i as int] && pay.s_i
                            == st.transcript.layers@[ll].s@[rref.i as int] && pay.f_parent_b
                            == st.transcript.layers@[ll + 1].f@[rref.parent_index as int]
                            && pay.s_parent_b == st.transcript.layers@[ll + 1].s@[
                            rref.parent_index as int]
                    },
            decreases big_l - l,
        {
            let rref = refs_only[q].per_layer_refs[l];
            proof {
                let lay = st.transcript.layers@[l as int];
                let rr2 = refs_only@[q as int].per_layer_refs@[l as int];
                assert(rr2.i as int == query_index_v(rs@, l as nat, q as nat, lay.n as nat)
                    && rr2.parent_index as int == rr2.i as int / (lay.m as int));
                lemma_query_index_bound(rs@, l as nat, q as nat, lay.n as nat);
                assert(rref.i as int <= lay.n as int - 1);
                assert((lay.n as int - 1) / (lay.m as int) < lay.n as int / (lay.m as int)) by {
                    let nn = lay.n as int;
                    let mm = lay.m as int;
                    let qq2 = nn / mm;
                    vstd::arithmetic::div_mod::lemma_fundamental_div_mod(nn, mm);
                    vstd::arithmetic::mul::lemma_mul_is_commutative(mm, qq2);
                    vstd::arithmetic::mul::lemma_mul_is_distributive_sub(mm, qq2, 1);
                    vstd::arithmetic::mul::lemma_mul_is_commutative(mm, qq2 - 1);
                    assert(nn - 1 == (qq2 - 1) * mm + (mm - 1));
                    vstd::arithmetic::div_mod::lemma_fundamental_div_mod_converse(
                        nn - 1,
                        mm,
                        qq2 - 1,
                        mm - 1,
                    );
                }
                vstd::arithmetic::div_mod::lemma_div_is_ordered(
                    rref.i as int,
                    lay.n as int - 1,
                    lay.m as int,
                );
            }
            let lay_f = &st.transcript.layers[l];
            let f_i = lay_f.f[rref.i];
            let s_i = lay_f.s[rref.i];
            let lay_p = &st.transcript.layers[l + 1];
            let f_parent_b = lay_p.f[rref.parent_index];
            let s_parent_b = lay_p.s[rref.parent_index];
            payloads.push(LayerOpenPayload { f_i, s_i, f_parent_b, s_parent_b });
            refs.push(rref);
            l = l + 1;
        }
        let last_li = st.transcript.layers.len() - 1;
        let last = &st.transcript.layers[last_li];
        let fp = (last.f[0], last.s[0]);
        queries.push(
            FriQueryPayload {
                per_layer_refs: refs,
                per_layer_payloads: payloads,
                final_index: 0,
                final_pair: fp,
            },
        );
        q = q + 1;
    }

    queries
}

/// The query-opening facts the proof assembly needs.
#[verifier::rlimit(100)]
#[verifier::spinoff_prover]
fn fri_prove_queries_slim(st: &FriProverState, r: usize, roots_seed: &Fe) -> (res: (
    Vec<FriQueryOpenings>,
    Vec<Fe>,
    FriLayerBatches,
))
    requires
        st.transcript.layers@.len() == st.transcript.schedule@.len() + 1,
        forall|l: int|
            0 <= l < st.transcript.layers@.len() ==> (#[trigger] st.transcript.layers@[l]).committed(),
        forall|l: int|
            0 <= l < st.transcript.layers@.len() - 1 ==> (#[trigger] st.transcript.layers@[l]).m
                >= 1,
        1 <= r,
    ensures
        res.1@.len() == st.transcript.layers@.len(),
        forall|l: int|
            0 <= l < res.1@.len() ==> (#[trigger] res.1@[l]) == st.transcript.layers@[l].root,
        res.0@.len() == r,
        res.2.layers@.len() == st.transcript.schedule@.len(),
        forall|q: int|
            0 <= q < r ==> (#[trigger] res.0@[q]).per_layer_refs@.len()
                == st.transcript.schedule@.len() && res.0@[q].final_index == 0,
        forall|q: int, l: int|
            0 <= q < r && 0 <= l < st.transcript.schedule@.len() ==> {
                let rref = #[trigger] res.0@[q].per_layer_refs@[l];
                let lay = st.transcript.layers@[l];
                rref.i as int == query_index_v(roots_seed@, l as nat, q as nat, lay.n as nat)
                    && rref.parent_index as int == rref.i as int / (lay.m as int)
            },
{
    fri_prove_queries(st, r, roots_seed)
}

/// The committed folding chain with just the shape facts assembly needs.
#[verifier::rlimit(100)]
#[verifier::spinoff_prover]
fn fri_build_transcript_slim(f0: Vec<Fe>, domain0: FriDomain, params: &FriProverParams) -> (r:
    FriProverState)
    requires
        1 <= f0@.len() <= 0xffffffff,
        domain0.size == f0@.len(),
        divides_chain(f0@.len() as int, usize_seq_v(params.schedule@)),
        params.schedule@.len() <= 0xffff,
        sizes_v(f0@.len() as int, usize_seq_v(params.schedule@)).last() == 1,
        forall|i: int|
            0 <= i < sizes_v(f0@.len() as int, usize_seq_v(params.schedule@)).len() ==> is_pow2(
                #[trigger] sizes_v(f0@.len() as int, usize_seq_v(params.schedule@))[i] as nat,
            ),
    ensures
        r.folded_ok(fe_seq_v(f0@), params.seed_z),
        r.f_layers@[0]@.len() == f0@.len(),
        r.transcript.schedule@ == params.schedule@,
        r.transcript.layers@.len() == params.schedule@.len() + 1,
        forall|l: int|
            0 <= l < r.transcript.layers@.len() ==> (#[trigger] r.transcript.layers@[l]).committed(),
        forall|l: int|
            0 <= l <= params.schedule@.len() ==> {
                let lay = #[trigger] r.transcript.layers@[l];
                lay.f@.len() == lay.n && lay.s@.len() == lay.n && lay.n >= 1
            },
        forall|l: int|
            0 <= l < params.schedule@.len() ==> {
                let lay = #[trigger] r.transcript.layers@[l];
                let nxt = r.transcript.layers@[l + 1];
                lay.m >= 1 && nxt.n as int == lay.n as int / (lay.m as int) && lay.n as int % (
                lay.m as int) == 0
            },
{
    let ghost f0v = f0@;
    let ghost n0g = f0@.len();
    let st = fri_build_transcript(f0, domain0, params);
    proof {
        reveal(FriProverState::folded_ok);
        assert(fe_seq_v(st.f_layers@[0]@) == fe_seq_v(f0v));
        assert(fe_seq_v(st.f_layers@[0]@).len() == st.f_layers@[0]@.len());
        assert(fe_seq_v(f0v).len() == f0v.len());
        lemma_prover_state_facts(
            st,
            usize_seq_v(params.schedule@),
            n0g as int,
            params.seed_z,
        );
    }
    st
}

/// Layer shapes that follow from a faithful folding chain.
proof fn lemma_prover_state_facts(st: FriProverState, sched: Seq<int>, n0: int, seed_z: u64)
    requires
        st.folded_ok(fe_seq_v(st.f_layers@[0]@), seed_z),
        usize_seq_v(st.transcript.schedule@) == sched,
        st.f_layers@[0]@.len() == n0,
        divides_chain(n0, sched),
    ensures
        forall|l: int|
            0 <= l <= sched.len() ==> {
                let lay = #[trigger] st.transcript.layers@[l];
                lay.f@.len() == lay.n && lay.s@.len() == lay.n && lay.n >= 1
            },
        forall|l: int|
            0 <= l < sched.len() ==> {
                let lay = #[trigger] st.transcript.layers@[l];
                let nxt = st.transcript.layers@[l + 1];
                lay.m >= 2 && nxt.n as int == lay.n as int / (lay.m as int) && lay.n as int % (
                lay.m as int) == 0
            },
{
    reveal(FriLayerCommitment::committed);
    reveal(FriProverState::folded_ok);
    let big_l = sched.len() as int;
    assert forall|l: int|
        0 <= l <= big_l implies {
        let lay = #[trigger] st.transcript.layers@[l];
        lay.f@.len() == lay.n && lay.s@.len() == lay.n && lay.n >= 1
    } by {
        assert(st.transcript.layers@[l].committed());
    }
    assert forall|l: int|
        0 <= l < big_l implies {
        let lay = #[trigger] st.transcript.layers@[l];
        let nxt = st.transcript.layers@[l + 1];
        lay.m >= 2 && nxt.n as int == lay.n as int / (lay.m as int) && lay.n as int % (
        lay.m as int) == 0
    } by {
        lemma_divides_chain_entries(n0, sched);
        assert(sched[l] >= 2);
        lemma_divides_sizes(n0, sched, st.f_layers@, l);
        assert(st.transcript.layers@[l].n == st.f_layers@[l]@.len());
        assert(st.transcript.layers@[l + 1].n == st.f_layers@[l + 1]@.len());
        assert(st.f_layers@[l + 1]@.len() as int == st.f_layers@[l]@.len() as int / sched[l]);
        assert(st.transcript.layers@[l].committed());
        assert(st.transcript.layers@[l + 1].committed());
    }
}

/// Produce a DEEP-FRI proof: build the first column, fold and commit the
/// layers, derive the roots seed, open the batched queries, and assemble the
/// per-query payloads from the committed columns.
#[verifier::rlimit(100)]
#[verifier::spinoff_prover]
pub fn deep_fri_prove<B: DeepAliBuilder>(
    builder: &B,
    a: &AliA,
    s: &AliS,
    e: &AliE,
    t: &AliT,
    n0: usize,
    params: &DeepFriParams,
) -> (r: DeepFriProof)
    requires
        1 <= n0 <= 0xffffffff,
        is_pow2(n0 as nat),
        n0 <= 0x100000000,
        a@.len() == n0,
        s@.len() == n0,
        e@.len() == n0,
        t@.len() == n0,
        divides_chain(n0 as int, usize_seq_v(params.schedule@)),
        params.schedule@.len() <= 0xffff,
        sizes_v(n0 as int, usize_seq_v(params.schedule@)).last() == 1,
        forall|i: int|
            0 <= i < sizes_v(n0 as int, usize_seq_v(params.schedule@)).len() ==> is_pow2(
                #[trigger] sizes_v(n0 as int, usize_seq_v(params.schedule@))[i] as nat,
            ),
        1 <= params.r,
    ensures
        r.n0 == n0,
        r.omega0@ == omega_of(n0 as nat),
        r.roots@.len() == params.schedule@.len() + 1,
        r.layer_batches.layers@.len() == params.schedule@.len(),
        r.queries@.len() == params.r,
        forall|q: int|
            0 <= q < params.r ==> (#[trigger] r.queries@[q]).per_layer_refs@.len()
                == params.schedule@.len() && r.queries@[q].per_layer_payloads@.len()
                == params.schedule@.len() && r.queries@[q].final_index == 0,
        exists|st: FriProverState| #[trigger] prover_chain_ok(r, st, *params),
{
    let domain0 = FriDomain::new_radix2(n0);
    let f0 = builder.build_f0(a, s, e, t, n0, domain0);
    deep_fri_prove_from_column(f0, domain0, n0, params)
}

/// The roots of every committed layer, in order.
fn collect_roots(st: &FriProverState) -> (r: Vec<Fe>)
    ensures
        r@.len() == st.transcript.layers@.len(),
        forall|l: int|
            0 <= l < r@.len() ==> (#[trigger] r@[l]) == st.transcript.layers@[l].root,
{
    let mut roots_pre: Vec<Fe> = Vec::new();
    let mut l0: usize = 0;
    while l0 < st.transcript.layers.len()
        invariant
            l0 <= st.transcript.layers@.len(),
            roots_pre@.len() == l0,
            forall|l: int|
                0 <= l < l0 ==> (#[trigger] roots_pre@[l]) == st.transcript.layers@[l].root,
        decreases st.transcript.layers@.len() - l0,
    {
        roots_pre.push(st.transcript.layers[l0].root);
        l0 = l0 + 1;
    }
    roots_pre
}

/// Fold, commit, derive and open, starting from the first column.
#[verifier::rlimit(100)]
#[verifier::spinoff_prover]
fn deep_fri_prove_from_column(
    f0: Vec<Fe>,
    domain0: FriDomain,
    n0: usize,
    params: &DeepFriParams,
) -> (r: DeepFriProof)
    requires
        1 <= n0 <= 0xffffffff,
        f0@.len() == n0,
        domain0.size == n0,
        domain0.omega@ == omega_of(n0 as nat),
        divides_chain(n0 as int, usize_seq_v(params.schedule@)),
        params.schedule@.len() <= 0xffff,
        sizes_v(n0 as int, usize_seq_v(params.schedule@)).last() == 1,
        forall|i: int|
            0 <= i < sizes_v(n0 as int, usize_seq_v(params.schedule@)).len() ==> is_pow2(
                #[trigger] sizes_v(n0 as int, usize_seq_v(params.schedule@))[i] as nat,
            ),
        1 <= params.r,
    ensures
        r.n0 == n0,
        r.omega0@ == omega_of(n0 as nat),
        r.roots@.len() == params.schedule@.len() + 1,
        r.layer_batches.layers@.len() == params.schedule@.len(),
        r.queries@.len() == params.r,
        forall|q: int|
            0 <= q < params.r ==> (#[trigger] r.queries@[q]).per_layer_refs@.len()
                == params.schedule@.len() && r.queries@[q].per_layer_payloads@.len()
                == params.schedule@.len() && r.queries@[q].final_index == 0,
        exists|st: FriProverState| #[trigger] prover_chain_ok(r, st, *params),
{
    let ghost f0v = f0@;
    let schedule_copy = crate::merkle::clone_usize_vec(&params.schedule);
    let pp = FriProverParams { schedule: schedule_copy, seed_z: params.seed_z };
    let st = fri_build_transcript_slim(f0, domain0, &pp);
    let res = open_and_assemble(&st, params.r, params.schedule.len(), n0, domain0.omega);
    proof {
        assert(fe_seq_v(st.f_layers@[0]@) == fe_seq_v(f0v)) by {
            reveal(FriProverState::folded_ok);
        }
        assert(prover_chain_ok(res, st, *params)) by {
            reveal(prover_chain_ok);
        }
    }
    res
}

/// The proof is the outcome of a faithful run: a committed folding chain of
/// the right shape whose roots the proof carries, with every opened payload
/// equal to the committed column value at its transcript-derived index.
#[verifier::opaque]
pub open spec fn prover_chain_ok(
    proof: DeepFriProof,
    st: FriProverState,
    params: DeepFriParams,
) -> bool {
    let ll = params.schedule@.len() as int;
    &&& st.folded_ok(fe_seq_v(st.f_layers@[0]@), params.seed_z)
    &&& st.transcript.schedule@ == params.schedule@
    &&& st.f_layers@[0]@.len() == proof.n0
    &&& st.transcript.layers@.len() == ll + 1
    &&& proof.roots@.len() == ll + 1
    &&& forall|l: int|
        0 <= l <= ll ==> (#[trigger] proof.roots@[l]) == st.transcript.layers@[l].root
    &&& proof.queries@.len() == params.r
    &&& forall|q: int|
        0 <= q < params.r ==> (#[trigger] proof.queries@[q]).per_layer_refs@.len() == ll
            && proof.queries@[q].per_layer_payloads@.len() == ll && proof.queries@[q].final_index
            == 0 && proof.queries@[q].final_pair.0 == st.transcript.layers@.last().f@[0]
            && proof.queries@[q].final_pair.1 == st.transcript.layers@.last().s@[0]
    &&& forall|q: int, l: int|
        0 <= q < params.r && 0 <= l < ll ==> {
            let rref = #[trigger] proof.queries@[q].per_layer_refs@[l];
            rref.i as int == query_index_v(
                roots_seed_v(fe_seq_v(proof.roots@)),
                l as nat,
                q as nat,
                st.transcript.layers@[l].n as nat,
            ) && rref.parent_index as int == rref.i as int / (st.transcript.layers@[l].m as int)
        }
    &&& forall|q: int, l: int|
        0 <= q < params.r && 0 <= l < ll ==> {
            let rref = proof.queries@[q].per_layer_refs@[l];
            let pay = #[trigger] proof.queries@[q].per_layer_payloads@[l];
            pay.f_i == st.transcript.layers@[l].f@[rref.i as int] && pay.s_i
                == st.transcript.layers@[l].s@[rref.i as int] && pay.f_parent_b
                == st.transcript.layers@[l + 1].f@[rref.parent_index as int] && pay.s_parent_b
                == st.transcript.layers@[l + 1].s@[rref.parent_index as int]
        }
}

/// Derive the roots seed, open the batches, and assemble the payloads.
#[verifier::rlimit(100)]
fn open_and_assemble(
    st: &FriProverState,
    r_count: usize,
    big_l: usize,
    n0: usize,
    omega0: Fe,
) -> (r: DeepFriProof)
    requires
        1 <= r_count,
        st.transcript.layers@.len() == big_l + 1,
        st.transcript.schedule@.len() == big_l,
        forall|l: int|
            0 <= l < st.transcript.layers@.len() ==> (#[trigger] st.transcript.layers@[l]).committed(),
        forall|l: int|
            0 <= l <= big_l ==> {
                let lay = #[trigger] st.transcript.layers@[l];
                lay.f@.len() == lay.n && lay.s@.len() == lay.n && lay.n >= 1
            },
        forall|l: int|
            0 <= l < big_l ==> {
                let lay = #[trigger] st.transcript.layers@[l];
                let nxt = st.transcript.layers@[l + 1];
                lay.m >= 1 && nxt.n as int == lay.n as int / (lay.m as int) && lay.n as int % (
                lay.m as int) == 0
            },
    ensures
        r.n0 == n0,
        r.omega0 == omega0,
        r.roots@.len() == big_l + 1,
        r.layer_batches.layers@.len() == big_l,
        r.queries@.len() == r_count,
        forall|l: int|
            0 <= l < r.roots@.len() ==> (#[trigger] r.roots@[l]) == st.transcript.layers@[l].root,
        forall|q: int|
            0 <= q < r_count ==> (#[trigger] r.queries@[q]).per_layer_refs@.len() == big_l
                && r.queries@[q].per_layer_payloads@.len() == big_l && r.queries@[q].final_index
                == 0 && r.queries@[q].final_pair.0 == st.transcript.layers@.last().f@[0]
                && r.queries@[q].final_pair.1 == st.transcript.layers@.last().s@[0],
        forall|q: int, l: int|
            0 <= q < r_count && 0 <= l < big_l ==> {
                let rref = #[trigger] r.queries@[q].per_layer_refs@[l];
                rref.i as int == query_index_v(
                    roots_seed_v(fe_seq_v(r.roots@)),
                    l as nat,
                    q as nat,
                    st.transcript.layers@[l].n as nat,
                ) && rref.parent_index as int == rref.i as int / (st.transcript.layers@[l].m
                    as int)
            },
        forall|q: int, l: int|
            0 <= q < r_count && 0 <= l < big_l ==> {
                let rref = r.queries@[q].per_layer_refs@[l];
                let pay = #[trigger] r.queries@[q].per_layer_payloads@[l];
                pay.f_i == st.transcript.layers@[l].f@[rref.i as int] && pay.s_i
                    == st.transcript.layers@[l].s@[rref.i as int] && pay.f_parent_b
                    == st.transcript.layers@[l + 1].f@[rref.parent_index as int] && pay.s_parent_b
                    == st.transcript.layers@[l + 1].s@[rref.parent_index as int]
            },
{
    let roots_pre = collect_roots(st);
    let roots_seed = fs_seed_from_roots(roots_pre.as_slice());
    let (refs_only, roots, batches) = fri_prove_queries_slim(st, r_count, &roots_seed);
    proof {
        assert(fe_seq_v(roots_pre@) =~= fe_seq_v(roots@));
    }
    let queries = assemble_queries(st, &refs_only, r_count, big_l, Ghost(roots_seed@));
    DeepFriProof { roots, layer_batches: batches, queries, n0, omega0 }
}

/// In a faithful folding chain every layer's length is divided by its factor.
proof fn lemma_divides_sizes(n0: int, sched: Seq<int>, f_layers: Seq<Vec<Fe>>, l: int)
    requires
        0 <= l < sched.len(),
        divides_chain(n0, sched),
        f_layers.len() == sched.len() + 1,
        f_layers[0]@.len() == n0,
        forall|k: int|
            0 <= k < sched.len() ==> (#[trigger] f_layers[k + 1])@.len() as int == f_layers[k]@.len()
                as int / sched[k],
    ensures
        f_layers[l]@.len() as int % sched[l] == 0,
    decreases l,
{
    assert(sched.skip(0) =~= sched);
    lemma_divides_sizes_aux(n0, sched, f_layers, l, 0);
}

proof fn lemma_divides_sizes_aux(n0: int, sched: Seq<int>, f_layers: Seq<Vec<Fe>>, l: int, k: int)
    requires
        0 <= k <= l < sched.len(),
        f_layers.len() == sched.len() + 1,
        divides_chain(f_layers[k]@.len() as int, sched.skip(k)),
        forall|j: int|
            0 <= j < sched.len() ==> (#[trigger] f_layers[j + 1])@.len() as int == f_layers[j]@.len()
                as int / sched[j],
    ensures
        f_layers[l]@.len() as int % sched[l] == 0,
    decreases l - k,
{
    assert(sched.skip(k)[0] == sched[k]);
    if k == l {
        assert(divides_chain(f_layers[l]@.len() as int, sched.skip(l)));
    } else {
        assert(sched.skip(k).drop_first() =~= sched.skip(k + 1));
        assert(f_layers[k + 1]@.len() as int == f_layers[k]@.len() as int / sched[k]);
        lemma_divides_sizes_aux(n0, sched, f_layers, l, k + 1);
    }
}

/// Saturating addition on the byte-count domain.
pub open spec fn sat_add_v(a: int, b: int) -> int {
    if a + b > usize::MAX as int {
        usize::MAX as int
    } else {
        a + b
    }
}

/// Saturating scaling by a small per-entry byte width.
pub open spec fn sat_scale_v(a: int, w: int) -> int {
    if a * w > usize::MAX as int {
        usize::MAX as int
    } else {
        a * w
    }
}

fn sat_add(a: usize, b: usize) -> (r: usize)
    ensures
        r as int == sat_add_v(a as int, b as int),
{
    if usize::MAX - a < b {
        usize::MAX
    } else {
        a + b
    }
}

fn sat_scale(a: usize, w: usize) -> (r: usize)
    requires
        1 <= w,
    ensures
        r as int == sat_scale_v(a as int, w as int),
{
    if a > usize::MAX / w {
        proof {
            vstd::arithmetic::div_mod::lemma_fundamental_div_mod(usize::MAX as int, w as int);
            vstd::arithmetic::div_mod::lemma_mod_bound(usize::MAX as int, w as int);
            vstd::arithmetic::mul::lemma_mul_is_commutative(w as int, usize::MAX as int / (w as int));
            vstd::arithmetic::mul::lemma_mul_inequality(
                usize::MAX as int / (w as int) + 1,
                a as int,
                w as int,
            );
            vstd::arithmetic::mul::lemma_mul_is_distributive_add_other_way(
                w as int,
                usize::MAX as int / (w as int),
                1,
            );
        }
        usize::MAX
    } else {
        proof {
            vstd::arithmetic::div_mod::lemma_fundamental_div_mod(usize::MAX as int, w as int);
            vstd::arithmetic::div_mod::lemma_mod_bound(usize::MAX as int, w as int);
            vstd::arithmetic::mul::lemma_mul_is_commutative(w as int, usize::MAX as int / (w as int));
            vstd::arithmetic::mul::lemma_mul_inequality(
                a as int,
                usize::MAX as int / (w as int),
                w as int,
            );
        }
        a * w
    }
}

/// The sibling bytes of one proof: an 8-byte length prefix and 32 bytes per
/// digest at every level.
pub open spec fn sibs_size_v(sibs: Seq<Vec<Fe>>, i: nat, acc: int) -> int
    decreases sibs.len() - i,
{
    if i >= sibs.len() {
        acc
    } else {
        sibs_size_v(sibs, i + 1, sat_add_v(acc, sat_add_v(8, sat_scale_v(sibs[i as int]@.len() as int, 32))))
    }
}

/// The group-size bytes of one proof: an 8-byte length prefix and one byte per
/// entry at every level.
pub open spec fn gsizes_size_v(gs: Seq<Vec<u8>>, i: nat, acc: int) -> int
    decreases gs.len() - i,
{
    if i >= gs.len() {
        acc
    } else {
        gsizes_size_v(gs, i + 1, sat_add_v(acc, sat_add_v(8, gs[i as int]@.len() as int)))
    }
}

/// The wire size of a multiproof: one byte of arity, the group sizes, and the
/// siblings, each level length-prefixed.
pub open spec fn merkle_proof_size_v(mp: MerkleProof) -> int {
    sibs_size_v(mp.siblings@, 0, gsizes_size_v(mp.group_sizes@, 0, 1))
}

/// Account the bytes of one multiproof.
pub fn merkle_proof_size_bytes(mp: &MerkleProof) -> (r: usize)
    ensures
        r as int == merkle_proof_size_v(*mp),
{
    let mut total: usize = 1;
    let mut i: usize = 0;
    while i < mp.group_sizes.len()
        invariant
            i <= mp.group_sizes@.len(),
            gsizes_size_v(mp.group_sizes@, 0, 1) == gsizes_size_v(
                mp.group_sizes@,
                i as nat,
                total as int,
            ),
        decreases mp.group_sizes@.len() - i,
    {
        total = sat_add(total, sat_add(8, mp.group_sizes[i].len()));
        i = i + 1;
    }
    let ghost after_gs = total as int;
    let mut j: usize = 0;
    while j < mp.siblings.len()
        invariant
            j <= mp.siblings@.len(),
            sibs_size_v(mp.siblings@, 0, after_gs) == sibs_size_v(
                mp.siblings@,
                j as nat,
                total as int,
            ),
        decreases mp.siblings@.len() - j,
    {
        total = sat_add(total, sat_add(8, sat_scale(mp.siblings[j].len(), 32)));
        j = j + 1;
    }
    total
}

/// The per-layer index lists and batched proofs.
pub open spec fn layers_size_v(lbs: Seq<LayerBatchProof>, i: nat, acc: int) -> int
    decreases lbs.len() - i,
{
    if i >= lbs.len() {
        acc
    } else {
        let lb = lbs[i as int];
        let step = sat_add_v(
            sat_add_v(merkle_proof_size_v(lb.child_proof), merkle_proof_size_v(lb.parent_proof)),
            sat_add_v(
                sat_scale_v(lb.child_indices@.len() as int, 8),
                sat_scale_v(lb.parent_indices@.len() as int, 8),
            ),
        );
        layers_size_v(lbs, i + 1, sat_add_v(acc, step))
    }
}

/// The per-query payloads: the final index and pair, and per layer two
/// positions and four opened field elements.
pub open spec fn queries_size_v(qs: Seq<FriQueryPayload>, i: nat, acc: int) -> int
    decreases qs.len() - i,
{
    if i >= qs.len() {
        acc
    } else {
        let q = qs[i as int];
        let step = sat_add_v(
            sat_add_v(8, 64),
            sat_add_v(
                sat_scale_v(q.per_layer_refs@.len() as int, 16),
                sat_scale_v(q.per_layer_payloads@.len() as int, 128),
            ),
        );
        queries_size_v(qs, i + 1, sat_add_v(acc, step))
    }
}

/// The wire size of a whole proof: the roots, the (ω₀, n₀) preamble, the
/// batched layer proofs with their index lists, the final opening, and the
/// per-query payloads, counting 32 bytes per field element and 8 per index.
pub open spec fn deep_fri_proof_size_v(p: DeepFriProof) -> int {
    let base = sat_add_v(sat_scale_v(p.roots@.len() as int, 32), sat_add_v(32, 8));
    let with_layers = layers_size_v(p.layer_batches.layers@, 0, base);
    let with_final = sat_add_v(with_layers, merkle_proof_size_v(p.layer_batches.final_proof));
    queries_size_v(p.queries@, 0, with_final)
}

/// Account the bytes of a whole proof.
pub fn deep_fri_proof_size_bytes(p: &DeepFriProof) -> (r: usize)
    ensures
        r as int == deep_fri_proof_size_v(*p),
{
    let mut total: usize = sat_add(sat_scale(p.roots.len(), 32), sat_add(32, 8));
    let mut i: usize = 0;
    while i < p.layer_batches.layers.len()
        invariant
            i <= p.layer_batches.layers@.len(),
            layers_size_v(
                p.layer_batches.layers@,
                0,
                sat_add_v(sat_scale_v(p.roots@.len() as int, 32), sat_add_v(32, 8)),
            ) == layers_size_v(p.layer_batches.layers@, i as nat, total as int),
        decreases p.layer_batches.layers@.len() - i,
    {
        let lb = &p.layer_batches.layers[i];
        let child = merkle_proof_size_bytes(&lb.child_proof);
        let parent = merkle_proof_size_bytes(&lb.parent_proof);
        let idxs = sat_add(
            sat_scale(lb.child_indices.len(), 8),
            sat_scale(lb.parent_indices.len(), 8),
        );
        total = sat_add(total, sat_add(sat_add(child, parent), idxs));
        i = i + 1;
    }
    total = sat_add(total, merkle_proof_size_bytes(&p.layer_batches.final_proof));
    let ghost with_final = total as int;
    let mut q: usize = 0;
    while q < p.queries.len()
        invariant
            q <= p.queries@.len(),
            queries_size_v(p.queries@, 0, with_final) == queries_size_v(
                p.queries@,
                q as nat,
                total as int,
            ),
        decreases p.queries@.len() - q,
    {
        let qp = &p.queries[q];
        let step = sat_add(
            sat_add(8, 64),
            sat_add(
                sat_scale(qp.per_layer_refs.len(), 16),
                sat_scale(qp.per_layer_payloads.len(), 128),
            ),
        );
        total = sat_add(total, step);
        q = q + 1;
    }
    total
}


} // verus!
