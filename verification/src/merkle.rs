//! High-arity Merkle commitments over Poseidon digests, with domain-separated
//! node hashing, pair leaves, and union-of-paths multiproofs.

use vstd::prelude::*;
use vstd::string::StringSliceAdditionalSpecFns;
use crate::field::{fe_seq_v, Fe};
use crate::poseidon::{
    derived_mds_v, derived_rcf_v, derived_rcp_v, generate_params_t17_x5, hash_ds_v, hash_legacy_v,
    hash_with_ds, hash_with_ds_dynamic, params_for_width_v, poseidon_params_for_arity,
    width_for_arity, PoseidonParams, PoseidonParamsDynamic,
};

verus! {

/// The level marker reserved for pair-leaf digests.
pub const LEAF_LEVEL_DS: u32 = 4294967295;

/// Domain-separation label for tree nodes.
#[derive(Clone, Copy, Debug)]
pub struct DsLabel {
    pub arity: usize,
    pub level: u32,
    pub position: u64,
    pub tree_label: u64,
}

/// The four field words a node label contributes to its digest.
pub open spec fn ds_fields_v(arity: nat, level: nat, position: nat, tree_label: nat) -> Seq<int> {
    seq![arity as int, level as int, position as int, tree_label as int]
}

impl DsLabel {
    /// Encode the label as field elements.
    pub fn to_fields(self) -> (r: Vec<Fe>)
        ensures
            fe_seq_v(r@) == ds_fields_v(
                self.arity as nat,
                self.level as nat,
                self.position as nat,
                self.tree_label as nat,
            ),
    {
        let mut v: Vec<Fe> = Vec::new();
        v.push(Fe::from_u64(self.arity as u64));
        v.push(Fe::from_u64(self.level as u64));
        v.push(Fe::from_u64(self.position));
        v.push(Fe::from_u64(self.tree_label));
        proof {
            assert(fe_seq_v(v@) =~= ds_fields_v(
                self.arity as nat,
                self.level as nat,
                self.position as nat,
                self.tree_label as nat,
            ));
        }
        v
    }
}

/// Whether an arity is served by a Poseidon width.
pub open spec fn ok_width(arity: nat, t: nat) -> bool {
    ||| (arity <= 8 && t == 9)
    ||| (9 <= arity <= 16 && t == 17)
    ||| (17 <= arity <= 32 && t == 33)
    ||| (33 <= arity <= 64 && t == 65)
}

/// Tree configuration: arity, Poseidon parameters, and a tree label.
#[derive(Clone)]
pub struct MerkleChannelCfg {
    pub arity: usize,
    pub params: PoseidonParamsDynamic,
    pub tree_label: u64,
}

impl MerkleChannelCfg {
    /// Shape well-formedness: a positive arity matching the Poseidon width.
    pub open spec fn wf(self) -> bool {
        1 <= self.arity && self.params.wf() && ok_width(self.arity as nat, self.params.t as nat)
    }

    pub fn with_params(arity: usize, params: PoseidonParamsDynamic) -> (r: MerkleChannelCfg)
        ensures
            r.arity == arity,
            r.params == params,
            r.tree_label == 0,
    {
        MerkleChannelCfg { arity, params, tree_label: 0 }
    }

    /// A configuration at the smallest legal width for the arity.
    pub fn new(arity: usize) -> (r: MerkleChannelCfg)
        requires
            1 <= arity <= 64,
        ensures
            r.wf(),
            r.arity == arity,
            r.tree_label == 0,
            params_for_width_v(r.params, width_for_arity(arity as nat)),
    {
        let params = poseidon_params_for_arity(arity);
        MerkleChannelCfg { arity, params, tree_label: 0 }
    }

    pub fn with_tree_label(self, label: u64) -> (r: MerkleChannelCfg)
        ensures
            r.arity == self.arity,
            r.params == self.params,
            r.tree_label == label,
    {
        let mut c = self;
        c.tree_label = label;
        c
    }
}

/// How nodes are hashed: with per-node DS labels, or with one fixed tag in the
/// capacity lane.
pub enum NodeHasher {
    DsAware(MerkleChannelCfg),
    Legacy(Fe, PoseidonParams),
}

impl NodeHasher {
    pub open spec fn wf(self) -> bool {
        match self {
            NodeHasher::DsAware(cfg) => cfg.wf(),
            NodeHasher::Legacy(_tag, params) => params.wf(),
        }
    }

    /// Well-formedness of the Poseidon parameters alone.
    pub open spec fn params_wf(self) -> bool {
        match self {
            NodeHasher::DsAware(cfg) => cfg.params.wf(),
            NodeHasher::Legacy(_tag, params) => params.wf(),
        }
    }

    /// The chunking arity this hasher builds trees with.
    pub open spec fn spec_arity(self) -> nat {
        match self {
            NodeHasher::DsAware(cfg) => cfg.arity as nat,
            NodeHasher::Legacy(_tag, _params) => 16,
        }
    }
}

/// The executable face of a hasher: the arity, the tree label and a borrow of
/// the parameters.
pub enum NodeHasherRef<'a> {
    DsAware(usize, u64, &'a PoseidonParamsDynamic),
    Legacy(Fe, &'a PoseidonParams),
}

impl<'a> NodeHasherRef<'a> {
    /// The hasher this reference stands for.
    pub open spec fn h(self) -> NodeHasher {
        match self {
            NodeHasherRef::DsAware(arity, tree_label, params) => NodeHasher::DsAware(
                MerkleChannelCfg { arity, params: *params, tree_label },
            ),
            NodeHasherRef::Legacy(tag, params) => NodeHasher::Legacy(tag, *params),
        }
    }

    fn arity(&self) -> (r: usize)
        ensures
            r == self.h().spec_arity(),
    {
        match self {
            NodeHasherRef::DsAware(arity, _, _) => *arity,
            NodeHasherRef::Legacy(_, _) => 16,
        }
    }
}

/// The digest of a node at `(level, position)` over its children.
pub open spec fn node_digest_v(h: NodeHasher, level: nat, position: nat, children: Seq<int>) -> int {
    match h {
        NodeHasher::DsAware(cfg) => hash_ds_v(
            cfg.params.mds_v(),
            cfg.params.rcf_v(),
            cfg.params.rcp_v(),
            cfg.params.t as nat,
            ds_fields_v(cfg.arity as nat, level, position, cfg.tree_label as nat),
            children,
        ),
        NodeHasher::Legacy(tag, params) => hash_legacy_v(
            params.mds_v(),
            params.rcf_v(),
            params.rcp_v(),
            children,
            tag@,
        ),
    }
}

/// Hash one node.
fn node_digest(h: &NodeHasherRef<'_>, level: u32, position: u64, children: &[Fe]) -> (r: Fe)
    requires
        h.h().params_wf(),
    ensures
        r@ == node_digest_v(h.h(), level as nat, position as nat, fe_seq_v(children@)),
{
    match h {
        NodeHasherRef::DsAware(arity, tree_label, params) => {
            let ds = DsLabel { arity: *arity, level, position, tree_label: *tree_label };
            let fields = ds.to_fields();
            hash_with_ds_dynamic(fields.as_slice(), children, params)
        },
        NodeHasherRef::Legacy(tag, params) => hash_with_ds(children, tag, params),
    }
}

/// One parent row: each chunk of `arity` children hashed, the last chunk short.
pub open spec fn parents_v(h: NodeHasher, level: nat, cur: Seq<int>) -> Seq<int> {
    let m = h.spec_arity() as int;
    Seq::new(
        ((cur.len() + m - 1) / m) as nat,
        |p: int|
            node_digest_v(
                h,
                level,
                p as nat,
                cur.subrange(
                    p * m,
                    if (p + 1) * m < cur.len() {
                        (p + 1) * m
                    } else {
                        cur.len() as int
                    },
                ),
            ),
    )
}

proof fn lemma_ceil_div_lt(n: int, m: int)
    requires
        n >= 2,
        m >= 2,
    ensures
        1 <= (n + m - 1) / m < n,
{
    vstd::arithmetic::div_mod::lemma_fundamental_div_mod(n + m - 1, m);
    let q = (n + m - 1) / m;
    let r = (n + m - 1) % m;
    vstd::arithmetic::mul::lemma_mul_is_commutative(m, q);
    assert(0 <= r < m) by {
        vstd::arithmetic::div_mod::lemma_mod_bound(n + m - 1, m);
    }
    assert(n + m - 1 < n * m) by (nonlinear_arith)
        requires
            n >= 2,
            m >= 2,
    ;
    assert(q * m <= n + m - 1);
    assert(q < n) by (nonlinear_arith)
        requires
            q * m < n * m,
            m >= 2,
    ;
    assert(q >= 1) by (nonlinear_arith)
        requires
            q * m + r == n + m - 1,
            0 <= r < m,
            n >= 2,
            m >= 2,
    ;
}

/// All levels of a tree over the given bottom row, leaves first, the root row
/// of length one last.
pub open spec fn tree_levels_v(h: NodeHasher, cur: Seq<int>, level: nat) -> Seq<Seq<int>>
    decreases cur.len(),
    via tree_levels_v_dec
{
    if cur.len() <= 1 || h.spec_arity() < 2 {
        seq![cur]
    } else {
        seq![cur] + tree_levels_v(h, parents_v(h, level, cur), level + 1)
    }
}

#[via_fn]
proof fn tree_levels_v_dec(h: NodeHasher, cur: Seq<int>, level: nat) {
    if !(cur.len() <= 1 || h.spec_arity() < 2) {
        lemma_ceil_div_lt(cur.len() as int, h.spec_arity() as int);
    }
}

/// The root of a tree over the given bottom row.
pub open spec fn tree_root_v(h: NodeHasher, level0: Seq<int>) -> int {
    tree_levels_v(h, level0, 0).last()[0]
}

/// A tree's levels: level 0 holds the leaf digests, each later level the
/// parents of the one before, the last level the root alone.
pub struct MerkleTree {
    pub leaves: Vec<Fe>,
    pub root: Fe,
    pub ds_tag: Fe,
    pub levels: Vec<Vec<Fe>>,
    pub params: PoseidonParams,
    pub cfg: Option<MerkleChannelCfg>,
}

impl MerkleTree {
    /// The integer model of the stored levels.
    pub open spec fn levels_v(self) -> Seq<Seq<int>> {
        Seq::new(self.levels@.len(), |i: int| fe_seq_v(self.levels@[i]@))
    }

    /// The hasher this tree was built with.
    pub open spec fn hasher(self) -> NodeHasher {
        match self.cfg {
            Some(cfg) => NodeHasher::DsAware(cfg),
            None => NodeHasher::Legacy(self.ds_tag, self.params),
        }
    }

    /// A well-formed tree: its levels are exactly the tower over its leaf row.
    pub open spec fn wf(self) -> bool {
        &&& self.hasher().wf()
        &&& self.levels_v() == tree_levels_v(self.hasher(), fe_seq_v(self.levels@[0]@), 0)
        &&& self.levels@.len() >= 1
        &&& self.levels@.last()@.len() == 1
        &&& self.root@ == self.levels@.last()@[0]@
        &&& self.leaves@ == self.levels@[0]@
        &&& fe_seq_v(self.levels@[0]@).len() >= 1
    }
}

/// Build every level above a bottom row.
fn build_levels(h: &NodeHasherRef<'_>, level0: Vec<Fe>) -> (r: Vec<Vec<Fe>>)
    requires
        h.h().wf(),
        h.h().spec_arity() <= 64,
        1 <= level0@.len() <= 0xffffffff,
        h.h().spec_arity() >= 2 || level0@.len() == 1,
    ensures
        r@.len() >= 1,
        Seq::new(r@.len(), |i: int| fe_seq_v(r@[i]@)) == tree_levels_v(h.h(), fe_seq_v(level0@), 0),
        r@[0]@ == level0@,
        r@.last()@.len() == 1,
{
    let m = h.arity();
    let ghost l0 = fe_seq_v(level0@);
    let ghost l0e = level0@;
    let mut levels: Vec<Vec<Fe>> = Vec::new();
    levels.push(level0);
    let mut cur_level: u32 = 0;
    while levels[levels.len() - 1].len() > 1
        invariant
            h.h().wf(),
            m == h.h().spec_arity(),
            m <= 64,
            m >= 2 || l0.len() == 1,
            levels@.len() >= 1,
            levels@[0]@ == l0e,
            fe_seq_v(l0e) == l0,
            1 <= l0.len() <= 0xffffffff,
            cur_level as int == levels@.len() - 1,
            tree_levels_v(h.h(), l0, 0) =~= Seq::new(
                (levels@.len() - 1) as nat,
                |i: int| fe_seq_v(levels@[i]@),
            ) + tree_levels_v(h.h(), fe_seq_v(levels@.last()@), cur_level as nat),
            levels@.last()@.len() >= 1,
            levels@.last()@.len() + levels@.len() <= l0.len() + 1,
        decreases levels@.last()@.len(),
    {
        let cur_len = levels[levels.len() - 1].len();
        let ghost curv = fe_seq_v(levels@.last()@);
        proof {
            if m < 2 {
                assert(l0.len() == 1);
                assert(levels@.len() == 1);
                assert(false);
            }
            lemma_ceil_div_lt(cur_len as int, m as int);
            vstd::arithmetic::div_mod::lemma_div_plus_one(cur_len as int - 1, m as int);
        }
        let n_parents = (cur_len - 1) / m + 1;
        assert(n_parents as int == (cur_len as int + m as int - 1) / (m as int));
        let mut next: Vec<Fe> = Vec::new();
        let mut p: usize = 0;
        while p < n_parents
            invariant
                h.h().wf(),
                m == h.h().spec_arity(),
                2 <= m <= 64,
                levels@.len() >= 1,
                cur_len == levels@.last()@.len(),
                curv == fe_seq_v(levels@.last()@),
                2 <= cur_len <= 0xffffffff,
                n_parents as int == (cur_len as int + m as int - 1) / (m as int),
                n_parents as int == (cur_len as int - 1) / (m as int) + 1,
                1 <= n_parents < cur_len,
                p <= n_parents,
                cur_level as int == levels@.len() - 1,
                next@.len() == p,
                forall|k: int|
                    0 <= k < p ==> (#[trigger] next@[k])@ == parents_v(
                        h.h(),
                        cur_level as nat,
                        curv,
                    )[k],
            decreases n_parents - p,
        {
            proof {
                vstd::arithmetic::div_mod::lemma_fundamental_div_mod(cur_len as int - 1, m as int);
                vstd::arithmetic::div_mod::lemma_mod_bound(cur_len as int - 1, m as int);
                vstd::arithmetic::mul::lemma_mul_inequality(
                    p as int,
                    (cur_len as int - 1) / (m as int),
                    m as int,
                );
                vstd::arithmetic::mul::lemma_mul_is_commutative(
                    m as int,
                    (cur_len as int - 1) / (m as int),
                );
            }
            let base = p * m;
            assert(base <= cur_len - 1);
            let end = if cur_len - base > m {
                base + m
            } else {
                cur_len
            };
            let mut children: Vec<Fe> = Vec::new();
            let mut j: usize = base;
            while j < end
                invariant
                    base <= j <= end,
                    end <= levels@.last()@.len(),
                    curv == fe_seq_v(levels@.last()@),
                    levels@.len() >= 1,
                    fe_seq_v(children@) =~= curv.subrange(base as int, j as int),
                decreases end - j,
            {
                let li = levels.len() - 1;
                let c = levels[li][j];
                proof {
                    assert(c@ == curv[j as int]);
                }
                let ghost pre = children@;
                children.push(c);
                proof {
                    assert(children@ =~= pre.push(c));
                    assert(curv.subrange(base as int, j + 1) =~= curv.subrange(
                        base as int,
                        j as int,
                    ).push(curv[j as int]));
                    assert(fe_seq_v(pre.push(c)) =~= fe_seq_v(pre).push(c@));
                    assert(fe_seq_v(children@) =~= curv.subrange(base as int, j + 1));
                }
                j = j + 1;
            }
            let d = node_digest(h, cur_level, p as u64, children.as_slice());
            next.push(d);
            proof {
                assert((p + 1) * m == base + m) by (nonlinear_arith)
                    requires
                        base == p * m,
                ;
                assert(fe_seq_v(children@) =~= curv.subrange(
                    p as int * (m as int),
                    if (p as int + 1) * (m as int) < curv.len() {
                        (p as int + 1) * (m as int)
                    } else {
                        curv.len() as int
                    },
                ));
                assert(next@[p as int]@ == parents_v(h.h(), cur_level as nat, curv)[p as int]);
            }
            p = p + 1;
        }
        proof {
            assert(fe_seq_v(next@) =~= parents_v(h.h(), cur_level as nat, curv));
        }
        levels.push(next);
        proof {
            let pre = levels@.drop_last();
            assert(fe_seq_v(levels@.last()@) == parents_v(h.h(), cur_level as nat, curv));
            assert(tree_levels_v(h.h(), curv, cur_level as nat) == seq![curv] + tree_levels_v(
                h.h(),
                parents_v(h.h(), cur_level as nat, curv),
                cur_level as nat + 1,
            ));
            assert(Seq::new((levels@.len() - 1) as nat, |i: int| fe_seq_v(levels@[i]@)) =~= Seq::new(
                (pre.len() - 1) as nat,
                |i: int| fe_seq_v(pre[i]@),
            ) + seq![curv]);
            assert(tree_levels_v(h.h(), l0, 0) =~= Seq::new(
                (levels@.len() - 1) as nat,
                |i: int| fe_seq_v(levels@[i]@),
            ) + tree_levels_v(h.h(), fe_seq_v(levels@.last()@), (cur_level + 1) as nat));
        }
        cur_level = cur_level + 1;
    }
    proof {
        assert(tree_levels_v(h.h(), fe_seq_v(levels@.last()@), cur_level as nat) == seq![
            fe_seq_v(levels@.last()@),
        ]);
        assert(Seq::new(levels@.len(), |i: int| fe_seq_v(levels@[i]@)) =~= Seq::new(
            (levels@.len() - 1) as nat,
            |i: int| fe_seq_v(levels@[i]@),
        ) + seq![fe_seq_v(levels@.last()@)]);
        assert(Seq::new(levels@.len(), |i: int| fe_seq_v(levels@[i]@)) =~= tree_levels_v(
            h.h(),
            l0,
            0,
        ));
    }
    levels
}

/// Copy a vector of field elements.
pub(crate) fn clone_fe_vec(v: &Vec<Fe>) -> (r: Vec<Fe>)
    ensures
        r@ == v@,
{
    let mut out: Vec<Fe> = Vec::new();
    let mut i: usize = 0;
    while i < v.len()
        invariant
            i <= v@.len(),
            out@ =~= v@.subrange(0, i as int),
        decreases v@.len() - i,
    {
        out.push(v[i]);
        i = i + 1;
    }
    proof {
        assert(out@ =~= v@);
    }
    out
}

/// Deterministic default fixed-width parameters for legacy trees.
pub fn default_params() -> (r: PoseidonParams)
    ensures
        r.wf(),
        r.mds_v() == derived_mds_v("POSEIDON-T17-X5-SEED".spec_bytes(), 17),
        r.rcf_v() == derived_rcf_v("POSEIDON-T17-X5-SEED".spec_bytes(), 8, 17),
        r.rcp_v() == derived_rcp_v("POSEIDON-T17-X5-SEED".spec_bytes(), 64),
{
    generate_params_t17_x5("POSEIDON-T17-X5-SEED".as_bytes())
}

/// The digest of a pair leaf at position `i`, under the leaf-level marker.
pub open spec fn leaf_digest_ds_v(cfg: MerkleChannelCfg, i: nat, f: int, s: int) -> int {
    node_digest_v(NodeHasher::DsAware(cfg), LEAF_LEVEL_DS as nat, i, seq![f, s])
}

/// The digest of a pair leaf under the legacy fixed-tag scheme.
pub open spec fn leaf_digest_legacy_v(tag: Fe, params: PoseidonParams, f: int, s: int) -> int {
    node_digest_v(NodeHasher::Legacy(tag, params), 0, 0, seq![f, s])
}

/// The bottom row of a pair-leaf tree.
pub open spec fn pair_leaves_ds_v(cfg: MerkleChannelCfg, f: Seq<int>, s: Seq<int>) -> Seq<int> {
    Seq::new(f.len(), |i: int| leaf_digest_ds_v(cfg, i as nat, f[i], s[i]))
}

/// The bottom row of a legacy pair-leaf tree.
pub open spec fn pair_leaves_legacy_v(tag: Fe, params: PoseidonParams, f: Seq<int>, s: Seq<
    int,
>) -> Seq<int> {
    Seq::new(f.len(), |i: int| leaf_digest_legacy_v(tag, params, f[i], s[i]))
}

fn encode_leaf_digest_ds(index: usize, cfg: &MerkleChannelCfg, f: &Fe, cp: &Fe) -> (r: Fe)
    requires
        cfg.wf(),
    ensures
        r@ == leaf_digest_ds_v(*cfg, index as nat, f@, cp@),
{
    let h = NodeHasherRef::DsAware(cfg.arity, cfg.tree_label, &cfg.params);
    let mut pair: Vec<Fe> = Vec::new();
    pair.push(*f);
    pair.push(*cp);
    proof {
        assert(fe_seq_v(pair@) =~= seq![f@, cp@]);
    }
    node_digest(&h, LEAF_LEVEL_DS, index as u64, pair.as_slice())
}

fn encode_leaf_digest_legacy(f: &Fe, cp: &Fe, ds_tag: &Fe, params: &PoseidonParams) -> (r: Fe)
    requires
        params.wf(),
    ensures
        r@ == leaf_digest_legacy_v(*ds_tag, *params, f@, cp@),
{
    let h = NodeHasherRef::Legacy(*ds_tag, params);
    let mut pair: Vec<Fe> = Vec::new();
    pair.push(*f);
    pair.push(*cp);
    proof {
        assert(fe_seq_v(pair@) =~= seq![f@, cp@]);
    }
    node_digest(&h, 0, 0, pair.as_slice())
}

impl MerkleTree {
    /// Build a single-column tree: the leaves are the bottom row as they stand.
    pub fn new(leaves: Vec<Fe>, cfg: MerkleChannelCfg) -> (r: MerkleTree)
        requires
            cfg.wf(),
            1 <= leaves@.len() <= 0xffffffff,
            cfg.arity >= 2 || leaves@.len() == 1,
        ensures
            r.wf(),
            r.cfg == Some(cfg),
            r.hasher() == NodeHasher::DsAware(cfg),
            r.levels_v() == tree_levels_v(NodeHasher::DsAware(cfg), fe_seq_v(leaves@), 0),
            r.leaves@ == leaves@,
            r.root@ == tree_root_v(NodeHasher::DsAware(cfg), fe_seq_v(leaves@)),
    {
        let levels = {
            let h = NodeHasherRef::DsAware(cfg.arity, cfg.tree_label, &cfg.params);
            build_levels(&h, leaves)
        };
        let li = levels.len() - 1;
        let root = levels[li][0];
        let leaves_copy = clone_fe_vec(&levels[0]);
        let t = MerkleTree {
            leaves: leaves_copy,
            root,
            ds_tag: Fe::zero(),
            levels,
            params: default_params(),
            cfg: Some(cfg),
        };
        proof {
            assert(t.levels_v() =~~= tree_levels_v(t.hasher(), fe_seq_v(t.levels@[0]@), 0));
        }
        t
    }

    /// Build a tree under the legacy fixed-tag hashing at width 17.
    pub fn new_legacy(leaves: Vec<Fe>, ds_tag: Fe, params: PoseidonParams) -> (r: MerkleTree)
        requires
            params.wf(),
            1 <= leaves@.len() <= 0xffffffff,
        ensures
            r.wf(),
            r.cfg is None,
            r.hasher() == NodeHasher::Legacy(ds_tag, params),
            r.levels_v() == tree_levels_v(NodeHasher::Legacy(ds_tag, params), fe_seq_v(leaves@), 0),
            r.leaves@ == leaves@,
            r.root@ == tree_root_v(NodeHasher::Legacy(ds_tag, params), fe_seq_v(leaves@)),
    {
        let levels = {
            let h = NodeHasherRef::Legacy(ds_tag, &params);
            build_levels(&h, leaves)
        };
        let li = levels.len() - 1;
        let root = levels[li][0];
        let leaves_copy = clone_fe_vec(&levels[0]);
        let t = MerkleTree { leaves: leaves_copy, root, ds_tag, levels, params, cfg: None };
        proof {
            assert(t.levels_v() =~~= tree_levels_v(t.hasher(), fe_seq_v(t.levels@[0]@), 0));
        }
        t
    }

    /// Build a pair-leaf tree: each position hashes its `(f, cp)` pair into one
    /// digest under the leaf marker, then the tower rises as usual.
    pub fn new_pairs(f_vals: &[Fe], cp_vals: &[Fe], cfg: MerkleChannelCfg) -> (r: MerkleTree)
        requires
            cfg.wf(),
            f_vals@.len() == cp_vals@.len(),
            1 <= f_vals@.len() <= 0xffffffff,
            cfg.arity >= 2 || f_vals@.len() == 1,
        ensures
            r.wf(),
            r.cfg == Some(cfg),
            r.hasher() == NodeHasher::DsAware(cfg),
            r.levels_v() == tree_levels_v(
                NodeHasher::DsAware(cfg),
                pair_leaves_ds_v(cfg, fe_seq_v(f_vals@), fe_seq_v(cp_vals@)),
                0,
            ),
            r.root@ == tree_root_v(
                NodeHasher::DsAware(cfg),
                pair_leaves_ds_v(cfg, fe_seq_v(f_vals@), fe_seq_v(cp_vals@)),
            ),
    {
        let n = f_vals.len();
        let mut level0: Vec<Fe> = Vec::new();
        let mut i: usize = 0;
        while i < n
            invariant
                i <= n,
                cfg.wf(),
                n == f_vals@.len(),
                n == cp_vals@.len(),
                level0@.len() == i,
                forall|k: int|
                    0 <= k < i ==> (#[trigger] level0@[k])@ == leaf_digest_ds_v(
                        cfg,
                        k as nat,
                        f_vals@[k]@,
                        cp_vals@[k]@,
                    ),
            decreases n - i,
        {
            let d = encode_leaf_digest_ds(i, &cfg, &f_vals[i], &cp_vals[i]);
            level0.push(d);
            i = i + 1;
        }
        proof {
            assert(fe_seq_v(level0@) =~= pair_leaves_ds_v(cfg, fe_seq_v(f_vals@), fe_seq_v(
                cp_vals@,
            )));
        }
        let levels = {
            let h = NodeHasherRef::DsAware(cfg.arity, cfg.tree_label, &cfg.params);
            build_levels(&h, level0)
        };
        let li = levels.len() - 1;
        let root = levels[li][0];
        let level0_copy = clone_fe_vec(&levels[0]);
        let t = MerkleTree {
            leaves: level0_copy,
            root,
            ds_tag: Fe::zero(),
            levels,
            params: default_params(),
            cfg: Some(cfg),
        };
        proof {
            assert(t.levels_v() =~~= tree_levels_v(t.hasher(), fe_seq_v(t.levels@[0]@), 0));
        }
        t
    }

    /// Build a legacy pair-leaf tree with one fixed tag.
    pub fn new_pairs_legacy(f_vals: &[Fe], cp_vals: &[Fe], ds_tag: Fe, params: PoseidonParams) -> (r:
        MerkleTree)
        requires
            params.wf(),
            f_vals@.len() == cp_vals@.len(),
            1 <= f_vals@.len() <= 0xffffffff,
        ensures
            r.wf(),
            r.cfg is None,
            r.hasher() == NodeHasher::Legacy(ds_tag, params),
            r.levels_v() == tree_levels_v(
                NodeHasher::Legacy(ds_tag, params),
                pair_leaves_legacy_v(ds_tag, params, fe_seq_v(f_vals@), fe_seq_v(cp_vals@)),
                0,
            ),
            r.root@ == tree_root_v(
                NodeHasher::Legacy(ds_tag, params),
                pair_leaves_legacy_v(ds_tag, params, fe_seq_v(f_vals@), fe_seq_v(cp_vals@)),
            ),
    {
        let n = f_vals.len();
        let mut level0: Vec<Fe> = Vec::new();
        let mut i: usize = 0;
        while i < n
            invariant
                i <= n,
                params.wf(),
                n == f_vals@.len(),
                n == cp_vals@.len(),
                level0@.len() == i,
                forall|k: int|
                    0 <= k < i ==> (#[trigger] level0@[k])@ == leaf_digest_legacy_v(
                        ds_tag,
                        params,
                        f_vals@[k]@,
                        cp_vals@[k]@,
                    ),
            decreases n - i,
        {
            let d = encode_leaf_digest_legacy(&f_vals[i], &cp_vals[i], &ds_tag, &params);
            level0.push(d);
            i = i + 1;
        }
        proof {
            assert(fe_seq_v(level0@) =~= pair_leaves_legacy_v(ds_tag, params, fe_seq_v(f_vals@),
            fe_seq_v(cp_vals@)));
        }
        let levels = {
            let h = NodeHasherRef::Legacy(ds_tag, &params);
            build_levels(&h, level0)
        };
        let li = levels.len() - 1;
        let root = levels[li][0];
        let level0_copy = clone_fe_vec(&levels[0]);
        let t = MerkleTree { leaves: level0_copy, root, ds_tag, levels, params, cfg: None };
        proof {
            assert(t.levels_v() =~~= tree_levels_v(t.hasher(), fe_seq_v(t.levels@[0]@), 0));
        }
        t
    }

    pub fn root(&self) -> (r: Fe)
        ensures
            r == self.root,
    {
        self.root
    }

    /// The chunking arity of this tree.
    pub fn arity(&self) -> (r: usize)
        ensures
            r as nat == self.hasher().spec_arity(),
    {
        match &self.cfg {
            Some(cfg) => cfg.arity,
            None => RATE_LEGACY,
        }
    }

    /// The number of hashing levels above the bottom row.
    pub fn height(&self) -> (r: usize)
        requires
            self.levels@.len() >= 1,
        ensures
            r as int == self.levels@.len() - 1,
    {
        self.levels.len() - 1
    }
}

/// The legacy chunking width.
pub const RATE_LEGACY: usize = 16;

/// The integer view of a sequence of indices.
pub open spec fn usize_seq_v(s: Seq<usize>) -> Seq<int> {
    Seq::new(s.len(), |i: int| s[i] as int)
}

pub open spec fn strictly_increasing(s: Seq<int>) -> bool {
    forall|i: int, j: int| 0 <= i < j < s.len() ==> s[i] < s[j]
}

/// Insert a value into an ascending, duplicate-free sequence.
pub open spec fn insert_sorted_v(x: int, t: Seq<int>) -> Seq<int>
    decreases t.len(),
{
    if t.len() == 0 {
        seq![x]
    } else if x > t.last() {
        t + seq![x]
    } else if x == t.last() {
        t
    } else {
        insert_sorted_v(x, t.drop_last()) + seq![t.last()]
    }
}

/// The ascending, duplicate-free arrangement of a sequence.
pub open spec fn sort_dedup_of(s: Seq<int>) -> Seq<int>
    decreases s.len(),
{
    if s.len() == 0 {
        Seq::empty()
    } else {
        insert_sorted_v(s.last(), sort_dedup_of(s.drop_last()))
    }
}

proof fn lemma_insert_sorted_increasing(x: int, t: Seq<int>)
    requires
        strictly_increasing(t),
    ensures
        strictly_increasing(insert_sorted_v(x, t)),
        insert_sorted_v(x, t).len() >= 1,
        insert_sorted_v(x, t).len() <= t.len() + 1,
        forall|k: int|
            0 <= k < insert_sorted_v(x, t).len() ==> (#[trigger] insert_sorted_v(x, t)[k] == x
                || t.contains(insert_sorted_v(x, t)[k])),
        insert_sorted_v(x, t).contains(x),
        forall|y: int| t.contains(y) ==> #[trigger] insert_sorted_v(x, t).contains(y),
    decreases t.len(),
{
    if t.len() == 0 {
        assert(insert_sorted_v(x, t)[0] == x);
    } else if x > t.last() {
        assert forall|y: int| t.contains(y) implies #[trigger] insert_sorted_v(x, t).contains(
            y,
        ) by {
            let j = choose|j: int| 0 <= j < t.len() && t[j] == y;
            assert(insert_sorted_v(x, t)[j] == y);
        }
        assert(insert_sorted_v(x, t)[t.len() as int] == x);
        assert(insert_sorted_v(x, t).contains(x));
    } else if x == t.last() {
        assert(t.contains(x)) by {
            assert(t[t.len() - 1] == x);
        }
    } else {
        lemma_insert_sorted_increasing(x, t.drop_last());
        let inner = insert_sorted_v(x, t.drop_last());
        let r = inner + seq![t.last()];
        assert(forall|k: int|
            0 <= k < inner.len() ==> (#[trigger] inner[k] == x || t.drop_last().contains(
                inner[k],
            )));
        assert forall|k: int| 0 <= k < inner.len() implies inner[k] < t.last() by {
            if inner[k] == x {
            } else {
                assert(t.drop_last().contains(inner[k]));
                let j = choose|j: int|
                    0 <= j < t.drop_last().len() && t.drop_last()[j] == inner[k];
                assert(t[j] == inner[k]);
                assert(t[j] < t[t.len() - 1]);
            }
        }
        assert(strictly_increasing(r));
        assert(r.contains(x)) by {
            assert(inner.contains(x));
            let j = choose|j: int| 0 <= j < inner.len() && inner[j] == x;
            assert(inner[j] == x);
            assert(r[j] == x);
        }
        assert forall|y: int| t.contains(y) implies #[trigger] r.contains(y) by {
            let j = choose|j: int| 0 <= j < t.len() && t[j] == y;
            if j == t.len() - 1 {
                assert(r[r.len() - 1] == y);
            } else {
                assert(t.drop_last()[j] == y);
                assert(t.drop_last().contains(y));
                assert(inner.contains(y));
                let k = choose|k: int| 0 <= k < inner.len() && inner[k] == y;
                assert(inner[k] == y);
                assert(r[k] == y);
            }
        }
        assert forall|k: int|
            0 <= k < r.len() implies (#[trigger] r[k] == x || t.contains(r[k])) by {
            if k < inner.len() {
                if inner[k] != x {
                    assert(t.drop_last().contains(inner[k]));
                    let j = choose|j: int|
                        0 <= j < t.drop_last().len() && t.drop_last()[j] == inner[k];
                    assert(t[j] == r[k]);
                }
            } else {
                assert(r[k] == t.last());
                assert(t[t.len() - 1] == t.last());
            }
        }
    }
}

/// Sorting and deduplicating yields an ascending, duplicate-free sequence with
/// the same members.
pub proof fn lemma_sort_dedup_of(s: Seq<int>)
    ensures
        strictly_increasing(sort_dedup_of(s)),
        sort_dedup_of(s).len() <= s.len(),
        forall|k: int|
            0 <= k < sort_dedup_of(s).len() ==> s.contains(#[trigger] sort_dedup_of(s)[k]),
        forall|y: int| s.contains(y) ==> #[trigger] sort_dedup_of(s).contains(y),
    decreases s.len(),
{
    if s.len() == 0 {
    } else {
        lemma_sort_dedup_of(s.drop_last());
        let t = sort_dedup_of(s.drop_last());
        lemma_insert_sorted_increasing(s.last(), t);
        let r = insert_sorted_v(s.last(), t);
        assert forall|k: int| 0 <= k < r.len() implies s.contains(#[trigger] r[k]) by {
            if r[k] == s.last() {
                assert(s[s.len() - 1] == s.last());
            } else {
                assert(t.contains(r[k]));
                let j = choose|j: int| 0 <= j < t.len() && t[j] == r[k];
                assert(s.drop_last().contains(r[k]));
                let j2 = choose|j2: int| 0 <= j2 < s.drop_last().len() && s.drop_last()[j2] == r[k];
                assert(s[j2] == r[k]);
            }
        }
        assert forall|y: int| s.contains(y) implies #[trigger] r.contains(y) by {
            let j = choose|j: int| 0 <= j < s.len() && s[j] == y;
            if j == s.len() - 1 {
                assert(r.contains(s.last()));
            } else {
                assert(s.drop_last()[j] == y);
                assert(s.drop_last().contains(y));
                assert(t.contains(y));
            }
        }
    }
}

/// Insert an index into an ascending, duplicate-free vector.
fn insert_sorted(x: usize, t: Vec<usize>) -> (r: Vec<usize>)
    ensures
        usize_seq_v(r@) == insert_sorted_v(x as int, usize_seq_v(t@)),
    decreases t@.len(),
{
    let ghost tv = usize_seq_v(t@);
    let n = t.len();
    if n == 0 {
        let mut r = t;
        r.push(x);
        proof {
            assert(usize_seq_v(r@) =~= insert_sorted_v(x as int, tv));
        }
        r
    } else {
        let last = t[n - 1];
        if x > last {
            let mut r = t;
            r.push(x);
            proof {
                assert(usize_seq_v(r@) =~= usize_seq_v(r@.drop_last()) + seq![x as int]);
                assert(usize_seq_v(r@.drop_last()) =~= tv);
            }
            r
        } else if x == last {
            t
        } else {
            let mut t2 = t;
            let popped = t2.pop().unwrap();
            let ghost t2v = usize_seq_v(t2@);
            proof {
                assert(usize_seq_v(t2@) =~= tv.drop_last());
            }
            let mut r = insert_sorted(x, t2);
            r.push(popped);
            proof {
                assert(usize_seq_v(r@) =~= usize_seq_v(r@.drop_last()) + seq![popped as int]);
                assert(usize_seq_v(r@.drop_last()) == insert_sorted_v(x as int, t2v));
            }
            r
        }
    }
}

/// Sort the requested indices ascending and drop duplicates.
pub fn sort_dedup(indices: &[usize]) -> (r: Vec<usize>)
    ensures
        usize_seq_v(r@) == sort_dedup_of(usize_seq_v(indices@)),
{
    let mut out: Vec<usize> = Vec::new();
    let mut i: usize = 0;
    proof {
        assert(usize_seq_v(indices@).take(0) =~= Seq::<int>::empty());
        assert(usize_seq_v(out@) =~= Seq::<int>::empty());
    }
    while i < indices.len()
        invariant
            i <= indices@.len(),
            usize_seq_v(out@) == sort_dedup_of(usize_seq_v(indices@).take(i as int)),
        decreases indices@.len() - i,
    {
        out = insert_sorted(indices[i], out);
        proof {
            let whole = usize_seq_v(indices@);
            assert(whole.take(i + 1).drop_last() =~= whole.take(i as int));
            assert(whole.take(i + 1).last() == whole[i as int]);
        }
        i = i + 1;
    }
    proof {
        assert(usize_seq_v(indices@).take(indices@.len() as int) =~= usize_seq_v(indices@));
    }
    out
}

/// A union-of-paths multiproof: per level, the actual child count of each
/// touched parent in ascending parent order, and the non-opened child digests
/// in scan order.
#[derive(Clone, Debug)]
pub struct MerkleProof {
    pub indices: Vec<usize>,
    pub siblings: Vec<Vec<Fe>>,
    pub group_sizes: Vec<Vec<u8>>,
    pub arity: usize,
}

impl MerkleProof {
    pub open spec fn siblings_v(self) -> Seq<Seq<int>> {
        Seq::new(self.siblings@.len(), |i: int| fe_seq_v(self.siblings@[i]@))
    }

    pub open spec fn group_sizes_v(self) -> Seq<Seq<u8>> {
        Seq::new(self.group_sizes@.len(), |i: int| self.group_sizes@[i]@)
    }
}

/// Scan one parent's child positions for the open path: positions whose index
/// is opened contribute nothing; the others contribute their node digest.
/// Returns the siblings pushed and where the opened-index cursor ended.
pub open spec fn open_scan_v(
    nodes: Seq<int>,
    idxs: Seq<int>,
    base: int,
    cc: nat,
    cpos: nat,
    k: nat,
) -> (Seq<int>, nat)
    decreases cc - cpos,
{
    if cpos >= cc {
        (Seq::empty(), k)
    } else if k < idxs.len() && idxs[k as int] == base + cpos {
        open_scan_v(nodes, idxs, base, cc, cpos + 1, k + 1)
    } else {
        let rest = open_scan_v(nodes, idxs, base, cc, cpos + 1, k);
        (seq![nodes[base + cpos]] + rest.0, rest.1)
    }
}

/// One level of the open path, group by group from index cursor `i`:
/// per group its child count, its siblings, and its parent index.
pub open spec fn open_level_v(
    nodes: Seq<int>,
    idxs: Seq<int>,
    m: int,
    i: nat,
    fuel: nat,
) -> (Seq<u8>, Seq<int>, Seq<int>)
    decreases fuel,
{
    if i >= idxs.len() || fuel == 0 || m < 1 {
        (Seq::empty(), Seq::empty(), Seq::empty())
    } else {
        let p = idxs[i as int] / m;
        let base = p * m;
        let end = if base + m < nodes.len() {
            base + m
        } else {
            nodes.len() as int
        };
        let cc: nat = if end > base {
            (end - base) as nat
        } else {
            0
        };
        let sc = open_scan_v(nodes, idxs, base, cc, 0, i);
        let next_i: nat = if sc.1 > i {
            sc.1
        } else {
            i + 1
        };
        let rest = open_level_v(nodes, idxs, m, next_i, (fuel - 1) as nat);
        (seq![cc as u8] + rest.0, sc.0 + rest.1, seq![p] + rest.2)
    }
}

/// All levels of the open path below the root: per level the sibling list and
/// the group sizes, the frontier moving to the parents each time.
pub open spec fn open_paths_v(levels: Seq<Seq<int>>, idxs: Seq<int>, m: int, lvl: nat) -> (Seq<
    Seq<int>,
>, Seq<Seq<u8>>)
    decreases levels.len() - lvl,
{
    if lvl + 1 >= levels.len() {
        (Seq::empty(), Seq::empty())
    } else {
        let r = open_level_v(levels[lvl as int], idxs, m, 0, idxs.len());
        let rest = open_paths_v(levels, r.2, m, lvl + 1);
        (seq![r.1] + rest.0, seq![r.0] + rest.1)
    }
}

fn open_scan(nodes: &[Fe], idxs: &[usize], base: usize, cc: usize, cpos: usize, k: usize) -> (r: (
    Vec<Fe>,
    usize,
))
    requires
        cc == 0 || base as int + cc as int <= nodes@.len(),
        k <= idxs@.len(),
    ensures
        fe_seq_v(r.0@) == open_scan_v(
            fe_seq_v(nodes@),
            usize_seq_v(idxs@),
            base as int,
            cc as nat,
            cpos as nat,
            k as nat,
        ).0,
        r.1 as nat == open_scan_v(
            fe_seq_v(nodes@),
            usize_seq_v(idxs@),
            base as int,
            cc as nat,
            cpos as nat,
            k as nat,
        ).1,
        r.1 <= idxs@.len(),
    decreases cc - cpos,
{
    if cpos >= cc {
        let out: Vec<Fe> = Vec::new();
        proof {
            assert(fe_seq_v(out@) =~= Seq::<int>::empty());
        }
        (out, k)
    } else if {
        let n = nodes.len();
        proof {
            assert(base as int + cc as int <= n as int);
        }
        k < idxs.len() && idxs[k] == base + cpos
    } {
        open_scan(nodes, idxs, base, cc, cpos + 1, k + 1)
    } else {
        let rest = open_scan(nodes, idxs, base, cc, cpos + 1, k);
        let mut out = rest.0;
        out.insert(0, nodes[base + cpos]);
        proof {
            let sc = open_scan_v(
                fe_seq_v(nodes@),
                usize_seq_v(idxs@),
                base as int,
                cc as nat,
                cpos as nat,
                k as nat,
            );
            assert(fe_seq_v(out@) =~= sc.0);
        }
        (out, rest.1)
    }
}

#[verifier::rlimit(100)]
fn open_level(nodes: &[Fe], idxs: &[usize], m: usize, i: usize, fuel: usize) -> (r: (
    Vec<u8>,
    Vec<Fe>,
    Vec<usize>,
))
    requires
        1 <= m <= 64,
    ensures
        r.0@ == open_level_v(
            fe_seq_v(nodes@),
            usize_seq_v(idxs@),
            m as int,
            i as nat,
            fuel as nat,
        ).0,
        fe_seq_v(r.1@) == open_level_v(
            fe_seq_v(nodes@),
            usize_seq_v(idxs@),
            m as int,
            i as nat,
            fuel as nat,
        ).1,
        usize_seq_v(r.2@) == open_level_v(
            fe_seq_v(nodes@),
            usize_seq_v(idxs@),
            m as int,
            i as nat,
            fuel as nat,
        ).2,
    decreases fuel,
{
    let ghost sp = open_level_v(
        fe_seq_v(nodes@),
        usize_seq_v(idxs@),
        m as int,
        i as nat,
        fuel as nat,
    );
    if i >= idxs.len() || fuel == 0 {
        let a: Vec<u8> = Vec::new();
        let b: Vec<Fe> = Vec::new();
        let c: Vec<usize> = Vec::new();
        proof {
            assert(a@ =~= sp.0);
            assert(fe_seq_v(b@) =~= sp.1);
            assert(usize_seq_v(c@) =~= sp.2);
        }
        (a, b, c)
    } else {
        let p = idxs[i] / m;
        proof {
            vstd::arithmetic::div_mod::lemma_fundamental_div_mod(idxs@[i as int] as int, m as int);
            vstd::arithmetic::div_mod::lemma_mod_bound(idxs@[i as int] as int, m as int);
            vstd::arithmetic::mul::lemma_mul_is_commutative(m as int, p as int);
        }
        let base = p * m;
        assert(base <= idxs@[i as int]);
        let end = if nodes.len() > base && nodes.len() - base > m {
            base + m
        } else {
            nodes.len()
        };
        let cc = if end > base {
            end - base
        } else {
            0
        };
        let sc = open_scan(nodes, idxs, base, cc, 0, i);
        let next_i = if sc.1 > i {
            sc.1
        } else {
            i + 1
        };
        let rest = open_level(nodes, idxs, m, next_i, fuel - 1);
        let mut gs = rest.0;
        assert(cc <= m);
        gs.insert(0, cc as u8);
        let mut sibs = sc.0;
        let ghost scv = fe_seq_v(sibs@);
        let mut rest_sibs = rest.1;
        let mut j: usize = 0;
        while j < rest_sibs.len()
            invariant
                j <= rest_sibs@.len(),
                fe_seq_v(sibs@) =~= scv + fe_seq_v(rest_sibs@).take(j as int),
            decreases rest_sibs@.len() - j,
        {
            let ghost pre2 = sibs@;
            sibs.push(rest_sibs[j]);
            proof {
                assert(sibs@ =~= pre2.push(rest_sibs@[j as int]));
                assert(fe_seq_v(sibs@) =~= fe_seq_v(pre2).push(rest_sibs@[j as int]@));
                assert(fe_seq_v(sibs@) =~= scv + fe_seq_v(rest_sibs@).take(j + 1));
            }
            j = j + 1;
        }
        let mut ps = rest.2;
        ps.insert(0, p);
        proof {
            assert(fe_seq_v(rest_sibs@).take(rest_sibs@.len() as int) =~= fe_seq_v(rest_sibs@));
            assert(gs@ =~= sp.0);
            assert(fe_seq_v(sibs@) =~= sp.1);
            assert(usize_seq_v(ps@) =~= sp.2);
        }
        (gs, sibs, ps)
    }
}

fn open_paths(levels: &Vec<Vec<Fe>>, idxs: &[usize], m: usize, lvl: usize) -> (r: (
    Vec<Vec<Fe>>,
    Vec<Vec<u8>>,
))
    requires
        1 <= m <= 64,
        lvl <= levels@.len(),
    ensures
        Seq::new(r.0@.len(), |i: int| fe_seq_v(r.0@[i]@)) == open_paths_v(
            Seq::new(levels@.len(), |i: int| fe_seq_v(levels@[i]@)),
            usize_seq_v(idxs@),
            m as int,
            lvl as nat,
        ).0,
        Seq::new(r.1@.len(), |i: int| r.1@[i]@) == open_paths_v(
            Seq::new(levels@.len(), |i: int| fe_seq_v(levels@[i]@)),
            usize_seq_v(idxs@),
            m as int,
            lvl as nat,
        ).1,
    decreases levels@.len() - lvl,
{
    let ghost lv = Seq::new(levels@.len(), |i: int| fe_seq_v(levels@[i]@));
    let ghost sp = open_paths_v(lv, usize_seq_v(idxs@), m as int, lvl as nat);
    if levels.len() - lvl <= 1 {
        let a: Vec<Vec<Fe>> = Vec::new();
        let b: Vec<Vec<u8>> = Vec::new();
        proof {
            assert(Seq::new(a@.len(), |i: int| fe_seq_v(a@[i]@)) =~= sp.0);
            assert(Seq::new(b@.len(), |i: int| b@[i]@) =~= sp.1);
        }
        (a, b)
    } else {
        let level_r = open_level(levels[lvl].as_slice(), idxs, m, 0, idxs.len());
        let rest = open_paths(levels, level_r.2.as_slice(), m, lvl + 1);
        let mut sibs_list = rest.0;
        sibs_list.insert(0, level_r.1);
        let mut gs_list = rest.1;
        gs_list.insert(0, level_r.0);
        proof {
            assert(Seq::new(sibs_list@.len(), |i: int| fe_seq_v(sibs_list@[i]@)) =~~= sp.0);
            assert(Seq::new(gs_list@.len(), |i: int| gs_list@[i]@) =~~= sp.1);
        }
        (sibs_list, gs_list)
    }
}

/// Copy a vector of indices.
pub(crate) fn clone_usize_vec(v: &Vec<usize>) -> (r: Vec<usize>)
    ensures
        r@ == v@,
{
    let mut out: Vec<usize> = Vec::new();
    let mut i: usize = 0;
    while i < v.len()
        invariant
            i <= v@.len(),
            out@ =~= v@.subrange(0, i as int),
        decreases v@.len() - i,
    {
        out.push(v[i]);
        i = i + 1;
    }
    proof {
        assert(out@ =~= v@);
    }
    out
}

impl MerkleTree {
    /// Open a union-of-paths multiproof for the given leaf indices: the sorted,
    /// deduplicated indices, and per level the group sizes and the non-opened
    /// child digests in scan order.
    pub fn open_union_of_paths(&self, indices: &[usize]) -> (r: MerkleProof)
        requires
            self.wf(),
            indices@.len() >= 1,
            self.hasher().spec_arity() >= 1,
        ensures
            r.arity as nat == self.hasher().spec_arity(),
            usize_seq_v(r.indices@) == sort_dedup_of(usize_seq_v(indices@)),
            r.siblings_v() == open_paths_v(
                self.levels_v(),
                sort_dedup_of(usize_seq_v(indices@)),
                self.hasher().spec_arity() as int,
                0,
            ).0,
            r.group_sizes_v() == open_paths_v(
                self.levels_v(),
                sort_dedup_of(usize_seq_v(indices@)),
                self.hasher().spec_arity() as int,
                0,
            ).1,
    {
        let arity = self.arity();
        assert(1 <= arity <= 64);
        let req = sort_dedup(indices);
        let (sibs, gsizes) = open_paths(&self.levels, req.as_slice(), arity, 0);
        let r = MerkleProof { indices: req, siblings: sibs, group_sizes: gsizes, arity };
        proof {
            assert(r.siblings_v() =~~= open_paths_v(
                self.levels_v(),
                sort_dedup_of(usize_seq_v(indices@)),
                self.hasher().spec_arity() as int,
                0,
            ).0);
            assert(r.group_sizes_v() =~~= open_paths_v(
                self.levels_v(),
                sort_dedup_of(usize_seq_v(indices@)),
                self.hasher().spec_arity() as int,
                0,
            ).1);
        }
        r
    }

    /// Open single-column leaves at the given indices.
    pub fn open_many_single(&self, indices: &[usize]) -> (r: MerkleProof)
        requires
            self.wf(),
            indices@.len() >= 1,
            self.hasher().spec_arity() >= 1,
        ensures
            r.arity as nat == self.hasher().spec_arity(),
            usize_seq_v(r.indices@) == sort_dedup_of(usize_seq_v(indices@)),
            r.siblings_v() == open_paths_v(
                self.levels_v(),
                sort_dedup_of(usize_seq_v(indices@)),
                self.hasher().spec_arity() as int,
                0,
            ).0,
            r.group_sizes_v() == open_paths_v(
                self.levels_v(),
                sort_dedup_of(usize_seq_v(indices@)),
                self.hasher().spec_arity() as int,
                0,
            ).1,
    {
        self.open_union_of_paths(indices)
    }

    /// Open leaves at the given indices (shared by single and pair trees).
    pub fn open_many(&self, indices: &[usize]) -> (r: MerkleProof)
        requires
            self.wf(),
            indices@.len() >= 1,
            self.hasher().spec_arity() >= 1,
        ensures
            r.arity as nat == self.hasher().spec_arity(),
            usize_seq_v(r.indices@) == sort_dedup_of(usize_seq_v(indices@)),
            r.siblings_v() == open_paths_v(
                self.levels_v(),
                sort_dedup_of(usize_seq_v(indices@)),
                self.hasher().spec_arity() as int,
                0,
            ).0,
            r.group_sizes_v() == open_paths_v(
                self.levels_v(),
                sort_dedup_of(usize_seq_v(indices@)),
                self.hasher().spec_arity() as int,
                0,
            ).1,
    {
        self.open_union_of_paths(indices)
    }
}

/// The first position at or after `i` whose index reaches `lim`.
pub open spec fn group_end_v(idxs: Seq<int>, i: nat, lim: int) -> nat
    decreases idxs.len() - i,
{
    if i >= idxs.len() {
        i
    } else if idxs[i as int] >= lim {
        i
    } else {
        group_end_v(idxs, i + 1, lim)
    }
}

/// Reconstruct one parent's children for verification: opened positions take
/// the caller's value, the others take the next sibling from the proof.
/// `None` when the proof runs out of siblings.
pub open spec fn verify_scan_v(
    vals: Seq<int>,
    idxs: Seq<int>,
    sibs: Seq<int>,
    base: int,
    cc: nat,
    cpos: nat,
    k: nat,
    off: nat,
) -> Option<(Seq<int>, nat, nat)>
    decreases cc - cpos,
{
    if cpos >= cc {
        Some((Seq::empty(), k, off))
    } else if k < idxs.len() && idxs[k as int] == base + cpos {
        match verify_scan_v(vals, idxs, sibs, base, cc, cpos + 1, k + 1, off) {
            Some((ch, k2, o2)) => Some((seq![vals[k as int]] + ch, k2, o2)),
            None => None,
        }
    } else if off >= sibs.len() {
        None
    } else {
        match verify_scan_v(vals, idxs, sibs, base, cc, cpos + 1, k, off + 1) {
            Some((ch, k2, o2)) => Some((seq![sibs[off as int]] + ch, k2, o2)),
            None => None,
        }
    }
}

/// Process every group of one level: each parent's digest is recomputed from
/// its reconstructed children; the result is the next frontier.
pub open spec fn verify_groups_v(
    h: NodeHasher,
    level: nat,
    m: int,
    idxs: Seq<int>,
    vals: Seq<int>,
    sibs: Seq<int>,
    gsizes: Seq<u8>,
    i: nat,
    g: nat,
    off: nat,
    fuel: nat,
) -> Option<(Seq<int>, Seq<int>, nat)>
    decreases fuel,
{
    if i >= idxs.len() {
        if g == gsizes.len() {
            Some((Seq::empty(), Seq::empty(), off))
        } else {
            None
        }
    } else if fuel == 0 || g >= gsizes.len() || m < 1 {
        None
    } else {
        let cc = gsizes[g as int] as nat;
        if cc == 0 || cc > m {
            None
        } else {
            let p = idxs[i as int] / m;
            let base = p * m;
            match verify_scan_v(vals, idxs, sibs, base, cc, 0, i, off) {
                None => None,
                Some((children, k1, off1)) => {
                    let k2 = group_end_v(idxs, k1, base + m);
                    let d = node_digest_v(h, level % 0x100000000, p as nat, children);
                    let next_i: nat = if k2 > i {
                        k2
                    } else {
                        i + 1
                    };
                    match verify_groups_v(
                        h,
                        level,
                        m,
                        idxs,
                        vals,
                        sibs,
                        gsizes,
                        next_i,
                        g + 1,
                        off1,
                        (fuel - 1) as nat,
                    ) {
                        None => None,
                        Some((ni, nv, off2)) => Some((seq![p] + ni, seq![d] + nv, off2)),
                    }
                },
            }
        }
    }
}

/// One level of verification: all groups processed and the sibling list
/// consumed exactly.
pub open spec fn verify_level_v(
    h: NodeHasher,
    level: nat,
    m: int,
    idxs: Seq<int>,
    vals: Seq<int>,
    sibs: Seq<int>,
    gsizes: Seq<u8>,
) -> Option<(Seq<int>, Seq<int>)> {
    match verify_groups_v(h, level, m, idxs, vals, sibs, gsizes, 0, 0, 0, idxs.len()) {
        Some((ni, nv, off_end)) => if off_end == sibs.len() {
            Some((ni, nv))
        } else {
            None
        },
        None => None,
    }
}

/// All levels of verification: the frontier must end as exactly the root.
pub open spec fn verify_levels_v(
    h: NodeHasher,
    m: int,
    root: int,
    idxs: Seq<int>,
    vals: Seq<int>,
    sibs_list: Seq<Seq<int>>,
    gsizes_list: Seq<Seq<u8>>,
    level: nat,
) -> bool
    decreases sibs_list.len(),
{
    if sibs_list.len() == 0 {
        vals.len() == 1 && vals[0] == root
    } else {
        match verify_level_v(h, level, m, idxs, vals, sibs_list[0], gsizes_list[0]) {
            None => false,
            Some((ni, nv)) => verify_levels_v(
                h,
                m,
                root,
                ni,
                nv,
                sibs_list.drop_first(),
                gsizes_list.drop_first(),
                level + 1,
            ),
        }
    }
}

/// The value supplied for an index: the last pairing wins, as in a map build.
pub open spec fn last_val_v(indices: Seq<int>, values: Seq<int>, x: int) -> int
    decreases indices.len(),
{
    if indices.len() == 0 {
        0
    } else if indices.last() == x {
        values[indices.len() - 1]
    } else {
        last_val_v(indices.drop_last(), values.drop_last(), x)
    }
}

/// The caller's values aligned to the sorted unique index list.
pub open spec fn aligned_vals_v(indices: Seq<int>, values: Seq<int>, req: Seq<int>) -> Seq<int> {
    Seq::new(req.len(), |i: int| last_val_v(indices, values, req[i]))
}

/// What DS-aware multiproof verification accepts: well-shaped input whose
/// recomputed frontier reproduces the root.
pub open spec fn verify_many_ds_v(
    root: int,
    indices: Seq<int>,
    values: Seq<int>,
    proof: MerkleProof,
    tree_label: u64,
    params: PoseidonParamsDynamic,
) -> bool {
    let req = sort_dedup_of(indices);
    let cfg = MerkleChannelCfg { arity: proof.arity, params, tree_label };
    &&& indices.len() > 0
    &&& indices.len() == values.len()
    &&& usize_seq_v(proof.indices@) == req
    &&& proof.siblings@.len() == proof.group_sizes@.len()
    &&& ok_width(proof.arity as nat, params.t as nat)
    &&& verify_levels_v(
        NodeHasher::DsAware(cfg),
        proof.arity as int,
        root,
        req,
        aligned_vals_v(indices, values, req),
        proof.siblings_v(),
        proof.group_sizes_v(),
        0,
    )
}

/// What legacy multiproof verification accepts.
pub open spec fn verify_many_legacy_v(
    root: int,
    indices: Seq<int>,
    values: Seq<int>,
    proof: MerkleProof,
    ds_tag: Fe,
    params: PoseidonParams,
) -> bool {
    let req = sort_dedup_of(indices);
    &&& indices.len() > 0
    &&& indices.len() == values.len()
    &&& usize_seq_v(proof.indices@) == req
    &&& proof.siblings@.len() == proof.group_sizes@.len()
    &&& verify_levels_v(
        NodeHasher::Legacy(ds_tag, params),
        proof.arity as int,
        root,
        req,
        aligned_vals_v(indices, values, req),
        proof.siblings_v(),
        proof.group_sizes_v(),
        0,
    )
}

fn group_end(idxs: &[usize], i: usize, base: usize, m: usize) -> (r: usize)
    requires
        i <= idxs@.len(),
    ensures
        r as nat == group_end_v(usize_seq_v(idxs@), i as nat, base as int + m as int),
        i <= r <= idxs@.len(),
    decreases idxs@.len() - i,
{
    if i >= idxs.len() {
        i
    } else if idxs[i] >= base && idxs[i] - base >= m {
        i
    } else {
        group_end(idxs, i + 1, base, m)
    }
}

fn verify_scan(
    vals: &[Fe],
    idxs: &[usize],
    sibs: &[Fe],
    base: usize,
    cc: usize,
    cpos: usize,
    k: usize,
    off: usize,
) -> (r: Option<(Vec<Fe>, usize, usize)>)
    requires
        idxs@.len() == vals@.len(),
        k <= idxs@.len(),
        off <= sibs@.len(),
    ensures
        r is Some <==> verify_scan_v(
            fe_seq_v(vals@),
            usize_seq_v(idxs@),
            fe_seq_v(sibs@),
            base as int,
            cc as nat,
            cpos as nat,
            k as nat,
            off as nat,
        ) is Some,
        r is Some ==> {
            let sp = verify_scan_v(
                fe_seq_v(vals@),
                usize_seq_v(idxs@),
                fe_seq_v(sibs@),
                base as int,
                cc as nat,
                cpos as nat,
                k as nat,
                off as nat,
            )->Some_0;
            fe_seq_v(r->Some_0.0@) == sp.0 && r->Some_0.1 as nat == sp.1 && r->Some_0.2 as nat
                == sp.2 && r->Some_0.1 <= idxs@.len() && r->Some_0.2 <= sibs@.len()
        },
    decreases cc - cpos,
{
    if cpos >= cc {
        let out: Vec<Fe> = Vec::new();
        proof {
            assert(fe_seq_v(out@) =~= Seq::<int>::empty());
        }
        Some((out, k, off))
    } else if k < idxs.len() && idxs[k] >= base && idxs[k] - base == cpos {
        match verify_scan(vals, idxs, sibs, base, cc, cpos + 1, k + 1, off) {
            Some(rest) => {
                let mut ch = rest.0;
                ch.insert(0, vals[k]);
                proof {
                    let sp = verify_scan_v(
                        fe_seq_v(vals@),
                        usize_seq_v(idxs@),
                        fe_seq_v(sibs@),
                        base as int,
                        cc as nat,
                        cpos as nat,
                        k as nat,
                        off as nat,
                    );
                    assert(fe_seq_v(ch@) =~= sp->Some_0.0);
                }
                Some((ch, rest.1, rest.2))
            },
            None => None,
        }
    } else if off >= sibs.len() {
        None
    } else {
        match verify_scan(vals, idxs, sibs, base, cc, cpos + 1, k, off + 1) {
            Some(rest) => {
                let mut ch = rest.0;
                ch.insert(0, sibs[off]);
                proof {
                    let sp = verify_scan_v(
                        fe_seq_v(vals@),
                        usize_seq_v(idxs@),
                        fe_seq_v(sibs@),
                        base as int,
                        cc as nat,
                        cpos as nat,
                        k as nat,
                        off as nat,
                    );
                    assert(fe_seq_v(ch@) =~= sp->Some_0.0);
                }
                Some((ch, rest.1, rest.2))
            },
            None => None,
        }
    }
}

#[verifier::rlimit(100)]
#[verifier::spinoff_prover]
fn verify_groups(
    h: &NodeHasherRef<'_>,
    level: usize,
    m: usize,
    idxs: &[usize],
    vals: &[Fe],
    sibs: &[Fe],
    gsizes: &[u8],
    i: usize,
    g: usize,
    off: usize,
    fuel: usize,
) -> (r: Option<(Vec<usize>, Vec<Fe>, usize)>)
    requires
        h.h().params_wf(),
        idxs@.len() == vals@.len(),
        i <= idxs@.len(),
        off <= sibs@.len(),
    ensures
        r is Some <==> verify_groups_v(
            h.h(),
            level as nat,
            m as int,
            usize_seq_v(idxs@),
            fe_seq_v(vals@),
            fe_seq_v(sibs@),
            gsizes@,
            i as nat,
            g as nat,
            off as nat,
            fuel as nat,
        ) is Some,
        r is Some ==> {
            let sp = verify_groups_v(
                h.h(),
                level as nat,
                m as int,
                usize_seq_v(idxs@),
                fe_seq_v(vals@),
                fe_seq_v(sibs@),
                gsizes@,
                i as nat,
                g as nat,
                off as nat,
                fuel as nat,
            )->Some_0;
            usize_seq_v(r->Some_0.0@) == sp.0 && fe_seq_v(r->Some_0.1@) == sp.1
                && r->Some_0.2 as nat == sp.2 && r->Some_0.2 <= sibs@.len()
                && r->Some_0.0@.len() == r->Some_0.1@.len()
        },
    decreases fuel,
{
    if i >= idxs.len() {
        if g == gsizes.len() {
            let a: Vec<usize> = Vec::new();
            let b: Vec<Fe> = Vec::new();
            proof {
                assert(usize_seq_v(a@) =~= Seq::<int>::empty());
                assert(fe_seq_v(b@) =~= Seq::<int>::empty());
            }
            Some((a, b, off))
        } else {
            None
        }
    } else if fuel == 0 || g >= gsizes.len() {
        None
    } else {
        let cc = gsizes[g] as usize;
        if cc == 0 || cc > m {
            None
        } else {
            let p = idxs[i] / m;
            proof {
                vstd::arithmetic::div_mod::lemma_fundamental_div_mod(
                    idxs@[i as int] as int,
                    m as int,
                );
                vstd::arithmetic::div_mod::lemma_mod_bound(idxs@[i as int] as int, m as int);
                vstd::arithmetic::mul::lemma_mul_is_commutative(m as int, p as int);
            }
            let base = p * m;
            assert(base <= idxs@[i as int]);
            match verify_scan(vals, idxs, sibs, base, cc, 0, i, off) {
                None => None,
                Some(scanned) => {
                    let k2 = group_end(idxs, scanned.1, base, m);
                    let level32 = ((level as u64) % 0x100000000) as u32;
                    assert(level32 as nat == (level as nat) % 0x100000000);
                    let d = node_digest(h, level32, p as u64, scanned.0.as_slice());
                    let next_i = if k2 > i {
                        k2
                    } else {
                        i + 1
                    };
                    match verify_groups(
                        h,
                        level,
                        m,
                        idxs,
                        vals,
                        sibs,
                        gsizes,
                        next_i,
                        g + 1,
                        scanned.2,
                        fuel - 1,
                    ) {
                        None => None,
                        Some(rest) => {
                            let mut ni = rest.0;
                            ni.insert(0, p);
                            let mut nv = rest.1;
                            nv.insert(0, d);
                            proof {
                                let sp = verify_groups_v(
                                    h.h(),
                                    level as nat,
                                    m as int,
                                    usize_seq_v(idxs@),
                                    fe_seq_v(vals@),
                                    fe_seq_v(sibs@),
                                    gsizes@,
                                    i as nat,
                                    g as nat,
                                    off as nat,
                                    fuel as nat,
                                );
                                assert(usize_seq_v(ni@) =~= sp->Some_0.0);
                                assert(fe_seq_v(nv@) =~= sp->Some_0.1);
                            }
                            Some((ni, nv, rest.2))
                        },
                    }
                },
            }
        }
    }
}

fn verify_levels(
    h: &NodeHasherRef<'_>,
    m: usize,
    root: &Fe,
    idxs: &[usize],
    vals: &[Fe],
    sibs_list: &[Vec<Fe>],
    gsizes_list: &[Vec<u8>],
    level: usize,
) -> (r: bool)
    requires
        h.h().params_wf(),
        idxs@.len() == vals@.len(),
        sibs_list@.len() == gsizes_list@.len(),
        level + sibs_list@.len() <= usize::MAX,
    ensures
        r == verify_levels_v(
            h.h(),
            m as int,
            root@,
            usize_seq_v(idxs@),
            fe_seq_v(vals@),
            Seq::new(sibs_list@.len(), |i: int| fe_seq_v(sibs_list@[i]@)),
            Seq::new(gsizes_list@.len(), |i: int| gsizes_list@[i]@),
            level as nat,
        ),
    decreases sibs_list@.len(),
{
    let ghost slv = Seq::new(sibs_list@.len(), |i: int| fe_seq_v(sibs_list@[i]@));
    let ghost glv = Seq::new(gsizes_list@.len(), |i: int| gsizes_list@[i]@);
    if sibs_list.len() == 0 {
        if vals.len() == 1 {
            let v0 = vals[0];
            let eq = v0 == *root;
            proof {
                use_type_invariant(v0);
                use_type_invariant(*root);
                if v0@ == root@ {
                    crate::field::lemma_view_injective(v0, *root);
                }
            }
            eq
        } else {
            false
        }
    } else {
        let sibs = &sibs_list[0];
        let gsizes = &gsizes_list[0];
        match verify_groups(
            h,
            level,
            m,
            idxs,
            vals,
            sibs.as_slice(),
            gsizes.as_slice(),
            0,
            0,
            0,
            idxs.len(),
        ) {
            None => false,
            Some(next) => {
                if next.2 != sibs.len() {
                    false
                } else {
                    let r = verify_levels(
                        h,
                        m,
                        root,
                        next.0.as_slice(),
                        next.1.as_slice(),
                        vstd::slice::slice_subrange(sibs_list, 1, sibs_list.len()),
                        vstd::slice::slice_subrange(gsizes_list, 1, gsizes_list.len()),
                        level + 1,
                    );
                    proof {
                        assert(Seq::new(
                            sibs_list@.subrange(1, sibs_list@.len() as int).len(),
                            |i: int| fe_seq_v(sibs_list@.subrange(1, sibs_list@.len() as int)[i]@),
                        ) =~~= slv.drop_first());
                        assert(Seq::new(
                            gsizes_list@.subrange(1, gsizes_list@.len() as int).len(),
                            |i: int|
                                gsizes_list@.subrange(1, gsizes_list@.len() as int)[i]@,
                        ) =~~= glv.drop_first());
                    }
                    r
                }
            },
        }
    }
}

/// Whether some position of `indices` holds `x`.
pub open spec fn covered(indices: Seq<int>, x: int) -> bool {
    exists|j: int| 0 <= j < indices.len() && indices[j] == x
}

fn last_val(indices: &[usize], values: &[Fe], x: usize) -> (r: Fe)
    requires
        indices@.len() == values@.len(),
        covered(usize_seq_v(indices@), x as int),
    ensures
        r@ == last_val_v(usize_seq_v(indices@), fe_seq_v(values@), x as int),
    decreases indices@.len(),
{
    let n = indices.len();
    if indices[n - 1] == x {
        values[n - 1]
    } else {
        proof {
            assert(usize_seq_v(indices@.subrange(0, n - 1)) =~= usize_seq_v(indices@).drop_last());
            assert(fe_seq_v(values@.subrange(0, n - 1)) =~= fe_seq_v(values@).drop_last());
            let iv = usize_seq_v(indices@);
            let j = choose|j: int| 0 <= j < iv.len() && iv[j] == x as int;
            assert(j != n - 1);
            assert(usize_seq_v(indices@.subrange(0, n - 1))[j] == x as int);
        }
        let r = last_val(vstd::slice::slice_subrange(indices, 0, n - 1), vstd::slice::slice_subrange(values, 0, n - 1), x);
        r
    }
}

fn align_values(indices: &[usize], values: &[Fe], req: &[usize]) -> (r: Vec<Fe>)
    requires
        indices@.len() == values@.len(),
        forall|k: int|
            0 <= k < req@.len() ==> covered(usize_seq_v(indices@), #[trigger] req@[k] as int),
    ensures
        fe_seq_v(r@) == aligned_vals_v(
            usize_seq_v(indices@),
            fe_seq_v(values@),
            usize_seq_v(req@),
        ),
{
    let mut out: Vec<Fe> = Vec::new();
    let mut i: usize = 0;
    while i < req.len()
        invariant
            i <= req@.len(),
            indices@.len() == values@.len(),
            forall|k: int|
                0 <= k < req@.len() ==> covered(usize_seq_v(indices@), #[trigger] req@[k] as int),
            out@.len() == i,
            forall|k: int|
                0 <= k < i ==> (#[trigger] out@[k])@ == last_val_v(
                    usize_seq_v(indices@),
                    fe_seq_v(values@),
                    req@[k] as int,
                ),
        decreases req@.len() - i,
    {
        let v = last_val(indices, values, req[i]);
        out.push(v);
        i = i + 1;
    }
    proof {
        assert(fe_seq_v(out@) =~= aligned_vals_v(
            usize_seq_v(indices@),
            fe_seq_v(values@),
            usize_seq_v(req@),
        ));
    }
    out
}

fn eq_usize_slices(a: &[usize], b: &[usize]) -> (r: bool)
    ensures
        r == (usize_seq_v(a@) == usize_seq_v(b@)),
{
    if a.len() != b.len() {
        proof {
            if usize_seq_v(a@) == usize_seq_v(b@) {
                assert(usize_seq_v(a@).len() == usize_seq_v(b@).len());
                assert(false);
            }
        }
        return false;
    }
    let mut i: usize = 0;
    while i < a.len()
        invariant
            i <= a@.len(),
            a@.len() == b@.len(),
            forall|k: int| 0 <= k < i ==> a@[k] == b@[k],
        decreases a@.len() - i,
    {
        if a[i] != b[i] {
            proof {
                if usize_seq_v(a@) == usize_seq_v(b@) {
                    assert(usize_seq_v(a@)[i as int] == usize_seq_v(b@)[i as int]);
                    assert(false);
                }
            }
            return false;
        }
        i = i + 1;
    }
    proof {
        assert(usize_seq_v(a@) =~= usize_seq_v(b@));
    }
    true
}

/// Verify a union-of-paths multiproof for single-column values under DS-aware
/// node hashing: exactly the well-shaped inputs whose recomputed frontier
/// reproduces the root are accepted.
pub fn verify_many_ds(
    root: &Fe,
    indices: &[usize],
    values: &[Fe],
    proof: &MerkleProof,
    tree_label: u64,
    dyn_params: &PoseidonParamsDynamic,
) -> (r: bool)
    requires
        dyn_params.wf(),
    ensures
        r == verify_many_ds_v(
            root@,
            usize_seq_v(indices@),
            fe_seq_v(values@),
            *proof,
            tree_label,
            *dyn_params,
        ),
{
    if indices.len() == 0 || indices.len() != values.len() {
        return false;
    }
    let req = sort_dedup(indices);
    if !eq_usize_slices(proof.indices.as_slice(), req.as_slice()) {
        return false;
    }
    if proof.siblings.len() != proof.group_sizes.len() {
        return false;
    }
    let arity = proof.arity;
    let t = dyn_params.t;
    let width_ok = (arity <= 8 && t == 9) || (arity >= 9 && arity <= 16 && t == 17) || (arity >= 17
        && arity <= 32 && t == 33) || (arity >= 33 && arity <= 64 && t == 65);
    if !width_ok {
        return false;
    }
    proof {
        lemma_sort_dedup_of(usize_seq_v(indices@));
        assert forall|k: int| 0 <= k < req@.len() implies covered(
            usize_seq_v(indices@),
            #[trigger] req@[k] as int,
        ) by {
            let sd = sort_dedup_of(usize_seq_v(indices@));
            assert(usize_seq_v(indices@).contains(sd[k]));
            let j = choose|j: int|
                0 <= j < usize_seq_v(indices@).len() && usize_seq_v(indices@)[j] == sd[k];
            assert(usize_seq_v(indices@)[j] == req@[k] as int);
        }
    }
    let aligned = align_values(indices, values, req.as_slice());
    proof {
        assert(fe_seq_v(aligned@).len() == aligned@.len());
        assert(aligned@.len() == req@.len());
    }
    let h = NodeHasherRef::DsAware(arity, tree_label, dyn_params);
    let r = verify_levels(
        &h,
        arity,
        root,
        req.as_slice(),
        aligned.as_slice(),
        proof.siblings.as_slice(),
        proof.group_sizes.as_slice(),
        0,
    );
    proof {
        assert(Seq::new(proof.siblings@.len(), |i: int| fe_seq_v(proof.siblings@[i]@))
            =~~= proof.siblings_v());
        assert(Seq::new(proof.group_sizes@.len(), |i: int| proof.group_sizes@[i]@)
            =~~= proof.group_sizes_v());
    }
    r
}

/// Verify a legacy multiproof with one fixed tag.
pub fn verify_many(
    root: &Fe,
    indices: &[usize],
    values: &[Fe],
    proof: &MerkleProof,
    ds_tag: Fe,
    params: &PoseidonParams,
) -> (r: bool)
    requires
        params.wf(),
    ensures
        r == verify_many_legacy_v(
            root@,
            usize_seq_v(indices@),
            fe_seq_v(values@),
            *proof,
            ds_tag,
            *params,
        ),
{
    if indices.len() == 0 || indices.len() != values.len() {
        return false;
    }
    let req = sort_dedup(indices);
    if !eq_usize_slices(proof.indices.as_slice(), req.as_slice()) {
        return false;
    }
    if proof.siblings.len() != proof.group_sizes.len() {
        return false;
    }
    proof {
        lemma_sort_dedup_of(usize_seq_v(indices@));
        assert forall|k: int| 0 <= k < req@.len() implies covered(
            usize_seq_v(indices@),
            #[trigger] req@[k] as int,
        ) by {
            let sd = sort_dedup_of(usize_seq_v(indices@));
            assert(usize_seq_v(indices@).contains(sd[k]));
            let j = choose|j: int|
                0 <= j < usize_seq_v(indices@).len() && usize_seq_v(indices@)[j] == sd[k];
            assert(usize_seq_v(indices@)[j] == req@[k] as int);
        }
    }
    let aligned = align_values(indices, values, req.as_slice());
    proof {
        assert(fe_seq_v(aligned@).len() == aligned@.len());
        assert(aligned@.len() == req@.len());
    }
    let h = NodeHasherRef::Legacy(ds_tag, params);
    let r = verify_levels(
        &h,
        proof.arity,
        root,
        req.as_slice(),
        aligned.as_slice(),
        proof.siblings.as_slice(),
        proof.group_sizes.as_slice(),
        0,
    );
    proof {
        assert(Seq::new(proof.siblings@.len(), |i: int| fe_seq_v(proof.siblings@[i]@))
            =~~= proof.siblings_v());
        assert(Seq::new(proof.group_sizes@.len(), |i: int| proof.group_sizes@[i]@)
            =~~= proof.group_sizes_v());
    }
    r
}

/// What pair verification accepts under DS-aware hashing: the sorted unique
/// indices' recomputed leaf digests verified as a single-column opening.
pub open spec fn verify_pairs_ds_v(
    root: int,
    indices: Seq<int>,
    fs: Seq<int>,
    ss: Seq<int>,
    proof: MerkleProof,
    tree_label: u64,
    params: PoseidonParamsDynamic,
) -> bool {
    let req = sort_dedup_of(indices);
    let cfg = MerkleChannelCfg { arity: proof.arity, params, tree_label };
    let leaves = Seq::new(
        req.len(),
        |i: int|
            leaf_digest_ds_v(
                cfg,
                req[i] as nat,
                last_val_v(indices, fs, req[i]),
                last_val_v(indices, ss, req[i]),
            ),
    );
    &&& indices.len() == fs.len()
    &&& indices.len() > 0
    &&& ok_width(proof.arity as nat, params.t as nat)
    &&& verify_many_ds_v(root, req, leaves, proof, tree_label, params)
}

/// What pair verification accepts under the legacy fixed tag: the pairs hashed
/// in caller order and verified as a single-column opening.
pub open spec fn verify_pairs_legacy_v(
    root: int,
    indices: Seq<int>,
    fs: Seq<int>,
    ss: Seq<int>,
    proof: MerkleProof,
    ds_tag: Fe,
    params: PoseidonParams,
) -> bool {
    let leaves = Seq::new(
        fs.len(),
        |i: int| leaf_digest_legacy_v(ds_tag, params, fs[i], ss[i]),
    );
    &&& indices.len() == fs.len()
    &&& indices.len() > 0
    &&& verify_many_legacy_v(root, indices, leaves, proof, ds_tag, params)
}

/// Verify pairs under DS-aware hashing: recompute the leaf digests with the
/// leaf marker, then verify the single-column opening.
pub fn verify_pairs_ds(
    root: &Fe,
    indices: &[usize],
    pairs: &[(Fe, Fe)],
    proof: &MerkleProof,
    tree_label: u64,
    dyn_params: &PoseidonParamsDynamic,
) -> (r: bool)
    requires
        dyn_params.wf(),
    ensures
        r == verify_pairs_ds_v(
            root@,
            usize_seq_v(indices@),
            Seq::new(pairs@.len(), |i: int| pairs@[i].0@),
            Seq::new(pairs@.len(), |i: int| pairs@[i].1@),
            *proof,
            tree_label,
            *dyn_params,
        ),
{
    let ghost fs = Seq::new(pairs@.len(), |i: int| pairs@[i].0@);
    let ghost ss = Seq::new(pairs@.len(), |i: int| pairs@[i].1@);
    if indices.len() != pairs.len() || indices.len() == 0 {
        return false;
    }
    let arity = proof.arity;
    let t = dyn_params.t;
    let width_ok = (arity <= 8 && t == 9) || (arity >= 9 && arity <= 16 && t == 17) || (arity >= 17
        && arity <= 32 && t == 33) || (arity >= 33 && arity <= 64 && t == 65);
    if !width_ok {
        return false;
    }
    let mut f_vals: Vec<Fe> = Vec::new();
    let mut s_vals: Vec<Fe> = Vec::new();
    let mut i: usize = 0;
    while i < pairs.len()
        invariant
            i <= pairs@.len(),
            f_vals@.len() == i,
            s_vals@.len() == i,
            fs == Seq::new(pairs@.len(), |k: int| pairs@[k].0@),
            ss == Seq::new(pairs@.len(), |k: int| pairs@[k].1@),
            forall|k: int| 0 <= k < i ==> (#[trigger] f_vals@[k])@ == fs[k],
            forall|k: int| 0 <= k < i ==> (#[trigger] s_vals@[k])@ == ss[k],
        decreases pairs@.len() - i,
    {
        let (f, sv) = pairs[i];
        f_vals.push(f);
        s_vals.push(sv);
        i = i + 1;
    }
    proof {
        assert(fe_seq_v(f_vals@) =~= fs);
        assert(fe_seq_v(s_vals@) =~= ss);
        lemma_sort_dedup_of(usize_seq_v(indices@));
        assert forall|k: int| 0 <= k < sort_dedup_of(usize_seq_v(indices@)).len() implies covered(
            usize_seq_v(indices@),
            #[trigger] sort_dedup_of(usize_seq_v(indices@))[k],
        ) by {
            let sd = sort_dedup_of(usize_seq_v(indices@));
            assert(usize_seq_v(indices@).contains(sd[k]));
        }
    }
    let req = sort_dedup(indices);
    let ghost cfg = MerkleChannelCfg { arity: proof.arity, params: *dyn_params, tree_label };
    let mut leaves: Vec<Fe> = Vec::new();
    let mut j: usize = 0;
    while j < req.len()
        invariant
            j <= req@.len(),
            indices@.len() == f_vals@.len(),
            indices@.len() == s_vals@.len(),
            fe_seq_v(f_vals@) == fs,
            fe_seq_v(s_vals@) == ss,
            usize_seq_v(req@) == sort_dedup_of(usize_seq_v(indices@)),
            dyn_params.wf(),
            cfg == (MerkleChannelCfg { arity: proof.arity, params: *dyn_params, tree_label }),
            cfg.params.wf(),
            arity == proof.arity,
            forall|k: int|
                0 <= k < usize_seq_v(req@).len() ==> covered(
                    usize_seq_v(indices@),
                    #[trigger] usize_seq_v(req@)[k],
                ),
            leaves@.len() == j,
            forall|k: int|
                0 <= k < j ==> (#[trigger] leaves@[k])@ == leaf_digest_ds_v(
                    cfg,
                    usize_seq_v(req@)[k] as nat,
                    last_val_v(usize_seq_v(indices@), fs, usize_seq_v(req@)[k]),
                    last_val_v(usize_seq_v(indices@), ss, usize_seq_v(req@)[k]),
                ),
        decreases req@.len() - j,
    {
        let idx = req[j];
        proof {
            assert(usize_seq_v(req@)[j as int] == idx as int);
            assert(covered(usize_seq_v(indices@), idx as int));
        }
        let lf = last_val(indices, f_vals.as_slice(), idx);
        let ls = last_val(indices, s_vals.as_slice(), idx);
        let ds = DsLabel { arity, level: LEAF_LEVEL_DS, position: idx as u64, tree_label };
        let fields = ds.to_fields();
        let mut pairv: Vec<Fe> = Vec::new();
        pairv.push(lf);
        pairv.push(ls);
        proof {
            assert(fe_seq_v(pairv@) =~= seq![lf@, ls@]);
        }
        let d = hash_with_ds_dynamic(fields.as_slice(), pairv.as_slice(), dyn_params);
        leaves.push(d);
        j = j + 1;
    }
    let r = verify_many_ds(root, req.as_slice(), leaves.as_slice(), proof, tree_label, dyn_params);
    proof {
        let req_v = sort_dedup_of(usize_seq_v(indices@));
        let leaves_spec = Seq::new(
            req_v.len(),
            |k: int|
                leaf_digest_ds_v(
                    cfg,
                    req_v[k] as nat,
                    last_val_v(usize_seq_v(indices@), fs, req_v[k]),
                    last_val_v(usize_seq_v(indices@), ss, req_v[k]),
                ),
        );
        assert(fe_seq_v(leaves@) =~= leaves_spec);
        lemma_sort_dedup_identity(req_v);
    }
    r
}

/// Sorting an already ascending, duplicate-free sequence changes nothing.
pub proof fn lemma_sort_dedup_identity(s: Seq<int>)
    requires
        strictly_increasing(s),
    ensures
        sort_dedup_of(s) == s,
    decreases s.len(),
{
    if s.len() == 0 {
        assert(sort_dedup_of(s) =~= s);
    } else {
        assert(strictly_increasing(s.drop_last()));
        lemma_sort_dedup_identity(s.drop_last());
        let t = s.drop_last();
        if t.len() == 0 {
            assert(insert_sorted_v(s.last(), t) =~= s);
        } else {
            assert(t.last() == s[s.len() - 2]);
            assert(s.last() > t.last());
            assert(insert_sorted_v(s.last(), t) =~= s);
        }
    }
}

/// Verify pairs under the legacy fixed tag.
pub fn verify_pairs_legacy(
    root: &Fe,
    indices: &[usize],
    pairs: &[(Fe, Fe)],
    proof: &MerkleProof,
    ds_tag: Fe,
    params: &PoseidonParams,
) -> (r: bool)
    requires
        params.wf(),
    ensures
        r == verify_pairs_legacy_v(
            root@,
            usize_seq_v(indices@),
            Seq::new(pairs@.len(), |i: int| pairs@[i].0@),
            Seq::new(pairs@.len(), |i: int| pairs@[i].1@),
            *proof,
            ds_tag,
            *params,
        ),
{
    let ghost fs = Seq::new(pairs@.len(), |i: int| pairs@[i].0@);
    let ghost ss = Seq::new(pairs@.len(), |i: int| pairs@[i].1@);
    if indices.len() != pairs.len() || indices.len() == 0 {
        return false;
    }
    let mut leaves: Vec<Fe> = Vec::new();
    let mut i: usize = 0;
    while i < pairs.len()
        invariant
            i <= pairs@.len(),
            params.wf(),
            fs == Seq::new(pairs@.len(), |k: int| pairs@[k].0@),
            ss == Seq::new(pairs@.len(), |k: int| pairs@[k].1@),
            leaves@.len() == i,
            forall|k: int|
                0 <= k < i ==> (#[trigger] leaves@[k])@ == leaf_digest_legacy_v(
                    ds_tag,
                    *params,
                    fs[k],
                    ss[k],
                ),
        decreases pairs@.len() - i,
    {
        let (f, sv) = pairs[i];
        let d = encode_leaf_digest_legacy(&f, &sv, &ds_tag, params);
        leaves.push(d);
        i = i + 1;
    }
    let r = verify_many(root, indices, leaves.as_slice(), proof, ds_tag, params);
    proof {
        assert(fe_seq_v(leaves@) =~= Seq::new(
            fs.len(),
            |k: int| leaf_digest_legacy_v(ds_tag, *params, fs[k], ss[k]),
        ));
    }
    r
}

impl MerkleTree {
    /// Whether one stored level is exactly the parent row of the level below.
    pub open spec fn level_consistent_v(self, level: nat) -> bool {
        let m = self.hasher().spec_arity() as int;
        if level + 1 >= self.levels_v().len() {
            true
        } else {
            let cur = self.levels_v()[level as int];
            let next = self.levels_v()[level as int + 1];
            next.len() == (cur.len() + m - 1) / m && next == parents_v(
                self.hasher(),
                level % 0x100000000,
                cur,
            )
        }
    }

    /// Recompute one level's parents and compare with what is stored.
    pub fn check_level_consistency(&self, level: usize) -> (r: bool)
        requires
            self.hasher().params_wf(),
            1 <= self.hasher().spec_arity() <= 64,
            self.levels@.len() >= 1,
        ensures
            r == self.level_consistent_v(level as nat),
    {
        let arity = match &self.cfg {
            Some(cfg) => cfg.arity,
            None => RATE_LEGACY,
        };
        if level >= self.levels.len() - 1 {
            return true;
        }
        let cur = &self.levels[level];
        let next = &self.levels[level + 1];
        let cur_len = cur.len();
        let expected: usize = if cur_len == 0 {
            0
        } else {
            proof {
                vstd::arithmetic::div_mod::lemma_div_plus_one(cur_len as int - 1, arity as int);
            }
            (cur_len - 1) / arity + 1
        };
        proof {
            if cur_len == 0 {
                assert((cur_len as int + arity as int - 1) / (arity as int) == 0) by {
                    vstd::arithmetic::div_mod::lemma_basic_div(arity as int - 1, arity as int);
                }
            }
        }
        if next.len() != expected {
            return false;
        }
        if cur_len == 0 {
            proof {
                assert(fe_seq_v(self.levels@[level as int + 1]@).len() == 0);
                assert(fe_seq_v(self.levels@[level as int + 1]@) =~= parents_v(
                    self.hasher(),
                    (level as nat) % 0x100000000,
                    fe_seq_v(self.levels@[level as int]@),
                ));
            }
            return true;
        }
        let h = match &self.cfg {
            Some(cfg) => NodeHasherRef::DsAware(cfg.arity, cfg.tree_label, &cfg.params),
            None => NodeHasherRef::Legacy(self.ds_tag, &self.params),
        };
        let ghost curv = fe_seq_v(self.levels@[level as int]@);
        let ghost nextv = fe_seq_v(self.levels@[level as int + 1]@);
        let mut p: usize = 0;
        while p < expected
            invariant
                p <= expected,
                h.h() == self.hasher(),
                h.h().params_wf(),
                1 <= arity <= 64,
                arity as nat == self.hasher().spec_arity(),
                level + 1 < self.levels@.len(),
                cur_len == self.levels@[level as int]@.len(),
                curv == fe_seq_v(self.levels@[level as int]@),
                nextv == fe_seq_v(self.levels@[level as int + 1]@),
                nextv.len() == expected,
                cur_len >= 1,
                expected as int == (cur_len as int + arity as int - 1) / (arity as int),
                expected as int == (cur_len as int - 1) / (arity as int) + 1,
                level + 1 <= usize::MAX,
                forall|k: int|
                    0 <= k < p ==> nextv[k] == parents_v(
                        self.hasher(),
                        (level as nat) % 0x100000000,
                        curv,
                    )[k],
            decreases expected - p,
        {
            proof {
                vstd::arithmetic::div_mod::lemma_fundamental_div_mod(
                    cur_len as int - 1,
                    arity as int,
                );
                vstd::arithmetic::div_mod::lemma_mod_bound(cur_len as int - 1, arity as int);
                vstd::arithmetic::mul::lemma_mul_inequality(
                    p as int,
                    (cur_len as int - 1) / (arity as int),
                    arity as int,
                );
                vstd::arithmetic::mul::lemma_mul_is_commutative(
                    arity as int,
                    (cur_len as int - 1) / (arity as int),
                );
            }
            let base = p * arity;
            assert(base <= cur_len - 1);
            let end = if cur_len - base > arity {
                base + arity
            } else {
                cur_len
            };
            let mut children: Vec<Fe> = Vec::new();
            let mut jj: usize = base;
            while jj < end
                invariant
                    base <= jj <= end,
                    end <= self.levels@[level as int]@.len(),
                    level + 1 < self.levels@.len(),
                    curv == fe_seq_v(self.levels@[level as int]@),
                    fe_seq_v(children@) =~= curv.subrange(base as int, jj as int),
                decreases end - jj,
            {
                let c = self.levels[level][jj];
                proof {
                    assert(c@ == curv[jj as int]);
                }
                let ghost pre = children@;
                children.push(c);
                proof {
                    assert(children@ =~= pre.push(c));
                    assert(fe_seq_v(children@) =~= fe_seq_v(pre).push(c@));
                }
                jj = jj + 1;
            }
            let level32 = ((level as u64) % 0x100000000) as u32;
            assert(level32 as nat == (level as nat) % 0x100000000);
            let digest = node_digest(&h, level32, p as u64, children.as_slice());
            let stored = self.levels[level + 1][p];
            proof {
                assert((p + 1) * (arity as int) == base + arity) by (nonlinear_arith)
                    requires
                        base == p * arity,
                ;
                assert(fe_seq_v(children@) =~= curv.subrange(
                    p as int * (arity as int),
                    if (p as int + 1) * (arity as int) < curv.len() {
                        (p as int + 1) * (arity as int)
                    } else {
                        curv.len() as int
                    },
                ));
                assert(digest@ == parents_v(self.hasher(), (level as nat) % 0x100000000, curv)[
                    p as int
                ]);
                use_type_invariant(digest);
                use_type_invariant(stored);
                if digest@ == stored@ {
                    crate::field::lemma_view_injective(digest, stored);
                }
                assert(stored@ == nextv[p as int]);
            }
            if digest != stored {
                return false;
            }
            p = p + 1;
        }
        proof {
            assert(nextv =~= parents_v(self.hasher(), (level as nat) % 0x100000000, curv));
        }
        true
    }
}

/// Two hashers that hash identically: same arity, labels and parameter views.
pub open spec fn hasher_like(h1: NodeHasher, h2: NodeHasher) -> bool {
    match (h1, h2) {
        (NodeHasher::DsAware(c1), NodeHasher::DsAware(c2)) => {
            &&& c1.arity == c2.arity
            &&& c1.tree_label == c2.tree_label
            &&& c1.params.t == c2.params.t
            &&& c1.params.mds_v() == c2.params.mds_v()
            &&& c1.params.rcf_v() == c2.params.rcf_v()
            &&& c1.params.rcp_v() == c2.params.rcp_v()
        },
        (NodeHasher::Legacy(t1, p1), NodeHasher::Legacy(t2, p2)) => {
            &&& t1 == t2
            &&& p1.mds_v() == p2.mds_v()
            &&& p1.rcf_v() == p2.rcf_v()
            &&& p1.rcp_v() == p2.rcp_v()
        },
        _ => false,
    }
}

pub proof fn lemma_node_digest_like(
    h1: NodeHasher,
    h2: NodeHasher,
    level: nat,
    position: nat,
    children: Seq<int>,
)
    requires
        hasher_like(h1, h2),
    ensures
        node_digest_v(h1, level, position, children) == node_digest_v(h2, level, position, children),
{
}

pub proof fn lemma_parents_like(h1: NodeHasher, h2: NodeHasher, level: nat, cur: Seq<int>)
    requires
        hasher_like(h1, h2),
    ensures
        parents_v(h1, level, cur) == parents_v(h2, level, cur),
{
    assert forall|p: int|
        0 <= p < parents_v(h1, level, cur).len() implies parents_v(h1, level, cur)[p] == parents_v(
        h2,
        level,
        cur,
    )[p] by {
        let m = h1.spec_arity() as int;
        let chunk = cur.subrange(
            p * m,
            if (p + 1) * m < cur.len() {
                (p + 1) * m
            } else {
                cur.len() as int
            },
        );
        lemma_node_digest_like(h1, h2, level, p as nat, chunk);
    }
    assert(parents_v(h1, level, cur) =~= parents_v(h2, level, cur));
}

/// Hashers with identical views build identical towers.
pub proof fn lemma_tree_levels_like(h1: NodeHasher, h2: NodeHasher, cur: Seq<int>, level: nat)
    requires
        hasher_like(h1, h2),
    ensures
        tree_levels_v(h1, cur, level) == tree_levels_v(h2, cur, level),
    decreases cur.len(),
{
    if cur.len() <= 1 || h1.spec_arity() < 2 {
    } else {
        lemma_parents_like(h1, h2, level, cur);
        lemma_ceil_div_lt(cur.len() as int, h1.spec_arity() as int);
        lemma_tree_levels_like(h1, h2, parents_v(h1, level, cur), level + 1);
    }
}

/// Hashers with identical views process groups identically.
pub proof fn lemma_verify_groups_like(
    h1: NodeHasher,
    h2: NodeHasher,
    level: nat,
    m: int,
    idxs: Seq<int>,
    vals: Seq<int>,
    sibs: Seq<int>,
    gsizes: Seq<u8>,
    i: nat,
    g: nat,
    off: nat,
    fuel: nat,
)
    requires
        hasher_like(h1, h2),
    ensures
        verify_groups_v(h1, level, m, idxs, vals, sibs, gsizes, i, g, off, fuel)
            == verify_groups_v(h2, level, m, idxs, vals, sibs, gsizes, i, g, off, fuel),
    decreases fuel,
{
    if i >= idxs.len() {
    } else if fuel == 0 || g >= gsizes.len() || m < 1 {
    } else {
        let cc = gsizes[g as int] as nat;
        if cc == 0 || cc > m {
        } else {
            let p = idxs[i as int] / m;
            let base = p * m;
            match verify_scan_v(vals, idxs, sibs, base, cc, 0, i, off) {
                None => {},
                Some((children, k1, off1)) => {
                    let k2 = group_end_v(idxs, k1, base + m);
                    lemma_node_digest_like(h1, h2, level % 0x100000000, p as nat, children);
                    let next_i: nat = if k2 > i {
                        k2
                    } else {
                        i + 1
                    };
                    lemma_verify_groups_like(
                        h1,
                        h2,
                        level,
                        m,
                        idxs,
                        vals,
                        sibs,
                        gsizes,
                        next_i,
                        g + 1,
                        off1,
                        (fuel - 1) as nat,
                    );
                },
            }
        }
    }
}

/// Hashers with identical views verify identically.
pub proof fn lemma_verify_levels_like(
    h1: NodeHasher,
    h2: NodeHasher,
    m: int,
    root: int,
    idxs: Seq<int>,
    vals: Seq<int>,
    sibs_list: Seq<Seq<int>>,
    gsizes_list: Seq<Seq<u8>>,
    level: nat,
)
    requires
        hasher_like(h1, h2),
    ensures
        verify_levels_v(h1, m, root, idxs, vals, sibs_list, gsizes_list, level)
            == verify_levels_v(h2, m, root, idxs, vals, sibs_list, gsizes_list, level),
    decreases sibs_list.len(),
{
    if sibs_list.len() == 0 {
    } else {
        lemma_verify_groups_like(
            h1,
            h2,
            level,
            m,
            idxs,
            vals,
            sibs_list[0],
            gsizes_list[0],
            0,
            0,
            0,
            idxs.len(),
        );
        match verify_level_v(h1, level, m, idxs, vals, sibs_list[0], gsizes_list[0]) {
            None => {},
            Some((ni, nv)) => {
                lemma_verify_levels_like(
                    h1,
                    h2,
                    m,
                    root,
                    ni,
                    nv,
                    sibs_list.drop_first(),
                    gsizes_list.drop_first(),
                    level + 1,
                );
            },
        }
    }
}

/// Parameter sets with identical views verify identically.
pub proof fn lemma_verify_many_ds_like(
    root: int,
    indices: Seq<int>,
    values: Seq<int>,
    proof: MerkleProof,
    tree_label: u64,
    p1: PoseidonParamsDynamic,
    p2: PoseidonParamsDynamic,
)
    requires
        p1.t == p2.t,
        p1.mds_v() == p2.mds_v(),
        p1.rcf_v() == p2.rcf_v(),
        p1.rcp_v() == p2.rcp_v(),
    ensures
        verify_many_ds_v(root, indices, values, proof, tree_label, p1) == verify_many_ds_v(
            root,
            indices,
            values,
            proof,
            tree_label,
            p2,
        ),
{
    let c1 = MerkleChannelCfg { arity: proof.arity, params: p1, tree_label };
    let c2 = MerkleChannelCfg { arity: proof.arity, params: p2, tree_label };
    lemma_verify_levels_like(
        NodeHasher::DsAware(c1),
        NodeHasher::DsAware(c2),
        proof.arity as int,
        root,
        sort_dedup_of(indices),
        aligned_vals_v(indices, values, sort_dedup_of(indices)),
        proof.siblings_v(),
        proof.group_sizes_v(),
        0,
    );
}

/// Parameter sets with identical views verify pairs identically.
pub proof fn lemma_verify_pairs_ds_like(
    root: int,
    indices: Seq<int>,
    fs: Seq<int>,
    ss: Seq<int>,
    proof: MerkleProof,
    tree_label: u64,
    p1: PoseidonParamsDynamic,
    p2: PoseidonParamsDynamic,
)
    requires
        p1.t == p2.t,
        p1.mds_v() == p2.mds_v(),
        p1.rcf_v() == p2.rcf_v(),
        p1.rcp_v() == p2.rcp_v(),
    ensures
        verify_pairs_ds_v(root, indices, fs, ss, proof, tree_label, p1) == verify_pairs_ds_v(
            root,
            indices,
            fs,
            ss,
            proof,
            tree_label,
            p2,
        ),
{
    let c1 = MerkleChannelCfg { arity: proof.arity, params: p1, tree_label };
    let c2 = MerkleChannelCfg { arity: proof.arity, params: p2, tree_label };
    let req = sort_dedup_of(indices);
    let l1 = Seq::new(
        req.len(),
        |i: int|
            leaf_digest_ds_v(c1, req[i] as nat, last_val_v(indices, fs, req[i]), last_val_v(indices, ss, req[i])),
    );
    let l2 = Seq::new(
        req.len(),
        |i: int|
            leaf_digest_ds_v(c2, req[i] as nat, last_val_v(indices, fs, req[i]), last_val_v(indices, ss, req[i])),
    );
    assert forall|i: int| 0 <= i < req.len() implies l1[i] == l2[i] by {
        lemma_node_digest_like(
            NodeHasher::DsAware(c1),
            NodeHasher::DsAware(c2),
            LEAF_LEVEL_DS as nat,
            req[i] as nat,
            seq![last_val_v(indices, fs, req[i]), last_val_v(indices, ss, req[i])],
        );
    }
    assert(l1 =~= l2);
    lemma_verify_many_ds_like(root, req, l1, proof, tree_label, p1, p2);
}

/// Copy a slice of field elements into a vector.
fn clone_fe_slice(v: &[Fe]) -> (r: Vec<Fe>)
    ensures
        r@ == v@,
{
    let mut out: Vec<Fe> = Vec::new();
    let mut i: usize = 0;
    while i < v.len()
        invariant
            i <= v@.len(),
            out@ =~= v@.subrange(0, i as int),
        decreases v@.len() - i,
    {
        out.push(v[i]);
        i = i + 1;
    }
    proof {
        assert(out@ =~= v@);
    }
    out
}

fn clone_fe_matrix(v: &Vec<Vec<Fe>>) -> (r: Vec<Vec<Fe>>)
    ensures
        r@.len() == v@.len(),
        forall|i: int| 0 <= i < v@.len() ==> (#[trigger] r@[i])@ == v@[i]@,
{
    let mut out: Vec<Vec<Fe>> = Vec::new();
    let mut i: usize = 0;
    while i < v.len()
        invariant
            i <= v@.len(),
            out@.len() == i,
            forall|k: int| 0 <= k < i ==> (#[trigger] out@[k])@ == v@[k]@,
        decreases v@.len() - i,
    {
        let row = clone_fe_slice(v[i].as_slice());
        out.push(row);
        i = i + 1;
    }
    out
}

/// Copy a parameter set; the copy hashes identically.
fn clone_params_dynamic(p: &PoseidonParamsDynamic) -> (r: PoseidonParamsDynamic)
    ensures
        r.t == p.t,
        r.rate == p.rate,
        r.rounds_full == p.rounds_full,
        r.rounds_partial == p.rounds_partial,
        r.alpha == p.alpha,
        r.mds_v() == p.mds_v(),
        r.rcf_v() == p.rcf_v(),
        r.rcp_v() == p.rcp_v(),
        p.wf() ==> r.wf(),
{
    let r = PoseidonParamsDynamic {
        t: p.t,
        rate: p.rate,
        rounds_full: p.rounds_full,
        rounds_partial: p.rounds_partial,
        alpha: p.alpha,
        mds: clone_fe_matrix(&p.mds),
        rc_full: clone_fe_matrix(&p.rc_full),
        rc_partial: clone_fe_slice(p.rc_partial.as_slice()),
    };
    proof {
        assert(r.mds_v() =~~= p.mds_v());
        assert(r.rcf_v() =~~= p.rcf_v());
        assert(r.rcp_v() =~= p.rcp_v());
    }
    r
}

/// Copy a fixed-width parameter set; the copy hashes identically.
fn clone_params_static(p: &PoseidonParams) -> (r: PoseidonParams)
    ensures
        r.mds_v() == p.mds_v(),
        r.rcf_v() == p.rcf_v(),
        r.rcp_v() == p.rcp_v(),
        p.wf() ==> r.wf(),
{
    let r = PoseidonParams {
        mds: clone_fe_matrix(&p.mds),
        rc_full: clone_fe_matrix(&p.rc_full),
        rc_partial: clone_fe_slice(p.rc_partial.as_slice()),
    };
    proof {
        assert(r.mds_v() =~~= p.mds_v());
        assert(r.rcf_v() =~~= p.rcf_v());
        assert(r.rcp_v() =~= p.rcp_v());
    }
    r
}

/// Copy a tree configuration; the copy hashes identically.
pub fn clone_cfg(c: &MerkleChannelCfg) -> (r: MerkleChannelCfg)
    ensures
        r.arity == c.arity,
        r.tree_label == c.tree_label,
        hasher_like(NodeHasher::DsAware(r), NodeHasher::DsAware(*c)),
        c.wf() ==> r.wf(),
{
    MerkleChannelCfg {
        arity: c.arity,
        params: clone_params_dynamic(&c.params),
        tree_label: c.tree_label,
    }
}

/// A commit-open-verify facade over one DS-aware configuration.
pub struct MerkleProver {
    pub cfg: MerkleChannelCfg,
}

impl MerkleProver {
    pub fn new(cfg: MerkleChannelCfg) -> (r: MerkleProver)
        ensures
            r.cfg == cfg,
    {
        MerkleProver { cfg }
    }

    /// Commit a vector of single-column leaves.
    pub fn commit_single(&self, leaves: &[Fe]) -> (r: (Fe, MerkleTree))
        requires
            self.cfg.wf(),
            1 <= leaves@.len() <= 0xffffffff,
            self.cfg.arity >= 2 || leaves@.len() == 1,
        ensures
            r.1.wf(),
            r.0 == r.1.root,
            r.1.cfg is Some,
            r.1.cfg->Some_0.arity == self.cfg.arity,
            r.1.cfg->Some_0.tree_label == self.cfg.tree_label,
            r.1.levels_v() == tree_levels_v(
                NodeHasher::DsAware(self.cfg),
                fe_seq_v(leaves@),
                0,
            ),
            r.1.root@ == tree_root_v(NodeHasher::DsAware(self.cfg), fe_seq_v(leaves@)),
    {
        let cfg2 = clone_cfg(&self.cfg);
        let lv = clone_fe_slice(leaves);
        let tree = MerkleTree::new(lv, cfg2);
        proof {
            lemma_tree_levels_like(
                NodeHasher::DsAware(cfg2),
                NodeHasher::DsAware(self.cfg),
                fe_seq_v(leaves@),
                0,
            );
        }
        let root = tree.root();
        (root, tree)
    }

    /// Open single-column leaves at the given indices.
    pub fn open_single(&self, tree: &MerkleTree, indices: &[usize]) -> (r: MerkleProof)
        requires
            tree.wf(),
            indices@.len() >= 1,
            tree.hasher().spec_arity() >= 1,
        ensures
            r.arity as nat == tree.hasher().spec_arity(),
            usize_seq_v(r.indices@) == sort_dedup_of(usize_seq_v(indices@)),
            r.siblings_v() == open_paths_v(
                tree.levels_v(),
                sort_dedup_of(usize_seq_v(indices@)),
                tree.hasher().spec_arity() as int,
                0,
            ).0,
            r.group_sizes_v() == open_paths_v(
                tree.levels_v(),
                sort_dedup_of(usize_seq_v(indices@)),
                tree.hasher().spec_arity() as int,
                0,
            ).1,
    {
        tree.open_many_single(indices)
    }

    /// Verify a single-column union-of-paths proof under this configuration.
    pub fn verify_single(
        &self,
        root: &Fe,
        indices: &[usize],
        leaves: &[Fe],
        proof: &MerkleProof,
    ) -> (r: bool)
        requires
            self.cfg.params.wf(),
        ensures
            r == verify_many_ds_v(
                root@,
                usize_seq_v(indices@),
                fe_seq_v(leaves@),
                *proof,
                self.cfg.tree_label,
                self.cfg.params,
            ),
    {
        verify_many_ds(root, indices, leaves, proof, self.cfg.tree_label, &self.cfg.params)
    }

    /// Commit a vector of pairs as combined leaves.
    pub fn commit_pairs(&self, f_vals: &[Fe], cp_vals: &[Fe]) -> (r: (Fe, MerkleTree))
        requires
            self.cfg.wf(),
            f_vals@.len() == cp_vals@.len(),
            1 <= f_vals@.len() <= 0xffffffff,
            self.cfg.arity >= 2 || f_vals@.len() == 1,
        ensures
            r.1.wf(),
            r.0 == r.1.root,
            r.1.cfg is Some,
            r.1.cfg->Some_0.arity == self.cfg.arity,
            r.1.cfg->Some_0.tree_label == self.cfg.tree_label,
            r.1.levels_v() == tree_levels_v(
                NodeHasher::DsAware(self.cfg),
                pair_leaves_ds_v(self.cfg, fe_seq_v(f_vals@), fe_seq_v(cp_vals@)),
                0,
            ),
            r.1.root@ == tree_root_v(
                NodeHasher::DsAware(self.cfg),
                pair_leaves_ds_v(self.cfg, fe_seq_v(f_vals@), fe_seq_v(cp_vals@)),
            ),
    {
        let cfg2 = clone_cfg(&self.cfg);
        let tree = MerkleTree::new_pairs(f_vals, cp_vals, cfg2);
        proof {
            assert forall|i: int|
                0 <= i < f_vals@.len() implies pair_leaves_ds_v(
                cfg2,
                fe_seq_v(f_vals@),
                fe_seq_v(cp_vals@),
            )[i] == pair_leaves_ds_v(self.cfg, fe_seq_v(f_vals@), fe_seq_v(cp_vals@))[i] by {
                lemma_node_digest_like(
                    NodeHasher::DsAware(cfg2),
                    NodeHasher::DsAware(self.cfg),
                    LEAF_LEVEL_DS as nat,
                    i as nat,
                    seq![fe_seq_v(f_vals@)[i], fe_seq_v(cp_vals@)[i]],
                );
            }
            assert(pair_leaves_ds_v(cfg2, fe_seq_v(f_vals@), fe_seq_v(cp_vals@)) =~= pair_leaves_ds_v(
                self.cfg,
                fe_seq_v(f_vals@),
                fe_seq_v(cp_vals@),
            ));
            lemma_tree_levels_like(
                NodeHasher::DsAware(cfg2),
                NodeHasher::DsAware(self.cfg),
                pair_leaves_ds_v(self.cfg, fe_seq_v(f_vals@), fe_seq_v(cp_vals@)),
                0,
            );
        }
        let root = tree.root();
        (root, tree)
    }

    /// Open a set of indices of a pair tree: the pairs at the sorted unique
    /// indices, with the multiproof.
    pub fn open_pairs(&self, tree: &MerkleTree, f_vals: &[Fe], cp_vals: &[Fe], indices: &[usize]) -> (r: (
        Vec<(Fe, Fe)>,
        MerkleProof,
    ))
        requires
            tree.wf(),
            tree.hasher().spec_arity() >= 1,
            f_vals@.len() == cp_vals@.len(),
            indices@.len() >= 1,
            forall|k: int| 0 <= k < indices@.len() ==> (#[trigger] indices@[k]) < f_vals@.len(),
        ensures
            r.0@.len() == sort_dedup_of(usize_seq_v(indices@)).len(),
            forall|k: int|
                0 <= k < r.0@.len() ==> (#[trigger] r.0@[k]).0@ == fe_seq_v(f_vals@)[sort_dedup_of(
                    usize_seq_v(indices@),
                )[k]] && r.0@[k].1@ == fe_seq_v(cp_vals@)[sort_dedup_of(usize_seq_v(indices@))[k]],
            usize_seq_v(r.1.indices@) == sort_dedup_of(usize_seq_v(indices@)),
            r.1.arity as nat == tree.hasher().spec_arity(),
            r.1.siblings_v() == open_paths_v(
                tree.levels_v(),
                sort_dedup_of(usize_seq_v(indices@)),
                tree.hasher().spec_arity() as int,
                0,
            ).0,
            r.1.group_sizes_v() == open_paths_v(
                tree.levels_v(),
                sort_dedup_of(usize_seq_v(indices@)),
                tree.hasher().spec_arity() as int,
                0,
            ).1,
    {
        let uniq = sort_dedup(indices);
        proof {
            lemma_sort_dedup_of(usize_seq_v(indices@));
            assert forall|k: int|
                0 <= k < uniq@.len() implies (#[trigger] uniq@[k]) < f_vals@.len() by {
                let sd = sort_dedup_of(usize_seq_v(indices@));
                assert(usize_seq_v(indices@).contains(sd[k]));
                let j = choose|j: int|
                    0 <= j < usize_seq_v(indices@).len() && usize_seq_v(indices@)[j] == sd[k];
                assert(indices@[j] < f_vals@.len());
                assert(usize_seq_v(uniq@)[k] == sd[k]);
            }
        }
        let mut pairs: Vec<(Fe, Fe)> = Vec::new();
        let mut i: usize = 0;
        while i < uniq.len()
            invariant
                i <= uniq@.len(),
                f_vals@.len() == cp_vals@.len(),
                forall|k: int| 0 <= k < uniq@.len() ==> (#[trigger] uniq@[k]) < f_vals@.len(),
                pairs@.len() == i,
                forall|k: int|
                    0 <= k < i ==> (#[trigger] pairs@[k]).0 == f_vals@[uniq@[k] as int]
                        && pairs@[k].1 == cp_vals@[uniq@[k] as int],
            decreases uniq@.len() - i,
        {
            let idx = uniq[i];
            pairs.push((f_vals[idx], cp_vals[idx]));
            i = i + 1;
        }
        let prf = tree.open_many(uniq.as_slice());
        proof {
            assert(usize_seq_v(uniq@).take(usize_seq_v(uniq@).len() as int) =~= usize_seq_v(uniq@));
            lemma_sort_dedup_identity(usize_seq_v(uniq@));
        }
        (pairs, prf)
    }

    /// Verify a pair opening under this configuration.
    pub fn verify_pairs(
        &self,
        root: &Fe,
        indices: &[usize],
        pairs: &[(Fe, Fe)],
        proof: &MerkleProof,
    ) -> (r: bool)
        requires
            self.cfg.params.wf(),
        ensures
            r == verify_pairs_ds_v(
                root@,
                usize_seq_v(indices@),
                Seq::new(pairs@.len(), |i: int| pairs@[i].0@),
                Seq::new(pairs@.len(), |i: int| pairs@[i].1@),
                *proof,
                self.cfg.tree_label,
                self.cfg.params,
            ),
    {
        verify_pairs_ds(root, indices, pairs, proof, self.cfg.tree_label, &self.cfg.params)
    }
}

/// A commit-open-verify facade over one legacy tag and parameter set.
pub struct LegacyMerkleProver {
    pub ds_tag: Fe,
    pub params: PoseidonParams,
}

impl LegacyMerkleProver {
    pub fn new(ds_tag: Fe, params: PoseidonParams) -> (r: LegacyMerkleProver)
        ensures
            r.ds_tag == ds_tag,
            r.params == params,
    {
        LegacyMerkleProver { ds_tag, params }
    }

    /// Commit a vector of pairs as combined leaves under the legacy scheme.
    pub fn commit_pairs(&self, f_vals: &[Fe], cp_vals: &[Fe]) -> (r: (Fe, MerkleTree))
        requires
            self.params.wf(),
            f_vals@.len() == cp_vals@.len(),
            1 <= f_vals@.len() <= 0xffffffff,
        ensures
            r.1.wf(),
            r.0 == r.1.root,
            r.1.levels_v() == tree_levels_v(
                NodeHasher::Legacy(self.ds_tag, self.params),
                pair_leaves_legacy_v(self.ds_tag, self.params, fe_seq_v(f_vals@), fe_seq_v(cp_vals@)),
                0,
            ),
            r.1.root@ == tree_root_v(
                NodeHasher::Legacy(self.ds_tag, self.params),
                pair_leaves_legacy_v(self.ds_tag, self.params, fe_seq_v(f_vals@), fe_seq_v(cp_vals@)),
            ),
    {
        let params2 = clone_params_static(&self.params);
        let tree = MerkleTree::new_pairs_legacy(f_vals, cp_vals, self.ds_tag, params2);
        proof {
            assert forall|i: int|
                0 <= i < f_vals@.len() implies pair_leaves_legacy_v(
                self.ds_tag,
                params2,
                fe_seq_v(f_vals@),
                fe_seq_v(cp_vals@),
            )[i] == pair_leaves_legacy_v(
                self.ds_tag,
                self.params,
                fe_seq_v(f_vals@),
                fe_seq_v(cp_vals@),
            )[i] by {
                lemma_node_digest_like(
                    NodeHasher::Legacy(self.ds_tag, params2),
                    NodeHasher::Legacy(self.ds_tag, self.params),
                    0,
                    0,
                    seq![fe_seq_v(f_vals@)[i], fe_seq_v(cp_vals@)[i]],
                );
            }
            assert(pair_leaves_legacy_v(self.ds_tag, params2, fe_seq_v(f_vals@), fe_seq_v(cp_vals@))
                =~= pair_leaves_legacy_v(
                self.ds_tag,
                self.params,
                fe_seq_v(f_vals@),
                fe_seq_v(cp_vals@),
            ));
            lemma_tree_levels_like(
                NodeHasher::Legacy(self.ds_tag, params2),
                NodeHasher::Legacy(self.ds_tag, self.params),
                pair_leaves_legacy_v(self.ds_tag, self.params, fe_seq_v(f_vals@), fe_seq_v(cp_vals@)),
                0,
            );
        }
        let root = tree.root();
        (root, tree)
    }

    /// Open a set of indices of a legacy pair tree.
    pub fn open_pairs(&self, tree: &MerkleTree, f_vals: &[Fe], cp_vals: &[Fe], indices: &[usize]) -> (r: (
        Vec<(Fe, Fe)>,
        MerkleProof,
    ))
        requires
            tree.wf(),
            tree.hasher().spec_arity() >= 1,
            f_vals@.len() == cp_vals@.len(),
            indices@.len() >= 1,
            forall|k: int| 0 <= k < indices@.len() ==> (#[trigger] indices@[k]) < f_vals@.len(),
        ensures
            r.0@.len() == sort_dedup_of(usize_seq_v(indices@)).len(),
            forall|k: int|
                0 <= k < r.0@.len() ==> (#[trigger] r.0@[k]).0@ == fe_seq_v(f_vals@)[sort_dedup_of(
                    usize_seq_v(indices@),
                )[k]] && r.0@[k].1@ == fe_seq_v(cp_vals@)[sort_dedup_of(usize_seq_v(indices@))[k]],
            usize_seq_v(r.1.indices@) == sort_dedup_of(usize_seq_v(indices@)),
            r.1.arity as nat == tree.hasher().spec_arity(),
    {
        let uniq = sort_dedup(indices);
        proof {
            lemma_sort_dedup_of(usize_seq_v(indices@));
            assert forall|k: int|
                0 <= k < uniq@.len() implies (#[trigger] uniq@[k]) < f_vals@.len() by {
                let sd = sort_dedup_of(usize_seq_v(indices@));
                assert(usize_seq_v(indices@).contains(sd[k]));
                let j = choose|j: int|
                    0 <= j < usize_seq_v(indices@).len() && usize_seq_v(indices@)[j] == sd[k];
                assert(indices@[j] < f_vals@.len());
                assert(usize_seq_v(uniq@)[k] == sd[k]);
            }
        }
        let mut pairs: Vec<(Fe, Fe)> = Vec::new();
        let mut i: usize = 0;
        while i < uniq.len()
            invariant
                i <= uniq@.len(),
                f_vals@.len() == cp_vals@.len(),
                forall|k: int| 0 <= k < uniq@.len() ==> (#[trigger] uniq@[k]) < f_vals@.len(),
                pairs@.len() == i,
                forall|k: int|
                    0 <= k < i ==> (#[trigger] pairs@[k]).0 == f_vals@[uniq@[k] as int]
                        && pairs@[k].1 == cp_vals@[uniq@[k] as int],
            decreases uniq@.len() - i,
        {
            let idx = uniq[i];
            pairs.push((f_vals[idx], cp_vals[idx]));
            i = i + 1;
        }
        let prf = tree.open_many(uniq.as_slice());
        proof {
            lemma_sort_dedup_identity(usize_seq_v(uniq@));
        }
        (pairs, prf)
    }

    /// Verify a legacy pair opening.
    pub fn verify_pairs(
        &self,
        root: &Fe,
        indices: &[usize],
        pairs: &[(Fe, Fe)],
        proof: &MerkleProof,
    ) -> (r: bool)
        requires
            self.params.wf(),
        ensures
            r == verify_pairs_legacy_v(
                root@,
                usize_seq_v(indices@),
                Seq::new(pairs@.len(), |i: int| pairs@[i].0@),
                Seq::new(pairs@.len(), |i: int| pairs@[i].1@),
                *proof,
                self.ds_tag,
                self.params,
            ),
    {
        verify_pairs_legacy(root, indices, pairs, proof, self.ds_tag, &self.params)
    }
}

} // verus!
