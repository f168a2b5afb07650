//! Multilinear polynomials by their evaluations on the Boolean hypercube,
//! with folding, fixing and evaluation against a recursive model.

use vstd::prelude::*;
use crate::field::{f_add, f_mul, f_sub, fe_add, fe_mul, fe_seq_v, fe_sub, Fe};

verus! {

/// `(1 − r)·v0 + r·v1`.
pub open spec fn mix_v(r: int, v0: int, v1: int) -> int {
    f_add(f_mul(f_sub(1, r), v0), f_mul(r, v1))
}

/// One pairwise fold of adjacent entries with challenge `r`.
pub open spec fn fold_pairs_v(vals: Seq<int>, r: int) -> Seq<int> {
    Seq::new(vals.len() / 2, |j: int| mix_v(r, vals[2 * j], vals[2 * j + 1]))
}

/// Full evaluation: fold once per challenge, first challenge first.
pub open spec fn eval_v(vals: Seq<int>, rs: Seq<int>) -> int
    decreases rs.len(),
{
    if rs.len() == 0 {
        vals[0]
    } else {
        eval_v(fold_pairs_v(vals, rs[0]), rs.drop_first())
    }
}

/// The sub-cube with variable `var_idx` fixed to `bit`.
pub open spec fn fix_v(vals: Seq<int>, var_idx: nat, bit: bool) -> Seq<int> {
    let stride = vstd::arithmetic::power2::pow2(var_idx) as int;
    let want: int = if bit {
        1
    } else {
        0
    };
    Seq::new(
        vals.len() / 2,
        |k: int| vals[(k / stride) * (2 * stride) + want * stride + (k % stride)],
    )
}

/// Strided pairwise fold in variable `var_idx` with challenge `r`.
pub open spec fn fold_var_v(vals: Seq<int>, var_idx: nat, r: int) -> Seq<int> {
    let stride = vstd::arithmetic::power2::pow2(var_idx) as int;
    Seq::new(
        vals.len() / 2,
        |k: int|
            mix_v(
                r,
                vals[(k / stride) * (2 * stride) + (k % stride)],
                vals[(k / stride) * (2 * stride) + (k % stride) + stride],
            ),
    )
}

/// A multilinear polynomial given by its `2^n` values on the Boolean cube.
pub struct MLE {
    values: Vec<Fe>,
    n: usize,
}

impl MLE {
    /// The shape invariant: exactly `2^n` values.
    pub closed spec fn wf(self) -> bool {
        self.values@.len() == vstd::arithmetic::power2::pow2(self.n as nat) && self.n < 64
    }

    /// The stored values, in the integer model.
    pub closed spec fn vals(self) -> Seq<int> {
        fe_seq_v(self.values@)
    }

    /// The number of variables.
    pub closed spec fn n_vars_s(self) -> nat {
        self.n as nat
    }

    /// Create from values; the length must be a power of two.
    pub fn from_values(values: Vec<Fe>) -> (r: MLE)
        requires
            values@.len() >= 1,
            exists|k: nat| k < 64 && values@.len() == vstd::arithmetic::power2::pow2(k),
        ensures
            r.wf(),
            r.vals() == fe_seq_v(values@),
            values@.len() == vstd::arithmetic::power2::pow2(r.n_vars_s()),
    {
        let len = values.len();
        let mut n: usize = 0;
        let mut size: usize = 1;
        proof {
            vstd::arithmetic::power2::lemma2_to64();
        }
        while size < len
            invariant
                n < 64,
                size == vstd::arithmetic::power2::pow2(n as nat),
                size <= len,
                exists|k: nat| k < 64 && len == vstd::arithmetic::power2::pow2(k),
                len == values@.len(),
            decreases len - size,
        {
            proof {
                let k = choose|k: nat| k < 64 && len == vstd::arithmetic::power2::pow2(k);
                if k <= n {
                    if k < n {
                        vstd::arithmetic::power2::lemma_pow2_strictly_increases(k, n as nat);
                    }
                    assert(false);
                }
                if n as nat + 1 < k {
                    vstd::arithmetic::power2::lemma_pow2_strictly_increases(n as nat + 1, k);
                }
                vstd::arithmetic::power2::lemma_pow2_unfold(n as nat + 1);
                vstd::arithmetic::power2::lemma_pow2_pos(n as nat);
            }
            size = size * 2;
            n = n + 1;
        }
        MLE { values, n }
    }

    /// The zero polynomial of `n` variables.
    pub fn zero(n: usize) -> (r: MLE)
        requires
            n < 64,
            vstd::arithmetic::power2::pow2(n as nat) <= usize::MAX,
        ensures
            r.wf(),
            r.n_vars_s() == n,
            r.vals() == Seq::new(vstd::arithmetic::power2::pow2(n as nat), |i: int| 0int),
    {
        proof {
            vstd::arithmetic::power2::lemma_pow2_pos(n as nat);
        }
        let size = pow2_usize(n);
        let mut values: Vec<Fe> = Vec::new();
        let mut i: usize = 0;
        while i < size
            invariant
                i <= size,
                values@.len() == i,
                forall|k: int| 0 <= k < i ==> (#[trigger] values@[k])@ == 0,
            decreases size - i,
        {
            values.push(Fe::zero());
            i = i + 1;
        }
        let r = MLE { values, n };
        proof {
            assert(r.vals() =~= Seq::new(vstd::arithmetic::power2::pow2(n as nat), |i: int| 0int));
        }
        r
    }

    /// Borrow the internal values.
    pub fn values(&self) -> (r: &Vec<Fe>)
        ensures
            fe_seq_v(r@) == self.vals(),
    {
        &self.values
    }

    /// The number of variables.
    pub fn n_vars(&self) -> (r: usize)
        ensures
            r == self.n_vars_s(),
    {
        self.n
    }


    /// Fold along the last variable with challenge `r_i`, pairing adjacent
    /// entries; one variable fewer.
    pub fn fold_last(self, r_i: &Fe) -> (r: MLE)
        requires
            self.wf(),
        ensures
            r.wf(),
            self.n_vars_s() == 0 ==> r.n_vars_s() == 0 && r.vals() == self.vals(),
            self.n_vars_s() > 0 ==> r.n_vars_s() == self.n_vars_s() - 1 && r.vals()
                == fold_pairs_v(self.vals(), r_i@),
    {
        if self.n == 0 {
            return self;
        }
        let total = self.values.len();
        proof {
            vstd::arithmetic::power2::lemma_pow2_unfold(self.n as nat);
            vstd::arithmetic::power2::lemma_pow2_pos((self.n - 1) as nat);
        }
        let half = total / 2;
        let one = Fe::one();
        let one_minus = fe_sub(&one, r_i);
        let mut out: Vec<Fe> = Vec::new();
        let mut k: usize = 0;
        while k < half
            invariant
                k <= half,
                half * 2 == self.values@.len(),
                self.values@.len() <= usize::MAX,
                one_minus@ == f_sub(1, r_i@),
                out@.len() == k,
                forall|j: int|
                    0 <= j < k ==> (#[trigger] out@[j])@ == mix_v(
                        r_i@,
                        fe_seq_v(self.values@)[2 * j],
                        fe_seq_v(self.values@)[2 * j + 1],
                    ),
            decreases half - k,
        {
            let v0 = self.values[2 * k];
            let v1 = self.values[2 * k + 1];
            let m0 = fe_mul(&one_minus, &v0);
            let m1 = fe_mul(r_i, &v1);
            out.push(fe_add(&m0, &m1));
            k = k + 1;
        }
        let r = MLE { values: out, n: self.n - 1 };
        proof {
            assert(r.vals() =~= fold_pairs_v(self.vals(), r_i@));
        }
        r
    }

    /// Fix variable `var_idx` to a Boolean bit, selecting one sub-cube; one
    /// variable fewer.
    pub fn fix(self, var_idx: usize, bit: bool) -> (r: MLE)
        requires
            self.wf(),
            var_idx < self.n_vars_s(),
        ensures
            r.wf(),
            r.n_vars_s() == self.n_vars_s() - 1,
            r.vals() == fix_v(self.vals(), var_idx as nat, bit),
    {
        let total = self.values.len();
        proof {
            vstd::arithmetic::power2::lemma_pow2_strictly_increases(var_idx as nat, self.n as nat);
            vstd::arithmetic::power2::lemma_pow2_pos(var_idx as nat);
            vstd::arithmetic::power2::lemma_pow2_unfold(self.n as nat);
            vstd::arithmetic::power2::lemma_pow2_pos((self.n - 1) as nat);
        }
        let stride = pow2_usize(var_idx);
        let want: usize = if bit {
            1
        } else {
            0
        };
        let half = total / 2;
        proof {
            lemma_stride_blocks(self.n as nat, var_idx as nat);
        }
        let mut out: Vec<Fe> = Vec::new();
        let mut k: usize = 0;
        while k < half
            invariant
                k <= half,
                stride == vstd::arithmetic::power2::pow2(var_idx as nat),
                stride >= 1,
                want == (if bit { 1int } else { 0int }),
                half * 2 == self.values@.len(),
                self.values@.len() <= usize::MAX,
                half == stride * (half / stride),
                half >= stride,
                out@.len() == k,
                forall|j: int|
                    0 <= j < k ==> (#[trigger] out@[j])@ == fix_v(
                        fe_seq_v(self.values@),
                        var_idx as nat,
                        bit,
                    )[j],
            decreases half - k,
        {
            proof {
                lemma_block_index(k as int, stride as int, half as int);
            }
            let src = (k / stride) * (2 * stride) + want * stride + (k % stride);
            out.push(self.values[src]);
            k = k + 1;
        }
        let r = MLE { values: out, n: self.n - 1 };
        proof {
            assert(r.vals() =~= fix_v(self.vals(), var_idx as nat, bit));
        }
        r
    }

    /// Fold in variable `var_idx` with challenge `r_i`, combining the two
    /// sub-cubes; one variable fewer.
    pub fn fold(self, var_idx: usize, r_i: &Fe) -> (r: MLE)
        requires
            self.wf(),
            var_idx < self.n_vars_s(),
        ensures
            r.wf(),
            r.n_vars_s() == self.n_vars_s() - 1,
            r.vals() == fold_var_v(self.vals(), var_idx as nat, r_i@),
    {
        let total = self.values.len();
        proof {
            vstd::arithmetic::power2::lemma_pow2_strictly_increases(var_idx as nat, self.n as nat);
            vstd::arithmetic::power2::lemma_pow2_pos(var_idx as nat);
            vstd::arithmetic::power2::lemma_pow2_unfold(self.n as nat);
            vstd::arithmetic::power2::lemma_pow2_pos((self.n - 1) as nat);
        }
        let stride = pow2_usize(var_idx);
        let half = total / 2;
        proof {
            lemma_stride_blocks(self.n as nat, var_idx as nat);
        }
        let one = Fe::one();
        let one_minus = fe_sub(&one, r_i);
        let mut out: Vec<Fe> = Vec::new();
        let mut k: usize = 0;
        while k < half
            invariant
                k <= half,
                stride == vstd::arithmetic::power2::pow2(var_idx as nat),
                stride >= 1,
                one_minus@ == f_sub(1, r_i@),
                half * 2 == self.values@.len(),
                self.values@.len() <= usize::MAX,
                half == stride * (half / stride),
                half >= stride,
                out@.len() == k,
                forall|j: int|
                    0 <= j < k ==> (#[trigger] out@[j])@ == fold_var_v(
                        fe_seq_v(self.values@),
                        var_idx as nat,
                        r_i@,
                    )[j],
            decreases half - k,
        {
            proof {
                lemma_block_index(k as int, stride as int, half as int);
            }
            let src = (k / stride) * (2 * stride) + (k % stride);
            let v0 = self.values[src];
            let v1 = self.values[src + stride];
            let m0 = fe_mul(&one_minus, &v0);
            let m1 = fe_mul(r_i, &v1);
            out.push(fe_add(&m0, &m1));
            k = k + 1;
        }
        let r = MLE { values: out, n: self.n - 1 };
        proof {
            assert(r.vals() =~= fold_var_v(self.vals(), var_idx as nat, r_i@));
        }
        r
    }

    /// Evaluate at a point by repeated pairwise folding.
    pub fn eval(&self, r: &[Fe]) -> (res: Fe)
        requires
            self.wf(),
            r@.len() == self.n_vars_s(),
        ensures
            res@ == eval_v(self.vals(), fe_seq_v(r@)),
    {
        let ghost rs = fe_seq_v(r@);
        let mut buf = crate::merkle::clone_fe_vec(&self.values);
        let mut size = buf.len();
        proof {
            vstd::arithmetic::power2::lemma_pow2_pos(self.n as nat);
            assert(fe_seq_v(buf@) =~= self.vals());
            assert(fe_seq_v(buf@).take(size as int) =~= fe_seq_v(buf@));
            assert(rs.skip(0) =~= rs);
        }
        let mut i: usize = 0;
        while i < r.len()
            invariant
                i <= r@.len(),
                rs == fe_seq_v(r@),
                size >= 1,
                size == vstd::arithmetic::power2::pow2((r@.len() - i) as nat),
                size <= buf@.len(),
                eval_v(self.vals(), rs) == eval_v(
                    fe_seq_v(buf@).take(size as int),
                    rs.skip(i as int),
                ),
            decreases r@.len() - i,
        {
            proof {
                vstd::arithmetic::power2::lemma_pow2_unfold((r@.len() - i) as nat);
                vstd::arithmetic::power2::lemma_pow2_pos((r@.len() - i - 1) as nat);
            }
            let half = size / 2;
            let ri = r[i];
            let ghost pre = fe_seq_v(buf@).take(size as int);
            let one = Fe::one();
            let one_minus = fe_sub(&one, &ri);
            let mut j: usize = 0;
            while j < half
                invariant
                    j <= half,
                    half * 2 == size,
                    half >= 1,
                    size <= buf@.len(),
                    ri@ == rs[i as int],
                    one_minus@ == f_sub(1, ri@),
                    pre.len() == size,
                    forall|k: int| j <= k < size ==> (#[trigger] fe_seq_v(buf@)[k]) == pre[k],
                    forall|k: int|
                        0 <= k < j ==> (#[trigger] fe_seq_v(buf@)[k]) == mix_v(
                            ri@,
                            pre[2 * k],
                            pre[2 * k + 1],
                        ),
                decreases half - j,
            {
                let v0 = buf[2 * j];
                let v1 = buf[2 * j + 1];
                proof {
                    assert(2 * j + 1 < size);
                    assert(v0@ == fe_seq_v(buf@)[2 * j]);
                    assert(v1@ == fe_seq_v(buf@)[2 * j + 1]);
                    assert(v0@ == pre[2 * j]);
                    assert(v1@ == pre[2 * j + 1]);
                }
                let m0 = fe_mul(&one_minus, &v0);
                let m1 = fe_mul(&ri, &v1);
                let mixed = fe_add(&m0, &m1);
                let ghost before = fe_seq_v(buf@);
                buf.set(j, mixed);
                proof {
                    assert(fe_seq_v(buf@) =~= before.update(j as int, mixed@));
                    assert(mixed@ == mix_v(ri@, pre[2 * j], pre[2 * j + 1]));
                }
                j = j + 1;
            }
            proof {
                assert(fe_seq_v(buf@).take(half as int) =~= fold_pairs_v(pre, ri@));
                assert(rs.skip(i as int)[0] == rs[i as int]);
                assert(rs.skip(i as int).drop_first() =~= rs.skip(i + 1));
            }
            size = half;
            i = i + 1;
        }
        proof {
            assert(rs.skip(rs.len() as int).len() == 0);
        }
        buf[0]
    }
}

/// `2^n` as a machine word.
pub fn pow2_usize(n: usize) -> (r: usize)
    requires
        n < 64,
        vstd::arithmetic::power2::pow2(n as nat) <= usize::MAX,
    ensures
        r == vstd::arithmetic::power2::pow2(n as nat),
{
    let mut r: usize = 1;
    let mut i: usize = 0;
    proof {
        vstd::arithmetic::power2::lemma2_to64();
    }
    while i < n
        invariant
            i <= n,
            n < 64,
            r == vstd::arithmetic::power2::pow2(i as nat),
            vstd::arithmetic::power2::pow2(n as nat) <= usize::MAX,
        decreases n - i,
    {
        proof {
            vstd::arithmetic::power2::lemma_pow2_unfold(i as nat + 1);
            if i + 1 <= n {
                if i as nat + 1 < n as nat {
                    vstd::arithmetic::power2::lemma_pow2_strictly_increases(i as nat + 1, n as nat);
                }
            }
        }
        r = r * 2;
        i = i + 1;
    }
    r
}


/// The stride of a variable divides the half-cube.
proof fn lemma_stride_blocks(n: nat, var_idx: nat)
    requires
        var_idx < n,
    ensures
        ({
            let half = vstd::arithmetic::power2::pow2(n) / 2;
            let stride = vstd::arithmetic::power2::pow2(var_idx);
            half == stride * (half / stride) && half >= stride
        }),
{
    let half = vstd::arithmetic::power2::pow2(n) / 2;
    let stride = vstd::arithmetic::power2::pow2(var_idx);
    vstd::arithmetic::power2::lemma_pow2_unfold(n);
    vstd::arithmetic::power2::lemma_pow2_pos(var_idx);
    vstd::arithmetic::power2::lemma_pow2_pos((n - 1) as nat);
    assert(half == vstd::arithmetic::power2::pow2((n - 1) as nat));
    vstd::arithmetic::power2::lemma_pow2_adds(var_idx, ((n - 1) - var_idx) as nat);
    let blocks = vstd::arithmetic::power2::pow2(((n - 1) - var_idx) as nat);
    assert(half == stride * blocks);
    vstd::arithmetic::power2::lemma_pow2_pos(((n - 1) - var_idx) as nat);
    assert(half / stride == blocks) by {
        vstd::arithmetic::div_mod::lemma_fundamental_div_mod_converse(
            half as int,
            stride as int,
            blocks as int,
            0,
        );
    }
    vstd::arithmetic::mul::lemma_mul_inequality(1, blocks as int, stride as int);
    vstd::arithmetic::mul::lemma_mul_is_commutative(stride as int, blocks as int);
}

/// The strided source index of position `k` stays within the doubled range.
proof fn lemma_block_index(k: int, stride: int, half: int)
    requires
        0 <= k < half,
        1 <= stride,
        half == stride * (half / stride),
    ensures
        0 <= (k / stride) * (2 * stride) + stride + (k % stride) < 2 * half,
        (k / stride) * (2 * stride) + (k % stride) >= 0,
        (k / stride) * (2 * stride) + (k % stride) + stride < 2 * half,
{
    let q = k / stride;
    let r = k % stride;
    vstd::arithmetic::div_mod::lemma_fundamental_div_mod(k, stride);
    vstd::arithmetic::div_mod::lemma_mod_bound(k, stride);
    vstd::arithmetic::div_mod::lemma_div_pos_is_pos(k, stride);
    let blocks = half / stride;
    assert(q < blocks) by {
        vstd::arithmetic::div_mod::lemma_multiply_divide_lt(k, stride, blocks);
    }
    assert((q + 1) * (2 * stride) <= blocks * (2 * stride)) by {
        vstd::arithmetic::mul::lemma_mul_inequality(q + 1, blocks, 2 * stride);
    }
    assert(blocks * (2 * stride) == 2 * half) by {
        vstd::arithmetic::mul::lemma_mul_is_commutative(stride, blocks);
        vstd::arithmetic::mul::lemma_mul_is_associative(2, stride, blocks);
        vstd::arithmetic::mul::lemma_mul_is_commutative(2 * stride, blocks);
    }
    assert((q + 1) * (2 * stride) == q * (2 * stride) + 2 * stride) by {
        vstd::arithmetic::mul::lemma_mul_is_distributive_add_other_way(2 * stride, q, 1);
    }
}

} // verus!
