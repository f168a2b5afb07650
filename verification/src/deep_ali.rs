//! The DEEP-ALI merge: combine public evaluation vectors on a multiplicative
//! subgroup into a single column via an off-domain substitution point, with
//! the merged identity proved for every grid point.

use vstd::prelude::*;
use crate::field::{
    f_add, f_inv, f_mul, f_pow, f_sub, fe_add, fe_invert, fe_mul, fe_root_of_unity, fe_seq_v,
    fe_sub, field_order, is_pow2, lemma_f_inv_unique, lemma_f_mul_assoc, lemma_f_mul_comm,
    lemma_f_mul_one, lemma_f_pow_one_base, lemma_f_pow_pow, lemma_f_pow_range, lemma_f_pow_succ,
    lemma_f_sub_zero, lemma_view_injective, omega_of, Fe,
};
use crate::rng::{rng_seed_of_u64, rng_word, SeededRng};

verus! {

/// Whether `z` lies in the subgroup of size `n`.
pub open spec fn in_domain_v(z: int, n: nat) -> bool {
    f_pow(z, n) == 1
}

/// Return whether z is in H, i.e. z^n == 1.
pub fn is_in_domain(z: &Fe, n: usize) -> (r: bool)
    ensures
        r == in_domain_v(z@, n as nat),
{
    let zn = z.pow_u64(n as u64);
    let one = Fe::one();
    let eq = zn == one;
    proof {
        use_type_invariant(zn);
        use_type_invariant(one);
        if zn@ == one@ {
            lemma_view_injective(zn, one);
        }
    }
    eq
}

/// Vanishing polynomial on H: Z_H(z) = z^n − 1.
pub fn zh_at(z: &Fe, n: usize) -> (r: Fe)
    ensures
        r@ == f_sub(f_pow(z@, n as nat), 1),
{
    let zn = z.pow_u64(n as u64);
    let one = Fe::one();
    fe_sub(&zn, &one)
}

/// The first exponent below `n` whose power of `w` equals `z`, or `n`.
pub open spec fn first_power_index(w: int, z: int, j: nat, n: nat) -> nat
    decreases n - j,
{
    if j >= n {
        j
    } else if f_pow(w, j) == z {
        j
    } else {
        first_power_index(w, z, j + 1, n)
    }
}

/// The barycentric accumulation over the grid, left to right.
pub open spec fn bary_sum_v(vals: Seq<int>, z: int, w: int, j: nat, acc: int) -> int
    decreases vals.len() - j,
{
    if j >= vals.len() {
        acc
    } else {
        bary_sum_v(
            vals,
            z,
            w,
            j + 1,
            f_add(acc, f_mul(f_mul(vals[j as int], f_pow(w, j)), f_inv(f_sub(z, f_pow(w, j))))),
        )
    }
}

/// What evaluating the unique low-degree interpolant at `z` yields: the grid
/// value itself on the grid, the barycentric formula off it.
pub open spec fn lagrange_v(vals: Seq<int>, z: int, w: int) -> int {
    let n = vals.len();
    if in_domain_v(z, n) {
        vals[first_power_index(w, z, 0, n) as int]
    } else {
        let zh = f_sub(f_pow(z, n), 1);
        let n_inv = f_inv(n as int);
        f_mul(f_mul(zh, n_inv), bary_sum_v(vals, z, w, 0, 0))
    }
}

/// Evaluate the degree < n polynomial with the given values on H at `z`, by
/// direct lookup on the grid and the barycentric formula off it.
pub fn lagrange_eval_on_h(values: &[Fe], z: &Fe, omega: &Fe) -> (r: Fe)
    requires
        values@.len() >= 1,
        values@.len() < field_order(),
        f_pow(omega@, values@.len()) == 1,
        in_domain_v(z@, values@.len()) ==> exists|j: nat|
            j < values@.len() && f_pow(omega@, j) == z@,
    ensures
        r@ == lagrange_v(fe_seq_v(values@), z@, omega@),
{
    let n = values.len();
    let ghost vals = fe_seq_v(values@);
    if is_in_domain(z, n) {
        let mut omega_j = Fe::one();
        let mut j: usize = 0;
        while j < n
            invariant
                j <= n,
                n == values@.len(),
                vals == fe_seq_v(values@),
                in_domain_v(z@, n as nat),
                omega_j@ == f_pow(omega@, j as nat),
                first_power_index(omega@, z@, 0, n as nat) == first_power_index(
                    omega@,
                    z@,
                    j as nat,
                    n as nat,
                ),
                exists|k: nat| k < n && f_pow(omega@, k) == z@,
            decreases n - j,
        {
            let eq = *z == omega_j;
            proof {
                use_type_invariant(*z);
                use_type_invariant(omega_j);
                if z@ == omega_j@ {
                    lemma_view_injective(*z, omega_j);
                }
            }
            if eq {
                proof {
                    assert(first_power_index(omega@, z@, j as nat, n as nat) == j);
                }
                return values[j];
            }
            proof {
                lemma_f_pow_succ(omega@, j as nat);
                lemma_f_mul_comm(f_pow(omega@, j as nat), omega@);
            }
            omega_j = fe_mul(&omega_j, omega);
            j = j + 1;
        }
        proof {
            let k = choose|k: nat| k < n && f_pow(omega@, k) == z@;
            assert(first_power_index(omega@, z@, k, n as nat) == k);
            assert(false) by {
                lemma_first_power_monotone(omega@, z@, 0, k, n as nat);
            }
        }
        values[0]
    } else {
        let zh = zh_at(z, n);
        let n_fe = Fe::from_u64(n as u64);
        let n_inv_opt = fe_invert(&n_fe);
        let n_inv = n_inv_opt.unwrap();
        proof {
            use_type_invariant(n_inv);
            lemma_f_inv_unique(n_fe@, n_inv@);
        }
        let mut sum = Fe::zero();
        let mut omega_j = Fe::one();
        let mut j: usize = 0;
        while j < n
            invariant
                j <= n,
                n == values@.len(),
                n >= 1,
                n < field_order(),
                vals == fe_seq_v(values@),
                f_pow(omega@, n as nat) == 1,
                !in_domain_v(z@, n as nat),
                omega_j@ == f_pow(omega@, j as nat),
                bary_sum_v(vals, z@, omega@, 0, 0) == bary_sum_v(vals, z@, omega@, j as nat, sum@),
            decreases n - j,
        {
            let d = fe_sub(z, &omega_j);
            proof {
                use_type_invariant(*z);
                lemma_f_pow_range(omega@, j as nat);
                if d@ == 0 {
                    lemma_f_sub_zero(z@, omega_j@);
                    lemma_f_pow_pow(omega@, j as nat, n as nat);
                    lemma_f_pow_pow(omega@, n as nat, j as nat);
                    vstd::arithmetic::mul::lemma_mul_is_commutative(j as int, n as int);
                    lemma_f_pow_one_base(j as nat);
                    assert(f_pow(z@, n as nat) == 1);
                }
            }
            let inv_opt = fe_invert(&d);
            let inv = inv_opt.unwrap();
            proof {
                use_type_invariant(inv);
                lemma_f_inv_unique(d@, inv@);
            }
            let term = fe_mul(&fe_mul(&values[j], &omega_j), &inv);
            sum = fe_add(&sum, &term);
            proof {
                lemma_f_pow_succ(omega@, j as nat);
                lemma_f_mul_comm(f_pow(omega@, j as nat), omega@);
            }
            omega_j = fe_mul(&omega_j, omega);
            j = j + 1;
        }
        let zn_inv = fe_mul(&zh, &n_inv);
        fe_mul(&zn_inv, &sum)
    }
}

proof fn lemma_first_power_monotone(w: int, z: int, j: nat, k: nat, n: nat)
    requires
        j <= k < n,
        f_pow(w, k) == z,
    ensures
        first_power_index(w, z, j, n) <= k,
    decreases n - j,
{
    if j >= n {
    } else if f_pow(w, j) == z {
    } else {
        lemma_first_power_monotone(w, z, j + 1, k, n);
    }
}

/// The merged column Φ at one grid point.
pub open spec fn phi_at_v(
    a: Seq<int>,
    s: Seq<int>,
    e: Seq<int>,
    t: Seq<int>,
    r_opt: Option<Seq<int>>,
    beta: int,
    i: int,
) -> int {
    let base = f_sub(f_add(f_mul(a[i], s[i]), e[i]), t[i]);
    match r_opt {
        Some(rv) => f_add(base, f_mul(beta, rv[i])),
        None => base,
    }
}

/// The whole merged column Φ on the grid.
pub open spec fn phi_v(
    a: Seq<int>,
    s: Seq<int>,
    e: Seq<int>,
    t: Seq<int>,
    r_opt: Option<Seq<int>>,
    beta: int,
) -> Seq<int> {
    Seq::new(a.len(), |i: int| phi_at_v(a, s, e, t, r_opt, beta, i))
}

/// DEEP-ALI merge with optional blinding: the deep quotient of Φ on the grid,
/// the substitution point, and the off-domain quotient c*. The merged
/// identity `f₀(x)·(x − z) + c*·Z_H(x) = Φ(x)` holds at every grid point.
pub fn deep_ali_merge_evals_blinded(
    a_eval: &[Fe],
    s_eval: &[Fe],
    e_eval: &[Fe],
    t_eval: &[Fe],
    r_eval_opt: Option<&[Fe]>,
    beta: &Fe,
    omega: &Fe,
    z: &Fe,
) -> (r: (Vec<Fe>, Fe, Fe))
    requires
        a_eval@.len() > 1,
        a_eval@.len() < field_order(),
        s_eval@.len() == a_eval@.len(),
        e_eval@.len() == a_eval@.len(),
        t_eval@.len() == a_eval@.len(),
        r_eval_opt is Some ==> r_eval_opt->Some_0@.len() == a_eval@.len(),
        f_pow(omega@, a_eval@.len()) == 1,
        !in_domain_v(z@, a_eval@.len()),
    ensures
        ({
            let n = a_eval@.len();
            let phis = phi_v(
                fe_seq_v(a_eval@),
                fe_seq_v(s_eval@),
                fe_seq_v(e_eval@),
                fe_seq_v(t_eval@),
                match r_eval_opt {
                    Some(rv) => Some(fe_seq_v(rv@)),
                    None => None,
                },
                beta@,
            );
            let zh_z = f_sub(f_pow(z@, n), 1);
            &&& r.0@.len() == n
            &&& r.1 == *z
            &&& r.2@ == f_mul(lagrange_v(phis, z@, omega@), f_inv(zh_z))
            &&& forall|j: int|
                0 <= j < n ==> (#[trigger] r.0@[j])@ == f_mul(
                    phis[j],
                    f_inv(f_sub(f_pow(omega@, j as nat), z@)),
                )
            &&& forall|j: int|
                0 <= j < n ==> f_add(
                    f_mul(#[trigger] r.0@[j]@, f_sub(f_pow(omega@, j as nat), z@)),
                    f_mul(r.2@, f_sub(f_pow(f_pow(omega@, j as nat), n), 1)),
                ) == phis[j]
        }),
{
    let n = a_eval.len();
    let ghost phis = phi_v(
        fe_seq_v(a_eval@),
        fe_seq_v(s_eval@),
        fe_seq_v(e_eval@),
        fe_seq_v(t_eval@),
        match r_eval_opt {
            Some(rv) => Some(fe_seq_v(rv@)),
            None => None,
        },
        beta@,
    );

    let mut phi_eval: Vec<Fe> = Vec::new();
    let mut i: usize = 0;
    while i < n
        invariant
            i <= n,
            n == a_eval@.len(),
            s_eval@.len() == n,
            e_eval@.len() == n,
            t_eval@.len() == n,
            r_eval_opt is Some ==> r_eval_opt->Some_0@.len() == n,
            phis == phi_v(
                fe_seq_v(a_eval@),
                fe_seq_v(s_eval@),
                fe_seq_v(e_eval@),
                fe_seq_v(t_eval@),
                match r_eval_opt {
                    Some(rv) => Some(fe_seq_v(rv@)),
                    None => None,
                },
                beta@,
            ),
            phi_eval@.len() == i,
            forall|k: int| 0 <= k < i ==> (#[trigger] phi_eval@[k])@ == phis[k],
        decreases n - i,
    {
        let prod = fe_mul(&a_eval[i], &s_eval[i]);
        let with_e = fe_add(&prod, &e_eval[i]);
        let base = fe_sub(&with_e, &t_eval[i]);
        let v = match r_eval_opt {
            Some(r_eval) => {
                let blind = fe_mul(beta, &r_eval[i]);
                fe_add(&base, &blind)
            },
            None => base,
        };
        phi_eval.push(v);
        i = i + 1;
    }
    proof {
        assert(fe_seq_v(phi_eval@) =~= phis);
    }

    let phi_z = lagrange_eval_on_h(phi_eval.as_slice(), z, omega);
    let zh_z = zh_at(z, n);
    proof {
        use_type_invariant(*z);
        if zh_z@ == 0 {
            lemma_f_pow_range(z@, n as nat);
            lemma_f_sub_zero(f_pow(z@, n as nat), 1);
        }
    }
    let zh_inv_opt = fe_invert(&zh_z);
    let zh_inv = zh_inv_opt.unwrap();
    proof {
        use_type_invariant(zh_inv);
        lemma_f_inv_unique(zh_z@, zh_inv@);
    }
    let c_star = fe_mul(&phi_z, &zh_inv);

    let mut f0_eval: Vec<Fe> = Vec::new();
    let mut omega_j = Fe::one();
    let mut j: usize = 0;
    while j < n
        invariant
            j <= n,
            n > 1,
            n < field_order(),
            n == phi_eval@.len(),
            fe_seq_v(phi_eval@) == phis,
            phis.len() == n,
            f_pow(omega@, n as nat) == 1,
            !in_domain_v(z@, n as nat),
            omega_j@ == f_pow(omega@, j as nat),
            c_star@ < field_order(),
            0 <= c_star@,
            f0_eval@.len() == j,
            forall|k: int|
                0 <= k < j ==> (#[trigger] f0_eval@[k])@ == f_mul(
                    phis[k],
                    f_inv(f_sub(f_pow(omega@, k as nat), z@)),
                ),
            forall|k: int|
                0 <= k < j ==> f_add(
                    f_mul(#[trigger] f0_eval@[k]@, f_sub(f_pow(omega@, k as nat), z@)),
                    f_mul(c_star@, f_sub(f_pow(f_pow(omega@, k as nat), n as nat), 1)),
                ) == phis[k],
        decreases n - j,
    {
        let d = fe_sub(&omega_j, z);
        proof {
            use_type_invariant(*z);
            lemma_f_pow_range(omega@, j as nat);
            if d@ == 0 {
                lemma_f_sub_zero(omega_j@, z@);
                lemma_f_pow_pow(omega@, j as nat, n as nat);
                lemma_f_pow_pow(omega@, n as nat, j as nat);
                vstd::arithmetic::mul::lemma_mul_is_commutative(j as int, n as int);
                lemma_f_pow_one_base(j as nat);
                assert(f_pow(z@, n as nat) == 1);
            }
        }
        let inv_opt = fe_invert(&d);
        let inv = inv_opt.unwrap();
        proof {
            use_type_invariant(inv);
            lemma_f_inv_unique(d@, inv@);
        }
        let pj_fe = phi_eval[j];
        let v = fe_mul(&pj_fe, &inv);
        proof {
            let wj = f_pow(omega@, j as nat);
            let phij = phis[j as int];
            let dd = f_sub(wj, z@);
            // the product of the quotient with the denominator gives back Φ
            lemma_f_mul_assoc(phij, f_inv(dd), dd);
            lemma_f_mul_comm(f_inv(dd), dd);
            use_type_invariant(pj_fe);
            assert(pj_fe@ == phij);
            lemma_f_mul_one(phij);
            assert(f_mul(v@, dd) == phij);
            // the vanishing term is zero on the grid
            lemma_f_pow_pow(omega@, n as nat, j as nat);
            lemma_f_pow_pow(omega@, j as nat, n as nat);
            vstd::arithmetic::mul::lemma_mul_is_commutative(j as int, n as int);
            lemma_f_pow_one_base(j as nat);
            assert(f_pow(wj, n as nat) == 1);
            assert(f_sub(1, 1) == 0) by {
                vstd::arithmetic::div_mod::lemma_small_mod(0, field_order() as nat);
            }
            assert(f_mul(c_star@, 0) == 0) by {
                vstd::arithmetic::div_mod::lemma_small_mod(0, field_order() as nat);
            }
            assert(f_add(phij, 0) == phij) by {
                vstd::arithmetic::div_mod::lemma_small_mod(phij as nat, field_order() as nat);
            }
        }
        f0_eval.push(v);
        proof {
            lemma_f_pow_succ(omega@, j as nat);
            lemma_f_mul_comm(f_pow(omega@, j as nat), omega@);
        }
        omega_j = fe_mul(&omega_j, omega);
        j = j + 1;
    }
    (f0_eval, *z, c_star)
}

/// DEEP-ALI merge without blinding.
pub fn deep_ali_merge_evals(
    a_eval: &[Fe],
    s_eval: &[Fe],
    e_eval: &[Fe],
    t_eval: &[Fe],
    omega: &Fe,
    z: &Fe,
) -> (r: (Vec<Fe>, Fe, Fe))
    requires
        a_eval@.len() > 1,
        a_eval@.len() < field_order(),
        s_eval@.len() == a_eval@.len(),
        e_eval@.len() == a_eval@.len(),
        t_eval@.len() == a_eval@.len(),
        f_pow(omega@, a_eval@.len()) == 1,
        !in_domain_v(z@, a_eval@.len()),
    ensures
        ({
            let n = a_eval@.len();
            let phis = phi_v(
                fe_seq_v(a_eval@),
                fe_seq_v(s_eval@),
                fe_seq_v(e_eval@),
                fe_seq_v(t_eval@),
                None,
                0,
            );
            let zh_z = f_sub(f_pow(z@, n), 1);
            &&& r.0@.len() == n
            &&& r.1 == *z
            &&& r.2@ == f_mul(lagrange_v(phis, z@, omega@), f_inv(zh_z))
            &&& forall|j: int|
                0 <= j < n ==> (#[trigger] r.0@[j])@ == f_mul(
                    phis[j],
                    f_inv(f_sub(f_pow(omega@, j as nat), z@)),
                )
            &&& forall|j: int|
                0 <= j < n ==> f_add(
                    f_mul(#[trigger] r.0@[j]@, f_sub(f_pow(omega@, j as nat), z@)),
                    f_mul(r.2@, f_sub(f_pow(f_pow(omega@, j as nat), n), 1)),
                ) == phis[j]
        }),
{
    let zero = Fe::zero();
    let r = deep_ali_merge_evals_blinded(a_eval, s_eval, e_eval, t_eval, None, &zero, omega, z);
    proof {
        assert(phi_v(
            fe_seq_v(a_eval@),
            fe_seq_v(s_eval@),
            fe_seq_v(e_eval@),
            fe_seq_v(t_eval@),
            None,
            zero@,
        ) =~= phi_v(
            fe_seq_v(a_eval@),
            fe_seq_v(s_eval@),
            fe_seq_v(e_eval@),
            fe_seq_v(t_eval@),
            None,
            0,
        ));
    }
    r
}

/// A cached radix-2 domain: the subgroup size, its generator, and the
/// generator's powers in order.
pub struct DomainH {
    pub n: usize,
    pub omega: Fe,
    pub omega_pows: Vec<Fe>,
}

impl DomainH {
    /// The cache is faithful: `omega_pows[j] = ω^j` and `ω` has order dividing `n`.
    pub open spec fn wf(self) -> bool {
        &&& 1 <= self.n < field_order()
        &&& self.omega_pows@.len() == self.n
        &&& forall|j: int|
            0 <= j < self.n ==> (#[trigger] self.omega_pows@[j])@ == f_pow(self.omega@, j as nat)
        &&& f_pow(self.omega@, self.n as nat) == 1
    }

    /// Construct a radix-2 domain of size n and cache ω and its powers.
    pub fn new_radix2(n: usize) -> (r: DomainH)
        requires
            is_pow2(n as nat),
            n <= 0x100000000,
        ensures
            r.wf(),
            r.n == n,
            r.omega@ == omega_of(n as nat),
    {
        let w_opt = fe_root_of_unity(n as u64);
        let omega = w_opt.unwrap();
        let mut omega_pows: Vec<Fe> = Vec::new();
        let mut x = Fe::one();
        let mut j: usize = 0;
        while j < n
            invariant
                j <= n,
                x@ == f_pow(omega@, j as nat),
                omega_pows@.len() == j,
                forall|k: int|
                    0 <= k < j ==> (#[trigger] omega_pows@[k])@ == f_pow(omega@, k as nat),
            decreases n - j,
        {
            omega_pows.push(x);
            proof {
                crate::field::lemma_f_pow_succ(omega@, j as nat);
                lemma_f_mul_comm(f_pow(omega@, j as nat), omega@);
            }
            x = fe_mul(&x, &omega);
            j = j + 1;
        }
        DomainH { n, omega, omega_pows }
    }

    /// Evaluate the degree < n polynomial with the given values on H at `z`.
    pub fn eval_lagrange(&self, values: &[Fe], z: &Fe) -> (r: Fe)
        requires
            self.wf(),
            values@.len() == self.n,
            in_domain_v(z@, self.n as nat) ==> exists|j: nat|
                j < self.n && f_pow(self.omega@, j) == z@,
        ensures
            r@ == lagrange_v(fe_seq_v(values@), z@, self.omega@),
    {
        lagrange_eval_on_h(values, z, &self.omega)
    }

    /// DEEP-ALI merge reusing this domain (no blinding).
    pub fn merge_deep_ali(&self, a_eval: &[Fe], s_eval: &[Fe], e_eval: &[Fe], t_eval: &[Fe], z: &Fe) -> (r: (
        Vec<Fe>,
        Fe,
        Fe,
    ))
        requires
            self.wf(),
            a_eval@.len() == self.n,
            self.n > 1,
            s_eval@.len() == self.n,
            e_eval@.len() == self.n,
            t_eval@.len() == self.n,
            !in_domain_v(z@, self.n as nat),
        ensures
            ({
                let n = a_eval@.len();
                let phis = phi_v(
                    fe_seq_v(a_eval@),
                    fe_seq_v(s_eval@),
                    fe_seq_v(e_eval@),
                    fe_seq_v(t_eval@),
                    None,
                    0,
                );
                let zh_z = f_sub(f_pow(z@, n), 1);
                &&& r.0@.len() == n
                &&& r.1 == *z
                &&& r.2@ == f_mul(lagrange_v(phis, z@, self.omega@), f_inv(zh_z))
                &&& forall|j: int|
                    0 <= j < n ==> (#[trigger] r.0@[j])@ == f_mul(
                        phis[j],
                        f_inv(f_sub(f_pow(self.omega@, j as nat), z@)),
                    )
                &&& forall|j: int|
                    0 <= j < n ==> f_add(
                        f_mul(#[trigger] r.0@[j]@, f_sub(f_pow(self.omega@, j as nat), z@)),
                        f_mul(r.2@, f_sub(f_pow(f_pow(self.omega@, j as nat), n), 1)),
                    ) == phis[j]
            }),
    {
        deep_ali_merge_evals(a_eval, s_eval, e_eval, t_eval, &self.omega, z)
    }

    /// DEEP-ALI merge with optional blinding reusing this domain.
    pub fn merge_deep_ali_blinded(
        &self,
        a_eval: &[Fe],
        s_eval: &[Fe],
        e_eval: &[Fe],
        t_eval: &[Fe],
        r_eval_opt: Option<&[Fe]>,
        beta: &Fe,
        z: &Fe,
    ) -> (r: (Vec<Fe>, Fe, Fe))
        requires
            self.wf(),
            a_eval@.len() == self.n,
            self.n > 1,
            s_eval@.len() == self.n,
            e_eval@.len() == self.n,
            t_eval@.len() == self.n,
            r_eval_opt is Some ==> r_eval_opt->Some_0@.len() == self.n,
            !in_domain_v(z@, self.n as nat),
        ensures
            ({
                let n = a_eval@.len();
                let phis = phi_v(
                    fe_seq_v(a_eval@),
                    fe_seq_v(s_eval@),
                    fe_seq_v(e_eval@),
                    fe_seq_v(t_eval@),
                    match r_eval_opt {
                        Some(rv) => Some(fe_seq_v(rv@)),
                        None => None,
                    },
                    beta@,
                );
                let zh_z = f_sub(f_pow(z@, n), 1);
                &&& r.0@.len() == n
                &&& r.1 == *z
                &&& r.2@ == f_mul(lagrange_v(phis, z@, self.omega@), f_inv(zh_z))
                &&& forall|j: int|
                    0 <= j < n ==> (#[trigger] r.0@[j])@ == f_mul(
                        phis[j],
                        f_inv(f_sub(f_pow(self.omega@, j as nat), z@)),
                    )
                &&& forall|j: int|
                    0 <= j < n ==> f_add(
                        f_mul(#[trigger] r.0@[j]@, f_sub(f_pow(self.omega@, j as nat), z@)),
                        f_mul(r.2@, f_sub(f_pow(f_pow(self.omega@, j as nat), n), 1)),
                    ) == phis[j]
            }),
    {
        deep_ali_merge_evals_blinded(a_eval, s_eval, e_eval, t_eval, r_eval_opt, beta, omega_ref(self), z)
    }
}

fn omega_ref(d: &DomainH) -> (r: &Fe)
    ensures
        *r == d.omega,
{
    &d.omega
}

/// The first stream word from position `k` that lies outside H, within the
/// retry budget; a fixed fallback on exhaustion.
pub open spec fn sample_z_v(seedb: Seq<u8>, n: nat, k: nat, fuel: nat) -> int
    decreases fuel,
{
    if fuel == 0 {
        11
    } else {
        let c = rng_word(seedb, k) as int;
        if !in_domain_v(c, n) {
            c
        } else {
            sample_z_v(seedb, n, k + 1, (fuel - 1) as nat)
        }
    }
}

/// Deterministically derive (z, beta) from a seed, rejecting z that land in H,
/// with a bounded retry budget and a fixed fallback.
pub fn sample_z_beta_from_seed(seed: u64, n: usize) -> (r: (Fe, Fe))
    ensures
        r.1@ == rng_word(rng_seed_of_u64(seed), 0) as int,
        r.0@ == sample_z_v(rng_seed_of_u64(seed), n as nat, 1, 1000),
{
    let mut rng = SeededRng::from_seed_u64(seed);
    let beta_w = rng.next_u64();
    let beta = Fe::from_u64(beta_w);
    let mut tries: usize = 0;
    while tries < 1000
        invariant
            tries <= 1000,
            beta@ == rng_word(rng_seed_of_u64(seed), 0) as int,
            rng.seed() == rng_seed_of_u64(seed),
            rng.drawn() == 1 + tries,
            sample_z_v(rng_seed_of_u64(seed), n as nat, 1, 1000) == sample_z_v(
                rng_seed_of_u64(seed),
                n as nat,
                (1 + tries) as nat,
                (1000 - tries) as nat,
            ),
        decreases 1000 - tries,
    {
        let w = rng.next_u64();
        let cand = Fe::from_u64(w);
        if !is_in_domain(&cand, n) {
            return (cand, beta);
        }
        tries = tries + 1;
    }
    let fallback = Fe::from_u64(11);
    (fallback, beta)
}

} // verus!
