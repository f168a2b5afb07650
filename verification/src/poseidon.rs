//! The Poseidon permutation and sponge over the Pallas scalar field, at state
//! widths 9, 17, 33 and 65 (rate plus one capacity lane). The permutation and
//! both hashing modes are specified as functions of the integer model.

use vstd::prelude::*;
use vstd::string::StringSliceAdditionalSpecFns;
use crate::field::{f_add, f_mul, fe_add, fe_mul, fe_seq_v, Fe};
use crate::utils::{extend_bytes, hash_to_field, le_bytes_of, u64_to_le_bytes};

verus! {

pub const T: usize = 17;

pub const RATE: usize = 16;

pub const CAPACITY: usize = 1;

pub const RF: usize = 8;

pub const RP: usize = 64;

pub const RP_9: usize = 60;

pub const ALPHA: u64 = 5;

/// The fifth power in the integer model.
pub open spec fn sbox5_v(x: int) -> int {
    f_mul(x, f_mul(f_mul(x, x), f_mul(x, x)))
}

/// S-box x ↦ x⁵.
pub fn sbox5(x: &Fe) -> (r: Fe)
    ensures
        r@ == sbox5_v(x@),
{
    let x2 = fe_mul(x, x);
    let x4 = fe_mul(&x2, &x2);
    fe_mul(x, &x4)
}

/// Partial dot product of a matrix row with the state, over the first `k` lanes.
pub open spec fn dot_v(row: Seq<int>, s: Seq<int>, k: nat) -> int
    decreases k,
{
    if k == 0 {
        0
    } else {
        f_add(dot_v(row, s, (k - 1) as nat), f_mul(row[k - 1], s[k - 1]))
    }
}

/// The state after the MDS matrix is applied.
pub open spec fn mds_apply_v(mds: Seq<Seq<int>>, s: Seq<int>) -> Seq<int> {
    Seq::new(s.len(), |i: int| dot_v(mds[i], s, s.len()))
}

/// The state after the round constants are added lane-wise.
pub open spec fn ark_add_v(rc: Seq<int>, s: Seq<int>) -> Seq<int> {
    Seq::new(s.len(), |i: int| f_add(s[i], rc[i]))
}

/// The state after the S-box is applied to every lane.
pub open spec fn full_sbox_v(s: Seq<int>) -> Seq<int> {
    Seq::new(s.len(), |i: int| sbox5_v(s[i]))
}

/// One full round: constants, S-box on every lane, MDS.
pub open spec fn full_round_v(mds: Seq<Seq<int>>, rc: Seq<int>, s: Seq<int>) -> Seq<int> {
    mds_apply_v(mds, full_sbox_v(ark_add_v(rc, s)))
}

/// One partial round: a constant and the S-box on lane 0 only, then MDS.
pub open spec fn partial_round_v(mds: Seq<Seq<int>>, rc: int, s: Seq<int>) -> Seq<int> {
    mds_apply_v(mds, s.update(0, sbox5_v(f_add(s[0], rc))))
}

/// `k` full rounds, using constant rows `start .. start + k`.
pub open spec fn full_rounds_v(
    mds: Seq<Seq<int>>,
    rcf: Seq<Seq<int>>,
    s: Seq<int>,
    start: nat,
    k: nat,
) -> Seq<int>
    decreases k,
{
    if k == 0 {
        s
    } else {
        full_round_v(
            mds,
            rcf[start + k - 1],
            full_rounds_v(mds, rcf, s, start, (k - 1) as nat),
        )
    }
}

/// `k` partial rounds, using constants `0 .. k`.
pub open spec fn partial_rounds_v(mds: Seq<Seq<int>>, rcp: Seq<int>, s: Seq<int>, k: nat) -> Seq<
    int,
>
    decreases k,
{
    if k == 0 {
        s
    } else {
        partial_round_v(mds, rcp[k - 1], partial_rounds_v(mds, rcp, s, (k - 1) as nat))
    }
}

/// The whole permutation: half the full rounds, the partial rounds, the other half.
pub open spec fn permute_v(
    mds: Seq<Seq<int>>,
    rcf: Seq<Seq<int>>,
    rcp: Seq<int>,
    s: Seq<int>,
) -> Seq<int> {
    let rf = rcf.len();
    let a = full_rounds_v(mds, rcf, s, 0, rf / 2);
    let b = partial_rounds_v(mds, rcp, a, rcp.len());
    full_rounds_v(mds, rcf, b, rf / 2, (rf - rf / 2) as nat)
}

/// Poseidon parameters for one state width.
#[derive(Clone, Debug)]
pub struct PoseidonParamsDynamic {
    pub t: usize,
    pub rate: usize,
    pub rounds_full: usize,
    pub rounds_partial: usize,
    pub alpha: u64,
    pub mds: Vec<Vec<Fe>>,
    pub rc_full: Vec<Vec<Fe>>,
    pub rc_partial: Vec<Fe>,
}

impl PoseidonParamsDynamic {
    /// Shape well-formedness: a square MDS and matching constant tables.
    pub open spec fn wf(self) -> bool {
        &&& 2 <= self.t
        &&& self.rate + 1 == self.t
        &&& self.rounds_full % 2 == 0
        &&& self.mds@.len() == self.t
        &&& forall|i: int| 0 <= i < self.t ==> (#[trigger] self.mds@[i])@.len() == self.t
        &&& self.rc_full@.len() == self.rounds_full
        &&& forall|i: int|
            0 <= i < self.rounds_full ==> (#[trigger] self.rc_full@[i])@.len() == self.t
        &&& self.rc_partial@.len() == self.rounds_partial
    }

    pub open spec fn mds_v(self) -> Seq<Seq<int>> {
        Seq::new(self.mds@.len(), |i: int| fe_seq_v(self.mds@[i]@))
    }

    pub open spec fn rcf_v(self) -> Seq<Seq<int>> {
        Seq::new(self.rc_full@.len(), |i: int| fe_seq_v(self.rc_full@[i]@))
    }

    pub open spec fn rcp_v(self) -> Seq<int> {
        fe_seq_v(self.rc_partial@)
    }
}

/// Multiply the state by the MDS matrix, in place.
fn mds_mul_dynamic_in_place(mds: &Vec<Vec<Fe>>, state: &mut Vec<Fe>)
    requires
        mds@.len() == old(state)@.len(),
        forall|i: int| 0 <= i < mds@.len() ==> (#[trigger] mds@[i])@.len() == old(state)@.len(),
    ensures
        final(state)@.len() == old(state)@.len(),
        fe_seq_v(final(state)@) == mds_apply_v(
            Seq::new(mds@.len(), |i: int| fe_seq_v(mds@[i]@)),
            fe_seq_v(old(state)@),
        ),
{
    let t = state.len();
    let ghost mv = Seq::new(mds@.len(), |i: int| fe_seq_v(mds@[i]@));
    let ghost sv = fe_seq_v(state@);
    let mut out: Vec<Fe> = Vec::new();
    let mut i: usize = 0;
    while i < t
        invariant
            i <= t,
            t == state@.len(),
            mds@.len() == t,
            forall|k: int| 0 <= k < t ==> (#[trigger] mds@[k])@.len() == t,
            mv == Seq::new(mds@.len(), |k: int| fe_seq_v(mds@[k]@)),
            sv == fe_seq_v(state@),
            out@.len() == i,
            forall|k: int| 0 <= k < i ==> (#[trigger] out@[k])@ == dot_v(mv[k], sv, t as nat),
        decreases t - i,
    {
        let mut acc = Fe::zero();
        let mut j: usize = 0;
        while j < t
            invariant
                j <= t,
                i < t,
                t == state@.len(),
                mds@.len() == t,
                forall|k: int| 0 <= k < t ==> (#[trigger] mds@[k])@.len() == t,
                mv == Seq::new(mds@.len(), |k: int| fe_seq_v(mds@[k]@)),
                sv == fe_seq_v(state@),
                acc@ == dot_v(mv[i as int], sv, j as nat),
            decreases t - j,
        {
            let prod = fe_mul(&mds[i][j], &state[j]);
            acc = fe_add(&acc, &prod);
            j = j + 1;
        }
        out.push(acc);
        i = i + 1;
    }
    proof {
        assert(fe_seq_v(out@) =~= mds_apply_v(mv, sv));
    }
    *state = out;
}

/// The Poseidon permutation for any well-formed parameter set.
pub fn permute_dynamic(state: &mut Vec<Fe>, params: &PoseidonParamsDynamic)
    requires
        params.wf(),
        old(state)@.len() == params.t,
    ensures
        final(state)@.len() == params.t,
        fe_seq_v(final(state)@) == permute_v(
            params.mds_v(),
            params.rcf_v(),
            params.rcp_v(),
            fe_seq_v(old(state)@),
        ),
{
    let t = params.t;
    let rf = params.rounds_full;
    let rp = params.rounds_partial;
    let rf_half = rf / 2;
    let ghost mv = params.mds_v();
    let ghost rcfv = params.rcf_v();
    let ghost rcpv = params.rcp_v();
    let ghost s0 = fe_seq_v(state@);

    let mut r: usize = 0;
    while r < rf_half
        invariant
            r <= rf_half,
            rf_half == rf / 2,
            params.wf(),
            t == params.t,
            rf == params.rounds_full,
            rp == params.rounds_partial,
            mv == params.mds_v(),
            rcfv == params.rcf_v(),
            rcpv == params.rcp_v(),
            state@.len() == t,
            fe_seq_v(state@) == full_rounds_v(mv, rcfv, s0, 0, r as nat),
        decreases rf_half - r,
    {
        let ghost before = fe_seq_v(state@);
        let mut i: usize = 0;
        while i < t
            invariant
                i <= t,
                params.wf(),
                t == params.t,
                r < params.rounds_full,
                state@.len() == t,
                rcfv == params.rcf_v(),
                forall|k: int|
                    0 <= k < i ==> (#[trigger] state@[k])@ == f_add(before[k], rcfv[r as int][k]),
                forall|k: int| i <= k < t ==> (#[trigger] state@[k])@ == before[k],
                before.len() == t,
            decreases t - i,
        {
            let v = fe_add(&state[i], &params.rc_full[r][i]);
            state.set(i, v);
            i = i + 1;
        }
        proof {
            assert(fe_seq_v(state@) =~= ark_add_v(rcfv[r as int], before));
        }
        let ghost after_ark = fe_seq_v(state@);
        let mut i2: usize = 0;
        while i2 < t
            invariant
                i2 <= t,
                t == params.t,
                state@.len() == t,
                after_ark.len() == t,
                forall|k: int| 0 <= k < i2 ==> (#[trigger] state@[k])@ == sbox5_v(after_ark[k]),
                forall|k: int| i2 <= k < t ==> (#[trigger] state@[k])@ == after_ark[k],
            decreases t - i2,
        {
            let v = sbox5(&state[i2]);
            state.set(i2, v);
            i2 = i2 + 1;
        }
        proof {
            assert(fe_seq_v(state@) =~= full_sbox_v(after_ark));
        }
        mds_mul_dynamic_in_place(&params.mds, state);
        proof {
            assert(fe_seq_v(state@) == full_round_v(mv, rcfv[r as int], before));
            assert(fe_seq_v(state@) == full_rounds_v(mv, rcfv, s0, 0, (r + 1) as nat));
        }
        r = r + 1;
    }
    let ghost a = fe_seq_v(state@);

    let mut r2: usize = 0;
    while r2 < rp
        invariant
            r2 <= rp,
            params.wf(),
            t == params.t,
            2 <= t,
            rp == params.rounds_partial,
            mv == params.mds_v(),
            rcpv == params.rcp_v(),
            state@.len() == t,
            fe_seq_v(state@) == partial_rounds_v(mv, rcpv, a, r2 as nat),
        decreases rp - r2,
    {
        let ghost before = fe_seq_v(state@);
        let v0 = fe_add(&state[0], &params.rc_partial[r2]);
        let v0s = sbox5(&v0);
        state.set(0, v0s);
        proof {
            assert(fe_seq_v(state@) =~= before.update(
                0,
                sbox5_v(f_add(before[0], rcpv[r2 as int])),
            ));
        }
        mds_mul_dynamic_in_place(&params.mds, state);
        proof {
            assert(fe_seq_v(state@) == partial_round_v(mv, rcpv[r2 as int], before));
        }
        r2 = r2 + 1;
    }
    let ghost b = fe_seq_v(state@);

    let mut r3: usize = rf_half;
    while r3 < rf
        invariant
            rf_half <= r3 <= rf,
            rf_half == rf / 2,
            params.wf(),
            t == params.t,
            rf == params.rounds_full,
            mv == params.mds_v(),
            rcfv == params.rcf_v(),
            state@.len() == t,
            fe_seq_v(state@) == full_rounds_v(mv, rcfv, b, rf_half as nat, (r3 - rf_half) as nat),
        decreases rf - r3,
    {
        let ghost before = fe_seq_v(state@);
        let mut i: usize = 0;
        while i < t
            invariant
                i <= t,
                params.wf(),
                t == params.t,
                r3 < params.rounds_full,
                state@.len() == t,
                rcfv == params.rcf_v(),
                forall|k: int|
                    0 <= k < i ==> (#[trigger] state@[k])@ == f_add(before[k], rcfv[r3 as int][k]),
                forall|k: int| i <= k < t ==> (#[trigger] state@[k])@ == before[k],
                before.len() == t,
            decreases t - i,
        {
            let v = fe_add(&state[i], &params.rc_full[r3][i]);
            state.set(i, v);
            i = i + 1;
        }
        proof {
            assert(fe_seq_v(state@) =~= ark_add_v(rcfv[r3 as int], before));
        }
        let ghost after_ark = fe_seq_v(state@);
        let mut i2: usize = 0;
        while i2 < t
            invariant
                i2 <= t,
                t == params.t,
                state@.len() == t,
                after_ark.len() == t,
                forall|k: int| 0 <= k < i2 ==> (#[trigger] state@[k])@ == sbox5_v(after_ark[k]),
                forall|k: int| i2 <= k < t ==> (#[trigger] state@[k])@ == after_ark[k],
            decreases t - i2,
        {
            let v = sbox5(&state[i2]);
            state.set(i2, v);
            i2 = i2 + 1;
        }
        proof {
            assert(fe_seq_v(state@) =~= full_sbox_v(after_ark));
        }
        mds_mul_dynamic_in_place(&params.mds, state);
        proof {
            assert(fe_seq_v(state@) == full_round_v(mv, rcfv[r3 as int], before));
        }
        r3 = r3 + 1;
    }
    proof {
        assert(fe_seq_v(state@) == permute_v(mv, rcfv, rcpv, s0));
    }
}

/// One sponge absorption at cursor `pos` (< rate): add into the lane, advance,
/// and permute when the rate is filled.
pub open spec fn absorb_one_v(
    mds: Seq<Seq<int>>,
    rcf: Seq<Seq<int>>,
    rcp: Seq<int>,
    state: Seq<int>,
    pos: nat,
    x: int,
) -> (Seq<int>, nat) {
    let s1 = state.update(pos as int, f_add(state[pos as int], x));
    if pos + 2 == state.len() {
        (permute_v(mds, rcf, rcp, s1), 0)
    } else {
        (s1, pos + 1)
    }
}

/// A whole sequence absorbed in order.
pub open spec fn absorb_seq_v(
    mds: Seq<Seq<int>>,
    rcf: Seq<Seq<int>>,
    rcp: Seq<int>,
    state: Seq<int>,
    pos: nat,
    xs: Seq<int>,
) -> (Seq<int>, nat)
    decreases xs.len(),
{
    if xs.len() == 0 {
        (state, pos)
    } else {
        let prev = absorb_seq_v(mds, rcf, rcp, state, pos, xs.drop_last());
        absorb_one_v(mds, rcf, rcp, prev.0, prev.1, xs.last())
    }
}

/// Zero-padding absorbed until the cursor returns to the start of the rate.
pub open spec fn pad_zeros_v(
    mds: Seq<Seq<int>>,
    rcf: Seq<Seq<int>>,
    rcp: Seq<int>,
    state: Seq<int>,
    pos: nat,
) -> (Seq<int>, nat)
    decreases (if pos == 0 {
        0int
    } else {
        state.len() - 1 - pos
    }),
{
    if pos == 0 || pos + 1 >= state.len() {
        (state, pos)
    } else {
        let nxt = absorb_one_v(mds, rcf, rcp, state, pos, 0);
        pad_zeros_v(mds, rcf, rcp, nxt.0, nxt.1)
    }
}

/// The domain-separated sponge digest: absorb the DS preamble, the inputs, a
/// closing 1, then zeros to the block boundary, and read lane 0.
pub open spec fn hash_ds_v(
    mds: Seq<Seq<int>>,
    rcf: Seq<Seq<int>>,
    rcp: Seq<int>,
    t: nat,
    ds: Seq<int>,
    inputs: Seq<int>,
) -> int {
    let z = Seq::new(t, |i: int| 0int);
    let a = absorb_seq_v(mds, rcf, rcp, z, 0, ds);
    let b = absorb_seq_v(mds, rcf, rcp, a.0, a.1, inputs);
    let c = absorb_one_v(mds, rcf, rcp, b.0, b.1, 1);
    let d = pad_zeros_v(mds, rcf, rcp, c.0, c.1);
    d.0[0]
}

/// Absorb one element into the sponge rate; permute when the rate is full.
fn absorb_one(x: &Fe, state: &mut Vec<Fe>, cursor: &mut usize, params: &PoseidonParamsDynamic)
    requires
        params.wf(),
        old(state)@.len() == params.t,
        *old(cursor) < params.rate,
    ensures
        final(state)@.len() == params.t,
        *final(cursor) < params.rate,
        (fe_seq_v(final(state)@), *final(cursor) as nat) == absorb_one_v(
            params.mds_v(),
            params.rcf_v(),
            params.rcp_v(),
            fe_seq_v(old(state)@),
            *old(cursor) as nat,
            x@,
        ),
{
    let ghost before = fe_seq_v(state@);
    let v = fe_add(&state[*cursor], x);
    state.set(*cursor, v);
    proof {
        assert(fe_seq_v(state@) =~= before.update(
            *cursor as int,
            f_add(before[*cursor as int], x@),
        ));
    }
    *cursor = *cursor + 1;
    if *cursor == params.rate {
        *cursor = 0;
        permute_dynamic(state, params);
    }
}

/// DS-friendly sponge hash: absorb the DS fields, then the inputs, then pad
/// with a 1 and zeros to the block boundary; the digest is lane 0.
pub fn hash_with_ds_dynamic(ds_fields: &[Fe], inputs: &[Fe], params: &PoseidonParamsDynamic) -> (r:
    Fe)
    requires
        params.wf(),
    ensures
        r@ == hash_ds_v(
            params.mds_v(),
            params.rcf_v(),
            params.rcp_v(),
            params.t as nat,
            fe_seq_v(ds_fields@),
            fe_seq_v(inputs@),
        ),
{
    let t = params.t;
    let ghost mv = params.mds_v();
    let ghost rcfv = params.rcf_v();
    let ghost rcpv = params.rcp_v();

    let mut state: Vec<Fe> = Vec::new();
    let mut k: usize = 0;
    while k < t
        invariant
            k <= t,
            state@.len() == k,
            forall|i: int| 0 <= i < k ==> (#[trigger] state@[i])@ == 0,
        decreases t - k,
    {
        state.push(Fe::zero());
        k = k + 1;
    }
    proof {
        assert(fe_seq_v(state@) =~= Seq::new(t as nat, |i: int| 0int));
    }
    let mut cursor: usize = 0;

    let ghost z = fe_seq_v(state@);
    let mut i: usize = 0;
    while i < ds_fields.len()
        invariant
            i <= ds_fields@.len(),
            params.wf(),
            t == params.t,
            mv == params.mds_v(),
            rcfv == params.rcf_v(),
            rcpv == params.rcp_v(),
            state@.len() == t,
            cursor < params.rate,
            (fe_seq_v(state@), cursor as nat) == absorb_seq_v(
                mv,
                rcfv,
                rcpv,
                z,
                0,
                fe_seq_v(ds_fields@).take(i as int),
            ),
        decreases ds_fields@.len() - i,
    {
        absorb_one(&ds_fields[i], &mut state, &mut cursor, params);
        proof {
            let whole = fe_seq_v(ds_fields@);
            assert(whole.take(i + 1).drop_last() =~= whole.take(i as int));
            assert(whole.take(i + 1).last() == whole[i as int]);
        }
        i = i + 1;
    }
    proof {
        assert(fe_seq_v(ds_fields@).take(ds_fields@.len() as int) =~= fe_seq_v(ds_fields@));
    }
    let ghost a = (fe_seq_v(state@), cursor as nat);

    let mut j: usize = 0;
    while j < inputs.len()
        invariant
            j <= inputs@.len(),
            params.wf(),
            t == params.t,
            mv == params.mds_v(),
            rcfv == params.rcf_v(),
            rcpv == params.rcp_v(),
            state@.len() == t,
            cursor < params.rate,
            (fe_seq_v(state@), cursor as nat) == absorb_seq_v(
                mv,
                rcfv,
                rcpv,
                a.0,
                a.1,
                fe_seq_v(inputs@).take(j as int),
            ),
        decreases inputs@.len() - j,
    {
        absorb_one(&inputs[j], &mut state, &mut cursor, params);
        proof {
            let whole = fe_seq_v(inputs@);
            assert(whole.take(j + 1).drop_last() =~= whole.take(j as int));
            assert(whole.take(j + 1).last() == whole[j as int]);
        }
        j = j + 1;
    }
    proof {
        assert(fe_seq_v(inputs@).take(inputs@.len() as int) =~= fe_seq_v(inputs@));
    }

    let one = Fe::one();
    absorb_one(&one, &mut state, &mut cursor, params);
    let ghost c = (fe_seq_v(state@), cursor as nat);

    let zero = Fe::zero();
    while cursor != 0
        invariant
            params.wf(),
            t == params.t,
            mv == params.mds_v(),
            rcfv == params.rcf_v(),
            rcpv == params.rcp_v(),
            state@.len() == t,
            cursor < params.rate,
            zero@ == 0,
            pad_zeros_v(mv, rcfv, rcpv, fe_seq_v(state@), cursor as nat) == pad_zeros_v(
                mv,
                rcfv,
                rcpv,
                c.0,
                c.1,
            ),
        decreases (if cursor == 0 {
            0int
        } else {
            params.rate - cursor
        }),
    {
        let ghost pre_s = fe_seq_v(state@);
        let ghost pre_c = cursor as nat;
        absorb_one(&zero, &mut state, &mut cursor, params);
        proof {
            assert(pad_zeros_v(mv, rcfv, rcpv, pre_s, pre_c) == pad_zeros_v(
                mv,
                rcfv,
                rcpv,
                fe_seq_v(state@),
                cursor as nat,
            ));
        }
    }
    state[0]
}

/// The per-width derivation seed.
pub open spec fn seed_of_t(t: nat) -> Seq<u8> {
    "POSEIDON-PALLAS-T".spec_bytes() + le_bytes_of(t, 8)
}

/// The MDS entry derived for position (i, j) from a seed.
pub open spec fn derived_mds_v(seed: Seq<u8>, t: nat) -> Seq<Seq<int>> {
    Seq::new(
        t,
        |i: int|
            Seq::new(
                t,
                |j: int|
                    hash_to_field(
                        "POSEIDON-MDS".spec_bytes(),
                        le_bytes_of(i as nat, 8) + le_bytes_of(j as nat, 8) + seed,
                    ),
            ),
    )
}

/// The full-round constants derived from a seed.
pub open spec fn derived_rcf_v(seed: Seq<u8>, rf: nat, t: nat) -> Seq<Seq<int>> {
    Seq::new(
        rf,
        |r: int|
            Seq::new(
                t,
                |i: int|
                    hash_to_field(
                        "POSEIDON-RC-FULL".spec_bytes(),
                        le_bytes_of(r as nat, 8) + le_bytes_of(i as nat, 8) + seed,
                    ),
            ),
    )
}

/// The partial-round constants derived from a seed.
pub open spec fn derived_rcp_v(seed: Seq<u8>, rp: nat) -> Seq<int> {
    Seq::new(
        rp,
        |r: int| hash_to_field("POSEIDON-RC-PART".spec_bytes(), le_bytes_of(r as nat, 8) + seed),
    )
}

/// The per-width derivation seed as bytes.
fn seed_for_t(t: usize) -> (r: Vec<u8>)
    ensures
        r@ == seed_of_t(t as nat),
{
    let mut s: Vec<u8> = Vec::new();
    extend_bytes(&mut s, "POSEIDON-PALLAS-T".as_bytes());
    let tb = u64_to_le_bytes(t as u64);
    extend_bytes(&mut s, tb.as_slice());
    s
}

fn derive_entry_fe(tag: &str, a: u64, b: u64, seed: &[u8]) -> (r: Fe)
    ensures
        r@ == hash_to_field(
            tag.spec_bytes(),
            le_bytes_of(a as nat, 8) + le_bytes_of(b as nat, 8) + seed@,
        ),
{
    let mut data: Vec<u8> = Vec::new();
    let ab = u64_to_le_bytes(a);
    extend_bytes(&mut data, ab.as_slice());
    let bb = u64_to_le_bytes(b);
    extend_bytes(&mut data, bb.as_slice());
    extend_bytes(&mut data, seed);
    proof {
        assert(data@ =~= le_bytes_of(a as nat, 8) + le_bytes_of(b as nat, 8) + seed@);
    }
    crate::utils::fr_from_hash(tag.as_bytes(), data.as_slice())
}

fn derive_mds(seed: &[u8], t: usize) -> (r: Vec<Vec<Fe>>)
    ensures
        r@.len() == t,
        forall|i: int| 0 <= i < t ==> (#[trigger] r@[i])@.len() == t,
        Seq::new(r@.len(), |i: int| fe_seq_v(r@[i]@)) == derived_mds_v(seed@, t as nat),
{
    let mut m: Vec<Vec<Fe>> = Vec::new();
    let mut i: usize = 0;
    while i < t
        invariant
            i <= t,
            m@.len() == i,
            forall|k: int| 0 <= k < i ==> (#[trigger] m@[k])@.len() == t,
            forall|k: int|
                0 <= k < i ==> fe_seq_v((#[trigger] m@[k])@) =~= derived_mds_v(seed@, t as nat)[k],
        decreases t - i,
    {
        let mut row: Vec<Fe> = Vec::new();
        let mut j: usize = 0;
        while j < t
            invariant
                j <= t,
                i < t,
                row@.len() == j,
                forall|k: int|
                    0 <= k < j ==> (#[trigger] row@[k])@ == derived_mds_v(seed@, t as nat)[i as int][k],
            decreases t - j,
        {
            let e = derive_entry_fe("POSEIDON-MDS", i as u64, j as u64, seed);
            row.push(e);
            j = j + 1;
        }
        proof {
            assert(fe_seq_v(row@) =~= derived_mds_v(seed@, t as nat)[i as int]);
        }
        m.push(row);
        i = i + 1;
    }
    proof {
        assert(Seq::new(m@.len(), |i: int| fe_seq_v(m@[i]@)) =~~= derived_mds_v(seed@, t as nat));
    }
    m
}

fn derive_rc_full(seed: &[u8], rf: usize, t: usize) -> (r: Vec<Vec<Fe>>)
    ensures
        r@.len() == rf,
        forall|i: int| 0 <= i < rf ==> (#[trigger] r@[i])@.len() == t,
        Seq::new(r@.len(), |i: int| fe_seq_v(r@[i]@)) == derived_rcf_v(seed@, rf as nat, t as nat),
{
    let mut m: Vec<Vec<Fe>> = Vec::new();
    let mut r_i: usize = 0;
    while r_i < rf
        invariant
            r_i <= rf,
            m@.len() == r_i,
            forall|k: int| 0 <= k < r_i ==> (#[trigger] m@[k])@.len() == t,
            forall|k: int|
                0 <= k < r_i ==> fe_seq_v((#[trigger] m@[k])@) =~= derived_rcf_v(
                    seed@,
                    rf as nat,
                    t as nat,
                )[k],
        decreases rf - r_i,
    {
        let mut row: Vec<Fe> = Vec::new();
        let mut j: usize = 0;
        while j < t
            invariant
                j <= t,
                r_i < rf,
                row@.len() == j,
                forall|k: int|
                    0 <= k < j ==> (#[trigger] row@[k])@ == derived_rcf_v(
                        seed@,
                        rf as nat,
                        t as nat,
                    )[r_i as int][k],
            decreases t - j,
        {
            let e = derive_entry_fe("POSEIDON-RC-FULL", r_i as u64, j as u64, seed);
            row.push(e);
            j = j + 1;
        }
        proof {
            assert(fe_seq_v(row@) =~= derived_rcf_v(seed@, rf as nat, t as nat)[r_i as int]);
        }
        m.push(row);
        r_i = r_i + 1;
    }
    proof {
        assert(Seq::new(m@.len(), |i: int| fe_seq_v(m@[i]@)) =~~= derived_rcf_v(
            seed@,
            rf as nat,
            t as nat,
        ));
    }
    m
}

fn derive_rc_partial(seed: &[u8], rp: usize) -> (r: Vec<Fe>)
    ensures
        r@.len() == rp,
        fe_seq_v(r@) == derived_rcp_v(seed@, rp as nat),
{
    let mut v: Vec<Fe> = Vec::new();
    let mut r_i: usize = 0;
    while r_i < rp
        invariant
            r_i <= rp,
            v@.len() == r_i,
            forall|k: int|
                0 <= k < r_i ==> (#[trigger] v@[k])@ == derived_rcp_v(seed@, rp as nat)[k],
        decreases rp - r_i,
    {
        let mut data: Vec<u8> = Vec::new();
        let rb = u64_to_le_bytes(r_i as u64);
        extend_bytes(&mut data, rb.as_slice());
        extend_bytes(&mut data, seed);
        proof {
            assert(data@ =~= le_bytes_of(r_i as nat, 8) + seed@);
        }
        let e = crate::utils::fr_from_hash("POSEIDON-RC-PART".as_bytes(), data.as_slice());
        v.push(e);
        r_i = r_i + 1;
    }
    proof {
        assert(fe_seq_v(v@) =~= derived_rcp_v(seed@, rp as nat));
    }
    v
}

/// The supported widths and their partial-round counts.
pub open spec fn supported_width(t: nat) -> bool {
    t == 9 || t == 17 || t == 33 || t == 65
}

pub open spec fn rp_for_width(t: nat) -> nat {
    if t == 9 {
        60
    } else {
        64
    }
}

/// Everything `poseidon_params_for_width` promises about its result.
pub open spec fn params_for_width_v(p: PoseidonParamsDynamic, t: nat) -> bool {
    &&& p.wf()
    &&& p.t == t
    &&& p.rate + 1 == t
    &&& p.rounds_full == 8
    &&& p.rounds_partial == rp_for_width(t)
    &&& p.alpha == 5
    &&& p.mds_v() == derived_mds_v(seed_of_t(t), t)
    &&& p.rcf_v() == derived_rcf_v(seed_of_t(t), 8, t)
    &&& p.rcp_v() == derived_rcp_v(seed_of_t(t), rp_for_width(t))
}

/// Build Poseidon parameters for a supported width, deterministically from the
/// per-width seed.
pub fn poseidon_params_for_width(t: usize) -> (r: PoseidonParamsDynamic)
    requires
        supported_width(t as nat),
    ensures
        params_for_width_v(r, t as nat),
{
    let (rf, rp): (usize, usize) = if t == 9 {
        (8, 60)
    } else {
        (8, 64)
    };
    let rate = t - 1;
    let seed = seed_for_t(t);
    let mds = derive_mds(seed.as_slice(), t);
    let rc_full = derive_rc_full(seed.as_slice(), rf, t);
    let rc_partial = derive_rc_partial(seed.as_slice(), rp);
    PoseidonParamsDynamic {
        t,
        rate,
        rounds_full: rf,
        rounds_partial: rp,
        alpha: 5,
        mds,
        rc_full,
        rc_partial,
    }
}

/// The smallest legal width for a tree arity: the rate must cover the arity.
pub open spec fn width_for_arity(m: nat) -> nat {
    if m <= 8 {
        9
    } else if m <= 16 {
        17
    } else if m <= 32 {
        33
    } else {
        65
    }
}

/// Poseidon parameters for a Merkle arity, at the smallest legal width.
pub fn poseidon_params_for_arity(arity: usize) -> (r: PoseidonParamsDynamic)
    requires
        arity <= 64,
    ensures
        params_for_width_v(r, width_for_arity(arity as nat)),
{
    let t: usize = if arity <= 8 {
        9
    } else if arity <= 16 {
        17
    } else if arity <= 32 {
        33
    } else {
        65
    };
    poseidon_params_for_width(t)
}

/// Fixed-width (t = 17) Poseidon parameters.
#[derive(Clone, Debug)]
pub struct PoseidonParams {
    pub mds: Vec<Vec<Fe>>,
    pub rc_full: Vec<Vec<Fe>>,
    pub rc_partial: Vec<Fe>,
}

impl PoseidonParams {
    /// Shape well-formedness at the fixed width 17.
    pub open spec fn wf(self) -> bool {
        &&& self.mds@.len() == 17
        &&& forall|i: int| 0 <= i < 17 ==> (#[trigger] self.mds@[i])@.len() == 17
        &&& self.rc_full@.len() == 8
        &&& forall|i: int| 0 <= i < 8 ==> (#[trigger] self.rc_full@[i])@.len() == 17
        &&& self.rc_partial@.len() == 64
    }

    pub open spec fn mds_v(self) -> Seq<Seq<int>> {
        Seq::new(self.mds@.len(), |i: int| fe_seq_v(self.mds@[i]@))
    }

    pub open spec fn rcf_v(self) -> Seq<Seq<int>> {
        Seq::new(self.rc_full@.len(), |i: int| fe_seq_v(self.rc_full@[i]@))
    }

    pub open spec fn rcp_v(self) -> Seq<int> {
        fe_seq_v(self.rc_partial@)
    }
}

/// Deterministically derive the fixed-width parameter set from a seed.
pub fn generate_params_t17_x5(seed: &[u8]) -> (r: PoseidonParams)
    ensures
        r.wf(),
        r.mds_v() == derived_mds_v(seed@, 17),
        r.rcf_v() == derived_rcf_v(seed@, 8, 17),
        r.rcp_v() == derived_rcp_v(seed@, 64),
{
    let mds = derive_mds(seed, 17);
    let rc_full = derive_rc_full(seed, 8, 17);
    let rc_partial = derive_rc_partial(seed, 64);
    PoseidonParams { mds, rc_full, rc_partial }
}

/// Widen the fixed-width parameter set into the dynamic form.
pub fn dynamic_from_static_t17(p: &PoseidonParams) -> (r: PoseidonParamsDynamic)
    requires
        p.wf(),
    ensures
        r.wf(),
        r.t == 17,
        r.rate == 16,
        r.rounds_full == 8,
        r.rounds_partial == 64,
        r.alpha == 5,
        r.mds_v() == p.mds_v(),
        r.rcf_v() == p.rcf_v(),
        r.rcp_v() == p.rcp_v(),
{
    let r = PoseidonParamsDynamic {
        t: 17,
        rate: 16,
        rounds_full: 8,
        rounds_partial: 64,
        alpha: 5,
        mds: p.mds.clone(),
        rc_full: p.rc_full.clone(),
        rc_partial: p.rc_partial.clone(),
    };
    proof {
        assert(r.mds_v() =~~= p.mds_v());
        assert(r.rcf_v() =~~= p.rcf_v());
        assert(r.rcp_v() =~= p.rcp_v());
    }
    r
}

/// Narrow a width-17 dynamic parameter set back to the fixed form.
pub fn static_from_dynamic_t17(d: &PoseidonParamsDynamic) -> (r: PoseidonParams)
    requires
        d.wf(),
        d.t == 17,
        d.rounds_full == 8,
        d.rounds_partial == 64,
    ensures
        r.wf(),
        r.mds_v() == d.mds_v(),
        r.rcf_v() == d.rcf_v(),
        r.rcp_v() == d.rcp_v(),
{
    let r = PoseidonParams {
        mds: d.mds.clone(),
        rc_full: d.rc_full.clone(),
        rc_partial: d.rc_partial.clone(),
    };
    proof {
        assert(r.mds_v() =~~= d.mds_v());
        assert(r.rcf_v() =~~= d.rcf_v());
        assert(r.rcp_v() =~= d.rcp_v());
    }
    r
}

/// The Poseidon permutation at the fixed width 17.
pub fn permute(state: &mut Vec<Fe>, params: &PoseidonParams)
    requires
        params.wf(),
        old(state)@.len() == 17,
    ensures
        final(state)@.len() == 17,
        fe_seq_v(final(state)@) == permute_v(
            params.mds_v(),
            params.rcf_v(),
            params.rcp_v(),
            fe_seq_v(old(state)@),
        ),
{
    let d = dynamic_from_static_t17(params);
    permute_dynamic(state, &d);
}

/// The block-wise legacy sponge: lanes of each rate-sized chunk are added and
/// the state permuted once per chunk, the capacity lane holding the DS tag.
pub open spec fn legacy_add_block_v(state: Seq<int>, block: Seq<int>) -> Seq<int> {
    Seq::new(
        state.len(),
        |i: int|
            if i < block.len() {
                f_add(state[i], block[i])
            } else {
                state[i]
            },
    )
}

pub open spec fn legacy_blocks_v(
    mds: Seq<Seq<int>>,
    rcf: Seq<Seq<int>>,
    rcp: Seq<int>,
    state: Seq<int>,
    inputs: Seq<int>,
) -> Seq<int>
    decreases inputs.len(),
{
    if inputs.len() == 0 {
        state
    } else {
        let k = if inputs.len() < 16 {
            inputs.len() as int
        } else {
            16
        };
        legacy_blocks_v(
            mds,
            rcf,
            rcp,
            permute_v(mds, rcf, rcp, legacy_add_block_v(state, inputs.take(k))),
            inputs.skip(k),
        )
    }
}

/// The legacy digest: zero state with the DS tag in the capacity lane, inputs
/// absorbed block-wise, lane 0 read out.
pub open spec fn hash_legacy_v(
    mds: Seq<Seq<int>>,
    rcf: Seq<Seq<int>>,
    rcp: Seq<int>,
    inputs: Seq<int>,
    ds: int,
) -> int {
    let init = Seq::new(17, |i: int| if i == 16 { ds } else { 0int });
    legacy_blocks_v(mds, rcf, rcp, init, inputs)[0]
}

/// Fixed-width hashing with a DS tag in the capacity slot.
pub fn hash_with_ds(inputs: &[Fe], ds_tag: &Fe, params: &PoseidonParams) -> (r: Fe)
    requires
        params.wf(),
    ensures
        r@ == hash_legacy_v(
            params.mds_v(),
            params.rcf_v(),
            params.rcp_v(),
            fe_seq_v(inputs@),
            ds_tag@,
        ),
{
    let ghost mv = params.mds_v();
    let ghost rcfv = params.rcf_v();
    let ghost rcpv = params.rcp_v();
    let mut state: Vec<Fe> = Vec::new();
    let mut k: usize = 0;
    while k < 16
        invariant
            k <= 16,
            state@.len() == k,
            forall|i: int| 0 <= i < k ==> (#[trigger] state@[i])@ == 0,
        decreases 16 - k,
    {
        state.push(Fe::zero());
        k = k + 1;
    }
    state.push(*ds_tag);
    proof {
        assert(fe_seq_v(state@) =~= Seq::new(17, |i: int| if i == 16 { ds_tag@ } else { 0int }));
    }

    let d = dynamic_from_static_t17(params);
    let n = inputs.len();
    proof {
        assert(fe_seq_v(inputs@).skip(0) =~= fe_seq_v(inputs@));
    }
    let mut pos: usize = 0;
    while pos < n
        invariant
            pos <= n,
            n == inputs@.len(),
            params.wf(),
            d.wf(),
            d.t == 17,
            d.mds_v() == mv,
            d.rcf_v() == rcfv,
            d.rcp_v() == rcpv,
            mv == params.mds_v(),
            rcfv == params.rcf_v(),
            rcpv == params.rcp_v(),
            state@.len() == 17,
            legacy_blocks_v(mv, rcfv, rcpv, fe_seq_v(state@), fe_seq_v(inputs@).skip(pos as int))
                == legacy_blocks_v(
                mv,
                rcfv,
                rcpv,
                Seq::new(17, |i: int| if i == 16 { ds_tag@ } else { 0int }),
                fe_seq_v(inputs@),
            ),
        decreases n - pos,
    {
        let ghost before = fe_seq_v(state@);
        let end = if n - pos < 16 {
            n
        } else {
            pos + 16
        };
        let mut i: usize = 0;
        while i < end - pos
            invariant
                pos < n,
                end <= n,
                end - pos <= 16,
                i <= end - pos,
                n == inputs@.len(),
                state@.len() == 17,
                before.len() == 17,
                forall|j: int|
                    0 <= j < i ==> (#[trigger] state@[j])@ == f_add(
                        before[j],
                        fe_seq_v(inputs@).skip(pos as int)[j],
                    ),
                forall|j: int| i <= j < 17 ==> (#[trigger] state@[j])@ == before[j],
            decreases end - pos - i,
        {
            let v = fe_add(&state[i], &inputs[pos + i]);
            state.set(i, v);
            i = i + 1;
        }
        proof {
            let rest = fe_seq_v(inputs@).skip(pos as int);
            let blk = if rest.len() < 16 {
                rest.len() as int
            } else {
                16
            };
            assert(blk == end - pos);
            assert(fe_seq_v(state@) =~= legacy_add_block_v(before, rest.take(blk)));
        }
        permute(&mut state, params);
        proof {
            let rest = fe_seq_v(inputs@).skip(pos as int);
            let blk = if rest.len() < 16 {
                rest.len() as int
            } else {
                16
            };
            assert(rest.skip(blk) =~= fe_seq_v(inputs@).skip(end as int));
        }
        pos = end;
    }
    proof {
        assert(fe_seq_v(inputs@).skip(n as int) =~= Seq::<int>::empty());
    }
    state[0]
}

} // verus!
