//! The Fiat–Shamir transcript: a width-17 Poseidon sponge that absorbs every
//! message and derives every challenge, with domain-separated operations.

use vstd::prelude::*;
use vstd::string::StringSliceAdditionalSpecFns;
use crate::field::{f_add, fe_add, fe_from_le_bytes_mod_order, fe_seq_v, field_order, le_bytes_value, Fe};
use crate::poseidon::{generate_params_t17_x5, permute, permute_v, derived_mds_v, derived_rcf_v, derived_rcp_v, PoseidonParams};
use crate::utils::{extend_bytes, le_bytes_of, u64_to_le_bytes};

verus! {

/// A byte chunk padded with zeros to 32 bytes and reduced into the field.
pub open spec fn word32_of(chunk: Seq<u8>) -> int {
    le_bytes_value(chunk + Seq::new((32 - chunk.len()) as nat, |i: int| 0u8)) % field_order()
}

/// Chunks of 32 bytes, reduced and summed left to right in the field.
pub open spec fn chunk_sum_v(acc: int, bytes: Seq<u8>) -> int
    decreases bytes.len(),
{
    if bytes.len() == 0 {
        acc
    } else {
        let k = if bytes.len() < 32 {
            bytes.len() as int
        } else {
            32
        };
        chunk_sum_v(f_add(acc, word32_of(bytes.take(k))), bytes.skip(k))
    }
}

/// A byte tag folded deterministically into one field element.
pub open spec fn dt_of(tag: Seq<u8>) -> int {
    if tag.len() <= 32 {
        word32_of(tag)
    } else {
        chunk_sum_v(0, tag)
    }
}

/// Bytes packed into 31-byte little-endian field words, avoiding reduction bias.
pub open spec fn words31_of(bytes: Seq<u8>) -> Seq<int>
    decreases bytes.len(),
{
    if bytes.len() == 0 {
        Seq::empty()
    } else {
        let k = if bytes.len() < 31 {
            bytes.len() as int
        } else {
            31
        };
        seq![word32_of(bytes.take(k))] + words31_of(bytes.skip(k))
    }
}

/// One transcript absorption: permute first if the rate is full, then add into
/// the cursor lane and advance.
pub open spec fn tr_absorb_one_v(
    mds: Seq<Seq<int>>,
    rcf: Seq<Seq<int>>,
    rcp: Seq<int>,
    st: (Seq<int>, nat),
    x: int,
) -> (Seq<int>, nat) {
    let s1 = if st.1 == 16 {
        permute_v(mds, rcf, rcp, st.0)
    } else {
        st.0
    };
    let p1: nat = if st.1 == 16 {
        0
    } else {
        st.1
    };
    (s1.update(p1 as int, f_add(s1[p1 as int], x)), p1 + 1)
}

/// A whole sequence of field elements absorbed in order.
pub open spec fn tr_absorb_seq_v(
    mds: Seq<Seq<int>>,
    rcf: Seq<Seq<int>>,
    rcp: Seq<int>,
    st: (Seq<int>, nat),
    xs: Seq<int>,
) -> (Seq<int>, nat)
    decreases xs.len(),
{
    if xs.len() == 0 {
        st
    } else {
        tr_absorb_one_v(mds, rcf, rcp, tr_absorb_seq_v(mds, rcf, rcp, st, xs.drop_last()), xs.last())
    }
}

/// Bytes absorbed: the operation marker first, then the 31-byte field words.
pub open spec fn tr_absorb_bytes_v(
    mds: Seq<Seq<int>>,
    rcf: Seq<Seq<int>>,
    rcp: Seq<int>,
    st: (Seq<int>, nat),
    bytes: Seq<u8>,
) -> (Seq<int>, nat) {
    tr_absorb_seq_v(
        mds,
        rcf,
        rcp,
        tr_absorb_one_v(mds, rcf, rcp, st, dt_of("FSv1-ABSORB-BYTES".spec_bytes())),
        words31_of(bytes),
    )
}

/// A challenge: the challenge marker and the label absorbed, a forced
/// permutation, the cursor reset, lane 0 read out.
pub open spec fn tr_challenge_v(
    mds: Seq<Seq<int>>,
    rcf: Seq<Seq<int>>,
    rcp: Seq<int>,
    st: (Seq<int>, nat),
    label: Seq<u8>,
) -> (int, (Seq<int>, nat)) {
    let a = tr_absorb_one_v(mds, rcf, rcp, st, dt_of("FSv1-CHALLENGE".spec_bytes()));
    let b = tr_absorb_bytes_v(mds, rcf, rcp, a, label);
    let s2 = permute_v(mds, rcf, rcp, b.0);
    (s2[0], (s2, 0))
}

/// A fresh transcript: zero state with the construction marker in the capacity
/// lane, then the context label absorbed.
pub open spec fn tr_init_v(
    mds: Seq<Seq<int>>,
    rcf: Seq<Seq<int>>,
    rcp: Seq<int>,
    label: Seq<u8>,
) -> (Seq<int>, nat) {
    tr_absorb_bytes_v(
        mds,
        rcf,
        rcp,
        (
            Seq::new(
                17,
                |i: int|
                    if i == 16 {
                        dt_of("FSv1-TRANSCRIPT-INIT".spec_bytes())
                    } else {
                        0int
                    },
            ),
            0,
        ),
        label,
    )
}

/// Challenges `i .. i + n`, each drawn under `label ‖ i` in order.
pub open spec fn tr_challenges_from_v(
    mds: Seq<Seq<int>>,
    rcf: Seq<Seq<int>>,
    rcp: Seq<int>,
    st: (Seq<int>, nat),
    label: Seq<u8>,
    i: nat,
    n: nat,
) -> (Seq<int>, (Seq<int>, nat))
    decreases n,
{
    if n == 0 {
        (Seq::empty(), st)
    } else {
        let c = tr_challenge_v(mds, rcf, rcp, st, label + le_bytes_of(i, 8));
        let rest = tr_challenges_from_v(mds, rcf, rcp, c.1, label, i + 1, (n - 1) as nat);
        (seq![c.0] + rest.0, rest.1)
    }
}

/// Deterministic default parameters for transcript users.
pub fn default_params() -> (r: PoseidonParams)
    ensures
        r.wf(),
        r.mds_v() == derived_mds_v("POSEIDON-T17-X5-TRANSCRIPT".spec_bytes(), 17),
        r.rcf_v() == derived_rcf_v("POSEIDON-T17-X5-TRANSCRIPT".spec_bytes(), 8, 17),
        r.rcp_v() == derived_rcp_v("POSEIDON-T17-X5-TRANSCRIPT".spec_bytes(), 64),
{
    generate_params_t17_x5("POSEIDON-T17-X5-TRANSCRIPT".as_bytes())
}

pub struct Transcript {
    state: Vec<Fe>,
    pos: usize,
    params: PoseidonParams,
}

impl View for Transcript {
    type V = (Seq<int>, nat);

    closed spec fn view(&self) -> (Seq<int>, nat) {
        (fe_seq_v(self.state@), self.pos as nat)
    }
}

impl Transcript {
    /// Shape well-formedness: a width-17 state and a cursor within the rate.
    pub closed spec fn wf(self) -> bool {
        self.state@.len() == 17 && self.pos <= 16 && self.params.wf()
    }

    /// The parameter set this transcript runs on.
    pub closed spec fn params_s(self) -> PoseidonParams {
        self.params
    }

    pub fn new(label: &[u8], params: PoseidonParams) -> (r: Transcript)
        requires
            params.wf(),
        ensures
            r.wf(),
            r.params_s() == params,
            r@ == tr_init_v(params.mds_v(), params.rcf_v(), params.rcp_v(), label@),
    {
        let mut state: Vec<Fe> = Vec::new();
        let mut k: usize = 0;
        while k < 16
            invariant
                k <= 16,
                state@.len() == k,
                forall|i: int| 0 <= i < k ==> (#[trigger] state@[i])@ == 0,
            decreases 16 - k,
        {
            state.push(Fe::zero());
            k = k + 1;
        }
        let cap = domain_tag_to_field("FSv1-TRANSCRIPT-INIT".as_bytes());
        state.push(cap);
        proof {
            assert(fe_seq_v(state@) =~= Seq::new(
                17,
                |i: int|
                    if i == 16 {
                        dt_of("FSv1-TRANSCRIPT-INIT".spec_bytes())
                    } else {
                        0int
                    },
            ));
        }
        let mut t = Transcript { state, pos: 0, params };
        t.absorb_bytes(label);
        t
    }

    /// Absorb one field element into the current rate lane.
    pub fn absorb_field(&mut self, x: &Fe)
        requires
            old(self).wf(),
        ensures
            final(self).wf(),
            final(self).params_s() == old(self).params_s(),
            final(self)@ == tr_absorb_one_v(
                old(self).params_s().mds_v(),
                old(self).params_s().rcf_v(),
                old(self).params_s().rcp_v(),
                old(self)@,
                x@,
            ),
    {
        if self.pos == 16 {
            permute(&mut self.state, &self.params);
            self.pos = 0;
        }
        let v = fe_add(&self.state[self.pos], x);
        let ghost before = fe_seq_v(self.state@);
        let i = self.pos;
        self.state.set(i, v);
        self.pos = self.pos + 1;
        proof {
            assert(fe_seq_v(self.state@) =~= before.update(i as int, f_add(before[i as int], x@)));
        }
    }

    /// Absorb a sequence of field elements in order.
    pub fn absorb_fields(&mut self, xs: &[Fe])
        requires
            old(self).wf(),
        ensures
            final(self).wf(),
            final(self).params_s() == old(self).params_s(),
            final(self)@ == tr_absorb_seq_v(
                old(self).params_s().mds_v(),
                old(self).params_s().rcf_v(),
                old(self).params_s().rcp_v(),
                old(self)@,
                fe_seq_v(xs@),
            ),
    {
        let ghost p = self.params_s();
        let ghost st0 = self@;
        let mut i: usize = 0;
        while i < xs.len()
            invariant
                i <= xs@.len(),
                self.wf(),
                self.params_s() == p,
                self@ == tr_absorb_seq_v(
                    p.mds_v(),
                    p.rcf_v(),
                    p.rcp_v(),
                    st0,
                    fe_seq_v(xs@).take(i as int),
                ),
            decreases xs@.len() - i,
        {
            self.absorb_field(&xs[i]);
            proof {
                let whole = fe_seq_v(xs@);
                assert(whole.take(i + 1).drop_last() =~= whole.take(i as int));
                assert(whole.take(i + 1).last() == whole[i as int]);
            }
            i = i + 1;
        }
        proof {
            assert(fe_seq_v(xs@).take(xs@.len() as int) =~= fe_seq_v(xs@));
        }
    }

    /// Absorb raw bytes: a domain marker, then 31-byte field words.
    pub fn absorb_bytes(&mut self, bytes: &[u8])
        requires
            old(self).wf(),
        ensures
            final(self).wf(),
            final(self).params_s() == old(self).params_s(),
            final(self)@ == tr_absorb_bytes_v(
                old(self).params_s().mds_v(),
                old(self).params_s().rcf_v(),
                old(self).params_s().rcp_v(),
                old(self)@,
                bytes@,
            ),
    {
        let marker = domain_tag_to_field("FSv1-ABSORB-BYTES".as_bytes());
        self.absorb_field(&marker);
        let words = bytes_to_field_words(bytes);
        self.absorb_fields(words.as_slice());
    }

    /// Draw a challenge: marker and label absorbed, a forced permutation, lane 0.
    pub fn challenge(&mut self, label: &[u8]) -> (r: Fe)
        requires
            old(self).wf(),
        ensures
            final(self).wf(),
            final(self).params_s() == old(self).params_s(),
            r@ == tr_challenge_v(
                old(self).params_s().mds_v(),
                old(self).params_s().rcf_v(),
                old(self).params_s().rcp_v(),
                old(self)@,
                label@,
            ).0,
            final(self)@ == tr_challenge_v(
                old(self).params_s().mds_v(),
                old(self).params_s().rcf_v(),
                old(self).params_s().rcp_v(),
                old(self)@,
                label@,
            ).1,
    {
        let marker = domain_tag_to_field("FSv1-CHALLENGE".as_bytes());
        self.absorb_field(&marker);
        self.absorb_bytes(label);
        permute(&mut self.state, &self.params);
        self.pos = 0;
        self.state[0]
    }

    /// Draw `n` challenges, each under `label ‖ i`.
    pub fn challenges(&mut self, label: &[u8], n: usize) -> (r: Vec<Fe>)
        requires
            old(self).wf(),
        ensures
            final(self).wf(),
            final(self).params_s() == old(self).params_s(),
            fe_seq_v(r@) == tr_challenges_from_v(
                old(self).params_s().mds_v(),
                old(self).params_s().rcf_v(),
                old(self).params_s().rcp_v(),
                old(self)@,
                label@,
                0,
                n as nat,
            ).0,
            final(self)@ == tr_challenges_from_v(
                old(self).params_s().mds_v(),
                old(self).params_s().rcf_v(),
                old(self).params_s().rcp_v(),
                old(self)@,
                label@,
                0,
                n as nat,
            ).1,
    {
        let ghost p = self.params_s();
        let ghost st0 = self@;
        let mut out: Vec<Fe> = Vec::new();
        let mut i: usize = 0;
        while i < n
            invariant
                i <= n,
                self.wf(),
                self.params_s() == p,
                out@.len() == i,
                tr_challenges_from_v(p.mds_v(), p.rcf_v(), p.rcp_v(), st0, label@, 0, n as nat).0
                    =~= fe_seq_v(out@) + tr_challenges_from_v(
                    p.mds_v(),
                    p.rcf_v(),
                    p.rcp_v(),
                    self@,
                    label@,
                    i as nat,
                    (n - i) as nat,
                ).0,
                tr_challenges_from_v(p.mds_v(), p.rcf_v(), p.rcp_v(), st0, label@, 0, n as nat).1
                    == tr_challenges_from_v(
                    p.mds_v(),
                    p.rcf_v(),
                    p.rcp_v(),
                    self@,
                    label@,
                    i as nat,
                    (n - i) as nat,
                ).1,
            decreases n - i,
        {
            let mut tag: Vec<u8> = Vec::new();
            extend_bytes(&mut tag, label);
            let ib = u64_to_le_bytes(i as u64);
            extend_bytes(&mut tag, ib.as_slice());
            proof {
                assert(tag@ =~= label@ + le_bytes_of(i as nat, 8));
            }
            let ghost pre = self@;
            let c = self.challenge(tag.as_slice());
            out.push(c);
            proof {
                let full = tr_challenges_from_v(
                    p.mds_v(),
                    p.rcf_v(),
                    p.rcp_v(),
                    pre,
                    label@,
                    i as nat,
                    (n - i) as nat,
                );
                let ch = tr_challenge_v(
                    p.mds_v(),
                    p.rcf_v(),
                    p.rcp_v(),
                    pre,
                    label@ + le_bytes_of(i as nat, 8),
                );
                let rest = tr_challenges_from_v(
                    p.mds_v(),
                    p.rcf_v(),
                    p.rcp_v(),
                    ch.1,
                    label@,
                    i as nat + 1,
                    (n - i - 1) as nat,
                );
                assert(full.0 == seq![ch.0] + rest.0);
                assert(fe_seq_v(out@) =~= fe_seq_v(out@.drop_last()) + seq![c@]);
                assert(tr_challenges_from_v(
                    p.mds_v(),
                    p.rcf_v(),
                    p.rcp_v(),
                    st0,
                    label@,
                    0,
                    n as nat,
                ).0 =~= fe_seq_v(out@) + rest.0);
            }
            i = i + 1;
        }
        proof {
            assert(tr_challenges_from_v(p.mds_v(), p.rcf_v(), p.rcp_v(), self@, label@, n as nat, 0).0
                =~= Seq::<int>::empty());
            assert(tr_challenges_from_v(p.mds_v(), p.rcf_v(), p.rcp_v(), st0, label@, 0, n as nat).0
                =~= fe_seq_v(out@));
        }
        out
    }

    pub fn params(&self) -> (r: &PoseidonParams)
        ensures
            *r == self.params_s(),
    {
        &self.params
    }
}

/// Map a byte tag to a field element deterministically.
pub fn domain_tag_to_field(tag: &[u8]) -> (r: Fe)
    ensures
        r@ == dt_of(tag@),
{
    if tag.len() <= 32 {
        word32(tag)
    } else {
        let mut acc = Fe::zero();
        proof {
            assert(tag@.skip(0) =~= tag@);
        }
        let mut pos: usize = 0;
        while pos < tag.len()
            invariant
                pos <= tag@.len(),
                chunk_sum_v(acc@, tag@.skip(pos as int)) == chunk_sum_v(0, tag@),
            decreases tag@.len() - pos,
        {
            let end = if tag.len() - pos < 32 {
                tag.len()
            } else {
                pos + 32
            };
            let mut chunk: Vec<u8> = Vec::new();
            let mut j: usize = pos;
            while j < end
                invariant
                    pos <= j <= end,
                    end <= tag@.len(),
                    chunk@ =~= tag@.subrange(pos as int, j as int),
                decreases end - j,
            {
                chunk.push(tag[j]);
                j = j + 1;
            }
            let w = word32(chunk.as_slice());
            proof {
                let rest = tag@.skip(pos as int);
                let k = if rest.len() < 32 {
                    rest.len() as int
                } else {
                    32
                };
                assert(chunk@ =~= rest.take(k));
                assert(rest.skip(k) =~= tag@.skip(end as int));
            }
            acc = fe_add(&acc, &w);
            pos = end;
        }
        proof {
            assert(tag@.skip(tag@.len() as int) =~= Seq::<u8>::empty());
        }
        acc
    }
}

/// Reduce a chunk of at most 32 bytes into the field, zero-padded little-endian.
fn word32(chunk: &[u8]) -> (r: Fe)
    requires
        chunk@.len() <= 32,
    ensures
        r@ == word32_of(chunk@),
{
    let mut le: Vec<u8> = Vec::new();
    extend_bytes(&mut le, chunk);
    while le.len() < 32
        invariant
            chunk@.len() <= le@.len() <= 32,
            le@ =~= chunk@ + Seq::new((le@.len() - chunk@.len()) as nat, |i: int| 0u8),
        decreases 32 - le.len(),
    {
        le.push(0u8);
    }
    proof {
        assert(le@ =~= chunk@ + Seq::new((32 - chunk@.len()) as nat, |i: int| 0u8));
    }
    fe_from_le_bytes_mod_order(le.as_slice())
}

/// Pack bytes into 31-byte little-endian field words.
pub fn bytes_to_field_words(bytes: &[u8]) -> (r: Vec<Fe>)
    ensures
        fe_seq_v(r@) == words31_of(bytes@),
{
    let mut out: Vec<Fe> = Vec::new();
    proof {
        assert(bytes@.skip(0) =~= bytes@);
        assert(fe_seq_v(out@) =~= Seq::<int>::empty());
    }
    let mut pos: usize = 0;
    while pos < bytes.len()
        invariant
            pos <= bytes@.len(),
            words31_of(bytes@) =~= fe_seq_v(out@) + words31_of(bytes@.skip(pos as int)),
        decreases bytes@.len() - pos,
    {
        let end = if bytes.len() - pos < 31 {
            bytes.len()
        } else {
            pos + 31
        };
        let mut chunk: Vec<u8> = Vec::new();
        let mut j: usize = pos;
        while j < end
            invariant
                pos <= j <= end,
                end <= bytes@.len(),
                chunk@ =~= bytes@.subrange(pos as int, j as int),
            decreases end - j,
        {
            chunk.push(bytes[j]);
            j = j + 1;
        }
        let w = word32(chunk.as_slice());
        out.push(w);
        proof {
            let rest = bytes@.skip(pos as int);
            let k = if rest.len() < 31 {
                rest.len() as int
            } else {
                31
            };
            assert(chunk@ =~= rest.take(k));
            assert(rest.skip(k) =~= bytes@.skip(end as int));
            assert(fe_seq_v(out@) =~= fe_seq_v(out@.drop_last()) + seq![w@]);
        }
        pos = end;
    }
    proof {
        assert(words31_of(bytes@.skip(bytes@.len() as int)) =~= Seq::<int>::empty());
        assert(fe_seq_v(out@) =~= fe_seq_v(out@) + Seq::<int>::empty());
    }
    out
}

/// Challenges depend only on the parameter set, the state already absorbed and
/// the label: two transcripts in lockstep draw identical challenges.
pub proof fn lemma_transcript_determinism(
    mds: Seq<Seq<int>>,
    rcf: Seq<Seq<int>>,
    rcp: Seq<int>,
    st1: (Seq<int>, nat),
    st2: (Seq<int>, nat),
    label: Seq<u8>,
)
    requires
        st1 == st2,
    ensures
        tr_challenge_v(mds, rcf, rcp, st1, label).0 == tr_challenge_v(mds, rcf, rcp, st2, label).0,
        tr_challenge_v(mds, rcf, rcp, st1, label).1 == tr_challenge_v(mds, rcf, rcp, st2, label).1,
{
}

} // verus!
