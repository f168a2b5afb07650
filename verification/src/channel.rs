//! The prover/verifier channel: message-typed helpers over a transcript. The
//! send and receive sides perform the identical absorb sequences, so both
//! transcripts evolve in lockstep.

use vstd::prelude::*;
use vstd::string::StringSliceAdditionalSpecFns;
use crate::field::{fe_seq_v, Fe};
use crate::merkle::MerkleProof;
use crate::poseidon::PoseidonParams;
use crate::transcript::{
    tr_absorb_bytes_v, tr_absorb_seq_v, tr_challenge_v, Transcript,
};
use crate::utils::{le_bytes_of, u64_to_le_bytes};

verus! {

/// Indices absorbed in order, each as its 8 little-endian bytes.
pub open spec fn chan_indices_v(
    mds: Seq<Seq<int>>,
    rcf: Seq<Seq<int>>,
    rcp: Seq<int>,
    st: (Seq<int>, nat),
    idxs: Seq<int>,
) -> (Seq<int>, nat)
    decreases idxs.len(),
{
    if idxs.len() == 0 {
        st
    } else {
        tr_absorb_bytes_v(
            mds,
            rcf,
            rcp,
            chan_indices_v(mds, rcf, rcp, st, idxs.drop_last()),
            le_bytes_of(idxs.last() as nat, 8),
        )
    }
}

/// Bytes absorbed in order, each alone.
pub open spec fn chan_u8s_v(
    mds: Seq<Seq<int>>,
    rcf: Seq<Seq<int>>,
    rcp: Seq<int>,
    st: (Seq<int>, nat),
    bytes: Seq<u8>,
) -> (Seq<int>, nat)
    decreases bytes.len(),
{
    if bytes.len() == 0 {
        st
    } else {
        tr_absorb_bytes_v(
            mds,
            rcf,
            rcp,
            chan_u8s_v(mds, rcf, rcp, st, bytes.drop_last()),
            seq![bytes.last()],
        )
    }
}

/// The group-size levels absorbed: each level's length, then its entries.
pub open spec fn chan_gsizes_v(
    mds: Seq<Seq<int>>,
    rcf: Seq<Seq<int>>,
    rcp: Seq<int>,
    st: (Seq<int>, nat),
    gs: Seq<Seq<u8>>,
) -> (Seq<int>, nat)
    decreases gs.len(),
{
    if gs.len() == 0 {
        st
    } else {
        let prev = chan_gsizes_v(mds, rcf, rcp, st, gs.drop_last());
        chan_u8s_v(
            mds,
            rcf,
            rcp,
            tr_absorb_bytes_v(mds, rcf, rcp, prev, le_bytes_of(gs.last().len(), 8)),
            gs.last(),
        )
    }
}

/// The sibling levels absorbed: each level's length, then its digests.
pub open spec fn chan_sibs_v(
    mds: Seq<Seq<int>>,
    rcf: Seq<Seq<int>>,
    rcp: Seq<int>,
    st: (Seq<int>, nat),
    sibs: Seq<Seq<int>>,
) -> (Seq<int>, nat)
    decreases sibs.len(),
{
    if sibs.len() == 0 {
        st
    } else {
        let prev = chan_sibs_v(mds, rcf, rcp, st, sibs.drop_last());
        tr_absorb_seq_v(
            mds,
            rcf,
            rcp,
            tr_absorb_bytes_v(mds, rcf, rcp, prev, le_bytes_of(sibs.last().len(), 8)),
            sibs.last(),
        )
    }
}

/// A digest bound under its label.
pub open spec fn chan_digest_v(
    mds: Seq<Seq<int>>,
    rcf: Seq<Seq<int>>,
    rcp: Seq<int>,
    st: (Seq<int>, nat),
    label: Seq<u8>,
    digest: int,
) -> (Seq<int>, nat) {
    tr_absorb_seq_v(
        mds,
        rcf,
        rcp,
        tr_absorb_bytes_v(
            mds,
            rcf,
            rcp,
            tr_absorb_bytes_v(mds, rcf, rcp, st, "CHAN/SEND/DIGEST".spec_bytes()),
            label,
        ),
        seq![digest],
    )
}

/// A whole opening bound: the marker, the indices, the values, and the proof's
/// arity, group sizes and siblings, each under its sub-label.
pub open spec fn chan_opening_v(
    mds: Seq<Seq<int>>,
    rcf: Seq<Seq<int>>,
    rcp: Seq<int>,
    st: (Seq<int>, nat),
    idxs: Seq<int>,
    vals: Seq<int>,
    proof: MerkleProof,
) -> (Seq<int>, nat) {
    let st1 = tr_absorb_bytes_v(mds, rcf, rcp, st, "CHAN/SEND/OPEN".spec_bytes());
    let st2 = chan_indices_v(mds, rcf, rcp, st1, idxs);
    let st3 = tr_absorb_seq_v(mds, rcf, rcp, st2, vals);
    let st4 = tr_absorb_bytes_v(mds, rcf, rcp, st3, "PROOF/ARITY".spec_bytes());
    let st5 = tr_absorb_bytes_v(mds, rcf, rcp, st4, le_bytes_of(proof.arity as nat, 8));
    let st6 = tr_absorb_bytes_v(mds, rcf, rcp, st5, "PROOF/GROUP_SIZES".spec_bytes());
    let st7 = chan_gsizes_v(mds, rcf, rcp, st6, proof.group_sizes_v());
    let st8 = tr_absorb_bytes_v(mds, rcf, rcp, st7, "PROOF/SIBLINGS".spec_bytes());
    chan_sibs_v(mds, rcf, rcp, st8, proof.siblings_v())
}

/// Absorb a labelled digest.
fn absorb_digest(tr: &mut Transcript, label: &[u8], digest: &Fe)
    requires
        old(tr).wf(),
    ensures
        final(tr).wf(),
        final(tr).params_s() == old(tr).params_s(),
        final(tr)@ == chan_digest_v(
            old(tr).params_s().mds_v(),
            old(tr).params_s().rcf_v(),
            old(tr).params_s().rcp_v(),
            old(tr)@,
            label@,
            digest@,
        ),
{
    let ghost mds = tr.params_s().mds_v();
    let ghost rcf = tr.params_s().rcf_v();
    let ghost rcp = tr.params_s().rcp_v();
    tr.absorb_bytes("CHAN/SEND/DIGEST".as_bytes());
    tr.absorb_bytes(label);
    let ghost st2 = tr@;
    tr.absorb_field(digest);
    proof {
        let one = seq![digest@];
        assert(one.drop_last() =~= Seq::<int>::empty());
        assert(tr_absorb_seq_v(mds, rcf, rcp, st2, one.drop_last()) == st2);
        assert(one.last() == digest@);
        assert(tr_absorb_seq_v(mds, rcf, rcp, st2, one) == crate::transcript::tr_absorb_one_v(
            mds,
            rcf,
            rcp,
            st2,
            digest@,
        ));
    }
}

/// Absorb a whole opening.
fn absorb_opening(tr: &mut Transcript, indices: &[usize], values: &[Fe], prf: &MerkleProof)
    requires
        old(tr).wf(),
    ensures
        final(tr).wf(),
        final(tr).params_s() == old(tr).params_s(),
        final(tr)@ == chan_opening_v(
            old(tr).params_s().mds_v(),
            old(tr).params_s().rcf_v(),
            old(tr).params_s().rcp_v(),
            old(tr)@,
            crate::merkle::usize_seq_v(indices@),
            fe_seq_v(values@),
            *prf,
        ),
{
    let ghost mds = tr.params_s().mds_v();
    let ghost rcf = tr.params_s().rcf_v();
    let ghost rcp = tr.params_s().rcp_v();
    let ghost p = tr.params_s();

    tr.absorb_bytes("CHAN/SEND/OPEN".as_bytes());
    let ghost st1 = tr@;
    let mut i: usize = 0;
    while i < indices.len()
        invariant
            i <= indices@.len(),
            tr.wf(),
            tr.params_s() == p,
            mds == p.mds_v(),
            rcf == p.rcf_v(),
            rcp == p.rcp_v(),
            tr@ == chan_indices_v(
                mds,
                rcf,
                rcp,
                st1,
                crate::merkle::usize_seq_v(indices@).take(i as int),
            ),
        decreases indices@.len() - i,
    {
        let bytes = u64_to_le_bytes(indices[i] as u64);
        tr.absorb_bytes(bytes.as_slice());
        proof {
            let whole = crate::merkle::usize_seq_v(indices@);
            assert(whole.take(i + 1).drop_last() =~= whole.take(i as int));
            assert(whole.take(i + 1).last() == whole[i as int]);
        }
        i = i + 1;
    }
    proof {
        assert(crate::merkle::usize_seq_v(indices@).take(indices@.len() as int)
            =~= crate::merkle::usize_seq_v(indices@));
    }
    tr.absorb_fields(values);
    tr.absorb_bytes("PROOF/ARITY".as_bytes());
    let arity_bytes = u64_to_le_bytes(prf.arity as u64);
    tr.absorb_bytes(arity_bytes.as_slice());
    tr.absorb_bytes("PROOF/GROUP_SIZES".as_bytes());
    let ghost st6 = tr@;
    let mut l: usize = 0;
    while l < prf.group_sizes.len()
        invariant
            l <= prf.group_sizes@.len(),
            tr.wf(),
            tr.params_s() == p,
            mds == p.mds_v(),
            rcf == p.rcf_v(),
            rcp == p.rcp_v(),
            tr@ == chan_gsizes_v(mds, rcf, rcp, st6, prf.group_sizes_v().take(l as int)),
        decreases prf.group_sizes@.len() - l,
    {
        let lvl = &prf.group_sizes[l];
        let len_bytes = u64_to_le_bytes(lvl.len() as u64);
        tr.absorb_bytes(len_bytes.as_slice());
        let ghost stl = tr@;
        let mut k: usize = 0;
        while k < lvl.len()
            invariant
                k <= lvl@.len(),
                tr.wf(),
                tr.params_s() == p,
                mds == p.mds_v(),
                rcf == p.rcf_v(),
                rcp == p.rcp_v(),
                lvl@ == prf.group_sizes@[l as int]@,
                tr@ == chan_u8s_v(mds, rcf, rcp, stl, lvl@.take(k as int)),
            decreases lvl@.len() - k,
        {
            let mut one: Vec<u8> = Vec::new();
            one.push(lvl[k]);
            proof {
                assert(one@ =~= seq![lvl@[k as int]]);
            }
            tr.absorb_bytes(one.as_slice());
            proof {
                assert(lvl@.take(k + 1).drop_last() =~= lvl@.take(k as int));
                assert(lvl@.take(k + 1).last() == lvl@[k as int]);
            }
            k = k + 1;
        }
        proof {
            let gw = prf.group_sizes_v();
            assert(lvl@.take(lvl@.len() as int) =~= lvl@);
            assert(gw.take(l + 1).drop_last() =~= gw.take(l as int));
            assert(gw.take(l + 1).last() == gw[l as int]);
            assert(gw[l as int] == lvl@);
        }
        l = l + 1;
    }
    proof {
        assert(prf.group_sizes_v().take(prf.group_sizes@.len() as int) =~= prf.group_sizes_v());
    }
    tr.absorb_bytes("PROOF/SIBLINGS".as_bytes());
    let ghost st8 = tr@;
    let mut l2: usize = 0;
    while l2 < prf.siblings.len()
        invariant
            l2 <= prf.siblings@.len(),
            tr.wf(),
            tr.params_s() == p,
            mds == p.mds_v(),
            rcf == p.rcf_v(),
            rcp == p.rcp_v(),
            tr@ == chan_sibs_v(mds, rcf, rcp, st8, prf.siblings_v().take(l2 as int)),
        decreases prf.siblings@.len() - l2,
    {
        let lvl = &prf.siblings[l2];
        let len_bytes = u64_to_le_bytes(lvl.len() as u64);
        tr.absorb_bytes(len_bytes.as_slice());
        tr.absorb_fields(lvl.as_slice());
        proof {
            let sw = prf.siblings_v();
            assert(sw.take(l2 + 1).drop_last() =~= sw.take(l2 as int));
            assert(sw.take(l2 + 1).last() == sw[l2 as int]);
            assert(sw[l2 as int] == fe_seq_v(prf.siblings@[l2 as int]@));
        }
        l2 = l2 + 1;
    }
    proof {
        assert(prf.siblings_v().take(prf.siblings@.len() as int) =~= prf.siblings_v());
    }
}

/// The prover's end of the channel.
pub struct ProverChannel {
    tr: Transcript,
}

impl ProverChannel {
    /// The transcript state this channel has bound so far.
    pub closed spec fn tr_v(self) -> (Seq<int>, nat) {
        self.tr@
    }

    pub closed spec fn wf(self) -> bool {
        self.tr.wf()
    }

    pub closed spec fn params_s(self) -> PoseidonParams {
        self.tr.params_s()
    }

    pub fn new(transcript: Transcript) -> (r: ProverChannel)
        requires
            transcript.wf(),
        ensures
            r.wf(),
            r.tr_v() == transcript@,
            r.params_s() == transcript.params_s(),
    {
        ProverChannel { tr: transcript }
    }

    /// Bind a labelled digest.
    pub fn send_digest(&mut self, label: &[u8], digest: &Fe)
        requires
            old(self).wf(),
        ensures
            final(self).wf(),
            final(self).params_s() == old(self).params_s(),
            final(self).tr_v() == chan_digest_v(
                old(self).params_s().mds_v(),
                old(self).params_s().rcf_v(),
                old(self).params_s().rcp_v(),
                old(self).tr_v(),
                label@,
                digest@,
            ),
    {
        absorb_digest(&mut self.tr, label, digest);
    }

    /// Draw a challenge scalar.
    pub fn challenge_scalar(&mut self, label: &[u8]) -> (r: Fe)
        requires
            old(self).wf(),
        ensures
            final(self).wf(),
            final(self).params_s() == old(self).params_s(),
            r@ == tr_challenge_v(
                old(self).params_s().mds_v(),
                old(self).params_s().rcf_v(),
                old(self).params_s().rcp_v(),
                old(self).tr_v(),
                label@,
            ).0,
            final(self).tr_v() == tr_challenge_v(
                old(self).params_s().mds_v(),
                old(self).params_s().rcf_v(),
                old(self).params_s().rcp_v(),
                old(self).tr_v(),
                label@,
            ).1,
    {
        self.tr.challenge(label)
    }

    /// Bind a whole opening.
    pub fn send_opening(&mut self, indices: &[usize], values: &[Fe], prf: &MerkleProof)
        requires
            old(self).wf(),
        ensures
            final(self).wf(),
            final(self).params_s() == old(self).params_s(),
            final(self).tr_v() == chan_opening_v(
                old(self).params_s().mds_v(),
                old(self).params_s().rcf_v(),
                old(self).params_s().rcp_v(),
                old(self).tr_v(),
                crate::merkle::usize_seq_v(indices@),
                fe_seq_v(values@),
                *prf,
            ),
    {
        absorb_opening(&mut self.tr, indices, values, prf);
    }
}

/// The verifier's end of the channel: the receive helpers perform the same
/// absorbs as the prover's send helpers.
pub struct VerifierChannel {
    tr: Transcript,
}

impl VerifierChannel {
    pub closed spec fn tr_v(self) -> (Seq<int>, nat) {
        self.tr@
    }

    pub closed spec fn wf(self) -> bool {
        self.tr.wf()
    }

    pub closed spec fn params_s(self) -> PoseidonParams {
        self.tr.params_s()
    }

    pub fn new(transcript: Transcript) -> (r: VerifierChannel)
        requires
            transcript.wf(),
        ensures
            r.wf(),
            r.tr_v() == transcript@,
            r.params_s() == transcript.params_s(),
    {
        VerifierChannel { tr: transcript }
    }

    /// Bind a labelled digest, exactly as the sender does.
    pub fn recv_digest(&mut self, label: &[u8], digest: &Fe)
        requires
            old(self).wf(),
        ensures
            final(self).wf(),
            final(self).params_s() == old(self).params_s(),
            final(self).tr_v() == chan_digest_v(
                old(self).params_s().mds_v(),
                old(self).params_s().rcf_v(),
                old(self).params_s().rcp_v(),
                old(self).tr_v(),
                label@,
                digest@,
            ),
    {
        absorb_digest(&mut self.tr, label, digest);
    }

    /// Draw a challenge scalar.
    pub fn challenge_scalar(&mut self, label: &[u8]) -> (r: Fe)
        requires
            old(self).wf(),
        ensures
            final(self).wf(),
            final(self).params_s() == old(self).params_s(),
            r@ == tr_challenge_v(
                old(self).params_s().mds_v(),
                old(self).params_s().rcf_v(),
                old(self).params_s().rcp_v(),
                old(self).tr_v(),
                label@,
            ).0,
            final(self).tr_v() == tr_challenge_v(
                old(self).params_s().mds_v(),
                old(self).params_s().rcf_v(),
                old(self).params_s().rcp_v(),
                old(self).tr_v(),
                label@,
            ).1,
    {
        self.tr.challenge(label)
    }

    /// Bind a whole opening, exactly as the sender does.
    pub fn recv_opening(&mut self, indices: &[usize], values: &[Fe], prf: &MerkleProof)
        requires
            old(self).wf(),
        ensures
            final(self).wf(),
            final(self).params_s() == old(self).params_s(),
            final(self).tr_v() == chan_opening_v(
                old(self).params_s().mds_v(),
                old(self).params_s().rcf_v(),
                old(self).params_s().rcp_v(),
                old(self).tr_v(),
                crate::merkle::usize_seq_v(indices@),
                fe_seq_v(values@),
                *prf,
            ),
    {
        absorb_opening(&mut self.tr, indices, values, prf);
    }
}

} // verus!
