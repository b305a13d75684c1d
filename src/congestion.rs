//! Acknowledgement of sent DATA chunks and the loss reaction of the
//! congestion controller: a SACK advances the cumulative TSN ack point,
//! releases the chunks it covers, and counts a miss for each chunk that its
//! gap reports skip; the third miss marks the chunk for fast retransmit and
//! halves the congestion window.
use vstd::prelude::*;

use crate::error::Error;

verus! {

/// Misses after which a chunk is retransmitted at once.
pub const FAST_RETRANSMIT_MISSES: u32 = 3;

/// A DATA chunk sent and not yet acknowledged.
#[derive(Debug, Copy, Clone, PartialEq, Eq, Structural)]
pub struct SentChunk {
    pub tsn: u32,
    pub nbytes: u32,
    pub miss_indications: u32,
    pub fast_retransmit: bool,
}

/// A gap ack block: the TSNs that lie `start` to `end` after the
/// cumulative TSN ack were received.
#[derive(Debug, Copy, Clone, PartialEq, Eq, Structural)]
pub struct GapAckBlock {
    pub start: u16,
    pub end: u16,
}

/// The send side of an association: the cumulative TSN ack point, the
/// congestion window and slow-start threshold in bytes, and the chunks in
/// flight in TSN order.
pub struct CongestionControl {
    cumulative_tsn_ack_point: u32,
    mtu: u32,
    cwnd: u32,
    ssthresh: u32,
    partial_bytes_acked: u32,
    inflight: Vec<SentChunk>,
}

/// The send side as mathematical values.
pub struct CongestionModel {
    pub cumulative_tsn_ack_point: u32,
    pub mtu: u32,
    pub cwnd: u32,
    pub ssthresh: u32,
    pub partial_bytes_acked: u32,
    pub inflight: Seq<SentChunk>,
}

impl View for CongestionControl {
    type V = CongestionModel;

    closed spec fn view(&self) -> CongestionModel {
        CongestionModel {
            cumulative_tsn_ack_point: self.cumulative_tsn_ack_point,
            mtu: self.mtu,
            cwnd: self.cwnd,
            ssthresh: self.ssthresh,
            partial_bytes_acked: self.partial_bytes_acked,
            inflight: self.inflight@,
        }
    }
}

/// Half the TSN space: serial-number order compares TSNs less than this
/// apart.
pub const SERIAL_HALF: u32 = 0x8000_0000;

/// How far `t` lies after `base` in the TSN space, which wraps at 2^32.
pub open spec fn off(t: u32, base: u32) -> int {
    if t >= base {
        t - base
    } else {
        t + 0x1_0000_0000 - base
    }
}

/// Whether `a` is at or after `b` in serial-number order.
pub open spec fn serial_ge(a: u32, b: u32) -> bool {
    off(a, b) < SERIAL_HALF
}

/// The window is at least one MTU, and the chunks in flight lie after the
/// ack point, within half the TSN space, in strictly increasing serial
/// order.
pub open spec fn wf(c: CongestionModel) -> bool {
    &&& 0 < c.mtu <= c.cwnd
    &&& forall|i: int|
        0 <= i < c.inflight.len() ==> 0 < off((#[trigger] c.inflight[i]).tsn, c.cumulative_tsn_ack_point) < SERIAL_HALF
    &&& forall|i: int, j: int|
        0 <= i < j < c.inflight.len() ==> off((#[trigger] c.inflight[i]).tsn, c.cumulative_tsn_ack_point) < off(
            (#[trigger] c.inflight[j]).tsn,
            c.cumulative_tsn_ack_point,
        )
}

/// Offsets from a base that lies between: a TSN after `cum` by `d` lies
/// after `base` by `d` plus the offset of `cum`.
pub proof fn lemma_off_shift(t: u32, base: u32, cum: u32)
    requires
        off(cum, base) <= off(t, base),
    ensures
        off(t, cum) == off(t, base) - off(cum, base),
{
}

/// Whether a gap ack block of the SACK covers `tsn`.
pub open spec fn gap_acked(cum: u32, blocks: Seq<GapAckBlock>, tsn: u32) -> bool {
    exists|i: int| 0 <= i < blocks.len() && (#[trigger] blocks[i]).start <= off(tsn, cum) <= blocks[i].end
}

/// Whether the SACK reports `tsn` missing: no block covers it and some
/// block covers a later TSN.
pub open spec fn missed(cum: u32, blocks: Seq<GapAckBlock>, tsn: u32) -> bool {
    &&& !gap_acked(cum, blocks, tsn)
    &&& exists|i: int| 0 <= i < blocks.len() && off(tsn, cum) < (#[trigger] blocks[i]).end
}

/// A chunk after the SACK: a reported miss counts, and the third marks it
/// for fast retransmit.
pub open spec fn counted(c: SentChunk, cum: u32, blocks: Seq<GapAckBlock>) -> SentChunk {
    if missed(cum, blocks, c.tsn) && c.miss_indications < u32::MAX {
        SentChunk {
            miss_indications: (c.miss_indications + 1) as u32,
            fast_retransmit: c.fast_retransmit || c.miss_indications + 1 >= FAST_RETRANSMIT_MISSES,
            ..c
        }
    } else {
        c
    }
}

/// Whether the SACK brings the chunk to its third miss.
pub open spec fn newly_lost(c: SentChunk, cum: u32, blocks: Seq<GapAckBlock>) -> bool {
    missed(cum, blocks, c.tsn) && c.miss_indications + 1 == FAST_RETRANSMIT_MISSES
}

/// The TSNs of the chunks that the SACK brings to their third miss, in order.
pub open spec fn lost_tsns(s: Seq<SentChunk>, cum: u32, blocks: Seq<GapAckBlock>) -> Seq<u32>
    decreases s.len(),
{
    if s.len() == 0 {
        Seq::empty()
    } else if newly_lost(s.last(), cum, blocks) {
        lost_tsns(s.drop_last(), cum, blocks).push(s.last().tsn)
    } else {
        lost_tsns(s.drop_last(), cum, blocks)
    }
}

/// Number of chunks at the front of `s` that the cumulative ack `cum`
/// covers, offsets counted from the ack point `base`.
pub open spec fn covered(s: Seq<SentChunk>, base: u32, cum: u32) -> int
    decreases s.len(),
{
    if s.len() == 0 || off(s[0].tsn, base) > off(cum, base) {
        0
    } else {
        1 + covered(s.drop_first(), base, cum)
    }
}

/// The bytes of the chunks of `s`.
pub open spec fn bytes_of(s: Seq<SentChunk>) -> nat
    decreases s.len(),
{
    if s.len() == 0 {
        0
    } else {
        bytes_of(s.drop_last()) + s.last().nbytes as nat
    }
}

/// The smaller of `a` and the largest `u32`.
pub open spec fn cap(a: int) -> u32 {
    if a <= u32::MAX { a as u32 } else { u32::MAX }
}

/// The window and partial bytes acked after `acked` new bytes are
/// acknowledged. In slow start (window at most the threshold) the window
/// grows by the acknowledged bytes, at most one MTU; in congestion
/// avoidance the bytes add up, and each full window of them grows the
/// window by one MTU. Sums stop at the largest `u32`.
pub open spec fn grown(c: CongestionModel, acked: u32) -> (u32, u32) {
    if acked == 0 {
        (c.cwnd, c.partial_bytes_acked)
    } else if c.cwnd <= c.ssthresh {
        (cap(c.cwnd + if acked <= c.mtu { acked } else { c.mtu }), c.partial_bytes_acked)
    } else {
        let p = cap(c.partial_bytes_acked + acked);
        if p >= c.cwnd {
            (cap(c.cwnd + c.mtu), (p - c.cwnd) as u32)
        } else {
            (c.cwnd, p)
        }
    }
}

/// The send side after a SACK with cumulative TSN ack `cum` and gap ack
/// blocks `blocks`. A SACK whose `cum` is before the ack point in serial
/// order is stale and
/// changes nothing. Otherwise the ack point becomes `cum`, the chunks up to
/// it leave, the others count their misses. If any reached its third miss,
/// the slow-start threshold becomes half the window, the window half but at
/// least one MTU, and the partial bytes acked zero; otherwise the window
/// grows by the bytes that left (see `grown`).
pub open spec fn after_sack(c: CongestionModel, cum: u32, blocks: Seq<GapAckBlock>) -> CongestionModel {
    if !serial_ge(cum, c.cumulative_tsn_ack_point) {
        c
    } else {
        let rest = c.inflight.subrange(covered(c.inflight, c.cumulative_tsn_ack_point, cum), c.inflight.len() as int);
        let loss = lost_tsns(rest, cum, blocks).len() > 0;
        let acked = cap(bytes_of(c.inflight.take(covered(c.inflight, c.cumulative_tsn_ack_point, cum))) as int);
        CongestionModel {
            cumulative_tsn_ack_point: cum,
            inflight: Seq::new(rest.len(), |i: int| counted(rest[i], cum, blocks)),
            ssthresh: if loss { c.cwnd / 2 } else { c.ssthresh },
            cwnd: if loss { if c.cwnd / 2 >= c.mtu { c.cwnd / 2 } else { c.mtu } } else { grown(c, acked).0 },
            partial_bytes_acked: if loss { 0 } else { grown(c, acked).1 },
            ..c
        }
    }
}

/// The TSNs that a SACK marks for immediate retransmission.
pub open spec fn sack_retransmits(c: CongestionModel, cum: u32, blocks: Seq<GapAckBlock>) -> Seq<u32> {
    if !serial_ge(cum, c.cumulative_tsn_ack_point) {
        Seq::empty()
    } else {
        lost_tsns(c.inflight.subrange(covered(c.inflight, c.cumulative_tsn_ack_point, cum), c.inflight.len() as int), cum, blocks)
    }
}

/// The ack point covers exactly the first `k` chunks of `s` when those are
/// at or below it and the next, if any, is above it.
pub proof fn lemma_covered(s: Seq<SentChunk>, base: u32, cum: u32, k: int)
    requires
        0 <= k <= s.len(),
        forall|j: int| 0 <= j < k ==> off((#[trigger] s[j]).tsn, base) <= off(cum, base),
        k == s.len() || off(s[k].tsn, base) > off(cum, base),
    ensures
        covered(s, base, cum) == k,
    decreases k,
{
    if k > 0 {
        let t = s.drop_first();
        assert forall|j: int| 0 <= j < k - 1 implies off((#[trigger] t[j]).tsn, base) <= off(cum, base) by {
            assert(t[j] == s[j + 1]);
        }
        lemma_covered(t, base, cum, k - 1);
    }
}

/// The send side after a sequence of SACKs, each given by its cumulative
/// TSN ack and its gap ack blocks, in order.
pub open spec fn after_sacks(c: CongestionModel, sacks: Seq<(u32, Seq<GapAckBlock>)>) -> CongestionModel
    decreases sacks.len(),
{
    if sacks.len() == 0 {
        c
    } else {
        let prev = after_sacks(c, sacks.drop_last());
        after_sack(prev, sacks.last().0, sacks.last().1)
    }
}

/// The cumulative TSN ack point never moves back in serial order, whatever
/// SACK arrives.
pub proof fn lemma_ack_point_monotone(c: CongestionModel, cum: u32, blocks: Seq<GapAckBlock>)
    ensures
        serial_ge(after_sack(c, cum, blocks).cumulative_tsn_ack_point, c.cumulative_tsn_ack_point),
{
}

/// The cumulative TSN ack point never moves back in serial order across any
/// sequence of SACKs: each SACK leaves it at or after where it was.
pub proof fn lemma_ack_point_monotone_all(c: CongestionModel, sacks: Seq<(u32, Seq<GapAckBlock>)>)
    ensures
        forall|i: int|
            0 <= i < sacks.len() ==> serial_ge(
                #[trigger] after_sacks(c, sacks.take(i + 1)).cumulative_tsn_ack_point,
                after_sacks(c, sacks.take(i)).cumulative_tsn_ack_point,
            ),
{
    assert forall|i: int| 0 <= i < sacks.len() implies serial_ge(
        #[trigger] after_sacks(c, sacks.take(i + 1)).cumulative_tsn_ack_point,
        after_sacks(c, sacks.take(i)).cumulative_tsn_ack_point,
    ) by {
        assert(sacks.take(i + 1).drop_last() =~= sacks.take(i));
        let prev = after_sacks(c, sacks.take(i));
        lemma_ack_point_monotone(prev, sacks[i].0, sacks[i].1);
    }
}

/// When a SACK brings a chunk in flight to its third miss, the chunk is
/// handed out for retransmission at once and marked for fast retransmit,
/// and the slow-start threshold becomes half the window before the loss.
pub proof fn lemma_third_miss_retransmits(c: CongestionModel, cum: u32, blocks: Seq<GapAckBlock>, i: int)
    requires
        wf(c),
        serial_ge(cum, c.cumulative_tsn_ack_point),
        0 <= i < c.inflight.len(),
        off(c.inflight[i].tsn, c.cumulative_tsn_ack_point) > off(cum, c.cumulative_tsn_ack_point),
        c.inflight[i].miss_indications == 2,
        missed(cum, blocks, c.inflight[i].tsn),
    ensures
        sack_retransmits(c, cum, blocks).contains(c.inflight[i].tsn),
        after_sack(c, cum, blocks).ssthresh == c.cwnd / 2,
        exists|j: int|
            0 <= j < after_sack(c, cum, blocks).inflight.len() && (#[trigger] after_sack(c, cum, blocks).inflight[j]).tsn
                == c.inflight[i].tsn && after_sack(c, cum, blocks).inflight[j].fast_retransmit,
{
    let s = c.inflight;
    let k = covered(s, c.cumulative_tsn_ack_point, cum);
    lemma_covered_split(s, c.cumulative_tsn_ack_point, cum);
    assert(k <= i);
    let rest = s.subrange(k, s.len() as int);
    assert(rest[i - k] == s[i]);
    lemma_lost_tsns_contains(rest, cum, blocks, i - k);
    let a = after_sack(c, cum, blocks);
    assert(a.inflight[i - k] == counted(rest[i - k], cum, blocks));
}

/// The chunks before position `covered(s, base, cum)` are at or before
/// `cum`, and the one at it, if any, is after.
pub proof fn lemma_covered_split(s: Seq<SentChunk>, base: u32, cum: u32)
    ensures
        0 <= covered(s, base, cum) <= s.len(),
        forall|j: int| 0 <= j < covered(s, base, cum) ==> off((#[trigger] s[j]).tsn, base) <= off(cum, base),
        covered(s, base, cum) < s.len() ==> off(s[covered(s, base, cum)].tsn, base) > off(cum, base),
    decreases s.len(),
{
    if s.len() > 0 && off(s[0].tsn, base) <= off(cum, base) {
        let t = s.drop_first();
        lemma_covered_split(t, base, cum);
        assert forall|j: int| 0 <= j < covered(s, base, cum) implies off((#[trigger] s[j]).tsn, base) <= off(cum, base) by {
            if j > 0 {
                assert(s[j] == t[j - 1]);
            }
        }
        if covered(s, base, cum) < s.len() {
            assert(s[covered(s, base, cum)] == t[covered(t, base, cum)]);
        }
    }
}

/// A chunk that the SACK brings to its third miss is among the lost TSNs.
proof fn lemma_lost_tsns_contains(s: Seq<SentChunk>, cum: u32, blocks: Seq<GapAckBlock>, i: int)
    requires
        0 <= i < s.len(),
        newly_lost(s[i], cum, blocks),
    ensures
        lost_tsns(s, cum, blocks).contains(s[i].tsn),
    decreases s.len(),
{
    if i == s.len() - 1 {
        assert(lost_tsns(s, cum, blocks).last() == s[i].tsn);
    } else {
        let t = s.drop_last();
        assert(t[i] == s[i]);
        lemma_lost_tsns_contains(t, cum, blocks, i);
        let l = lost_tsns(t, cum, blocks);
        let x = choose|x: int| 0 <= x < l.len() && l[x] == s[i].tsn;
        if newly_lost(s.last(), cum, blocks) {
            assert(lost_tsns(s, cum, blocks)[x] == s[i].tsn);
        }
    }
}

/// How far `t` lies after `base`, wrapping at 2^32.
fn tsn_offset(t: u32, base: u32) -> (r: u32)
    ensures
        r == off(t, base),
{
    if t >= base {
        t - base
    } else {
        ((t as u64 + 0x1_0000_0000) - base as u64) as u32
    }
}

/// Whether a gap ack block covers `tsn`.
fn is_gap_acked(cum: u32, blocks: &Vec<GapAckBlock>, tsn: u32) -> (r: bool)
    ensures
        r == gap_acked(cum, blocks@, tsn),
{
    let mut i: usize = 0;
    while i < blocks.len()
        invariant
            0 <= i <= blocks@.len(),
            forall|j: int| 0 <= j < i ==> !((#[trigger] blocks@[j]).start <= off(tsn, cum) <= blocks@[j].end),
        decreases blocks@.len() - i,
    {
        let b = blocks[i];
        let d = tsn_offset(tsn, cum);
        if b.start as u32 <= d && d <= b.end as u32 {
            return true;
        }
        i += 1;
    }
    false
}

/// Whether the SACK reports `tsn` missing.
fn is_missed(cum: u32, blocks: &Vec<GapAckBlock>, tsn: u32) -> (r: bool)
    ensures
        r == missed(cum, blocks@, tsn),
{
    if is_gap_acked(cum, blocks, tsn) {
        return false;
    }
    let mut i: usize = 0;
    while i < blocks.len()
        invariant
            0 <= i <= blocks@.len(),
            forall|j: int| 0 <= j < i ==> !(off(tsn, cum) < (#[trigger] blocks@[j]).end),
            !gap_acked(cum, blocks@, tsn),
        decreases blocks@.len() - i,
    {
        if tsn_offset(tsn, cum) < blocks[i].end as u32 {
            assert(0 <= i < blocks@.len() && off(tsn, cum) < blocks@[i as int].end);
            return true;
        }
        i += 1;
    }
    false
}

impl CongestionControl {
    /// The send side of a new association: nothing in flight, a window of
    /// four MTUs and an unbounded slow-start threshold. An MTU of zero is
    /// refused.
    pub fn new(cumulative_tsn_ack_point: u32, mtu: u16) -> (r: Result<CongestionControl, Error>)
        ensures
            mtu == 0 ==> r == Err::<CongestionControl, Error>(Error::ErrZeroMtu),
            mtu > 0 ==> r is Ok && r->Ok_0@ == (CongestionModel {
                cumulative_tsn_ack_point,
                mtu: mtu as u32,
                cwnd: (4 * mtu) as u32,
                ssthresh: u32::MAX,
                partial_bytes_acked: 0,
                inflight: Seq::empty(),
            }),
            r is Ok ==> wf(r->Ok_0@),
    {
        if mtu == 0 {
            return Err(Error::ErrZeroMtu);
        }
        Ok(
            CongestionControl {
                cumulative_tsn_ack_point,
                mtu: mtu as u32,
                cwnd: 4 * mtu as u32,
                ssthresh: u32::MAX,
                partial_bytes_acked: 0,
                inflight: Vec::new(),
            },
        )
    }

    /// The highest TSN up to which the peer has acknowledged everything.
    pub fn cumulative_tsn_ack_point(&self) -> (r: u32)
        ensures
            r == self@.cumulative_tsn_ack_point,
    {
        self.cumulative_tsn_ack_point
    }

    /// The congestion window in bytes.
    pub fn cwnd(&self) -> (r: u32)
        ensures
            r == self@.cwnd,
    {
        self.cwnd
    }

    /// The slow-start threshold in bytes.
    pub fn ssthresh(&self) -> (r: u32)
        ensures
            r == self@.ssthresh,
    {
        self.ssthresh
    }

    /// The bytes acknowledged towards the next window increase in
    /// congestion avoidance.
    pub fn partial_bytes_acked(&self) -> (r: u32)
        ensures
            r == self@.partial_bytes_acked,
    {
        self.partial_bytes_acked
    }

    /// The chunk in flight at position `i`, in TSN order.
    pub fn inflight(&self, i: usize) -> (r: Option<SentChunk>)
        ensures
            i < self@.inflight.len() ==> r == Some(self@.inflight[i as int]),
            i >= self@.inflight.len() ==> r is None,
    {
        if i < self.inflight.len() {
            Some(self.inflight[i])
        } else {
            None
        }
    }

    /// Records a DATA chunk of `nbytes` bytes sent with `tsn`. A TSN that
    /// does not lie after the ack point and every TSN in flight, within half
    /// the TSN space of the ack point, is refused.
    pub fn send(&mut self, tsn: u32, nbytes: u32) -> (r: Result<(), Error>)
        requires
            wf(old(self)@),
        ensures
            wf(final(self)@),
            ({
                let o = old(self)@;
                let b = o.cumulative_tsn_ack_point;
                let fresh = 0 < off(tsn, b) < SERIAL_HALF && (o.inflight.len() == 0 || off(tsn, b) > off(
                    o.inflight.last().tsn,
                    b,
                ));
                &&& fresh ==> r is Ok && final(self)@ == (CongestionModel {
                    inflight: o.inflight.push(SentChunk { tsn, nbytes, miss_indications: 0, fast_retransmit: false }),
                    ..o
                })
                &&& !fresh ==> r == Err::<(), Error>(Error::ErrTsnNotIncreasing) && final(self)@ == o
            }),
    {
        let base = self.cumulative_tsn_ack_point;
        let d = tsn_offset(tsn, base);
        if d == 0 || d >= SERIAL_HALF {
            return Err(Error::ErrTsnNotIncreasing);
        }
        let n = self.inflight.len();
        if n > 0 && d <= tsn_offset(self.inflight[n - 1].tsn, base) {
            return Err(Error::ErrTsnNotIncreasing);
        }
        self.inflight.push(SentChunk { tsn, nbytes, miss_indications: 0, fast_retransmit: false });
        proof {
            let s = self@.inflight;
            assert forall|i: int, j: int| 0 <= i < j < s.len() implies off((#[trigger] s[i]).tsn, base) < off((#[trigger] s[j]).tsn, base) by {
                if j == s.len() - 1 && i < j {
                    assert(s[i] == old(self)@.inflight[i]);
                    if i < n - 1 {
                        assert(off(old(self)@.inflight[i].tsn, base) < off(old(self)@.inflight[n - 1].tsn, base));
                    }
                } else {
                    assert(s[i] == old(self)@.inflight[i]);
                    assert(s[j] == old(self)@.inflight[j]);
                }
            }
            assert forall|i: int| 0 <= i < s.len() implies 0 < off((#[trigger] s[i]).tsn, base) < SERIAL_HALF by {
                if i < n {
                    assert(s[i] == old(self)@.inflight[i]);
                }
            }
        }
        Ok(())
    }

    /// Processes a SACK with cumulative TSN ack `cum` and gap ack blocks
    /// `blocks`; see `after_sack`. Returns the TSNs to retransmit now.
    pub fn handle_sack(&mut self, cum: u32, blocks: &Vec<GapAckBlock>) -> (r: Vec<u32>)
        requires
            wf(old(self)@),
        ensures
            final(self)@ == after_sack(old(self)@, cum, blocks@),
            r@ == sack_retransmits(old(self)@, cum, blocks@),
            wf(final(self)@),
    {
        let base = self.cumulative_tsn_ack_point;
        let dc = tsn_offset(cum, base);
        if dc >= SERIAL_HALF {
            return Vec::new();
        }
        let ghost s = self@.inflight;
        let n = self.inflight.len();
        let mut k: usize = 0;
        let mut acked: u64 = 0;
        while k < n && tsn_offset(self.inflight[k].tsn, base) <= dc
            invariant
                0 <= k <= n == s.len(),
                s == self@.inflight,
                base == self@.cumulative_tsn_ack_point,
                dc == off(cum, base),
                forall|j: int| 0 <= j < k ==> off((#[trigger] s[j]).tsn, base) <= dc,
                acked == cap(bytes_of(s.take(k as int)) as int),
            decreases n - k,
        {
            assert(s.take(k + 1).drop_last() =~= s.take(k as int));
            let sum = acked + self.inflight[k].nbytes as u64;
            acked = if sum <= u32::MAX as u64 { sum } else { u32::MAX as u64 };
            k += 1;
        }
        proof {
            lemma_covered(s, base, cum, k as int);
        }
        let ghost rest = s.subrange(k as int, n as int);
        let mut kept: Vec<SentChunk> = Vec::new();
        let mut lost: Vec<u32> = Vec::new();
        let mut i: usize = k;
        while i < n
            invariant
                k <= i <= n == s.len(),
                s == self@.inflight,
                rest == s.subrange(k as int, n as int),
                kept@ == Seq::new((i - k) as nat, |j: int| counted(rest[j], cum, blocks@)),
                lost@ == lost_tsns(rest.take(i - k), cum, blocks@),
            decreases n - i,
        {
            let c = self.inflight[i];
            let m = is_missed(cum, blocks, c.tsn);
            let nc = if m && c.miss_indications < u32::MAX {
                SentChunk {
                    tsn: c.tsn,
                    nbytes: c.nbytes,
                    miss_indications: c.miss_indications + 1,
                    fast_retransmit: c.fast_retransmit || c.miss_indications + 1 >= FAST_RETRANSMIT_MISSES,
                }
            } else {
                c
            };
            proof {
                assert(c == rest[i - k]);
                assert(rest.take(i - k + 1).drop_last() =~= rest.take(i - k));
            }
            if m && c.miss_indications == FAST_RETRANSMIT_MISSES - 1 {
                lost.push(c.tsn);
            }
            kept.push(nc);
            i += 1;
            assert(kept@ =~= Seq::new((i - k) as nat, |j: int| counted(rest[j], cum, blocks@)));
        }
        assert(rest.take(n - k) =~= rest);
        proof {
            let o = old(self)@;
            assert forall|a: int| 0 <= a < kept@.len() implies 0 < off((#[trigger] kept@[a]).tsn, cum) < SERIAL_HALF by {
                assert(kept@[a].tsn == s[a + k].tsn);
                if a > 0 {
                    assert(off(s[k as int].tsn, base) < off(s[a + k].tsn, base));
                }
                lemma_off_shift(s[a + k].tsn, base, cum);
            }
            assert forall|a: int, b: int| 0 <= a < b < kept@.len() implies off((#[trigger] kept@[a]).tsn, cum) < off((#[trigger] kept@[b]).tsn, cum) by {
                assert(kept@[a].tsn == s[a + k].tsn);
                assert(kept@[b].tsn == s[b + k].tsn);
                if a > 0 {
                    assert(off(s[k as int].tsn, base) < off(s[a + k].tsn, base));
                }
                assert(off(s[k as int].tsn, base) < off(s[b + k].tsn, base));
                lemma_off_shift(s[a + k].tsn, base, cum);
                lemma_off_shift(s[b + k].tsn, base, cum);
            }
        }
        self.inflight = kept;
        self.cumulative_tsn_ack_point = cum;
        if lost.len() > 0 {
            let half = self.cwnd / 2;
            self.ssthresh = half;
            self.cwnd = if half >= self.mtu { half } else { self.mtu };
            self.partial_bytes_acked = 0;
        } else if acked > 0 {
            let a = acked as u32;
            if self.cwnd <= self.ssthresh {
                let inc = if a <= self.mtu { a } else { self.mtu };
                self.cwnd = self.cwnd.saturating_add(inc);
            } else {
                let p = self.partial_bytes_acked.saturating_add(a);
                if p >= self.cwnd {
                    self.partial_bytes_acked = p - self.cwnd;
                    self.cwnd = self.cwnd.saturating_add(self.mtu);
                } else {
                    self.partial_bytes_acked = p;
                }
            }
        }
        lost
    }
}

} // verus!
