//! Partial reliability of streams: when a message is abandoned instead of
//! retransmitted, and the I-FORWARD-TSN advisory that tells the peer.
use vstd::prelude::*;

use crate::chunk::chunk_i_forward_tsn::{ChunkIForwardTsn, ChunkIForwardTsnStream};

verus! {

/// How a stream retransmits its messages.
#[derive(Debug, Copy, Clone, PartialEq, Eq, Structural)]
pub enum ReliabilityType {
    /// Until acknowledged.
    Reliable,
    /// Up to a number of transmissions.
    Rexmit,
    /// Up to a lifetime in milliseconds.
    Timed,
}

/// Whether a message is abandoned: a `Rexmit` stream abandons it once it
/// was sent `value` times; a `Timed` stream once `value` milliseconds have
/// passed since its first transmission at `since_ms` (none if `now_ms` is
/// earlier); a `Reliable` stream never does.
pub open spec fn abandons_spec(t: ReliabilityType, value: u32, nsent: u32, since_ms: u64, now_ms: u64) -> bool {
    match t {
        ReliabilityType::Reliable => false,
        ReliabilityType::Rexmit => nsent >= value,
        ReliabilityType::Timed => now_ms >= since_ms && now_ms - since_ms >= value,
    }
}

/// Decides whether a message is abandoned; see `abandons_spec`.
pub fn abandons(t: ReliabilityType, value: u32, nsent: u32, since_ms: u64, now_ms: u64) -> (r: bool)
    ensures
        r == abandons_spec(t, value, nsent, since_ms, now_ms),
{
    match t {
        ReliabilityType::Reliable => false,
        ReliabilityType::Rexmit => nsent >= value,
        ReliabilityType::Timed => now_ms >= since_ms && now_ms - since_ms >= value as u64,
    }
}

/// Whether two entries are for the same stream and the same (ordered or
/// unordered) sequence.
pub open spec fn same_key(a: ChunkIForwardTsnStream, b: ChunkIForwardTsnStream) -> bool {
    a.identifier == b.identifier && a.unordered == b.unordered
}

/// Whether `out` has an entry for the stream and sequence of `x`.
pub open spec fn has_key(out: Seq<ChunkIForwardTsnStream>, x: ChunkIForwardTsnStream) -> bool {
    exists|a: int| 0 <= a < out.len() && same_key(#[trigger] out[a], x)
}

/// `out` advises exactly the abandoned messages `msgs`: one entry for each
/// stream and sequence among them, with the highest MID abandoned there.
pub open spec fn advises(out: Seq<ChunkIForwardTsnStream>, msgs: Seq<ChunkIForwardTsnStream>) -> bool {
    &&& forall|a: int, b: int| 0 <= a < b < out.len() ==> !same_key(#[trigger] out[a], #[trigger] out[b])
    &&& forall|a: int| 0 <= a < out.len() ==> msgs.contains(#[trigger] out[a])
    &&& forall|a: int, k: int|
        0 <= a < out.len() && 0 <= k < msgs.len() && same_key(#[trigger] out[a], #[trigger] msgs[k]) ==> msgs[k].mid <= out[a].mid
    &&& forall|k: int| 0 <= k < msgs.len() ==> has_key(out, #[trigger] msgs[k])
}

/// Adding an entry for a stream and sequence that `out` does not advise
/// yet keeps `out` exact when the message joins `msgs`.
proof fn lemma_advises_push(old_out: Seq<ChunkIForwardTsnStream>, pre: Seq<ChunkIForwardTsnStream>, m: ChunkIForwardTsnStream)
    requires
        advises(old_out, pre),
        forall|a: int| 0 <= a < old_out.len() ==> !same_key(#[trigger] old_out[a], m),
    ensures
        advises(old_out.push(m), pre.push(m)),
{
    let o = old_out.push(m);
    let post = pre.push(m);
    let i = pre.len();
    assert forall|a: int| 0 <= a < o.len() implies post.contains(#[trigger] o[a]) by {
        if a < old_out.len() {
            assert(o[a] == old_out[a]);
            let x = choose|x: int| 0 <= x < pre.len() && pre[x] == old_out[a];
            assert(post[x] == o[a]);
        } else {
            assert(post[i as int] == o[a]);
        }
    }
    assert forall|a: int, b: int| 0 <= a < b < o.len() implies !same_key(#[trigger] o[a], #[trigger] o[b]) by {
        assert(o[a] == old_out[a]);
        if b < old_out.len() {
            assert(o[b] == old_out[b]);
        }
    }
    assert forall|a: int, k: int|
        0 <= a < o.len() && 0 <= k < post.len() && same_key(#[trigger] o[a], #[trigger] post[k]) implies post[k].mid <= o[a].mid by {
        if a < old_out.len() {
            assert(o[a] == old_out[a]);
            if k < pre.len() {
                assert(post[k] == pre[k]);
            }
        } else if k < pre.len() {
            assert(post[k] == pre[k]);
            assert(has_key(old_out, pre[k]));
            let c = choose|c: int| 0 <= c < old_out.len() && same_key(#[trigger] old_out[c], pre[k]);
        }
    }
    assert forall|k: int| 0 <= k < post.len() implies has_key(o, #[trigger] post[k]) by {
        if k < pre.len() {
            assert(post[k] == pre[k]);
            assert(has_key(old_out, pre[k]));
            let c = choose|c: int| 0 <= c < old_out.len() && same_key(#[trigger] old_out[c], pre[k]);
            assert(o[c] == old_out[c]);
        } else {
            assert(o[old_out.len() as int] == m);
        }
    }
}

/// Raising the MID of the entry for the message's stream and sequence, if
/// the message's is higher, keeps `out` exact when the message joins `msgs`.
proof fn lemma_advises_update(old_out: Seq<ChunkIForwardTsnStream>, pre: Seq<ChunkIForwardTsnStream>, m: ChunkIForwardTsnStream, j: int)
    requires
        advises(old_out, pre),
        0 <= j < old_out.len(),
        same_key(old_out[j], m),
    ensures
        advises(if m.mid > old_out[j].mid { old_out.update(j, m) } else { old_out }, pre.push(m)),
{
    let cur = old_out[j];
    let o = if m.mid > cur.mid { old_out.update(j, m) } else { old_out };
    let post = pre.push(m);
    let i = pre.len();
    assert forall|a: int| 0 <= a < o.len() implies post.contains(#[trigger] o[a]) by {
        if a == j && m.mid > cur.mid {
            assert(post[i as int] == o[a]);
        } else {
            assert(o[a] == old_out[a]);
            let x = choose|x: int| 0 <= x < pre.len() && pre[x] == old_out[a];
            assert(post[x] == o[a]);
        }
    }
    assert forall|a: int, b: int| 0 <= a < b < o.len() implies !same_key(#[trigger] o[a], #[trigger] o[b]) by {
        assert(same_key(o[a], old_out[a]) && same_key(o[b], old_out[b]));
    }
    assert forall|a: int, k: int|
        0 <= a < o.len() && 0 <= k < post.len() && same_key(#[trigger] o[a], #[trigger] post[k]) implies post[k].mid <= o[a].mid by {
        assert(same_key(o[a], old_out[a]));
        assert(o[a].mid >= old_out[a].mid);
        if k < pre.len() {
            assert(post[k] == pre[k]);
        } else if a != j {
            assert(same_key(old_out[a], old_out[j as int]));
        }
    }
    assert forall|k: int| 0 <= k < post.len() implies has_key(o, #[trigger] post[k]) by {
        if k < pre.len() {
            assert(post[k] == pre[k]);
            assert(has_key(old_out, pre[k]));
            let c = choose|c: int| 0 <= c < old_out.len() && same_key(#[trigger] old_out[c], pre[k]);
            assert(same_key(o[c], old_out[c]));
        } else {
            assert(same_key(o[j as int], post[k]));
        }
    }
}

/// The I-FORWARD-TSN chunk that moves the peer's cumulative TSN to
/// `new_cumulative_tsn` and skips the abandoned messages `msgs`, each given
/// by its stream, sequence and MID.
pub fn forward_advisory(new_cumulative_tsn: u32, msgs: &Vec<ChunkIForwardTsnStream>) -> (r: ChunkIForwardTsn)
    ensures
        r.new_cumulative_tsn == new_cumulative_tsn,
        advises(r.streams@, msgs@),
{
    let mut out: Vec<ChunkIForwardTsnStream> = Vec::new();
    let mut i: usize = 0;
    while i < msgs.len()
        invariant
            0 <= i <= msgs@.len(),
            advises(out@, msgs@.take(i as int)),
        decreases msgs@.len() - i,
    {
        let m = msgs[i];
        let ghost pre = msgs@.take(i as int);
        let ghost post = msgs@.take(i + 1);
        assert(post == pre.push(m));
        let mut j: usize = 0;
        while j < out.len() && !(out[j].identifier == m.identifier && out[j].unordered == m.unordered)
            invariant
                0 <= j <= out@.len(),
                forall|a: int| 0 <= a < j ==> !same_key(#[trigger] out@[a], m),
                advises(out@, pre),
                pre == msgs@.take(i as int),
                post == pre.push(m),
                0 <= i < msgs@.len(),
                m == msgs@[i as int],
            decreases out@.len() - j,
        {
            j += 1;
        }
        let ghost old_out = out@;
        if j == out.len() {
            out.push(m);
            proof {
                lemma_advises_push(old_out, pre, m);
                assert(out@ == old_out.push(m));
            }
        } else {
            let cur = out[j];
            if m.mid > cur.mid {
                out.set(j, m);
            }
            proof {
                lemma_advises_update(old_out, pre, m, j as int);
                assert(out@ == (if m.mid > cur.mid { old_out.update(j as int, m) } else { old_out }));
            }
        }
        assert(advises(out@, post));
        assert(post == msgs@.take(i + 1));
        i += 1;
    }
    assert(msgs@.take(i as int) =~= msgs@);
    ChunkIForwardTsn { new_cumulative_tsn, streams: out }
}

} // verus!
