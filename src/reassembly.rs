//! Delivery of the complete messages of one stream: ordered messages go out
//! in message identifier (MID) order, unordered ones as they complete, and
//! an I-FORWARD-TSN entry for the stream skips every ordered message up to
//! its MID.
use vstd::prelude::*;

use crate::chunk::chunk_i_forward_tsn::{ChunkIForwardTsn, ChunkIForwardTsnStream};

verus! {

/// One more than the largest MID.
pub const MID_LIMIT: u64 = 0x1_0000_0000;

/// A complete message of a stream.
#[derive(Debug)]
pub struct Message {
    pub mid: u32,
    pub unordered: bool,
    pub payload: Vec<u8>,
}

/// The delivery state of one stream.
pub struct StreamReassembly {
    stream_identifier: u16,
    next_mid: u64,
    held: Vec<Message>,
    ready: Vec<Message>,
}

/// The delivery state of one stream, as mathematical values: the lowest
/// ordered MID not yet delivered or skipped, the ordered messages that wait
/// for a lower one, and the messages ready for the application, in order.
pub struct ReassemblyModel {
    pub stream_identifier: u16,
    pub next_mid: nat,
    pub held: Seq<Message>,
    pub ready: Seq<Message>,
}

impl View for StreamReassembly {
    type V = ReassemblyModel;

    closed spec fn view(&self) -> ReassemblyModel {
        ReassemblyModel {
            stream_identifier: self.stream_identifier,
            next_mid: self.next_mid as nat,
            held: self.held@,
            ready: self.ready@,
        }
    }
}

/// Whether a message with MID `m` is in `held`.
pub open spec fn has_mid(held: Seq<Message>, m: nat) -> bool {
    exists|i: int| 0 <= i < held.len() && held[i].mid == m
}

/// The position of the message with MID `m` in `held`.
pub open spec fn index_of_mid(held: Seq<Message>, m: nat) -> int {
    choose|i: int| 0 <= i < held.len() && held[i].mid == m
}

/// Moves the held messages that continue the ordered sequence from `next`
/// on to the end of `ready`, one after the other.
pub open spec fn drain(next: nat, held: Seq<Message>, ready: Seq<Message>) -> (nat, Seq<Message>, Seq<Message>)
    decreases MID_LIMIT - next,
{
    if next < MID_LIMIT && has_mid(held, next) {
        let i = index_of_mid(held, next);
        drain(next + 1, held.remove(i), ready.push(held[i]))
    } else {
        (next, held, ready)
    }
}

/// The state with its held messages drained.
pub open spec fn drained(q: ReassemblyModel) -> ReassemblyModel {
    let d = drain(q.next_mid, q.held, q.ready);
    ReassemblyModel { stream_identifier: q.stream_identifier, next_mid: d.0, held: d.1, ready: d.2 }
}

/// The messages of `s` whose MID is above `f`, in order.
pub open spec fn keep_above(s: Seq<Message>, f: nat) -> Seq<Message>
    decreases s.len(),
{
    if s.len() == 0 {
        s
    } else if s[0].mid > f {
        seq![s[0]] + keep_above(s.drop_first(), f)
    } else {
        keep_above(s.drop_first(), f)
    }
}

/// Whether an arriving message is held: it is ordered, not below the next
/// MID, and its MID is not held already.
pub open spec fn push_accepted(q: ReassemblyModel, m: Message) -> bool {
    !m.unordered && m.mid >= q.next_mid && !has_mid(q.held, m.mid as nat)
}

/// The state with `m` held, before draining.
pub open spec fn pushed(q: ReassemblyModel, m: Message) -> ReassemblyModel {
    ReassemblyModel { held: q.held.push(m), ..q }
}

/// The state after a complete message arrives: an unordered one is ready at
/// once; an ordered one below the next MID, or one whose MID is already
/// held, is dropped; any other is held, and what it unblocks is delivered.
pub open spec fn after_push(q: ReassemblyModel, m: Message) -> ReassemblyModel {
    if m.unordered {
        ReassemblyModel { ready: q.ready.push(m), ..q }
    } else if push_accepted(q, m) {
        drained(pushed(q, m))
    } else {
        q
    }
}

/// Whether an I-FORWARD-TSN entry acts on the state: it is for this
/// stream's ordered messages, and its MID is not below the next MID.
pub open spec fn forward_applies(q: ReassemblyModel, e: ChunkIForwardTsnStream) -> bool {
    e.identifier == q.stream_identifier && !e.unordered && e.mid >= q.next_mid
}

/// The state with the held messages up to the entry's MID dropped and the
/// next MID moved past it, before draining.
pub open spec fn skipped(q: ReassemblyModel, e: ChunkIForwardTsnStream) -> ReassemblyModel {
    ReassemblyModel { next_mid: (e.mid + 1) as nat, held: keep_above(q.held, e.mid as nat), ..q }
}

/// The state after an I-FORWARD-TSN entry: one that acts on the state skips
/// and then delivers what that unblocks; any other changes nothing.
pub open spec fn after_forward(q: ReassemblyModel, e: ChunkIForwardTsnStream) -> ReassemblyModel {
    if forward_applies(q, e) {
        drained(skipped(q, e))
    } else {
        q
    }
}

/// The state after the entries of an I-FORWARD-TSN chunk, in order.
pub open spec fn after_forward_all(q: ReassemblyModel, es: Seq<ChunkIForwardTsnStream>) -> ReassemblyModel
    decreases es.len(),
{
    if es.len() == 0 {
        q
    } else {
        after_forward(after_forward_all(q, es.drop_last()), es.last())
    }
}

/// No two messages of `s` have the same MID.
pub open spec fn distinct_mids(s: Seq<Message>) -> bool {
    forall|i: int, j: int| 0 <= i < j < s.len() ==> (#[trigger] s[i]).mid != (#[trigger] s[j]).mid
}

/// What holds of a state before its held messages are drained: held
/// messages are ordered, distinct, and not below the next MID; ready
/// ordered messages are below it and in strictly increasing MID order.
pub open spec fn pre_wf(q: ReassemblyModel) -> bool {
    &&& q.next_mid <= MID_LIMIT
    &&& forall|i: int| 0 <= i < q.held.len() ==> !(#[trigger] q.held[i]).unordered && q.held[i].mid >= q.next_mid
    &&& distinct_mids(q.held)
    &&& forall|i: int| 0 <= i < q.ready.len() && !(#[trigger] q.ready[i]).unordered ==> q.ready[i].mid < q.next_mid
    &&& forall|i: int, j: int|
        0 <= i < j < q.ready.len() && !(#[trigger] q.ready[i]).unordered && !(#[trigger] q.ready[j]).unordered
            ==> q.ready[i].mid < q.ready[j].mid
}

/// A well-formed state: `pre_wf`, and no held message is the next one.
pub open spec fn wf(q: ReassemblyModel) -> bool {
    &&& pre_wf(q)
    &&& !has_mid(q.held, q.next_mid)
}

/// One step of draining: moving the held message with the next MID to the
/// end of `ready` keeps `pre_wf`.
pub proof fn lemma_drain_step(next: nat, held: Seq<Message>, ready: Seq<Message>, sid: u16)
    requires
        pre_wf(ReassemblyModel { stream_identifier: sid, next_mid: next, held, ready }),
        next < MID_LIMIT,
        has_mid(held, next),
    ensures
        0 <= index_of_mid(held, next) < held.len(),
        held[index_of_mid(held, next)].mid == next,
        pre_wf(
            ReassemblyModel {
                stream_identifier: sid,
                next_mid: next + 1,
                held: held.remove(index_of_mid(held, next)),
                ready: ready.push(held[index_of_mid(held, next)]),
            },
        ),
{
    let q = ReassemblyModel { stream_identifier: sid, next_mid: next, held, ready };
    let i = index_of_mid(held, next);
    assert(0 <= i < held.len() && held[i].mid == next);
        let held2 = held.remove(i);
        let ready2 = ready.push(held[i]);
        let q2 = ReassemblyModel { stream_identifier: sid, next_mid: next + 1, held: held2, ready: ready2 };
        assert forall|a: int| 0 <= a < held2.len() implies !(#[trigger] held2[a]).unordered && held2[a].mid >= next + 1 by {
            if a < i {
                assert(held2[a] == held[a]);
            } else {
                assert(held2[a] == held[a + 1]);
            }
        }
        assert forall|a: int, b: int| 0 <= a < b < held2.len() implies (#[trigger] held2[a]).mid != (#[trigger] held2[b]).mid by {
            let a1 = if a < i { a } else { a + 1 };
            let b1 = if b < i { b } else { b + 1 };
            assert(held2[a] == held[a1]);
            assert(held2[b] == held[b1]);
        }
        assert forall|a: int| 0 <= a < ready2.len() && !(#[trigger] ready2[a]).unordered implies ready2[a].mid < next + 1 by {
            if a < ready.len() {
                assert(ready2[a] == ready[a]);
                assert(q.ready[a] == ready[a]);
                assert(!q.ready[a].unordered);
                assert(q.ready[a].mid < q.next_mid);
            } else {
                assert(a == ready.len());
                assert(ready2[a] == held[i]);
                assert(held[i].mid == next);
            }
        }
        assert forall|a: int, b: int|
            0 <= a < b < ready2.len() && !(#[trigger] ready2[a]).unordered && !(#[trigger] ready2[b]).unordered
                implies ready2[a].mid < ready2[b].mid by {
            assert(ready2[a] == ready[a]);
            assert(q.ready[a] == ready[a]);
            if b < ready.len() {
                assert(ready2[b] == ready[b]);
                assert(q.ready[b] == ready[b]);
            } else {
                assert(ready2[b] == held[i]);
                assert(q.ready[a].mid < q.next_mid);
            }
        }
        assert(pre_wf(q2));
}

/// Draining keeps `pre_wf`, never lowers the next MID, ends with no held
/// message that is the next one, and only appends ordered messages at or
/// above the old next MID to `ready`.
pub proof fn lemma_drain(next: nat, held: Seq<Message>, ready: Seq<Message>, sid: u16)
    requires
        pre_wf(ReassemblyModel { stream_identifier: sid, next_mid: next, held, ready }),
    ensures
        wf(
            ReassemblyModel {
                stream_identifier: sid,
                next_mid: drain(next, held, ready).0,
                held: drain(next, held, ready).1,
                ready: drain(next, held, ready).2,
            },
        ),
        drain(next, held, ready).0 >= next,
        drain(next, held, ready).2.len() >= ready.len(),
        drain(next, held, ready).2.subrange(0, ready.len() as int) == ready,
        forall|k: int|
            ready.len() <= k < drain(next, held, ready).2.len() ==> !(#[trigger] drain(
                next,
                held,
                ready,
            ).2[k]).unordered && drain(next, held, ready).2[k].mid >= next,
    decreases MID_LIMIT - next,
{
    if next < MID_LIMIT && has_mid(held, next) {
        let i = index_of_mid(held, next);
        assert(0 <= i < held.len() && held[i].mid == next);
        let held2 = held.remove(i);
        let ready2 = ready.push(held[i]);
        lemma_drain_step(next, held, ready, sid);
        lemma_drain(next + 1, held2, ready2, sid);
        let d = drain(next, held, ready);
        assert(d == drain(next + 1, held2, ready2));
        assert(d.2.subrange(0, ready.len() as int) =~= ready) by {
            assert(d.2.subrange(0, ready2.len() as int) == ready2);
            assert forall|k: int| 0 <= k < ready.len() implies d.2[k] == ready[k] by {
                assert(d.2.subrange(0, ready2.len() as int)[k] == ready2[k]);
            }
        }
        assert forall|k: int| ready.len() <= k < d.2.len() implies !(#[trigger] d.2[k]).unordered && d.2[k].mid >= next by {
            if k == ready.len() {
                assert(d.2.subrange(0, ready2.len() as int)[k] == ready2[k]);
            }
        }
    } else {
        if next >= MID_LIMIT {
            assert(!has_mid(held, next));
        }
    }
}

/// Ordered messages are handed to the application in strictly increasing
/// MID order: of two ordered messages that are ready, the earlier has the
/// lower MID, and every ordered message that becomes ready later has a MID
/// above all that are ready now.
pub proof fn lemma_ordered_delivery(q: ReassemblyModel, m: Message, e: ChunkIForwardTsnStream)
    requires
        wf(q),
    ensures
        forall|i: int, j: int|
            0 <= i < j < q.ready.len() && !(#[trigger] q.ready[i]).unordered && !(#[trigger] q.ready[j]).unordered
                ==> q.ready[i].mid < q.ready[j].mid,
        wf(after_push(q, m)),
        after_push(q, m).ready.subrange(0, q.ready.len() as int) == q.ready,
        forall|k: int|
            q.ready.len() <= k < after_push(q, m).ready.len() && !(#[trigger] after_push(q, m).ready[k]).unordered
                ==> after_push(q, m).ready[k].mid >= q.next_mid,
        after_push(q, m).next_mid >= q.next_mid,
        wf(after_forward(q, e)),
        after_forward(q, e).ready.subrange(0, q.ready.len() as int) == q.ready,
        forall|k: int|
            q.ready.len() <= k < after_forward(q, e).ready.len() && !(#[trigger] after_forward(q, e).ready[k]).unordered
                ==> after_forward(q, e).ready[k].mid >= q.next_mid,
        after_forward(q, e).next_mid >= q.next_mid,
{
    lemma_push(q, m);
    lemma_forward(q, e);
}

/// Pushing a message keeps a state well formed; see `lemma_ordered_delivery`.
pub proof fn lemma_push(q: ReassemblyModel, m: Message)
    requires
        wf(q),
    ensures
        wf(after_push(q, m)),
        after_push(q, m).ready.subrange(0, q.ready.len() as int) == q.ready,
        forall|k: int|
            q.ready.len() <= k < after_push(q, m).ready.len() && !(#[trigger] after_push(q, m).ready[k]).unordered
                ==> after_push(q, m).ready[k].mid >= q.next_mid,
        after_push(q, m).next_mid >= q.next_mid,
        after_push(q, m).stream_identifier == q.stream_identifier,
        push_accepted(q, m) ==> pre_wf(pushed(q, m)),
{
    if m.unordered {
        assert(after_push(q, m).ready.subrange(0, q.ready.len() as int) =~= q.ready);
    } else if !push_accepted(q, m) {
        assert(q.ready.subrange(0, q.ready.len() as int) =~= q.ready);
    } else {
        let held2 = q.held.push(m);
        assert forall|a: int, b: int| 0 <= a < b < held2.len() implies (#[trigger] held2[a]).mid != (#[trigger] held2[b]).mid by {
            assert(held2[a] == q.held[a]);
            if b < q.held.len() {
                assert(held2[b] == q.held[b]);
            }
        }
        assert forall|a: int| 0 <= a < held2.len() implies !(#[trigger] held2[a]).unordered && held2[a].mid >= q.next_mid by {
            if a < q.held.len() {
                assert(held2[a] == q.held[a]);
            }
        }
        assert(pre_wf(pushed(q, m)));
        lemma_drain(q.next_mid, held2, q.ready, q.stream_identifier);
    }
}

/// Applying an I-FORWARD-TSN entry keeps a state well formed; see
/// `lemma_ordered_delivery`.
pub proof fn lemma_forward(q: ReassemblyModel, e: ChunkIForwardTsnStream)
    requires
        wf(q),
    ensures
        wf(after_forward(q, e)),
        after_forward(q, e).ready.subrange(0, q.ready.len() as int) == q.ready,
        forall|k: int|
            q.ready.len() <= k < after_forward(q, e).ready.len() && !(#[trigger] after_forward(q, e).ready[k]).unordered
                ==> after_forward(q, e).ready[k].mid >= q.next_mid,
        after_forward(q, e).next_mid >= q.next_mid,
        after_forward(q, e).stream_identifier == q.stream_identifier,
        forward_applies(q, e) ==> pre_wf(skipped(q, e)),
{
    if !forward_applies(q, e) {
        assert(q.ready.subrange(0, q.ready.len() as int) =~= q.ready);
    } else {
        let held2 = keep_above(q.held, e.mid as nat);
        lemma_keep_above(q.held, e.mid as nat);
        assert forall|a: int| 0 <= a < held2.len() implies !(#[trigger] held2[a]).unordered && held2[a].mid >= e.mid + 1 by {
            let x = choose|x: int| 0 <= x < q.held.len() && q.held[x] == held2[a];
            assert(q.held[x] == held2[a]);
        }
        assert(pre_wf(skipped(q, e)));
        lemma_drain((e.mid + 1) as nat, held2, q.ready, q.stream_identifier);
    }
}

/// The messages kept are messages of `s` above `f`, and their MIDs stay
/// distinct.
pub proof fn lemma_keep_above(s: Seq<Message>, f: nat)
    requires
        distinct_mids(s),
    ensures
        distinct_mids(keep_above(s, f)),
        forall|a: int| 0 <= a < keep_above(s, f).len() ==> (#[trigger] keep_above(s, f)[a]).mid > f
            && s.contains(keep_above(s, f)[a]),
    decreases s.len(),
{
    if s.len() > 0 {
        let t = s.drop_first();
        assert(distinct_mids(t)) by {
            assert forall|i: int, j: int| 0 <= i < j < t.len() implies (#[trigger] t[i]).mid != (#[trigger] t[j]).mid by {
                assert(t[i] == s[i + 1] && t[j] == s[j + 1]);
            }
        }
        lemma_keep_above(t, f);
        let k = keep_above(s, f);
        let k1 = keep_above(t, f);
        assert forall|a: int| 0 <= a < k1.len() implies (#[trigger] k1[a]).mid != s[0].mid && s.contains(k1[a]) by {
            let x = choose|x: int| 0 <= x < t.len() && t[x] == k1[a];
            assert(s[x + 1] == k1[a]);
        }
        if s[0].mid > f {
            assert forall|a: int| 0 <= a < k.len() implies (#[trigger] k[a]).mid > f && s.contains(k[a]) by {
                if a == 0 {
                    assert(s[0] == k[a]);
                } else {
                    assert(k[a] == k1[a - 1]);
                }
            }
            assert forall|i: int, j: int| 0 <= i < j < k.len() implies (#[trigger] k[i]).mid != (#[trigger] k[j]).mid by {
                assert(k[j] == k1[j - 1]);
                if i > 0 {
                    assert(k[i] == k1[i - 1]);
                }
            }
        }
    }
}

/// Once an I-FORWARD-TSN entry for the stream's ordered messages has been
/// applied, no ordered message at or below its MID is delivered: none is
/// held, one that arrives later is dropped, the next MID is past the
/// entry's, and delivery does not wait on a message that is already held.
pub proof fn lemma_forward_skips(q: ReassemblyModel, e: ChunkIForwardTsnStream, m: Message)
    requires
        wf(q),
        e.identifier == q.stream_identifier,
        !e.unordered,
    ensures
        after_forward(q, e).next_mid > e.mid,
        forall|i: int|
            0 <= i < after_forward(q, e).held.len() ==> (#[trigger] after_forward(q, e).held[i]).mid > e.mid,
        !m.unordered && m.mid <= e.mid ==> after_push(after_forward(q, e), m) == after_forward(q, e),
        !has_mid(after_forward(q, e).held, after_forward(q, e).next_mid),
{
    lemma_forward(q, e);
    if forward_applies(q, e) {
        let s = skipped(q, e);
        lemma_drain(s.next_mid, s.held, s.ready, s.stream_identifier);
    }
}

/// Position of the message with MID `m` in `held`, if there is one.
fn find_mid(held: &Vec<Message>, m: u64) -> (r: Option<usize>)
    ensures
        r is Some ==> r->Some_0 < held@.len() && held@[r->Some_0 as int].mid == m,
        r is None ==> !has_mid(held@, m as nat),
{
    let mut i: usize = 0;
    while i < held.len()
        invariant
            0 <= i <= held@.len(),
            forall|k: int| 0 <= k < i ==> (#[trigger] held@[k]).mid != m,
        decreases held@.len() - i,
    {
        if held[i].mid as u64 == m {
            return Some(i);
        }
        i += 1;
    }
    None
}

impl StreamReassembly {
    /// An empty state for the stream, expecting MID 0 first.
    pub fn new(stream_identifier: u16) -> (r: StreamReassembly)
        ensures
            r@ == (ReassemblyModel {
                stream_identifier,
                next_mid: 0,
                held: Seq::empty(),
                ready: Seq::empty(),
            }),
            wf(r@),
    {
        StreamReassembly { stream_identifier, next_mid: 0, held: Vec::new(), ready: Vec::new() }
    }

    /// The stream this state belongs to.
    pub fn stream_identifier(&self) -> (r: u16)
        ensures
            r == self@.stream_identifier,
    {
        self.stream_identifier
    }

    /// The lowest ordered MID not yet delivered or skipped.
    pub fn next_mid(&self) -> (r: u64)
        ensures
            r == self@.next_mid,
    {
        self.next_mid
    }

    /// Number of messages ready for the application.
    pub fn ready_len(&self) -> (r: usize)
        ensures
            r == self@.ready.len(),
    {
        self.ready.len()
    }

    /// Moves the held messages that continue the ordered sequence to the
    /// ready messages.
    fn drain_held(&mut self)
        requires
            pre_wf(old(self)@),
        ensures
            final(self)@ == drained(old(self)@),
            wf(final(self)@),
    {
        proof {
            lemma_drain(old(self)@.next_mid, old(self)@.held, old(self)@.ready, old(self)@.stream_identifier);
        }
        loop
            invariant
                pre_wf(self@),
                drained(self@) == drained(old(self)@),
            ensures
                self@ == drained(old(self)@),
            decreases MID_LIMIT - self.next_mid,
        {
            if self.next_mid >= MID_LIMIT {
                break;
            }
            match find_mid(&self.held, self.next_mid) {
                None => {
                    break;
                },
                Some(j) => {
                    proof {
                        lemma_drain_step(self@.next_mid, self@.held, self@.ready, self@.stream_identifier);
                        let i = index_of_mid(self@.held, self@.next_mid);
                        assert(i == j as int);
                    }
                    let msg = self.held.remove(j);
                    self.ready.push(msg);
                    self.next_mid = self.next_mid + 1;
                },
            }
        }
    }

    /// Takes in a complete message; see `after_push`.
    pub fn push(&mut self, m: Message)
        requires
            wf(old(self)@),
        ensures
            final(self)@ == after_push(old(self)@, m),
            wf(final(self)@),
    {
        proof {
            lemma_push(self@, m);
        }
        if m.unordered {
            self.ready.push(m);
            return;
        }
        if (m.mid as u64) < self.next_mid {
            return;
        }
        match find_mid(&self.held, m.mid as u64) {
            Some(_) => {
                return;
            },
            None => {},
        }
        self.held.push(m);
        self.drain_held();
    }

    /// Applies one I-FORWARD-TSN entry; see `after_forward`.
    pub fn forward(&mut self, e: &ChunkIForwardTsnStream)
        requires
            wf(old(self)@),
        ensures
            final(self)@ == after_forward(old(self)@, *e),
            wf(final(self)@),
    {
        proof {
            lemma_forward(self@, *e);
        }
        if e.identifier != self.stream_identifier || e.unordered || (e.mid as u64) < self.next_mid {
            return;
        }
        let ghost f = e.mid as nat;
        let ghost orig = self@.held;
        let mut kept: Vec<Message> = Vec::new();
        while self.held.len() > 0
            invariant
                kept@ + keep_above(self@.held, f) == keep_above(orig, f),
                self@.stream_identifier == old(self)@.stream_identifier,
                self@.next_mid == old(self)@.next_mid,
                self@.ready == old(self)@.ready,
                f == e.mid,
            decreases self@.held.len(),
        {
            let ghost h = self@.held;
            let m = self.held.remove(0);
            assert(self@.held == h.drop_first());
            if m.mid > e.mid {
                kept.push(m);
            }
            assert(kept@ + keep_above(self@.held, f) =~= keep_above(orig, f));
        }
        assert(kept@ =~= keep_above(orig, f));
        self.held = kept;
        self.next_mid = e.mid as u64 + 1;
        self.drain_held();
    }

    /// Applies every stream entry of an I-FORWARD-TSN chunk, in order.
    pub fn handle_forward_tsn(&mut self, c: &ChunkIForwardTsn)
        requires
            wf(old(self)@),
        ensures
            final(self)@ == after_forward_all(old(self)@, c.streams@),
            wf(final(self)@),
    {
        let mut i: usize = 0;
        while i < c.streams.len()
            invariant
                0 <= i <= c.streams@.len(),
                self@ == after_forward_all(old(self)@, c.streams@.take(i as int)),
                wf(self@),
            decreases c.streams@.len() - i,
        {
            assert(c.streams@.take(i + 1).drop_last() =~= c.streams@.take(i as int));
            self.forward(&c.streams[i]);
            i += 1;
        }
        assert(c.streams@.take(i as int) =~= c.streams@);
    }

    /// Hands the first ready message to the application, if there is one.
    pub fn pop(&mut self) -> (r: Option<Message>)
        requires
            wf(old(self)@),
        ensures
            old(self)@.ready.len() == 0 ==> r is None && final(self)@ == old(self)@,
            old(self)@.ready.len() > 0 ==> r == Some(old(self)@.ready[0]) && final(self)@ == (
            ReassemblyModel { ready: old(self)@.ready.drop_first(), ..old(self)@ }),
            wf(final(self)@),
    {
        if self.ready.len() == 0 {
            return None;
        }
        let m = self.ready.remove(0);
        proof {
            let q = old(self)@;
            let r2 = self@.ready;
            assert(r2 =~= q.ready.drop_first());
            assert forall|i: int| 0 <= i < r2.len() && !(#[trigger] r2[i]).unordered implies r2[i].mid < q.next_mid by {
                assert(r2[i] == q.ready[i + 1]);
            }
            assert forall|i: int, j: int|
                0 <= i < j < r2.len() && !(#[trigger] r2[i]).unordered && !(#[trigger] r2[j]).unordered
                    implies r2[i].mid < r2[j].mid by {
                assert(r2[i] == q.ready[i + 1]);
                assert(r2[j] == q.ready[j + 1]);
            }
        }
        Some(m)
    }
}

} // verus!
