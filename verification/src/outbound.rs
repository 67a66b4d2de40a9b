//! Outbound side of the engine: the ordered, flow-control-gated queue of
//! frames awaiting serialization, and the pending-write ledger that pairs
//! each staged frame with its byte length and optional completion promise.
//! Walking the ledger after each successful socket write resolves promises
//! exactly once, strictly in submission order, synchronized with actual wire
//! delivery.

use vstd::prelude::*;
use std::collections::VecDeque;
use amq_protocol::frame::AMQPFrame;
use crate::status::Error;

verus! {

/// A frame awaiting serialization, with its optional completion promise.
pub struct QueuedFrame {
    pub frame: AMQPFrame,
    pub promise: Option<u64>,
}

/// One ledger entry: bytes still unflushed for a staged frame, and the
/// promise to resolve once they are all on the wire.
#[derive(Clone, Copy, Debug, PartialEq, Eq, Structural)]
pub struct LedgerEntry {
    pub len: u64,
    pub promise: Option<u64>,
}

/// How a completion promise was resolved.
#[derive(Clone, Copy, Debug, PartialEq, Eq, Structural)]
pub enum Outcome {
    /// The frame's bytes were fully handed to the transport.
    Done,
    /// The connection failed before the frame was fully written.
    Failed(Error),
}

/// A one-shot resolution of a completion promise.
#[derive(Clone, Copy, Debug, PartialEq, Eq, Structural)]
pub struct Resolution {
    pub promise: u64,
    pub outcome: Outcome,
}

/// The promise id under an optional promise, as a sequence of 0 or 1 ids.
pub open spec fn opt_ids(p: Option<u64>) -> Seq<u64> {
    match p {
        Some(id) => seq![id],
        None => Seq::<u64>::empty(),
    }
}

/// Promise ids of queued frames, in queue order.
pub open spec fn queue_ids(s: Seq<QueuedFrame>) -> Seq<u64>
    decreases s.len(),
{
    if s.len() == 0 {
        Seq::<u64>::empty()
    } else {
        opt_ids(s[0].promise) + queue_ids(s.skip(1))
    }
}

/// Promise ids of ledger entries, in ledger order.
pub open spec fn ledger_ids(s: Seq<LedgerEntry>) -> Seq<u64>
    decreases s.len(),
{
    if s.len() == 0 {
        Seq::<u64>::empty()
    } else {
        opt_ids(s[0].promise) + ledger_ids(s.skip(1))
    }
}

/// Sum of the unflushed byte lengths of a ledger.
pub open spec fn ledger_total(s: Seq<LedgerEntry>) -> int
    decreases s.len(),
{
    if s.len() == 0 {
        0
    } else {
        s[0].len + ledger_total(s.skip(1))
    }
}

/// Every ledger entry still has at least one unflushed byte.
pub open spec fn positive_lens(s: Seq<LedgerEntry>) -> bool {
    forall|i: int| 0 <= i < s.len() ==> (#[trigger] s[i]).len >= 1
}

/// The ledger left after `n` written bytes are subtracted front-to-back: a
/// fully covered entry leaves; a partially covered one stays with its
/// remaining length.
pub open spec fn ack_left(s: Seq<LedgerEntry>, n: int) -> Seq<LedgerEntry>
    decreases s.len(),
{
    if n <= 0 || s.len() == 0 {
        s
    } else if n < s[0].len {
        seq![LedgerEntry { len: (s[0].len - n) as u64, promise: s[0].promise }] + s.skip(1)
    } else {
        ack_left(s.skip(1), n - s[0].len)
    }
}

/// The promise ids resolved when `n` written bytes are subtracted
/// front-to-back: exactly those of the fully covered prefix, in order.
pub open spec fn ack_fired(s: Seq<LedgerEntry>, n: int) -> Seq<u64>
    decreases s.len(),
{
    if n <= 0 || s.len() == 0 {
        Seq::<u64>::empty()
    } else if n < s[0].len {
        Seq::<u64>::empty()
    } else {
        opt_ids(s[0].promise) + ack_fired(s.skip(1), n - s[0].len)
    }
}

/// The resolutions recording `ids` settled with `outcome`, in order.
pub open spec fn resolutions_of(ids: Seq<u64>, outcome: Outcome) -> Seq<Resolution>
    decreases ids.len(),
{
    if ids.len() == 0 {
        Seq::<Resolution>::empty()
    } else {
        seq![Resolution { promise: ids[0], outcome }] + resolutions_of(ids.skip(1), outcome)
    }
}

pub proof fn lemma_queue_ids_push(s: Seq<QueuedFrame>, f: QueuedFrame)
    ensures
        queue_ids(s.push(f)) == queue_ids(s) + opt_ids(f.promise),
    decreases s.len(),
{
    if s.len() == 0 {
        assert(s.push(f)[0] == f);
        assert(s.push(f).skip(1) =~= Seq::<QueuedFrame>::empty());
        assert(queue_ids(s.push(f)) == opt_ids(f.promise) + queue_ids(Seq::<QueuedFrame>::empty()));
        assert(queue_ids(s.push(f)) =~= queue_ids(s) + opt_ids(f.promise));
    } else {
        assert(s.push(f)[0] == s[0]);
        assert(s.push(f).skip(1) =~= s.skip(1).push(f));
        lemma_queue_ids_push(s.skip(1), f);
        assert(queue_ids(s.push(f)) == opt_ids(s[0].promise) + queue_ids(s.skip(1).push(f)));
        assert(queue_ids(s.push(f)) =~= queue_ids(s) + opt_ids(f.promise));
    }
}

pub proof fn lemma_ledger_ids_push(s: Seq<LedgerEntry>, e: LedgerEntry)
    ensures
        ledger_ids(s.push(e)) == ledger_ids(s) + opt_ids(e.promise),
    decreases s.len(),
{
    if s.len() == 0 {
        assert(s.push(e)[0] == e);
        assert(s.push(e).skip(1) =~= Seq::<LedgerEntry>::empty());
        assert(ledger_ids(s.push(e)) == opt_ids(e.promise) + ledger_ids(Seq::<LedgerEntry>::empty()));
        assert(ledger_ids(s.push(e)) =~= ledger_ids(s) + opt_ids(e.promise));
    } else {
        assert(s.push(e)[0] == s[0]);
        assert(s.push(e).skip(1) =~= s.skip(1).push(e));
        lemma_ledger_ids_push(s.skip(1), e);
        assert(ledger_ids(s.push(e)) == opt_ids(s[0].promise) + ledger_ids(s.skip(1).push(e)));
        assert(ledger_ids(s.push(e)) =~= ledger_ids(s) + opt_ids(e.promise));
    }
}

pub proof fn lemma_ledger_total_push(s: Seq<LedgerEntry>, e: LedgerEntry)
    ensures
        ledger_total(s.push(e)) == ledger_total(s) + e.len,
    decreases s.len(),
{
    if s.len() == 0 {
        assert(s.push(e)[0] == e);
        assert(s.push(e).skip(1) =~= Seq::<LedgerEntry>::empty());
        assert(ledger_total(s.push(e)) == e.len + ledger_total(Seq::<LedgerEntry>::empty()));
    } else {
        assert(s.push(e)[0] == s[0]);
        assert(s.push(e).skip(1) =~= s.skip(1).push(e));
        lemma_ledger_total_push(s.skip(1), e);
        assert(ledger_total(s.push(e)) == s[0].len + ledger_total(s.skip(1).push(e)));
    }
}

/// Nonnegativity of the ledger sum.
pub proof fn lemma_ledger_total_nonneg(s: Seq<LedgerEntry>)
    ensures
        ledger_total(s) >= 0,
    decreases s.len(),
{
    if s.len() > 0 {
        lemma_ledger_total_nonneg(s.skip(1));
    }
}

/// Subtracting `n` written bytes preserves the promise accounting: the ids
/// fired followed by the ids still pending are exactly the ids that were
/// pending, the remaining sum drops by `n`, and remaining lengths stay
/// positive.
pub proof fn lemma_ack(s: Seq<LedgerEntry>, n: int)
    requires
        0 <= n <= ledger_total(s),
        positive_lens(s),
    ensures
        ledger_total(ack_left(s, n)) == ledger_total(s) - n,
        ledger_ids(s) == ack_fired(s, n) + ledger_ids(ack_left(s, n)),
        positive_lens(ack_left(s, n)),
    decreases s.len(),
{
    if n <= 0 || s.len() == 0 {
        assert(ledger_ids(s) =~= ack_fired(s, n) + ledger_ids(ack_left(s, n)));
    } else if n < s[0].len {
        let partial = LedgerEntry { len: (s[0].len - n) as u64, promise: s[0].promise };
        let left = seq![partial] + s.skip(1);
        assert(left[0] == partial);
        assert(left.skip(1) =~= s.skip(1));
        assert(ledger_total(left) == partial.len + ledger_total(s.skip(1)));
        assert(ledger_ids(left) == opt_ids(partial.promise) + ledger_ids(s.skip(1)));
        assert(ledger_ids(s) =~= ack_fired(s, n) + ledger_ids(left));
        assert forall|i: int| 0 <= i < left.len() implies (#[trigger] left[i]).len >= 1 by {
            if i > 0 {
                assert(left[i] == s[i]);
            }
        }
    } else {
        assert(s.skip(1).len() == s.len() - 1);
        lemma_ack(s.skip(1), n - s[0].len);
        assert(ledger_ids(s) =~= ack_fired(s, n) + ledger_ids(ack_left(s, n)));
    }
}

/// Resolutions of concatenated ids split into the two runs.
pub proof fn lemma_resolutions_of_add(a: Seq<u64>, b: Seq<u64>, outcome: Outcome)
    ensures
        resolutions_of(a + b, outcome) == resolutions_of(a, outcome) + resolutions_of(b, outcome),
    decreases a.len(),
{
    if a.len() == 0 {
        assert(a + b =~= b);
        assert(resolutions_of(a + b, outcome) =~= resolutions_of(a, outcome) + resolutions_of(
            b,
            outcome,
        ));
    } else {
        assert((a + b).skip(1) =~= a.skip(1) + b);
        lemma_resolutions_of_add(a.skip(1), b, outcome);
        assert(resolutions_of(a + b, outcome) =~= resolutions_of(a, outcome) + resolutions_of(
            b,
            outcome,
        ));
    }
}


/// The promise ids recorded in a run of resolutions, in order.
pub open spec fn resolved_ids(rs: Seq<Resolution>) -> Seq<u64>
    decreases rs.len(),
{
    if rs.len() == 0 {
        Seq::<u64>::empty()
    } else {
        seq![rs[0].promise] + resolved_ids(rs.skip(1))
    }
}

pub proof fn lemma_resolved_ids_add(a: Seq<Resolution>, b: Seq<Resolution>)
    ensures
        resolved_ids(a + b) == resolved_ids(a) + resolved_ids(b),
    decreases a.len(),
{
    if a.len() == 0 {
        assert(a + b =~= b);
        assert(resolved_ids(a + b) =~= resolved_ids(a) + resolved_ids(b));
    } else {
        assert((a + b)[0] == a[0]);
        assert((a + b).skip(1) =~= a.skip(1) + b);
        lemma_resolved_ids_add(a.skip(1), b);
        assert(resolved_ids(a + b) =~= resolved_ids(a) + resolved_ids(b));
    }
}

/// Resolving a run of ids records exactly those ids, in order.
pub proof fn lemma_ids_of_resolutions(ids: Seq<u64>, outcome: Outcome)
    ensures
        resolved_ids(resolutions_of(ids, outcome)) == ids,
    decreases ids.len(),
{
    if ids.len() == 0 {
        assert(resolved_ids(resolutions_of(ids, outcome)) =~= ids);
    } else {
        let rs = resolutions_of(ids, outcome);
        assert(rs[0] == Resolution { promise: ids[0], outcome });
        assert(rs.skip(1) =~= resolutions_of(ids.skip(1), outcome));
        lemma_ids_of_resolutions(ids.skip(1), outcome);
        assert(resolved_ids(rs) =~= ids);
    }
}

/// Ordered queue of frames awaiting transmission. A frame that failed to
/// serialize for lack of room is requeued at the front, never reordered past
/// other pending frames.
pub struct FrameQueue {
    pub q: VecDeque<QueuedFrame>,
}

impl View for FrameQueue {
    type V = Seq<QueuedFrame>;

    open spec fn view(&self) -> Seq<QueuedFrame> {
        self.q@
    }
}

impl FrameQueue {
    pub fn new() -> (r: FrameQueue)
        ensures
            r@ == Seq::<QueuedFrame>::empty(),
    {
        FrameQueue { q: VecDeque::new() }
    }

    /// Submit a frame at the back of the queue.
    pub fn push(&mut self, f: QueuedFrame)
        ensures
            final(self)@ == old(self)@.push(f),
    {
        self.q.push_back(f);
    }

    /// Requeue at the head a frame that could not be serialized yet.
    pub fn retry(&mut self, f: QueuedFrame)
        ensures
            final(self)@ == seq![f] + old(self)@,
    {
        self.q.push_front(f);
        proof {
            assert(self@ =~= seq![f] + old(self)@);
        }
    }

    /// Pop the next ready frame, gated by flow control: while the connection
    /// reports itself blocked (`flow` false), frames are withheld.
    pub fn pop(&mut self, flow: bool) -> (r: Option<QueuedFrame>)
        ensures
            !flow ==> r is None && final(self)@ == old(self)@,
            flow && old(self)@.len() == 0 ==> r is None && final(self)@ == old(self)@,
            flow && old(self)@.len() > 0 ==> r == Some(old(self)@[0]) && final(self)@ == old(
                self,
            )@.skip(1),
    {
        if !flow {
            return None;
        }
        let r = self.q.pop_front();
        proof {
            if old(self)@.len() > 0 {
                assert(self@ =~= old(self)@.skip(1));
            }
        }
        r
    }

    pub fn has_pending(&self) -> (r: bool)
        ensures
            r == (self@.len() > 0),
    {
        self.q.len() > 0
    }

    /// Take every queued frame out, in order; used when a fatal error fails
    /// every outstanding promise.
    pub fn drain(&mut self) -> (r: Vec<QueuedFrame>)
        ensures
            final(self)@ == Seq::<QueuedFrame>::empty(),
            r@ == old(self)@,
    {
        let mut r: Vec<QueuedFrame> = Vec::new();
        while self.q.len() > 0
            invariant
                old(self)@ == r@ + self@,
            decreases self@.len(),
        {
            let f = self.q.pop_front().unwrap();
            r.push(f);
            proof {
                assert(old(self)@ =~= r@ + self@);
            }
        }
        proof {
            assert(old(self)@ =~= r@);
        }
        r
    }
}

/// The pending-write ledger: one entry per frame staged into the send
/// buffer; the sum of its lengths equals the bytes currently staged and
/// unflushed.
pub struct PendingLedger {
    pub entries: VecDeque<LedgerEntry>,
}

impl View for PendingLedger {
    type V = Seq<LedgerEntry>;

    open spec fn view(&self) -> Seq<LedgerEntry> {
        self.entries@
    }
}

impl PendingLedger {
    pub fn new() -> (r: PendingLedger)
        ensures
            r@ == Seq::<LedgerEntry>::empty(),
    {
        PendingLedger { entries: VecDeque::new() }
    }

    /// Record a newly staged frame.
    pub fn push(&mut self, e: LedgerEntry)
        ensures
            final(self)@ == old(self)@.push(e),
    {
        self.entries.push_back(e);
    }

    pub fn has_pending(&self) -> (r: bool)
        ensures
            r == (self@.len() > 0),
    {
        self.entries.len() > 0
    }

    /// Walk the ledger front-to-back subtracting `n` freshly written bytes:
    /// an entry fully covered resolves its promise successfully, in order; a
    /// partially covered entry is put back with its remaining length.
    pub fn ack(&mut self, n: u64, resolved: &mut Vec<Resolution>)
        requires
            positive_lens(old(self)@),
            n as int <= ledger_total(old(self)@),
        ensures
            final(self)@ == ack_left(old(self)@, n as int),
            positive_lens(final(self)@),
            ledger_total(final(self)@) == ledger_total(old(self)@) - n,
            final(resolved)@ == old(resolved)@ + resolutions_of(
                ack_fired(old(self)@, n as int),
                Outcome::Done,
            ),
    {
        proof {
            lemma_ack(old(self)@, n as int);
        }
        let mut written: u64 = n;
        let ghost mut fired: Seq<u64> = Seq::<u64>::empty();
        while written > 0 && self.entries.len() > 0
            invariant
                positive_lens(self@),
                written as int <= ledger_total(self@),
                ack_left(old(self)@, n as int) == ack_left(self@, written as int),
                ack_fired(old(self)@, n as int) == fired + ack_fired(self@, written as int),
                resolved@ == old(resolved)@ + resolutions_of(fired, Outcome::Done),
            decreases written,
        {
            let ghost top = self@;
            let e = self.entries.pop_front().unwrap();
            let ghost pre = self@;
            proof {
                assert(top =~= seq![e] + pre);
                assert(top[0] == e);
                assert(top.skip(1) =~= pre);
                assert(ledger_total(top) == e.len + ledger_total(pre));
            }
            if written < e.len {
                let left = LedgerEntry { len: e.len - written, promise: e.promise };
                self.entries.push_front(left);
                proof {
                    lemma_ledger_total_nonneg(pre);
                    assert(self@ =~= seq![left] + pre);
                    assert(ack_left(top, written as int) =~= self@);
                    assert(ack_left(self@, 0) == self@);
                    assert(ack_fired(top, written as int) =~= Seq::<u64>::empty());
                    assert(ack_fired(self@, 0) =~= Seq::<u64>::empty());
                    assert(self@[0] == left);
                    assert(self@.skip(1) =~= pre);
                    assert(ledger_total(self@) == left.len + ledger_total(pre));
                    assert forall|i: int| 0 <= i < self@.len() implies (#[trigger] self@[i]).len
                        >= 1 by {
                        if i > 0 {
                            assert(self@[i] == pre[i - 1]);
                        }
                    }
                }
                written = 0;
            } else {
                let ghost written0 = written as int;
                if let Some(id) = e.promise {
                    resolved.push(Resolution { promise: id, outcome: Outcome::Done });
                }
                written = written - e.len;
                proof {
                    lemma_ledger_total_nonneg(self@);
                    assert(ack_left(top, written0) == ack_left(self@, written as int));
                    assert(ack_fired(top, written0) == opt_ids(e.promise) + ack_fired(
                        self@,
                        written as int,
                    ));
                    lemma_resolutions_of_add(fired, opt_ids(e.promise), Outcome::Done);
                    match e.promise {
                        Some(id) => {
                            assert(opt_ids(e.promise) == seq![id]);
                            assert(seq![id][0] == id);
                            assert(seq![id].skip(1) =~= Seq::<u64>::empty());
                            assert(resolutions_of(seq![id], Outcome::Done) == seq![
                                Resolution { promise: id, outcome: Outcome::Done },
                            ] + resolutions_of(Seq::<u64>::empty(), Outcome::Done));
                            assert(resolutions_of(seq![id], Outcome::Done) =~= seq![
                                Resolution { promise: id, outcome: Outcome::Done },
                            ]);
                        },
                        None => {
                            assert(resolutions_of(opt_ids(e.promise), Outcome::Done)
                                =~= Seq::<Resolution>::empty());
                        },
                    }
                    fired = fired + opt_ids(e.promise);
                    assert(resolved@ =~= old(resolved)@ + resolutions_of(fired, Outcome::Done));
                }
            }
        }
        proof {
            if written > 0 {
                assert(self@.len() == 0);
                assert(ledger_total(self@) == 0);
                assert(false);
            }
            assert(ack_left(self@, 0) == self@);
            assert(ack_fired(self@, 0) =~= Seq::<u64>::empty());
            assert(ack_fired(old(self)@, n as int) =~= fired);
        }
    }

    /// Take every pending entry out, in order; used when a fatal error fails
    /// every outstanding promise.
    pub fn drain(&mut self) -> (r: Vec<LedgerEntry>)
        ensures
            final(self)@ == Seq::<LedgerEntry>::empty(),
            r@ == old(self)@,
    {
        let mut r: Vec<LedgerEntry> = Vec::new();
        while self.entries.len() > 0
            invariant
                old(self)@ == r@ + self@,
            decreases self@.len(),
        {
            let e = self.entries.pop_front().unwrap();
            r.push(e);
            proof {
                assert(old(self)@ =~= r@ + self@);
            }
        }
        proof {
            assert(old(self)@ =~= r@);
        }
        r
    }
}


/// Resolving the single optional id records its one resolution, or nothing.
pub proof fn lemma_resolutions_of_opt(p: Option<u64>, outcome: Outcome)
    ensures
        resolutions_of(opt_ids(p), outcome) == match p {
            Some(id) => seq![Resolution { promise: id, outcome }],
            None => Seq::<Resolution>::empty(),
        },
{
    match p {
        Some(id) => {
            assert(opt_ids(p) == seq![id]);
            assert(seq![id][0] == id);
            assert(seq![id].skip(1) =~= Seq::<u64>::empty());
            assert(resolutions_of(seq![id], outcome) == seq![Resolution { promise: id, outcome }]
                + resolutions_of(Seq::<u64>::empty(), outcome));
            assert(resolutions_of(opt_ids(p), outcome) =~= seq![
                Resolution { promise: id, outcome },
            ]);
        },
        None => {
            assert(resolutions_of(opt_ids(p), outcome) =~= Seq::<Resolution>::empty());
        },
    }
}

/// Fail, in ledger order, the promise of every drained ledger entry.
pub fn fail_entries(entries: &Vec<LedgerEntry>, err: Error, resolved: &mut Vec<Resolution>)
    ensures
        final(resolved)@ == old(resolved)@ + resolutions_of(
            ledger_ids(entries@),
            Outcome::Failed(err),
        ),
{
    let ghost mut done: Seq<u64> = Seq::<u64>::empty();
    let mut i: usize = 0;
    proof {
        assert(resolutions_of(done, Outcome::Failed(err)) =~= Seq::<Resolution>::empty());
        assert(resolved@ =~= old(resolved)@ + resolutions_of(done, Outcome::Failed(err)));
        assert(entries@.take(0) =~= Seq::<LedgerEntry>::empty());
        assert(ledger_ids(entries@.take(0)) =~= done);
    }
    while i < entries.len()
        invariant
            i <= entries@.len(),
            done == ledger_ids(entries@.take(i as int)),
            resolved@ == old(resolved)@ + resolutions_of(done, Outcome::Failed(err)),
        decreases entries@.len() - i,
    {
        let e = entries[i];
        if let Some(id) = e.promise {
            resolved.push(Resolution { promise: id, outcome: Outcome::Failed(err) });
        }
        i = i + 1;
        proof {
            assert(entries@.take(i as int) =~= entries@.take(i - 1).push(entries@[i - 1]));
            lemma_ledger_ids_push(entries@.take(i - 1), entries@[i - 1]);
            lemma_resolutions_of_add(done, opt_ids(e.promise), Outcome::Failed(err));
            lemma_resolutions_of_opt(e.promise, Outcome::Failed(err));
            done = done + opt_ids(e.promise);
            assert(done =~= ledger_ids(entries@.take(i as int)));
            assert(resolved@ =~= old(resolved)@ + resolutions_of(done, Outcome::Failed(err)));
        }
    }
    proof {
        assert(entries@.take(entries@.len() as int) =~= entries@);
    }
}

/// Fail, in queue order, the promise of every drained queued frame.
pub fn fail_queued(frames: &Vec<QueuedFrame>, err: Error, resolved: &mut Vec<Resolution>)
    ensures
        final(resolved)@ == old(resolved)@ + resolutions_of(
            queue_ids(frames@),
            Outcome::Failed(err),
        ),
{
    let ghost mut done: Seq<u64> = Seq::<u64>::empty();
    let mut i: usize = 0;
    proof {
        assert(resolutions_of(done, Outcome::Failed(err)) =~= Seq::<Resolution>::empty());
        assert(resolved@ =~= old(resolved)@ + resolutions_of(done, Outcome::Failed(err)));
        assert(frames@.take(0) =~= Seq::<QueuedFrame>::empty());
        assert(queue_ids(frames@.take(0)) =~= done);
    }
    while i < frames.len()
        invariant
            i <= frames@.len(),
            done == queue_ids(frames@.take(i as int)),
            resolved@ == old(resolved)@ + resolutions_of(done, Outcome::Failed(err)),
        decreases frames@.len() - i,
    {
        let p = frames[i].promise;
        if let Some(id) = p {
            resolved.push(Resolution { promise: id, outcome: Outcome::Failed(err) });
        }
        i = i + 1;
        proof {
            assert(frames@.take(i as int) =~= frames@.take(i - 1).push(frames@[i - 1]));
            lemma_queue_ids_push(frames@.take(i - 1), frames@[i - 1]);
            lemma_resolutions_of_add(done, opt_ids(p), Outcome::Failed(err));
            lemma_resolutions_of_opt(p, Outcome::Failed(err));
            assert(frames@[i - 1].promise == p);
            done = done + opt_ids(p);
            assert(done =~= queue_ids(frames@.take(i as int)));
            assert(resolved@ =~= old(resolved)@ + resolutions_of(done, Outcome::Failed(err)));
        }
    }
    proof {
        assert(frames@.take(frames@.len() as int) =~= frames@);
    }
}

} // verus!
