//! The outbound delivery queue of one consumer: bounded, first in first out, and
//! closed for good by the first payload that does not fit.

use std::collections::VecDeque;
use vstd::prelude::*;
use crate::tier::Tier;

verus! {

/// The outbound queue of one session.
#[derive(Debug)]
pub struct OutboundQueue {
    items: VecDeque<String>,
    capacity: usize,
    open: bool,
}

/// The mathematical value of an [`OutboundQueue`].
pub struct QueueView {
    /// The payloads that wait to be written, oldest first.
    pub pending: Seq<Seq<char>>,
    /// The most payloads that may wait at once.
    pub capacity: nat,
    /// Whether the queue still takes payloads.
    pub open: bool,
}

/// What became of a payload offered to a queue.
#[derive(Clone, Copy, Debug, PartialEq, Eq, Structural)]
pub enum Offer {
    /// The payload waits at the back of the queue.
    Queued,
    /// The queue was full: the payload is dropped and the queue is now closed.
    Overflowed,
    /// The queue was closed already: the payload is dropped.
    Refused,
}

/// What offering a payload to a queue answers.
pub open spec fn offer_outcome(q: QueueView) -> Offer {
    if !q.open {
        Offer::Refused
    } else if q.pending.len() >= q.capacity {
        Offer::Overflowed
    } else {
        Offer::Queued
    }
}

/// The queue after a payload was offered to it.
pub open spec fn offered(q: QueueView, payload: Seq<char>) -> QueueView {
    match offer_outcome(q) {
        Offer::Refused => q,
        Offer::Overflowed => QueueView { open: false, ..q },
        Offer::Queued => QueueView { pending: q.pending.push(payload), ..q },
    }
}

/// The queue after its oldest payload was taken; unchanged where nothing waits.
pub open spec fn taken(q: QueueView) -> QueueView {
    if q.pending.len() > 0 {
        QueueView { pending: q.pending.skip(1), ..q }
    } else {
        q
    }
}

/// What the outbound loop gets when it asks a queue for work.
#[derive(Debug, PartialEq, Eq)]
pub enum Pull {
    /// The oldest payload that waited; write it.
    Payload(String),
    /// Nothing waits in an open queue; wait for an offer.
    Idle,
    /// The queue is closed; stop. What still waited stays unwritten.
    Finished,
}

/// The mathematical value of a [`Pull`].
pub enum PullView {
    Payload(Seq<char>),
    Idle,
    Finished,
}

impl View for Pull {
    type V = PullView;

    open spec fn view(&self) -> PullView {
        match self {
            Pull::Payload(payload) => PullView::Payload(payload@),
            Pull::Idle => PullView::Idle,
            Pull::Finished => PullView::Finished,
        }
    }
}

/// What asking a queue for work answers.
pub open spec fn pull_outcome(q: QueueView) -> PullView {
    if !q.open {
        PullView::Finished
    } else if q.pending.len() > 0 {
        PullView::Payload(q.pending[0])
    } else {
        PullView::Idle
    }
}

/// The queue after it was asked for work: an open queue gives up its oldest
/// payload, a closed one keeps what it holds.
pub open spec fn pulled(q: QueueView) -> QueueView {
    if q.open {
        taken(q)
    } else {
        q
    }
}

impl View for OutboundQueue {
    type V = QueueView;

    closed spec fn view(&self) -> QueueView {
        QueueView {
            pending: self.items@.map_values(|payload: String| payload@),
            capacity: self.capacity as nat,
            open: self.open,
        }
    }
}

impl OutboundQueue {
    /// An open, empty queue that holds up to `capacity` payloads.
    pub fn new(capacity: usize) -> (queue: Self)
        ensures
            queue@ == (QueueView { pending: Seq::empty(), capacity: capacity as nat, open: true }),
    {
        let queue = OutboundQueue { items: VecDeque::new(), capacity, open: true };
        assert(queue@.pending =~= Seq::<Seq<char>>::empty());
        queue
    }

    /// The number of payloads that wait.
    pub fn len(&self) -> (n: usize)
        ensures
            n == self@.pending.len(),
    {
        self.items.len()
    }

    /// The most payloads that may wait at once.
    pub fn capacity(&self) -> (n: usize)
        ensures
            n == self@.capacity,
    {
        self.capacity
    }

    /// Whether the queue still takes payloads.
    pub fn is_open(&self) -> (r: bool)
        ensures
            r == self@.open,
    {
        self.open
    }

    /// Offers a payload. An open queue with room takes it at the back. An open queue
    /// without room drops it and closes. A closed queue drops it.
    pub fn enqueue(&mut self, payload: String) -> (outcome: Offer)
        ensures
            outcome == offer_outcome(old(self)@),
            final(self)@ == offered(old(self)@, payload@),
    {
        if !self.open {
            Offer::Refused
        } else if self.items.len() >= self.capacity {
            self.open = false;
            Offer::Overflowed
        } else {
            self.items.push_back(payload);
            assert(self@.pending =~= old(self)@.pending.push(payload@));
            Offer::Queued
        }
    }

    /// Takes the oldest payload that waits, open or closed.
    pub fn dequeue(&mut self) -> (payload: Option<String>)
        ensures
            final(self)@ == taken(old(self)@),
            match payload {
                Some(p) => old(self)@.pending.len() > 0 && p@ == old(self)@.pending[0],
                None => old(self)@.pending.len() == 0,
            },
    {
        let payload = self.items.pop_front();
        assert(self@.pending =~= taken(old(self)@).pending);
        payload
    }

    /// Asks for work on behalf of the outbound loop: the oldest payload of an open
    /// queue, `Idle` where an open queue is empty, `Finished` where the queue is
    /// closed.
    pub fn pull(&mut self) -> (work: Pull)
        ensures
            work@ == pull_outcome(old(self)@),
            final(self)@ == pulled(old(self)@),
    {
        if !self.open {
            Pull::Finished
        } else {
            match self.dequeue() {
                Some(payload) => Pull::Payload(payload),
                None => Pull::Idle,
            }
        }
    }

    /// Closes the queue; what waits stays.
    pub fn close(&mut self)
        ensures
            final(self)@ == (QueueView { open: false, ..old(self)@ }),
    {
        self.open = false;
    }
}

/// One event as it reaches the dispatcher: its payload and whether it is critical.
pub struct Arrival {
    pub payload: Seq<char>,
    pub critical: bool,
}

/// The payloads, in arrival order, of the arrivals that a tier lets through.
pub open spec fn deliveries(tier: Tier, arrivals: Seq<Arrival>) -> Seq<Seq<char>>
    decreases arrivals.len(),
{
    if arrivals.len() == 0 {
        Seq::empty()
    } else if tier.spec_admits(arrivals.last().critical) {
        deliveries(tier, arrivals.drop_last()).push(arrivals.last().payload)
    } else {
        deliveries(tier, arrivals.drop_last())
    }
}

/// The queue of a consumer of the given tier after the arrivals were dispatched in
/// order: each one that the tier lets through was offered to the queue.
pub open spec fn after_arrivals(q: QueueView, tier: Tier, arrivals: Seq<Arrival>) -> QueueView
    decreases arrivals.len(),
{
    if arrivals.len() == 0 {
        q
    } else if tier.spec_admits(arrivals.last().critical) {
        offered(after_arrivals(q, tier, arrivals.drop_last()), arrivals.last().payload)
    } else {
        after_arrivals(q, tier, arrivals.drop_last())
    }
}

/// The queue after `n` payloads were taken from it.
pub open spec fn taken_n(q: QueueView, n: nat) -> QueueView
    decreases n,
{
    if n == 0 {
        q
    } else {
        taken(taken_n(q, (n - 1) as nat))
    }
}

/// Offering never lets more wait than the capacity allows.
pub proof fn lemma_offer_keeps_bound(q: QueueView, payload: Seq<char>)
    requires
        q.pending.len() <= q.capacity,
    ensures
        offered(q, payload).pending.len() <= offered(q, payload).capacity,
        offered(q, payload).capacity == q.capacity,
{
}

/// First in, first out, per consumer. What waits in a consumer's queue after any run
/// of arrivals is what waited before, followed by an initial stretch of the
/// payloads sent to the consumer, in the order in which they reached the
/// dispatcher. Nothing is reordered and nothing is skipped: the stretch ends only
/// where the queue closed. Where the queue is open and has room for all of them,
/// the stretch is all of them.
pub proof fn lemma_consumer_order(q: QueueView, tier: Tier, arrivals: Seq<Arrival>)
    ensures
        ({
            let after = after_arrivals(q, tier, arrivals);
            let sent = deliveries(tier, arrivals);
            let kept = after.pending.len() - q.pending.len();
            &&& 0 <= kept <= sent.len()
            &&& after.pending == q.pending + sent.take(kept)
            &&& after.capacity == q.capacity
            &&& after.open ==> q.open && kept == sent.len()
            &&& q.open && q.pending.len() + sent.len() <= q.capacity ==> after.open && kept
                == sent.len()
        }),
    decreases arrivals.len(),
{
    let after = after_arrivals(q, tier, arrivals);
    let sent = deliveries(tier, arrivals);
    if arrivals.len() == 0 {
        assert(q.pending + sent.take(0) =~= q.pending);
    } else {
        let front = arrivals.drop_last();
        lemma_consumer_order(q, tier, front);
        let mid = after_arrivals(q, tier, front);
        let sent_front = deliveries(tier, front);
        let kept_front = mid.pending.len() - q.pending.len();
        if tier.spec_admits(arrivals.last().critical) {
            if offer_outcome(mid) == Offer::Queued {
                assert(sent.take(kept_front + 1) =~= sent_front.take(kept_front).push(
                    arrivals.last().payload,
                ));
                assert(after.pending =~= q.pending + sent.take(kept_front + 1));
            } else {
                assert(sent.take(kept_front) =~= sent_front.take(kept_front));
            }
        }
    }
}

/// Payloads leave a queue in the order in which they wait: after `n` were taken,
/// the rest waits, and the next one taken is the one that stood at place `n`.
pub proof fn lemma_taken_in_order(q: QueueView, n: nat)
    requires
        n <= q.pending.len(),
    ensures
        taken_n(q, n).pending == q.pending.skip(n as int),
        taken_n(q, n).open == q.open,
        taken_n(q, n).capacity == q.capacity,
    decreases n,
{
    if n == 0 {
        assert(q.pending.skip(0) =~= q.pending);
    } else {
        lemma_taken_in_order(q, (n - 1) as nat);
        assert(q.pending.skip(n - 1).skip(1) =~= q.pending.skip(n as int));
    }
}

/// One operation on a queue, as a value.
pub enum QueueOp {
    Offer(Seq<char>),
    Take,
    Pull,
    Close,
}

/// The queue after one operation.
pub open spec fn queue_applied(q: QueueView, op: QueueOp) -> QueueView {
    match op {
        QueueOp::Offer(payload) => offered(q, payload),
        QueueOp::Take => taken(q),
        QueueOp::Pull => pulled(q),
        QueueOp::Close => QueueView { open: false, ..q },
    }
}

/// The queue after a run of operations.
pub open spec fn queue_after(q: QueueView, ops: Seq<QueueOp>) -> QueueView
    decreases ops.len(),
{
    if ops.len() == 0 {
        q
    } else {
        queue_applied(queue_after(q, ops.drop_last()), ops.last())
    }
}

/// Whatever is done to a queue, its capacity stays, no more waits than the capacity
/// allows, and once closed it stays closed.
pub proof fn lemma_queue_stays_bounded(q: QueueView, ops: Seq<QueueOp>)
    requires
        q.pending.len() <= q.capacity,
    ensures
        queue_after(q, ops).capacity == q.capacity,
        queue_after(q, ops).pending.len() <= q.capacity,
        !q.open ==> !queue_after(q, ops).open,
    decreases ops.len(),
{
    if ops.len() > 0 {
        lemma_queue_stays_bounded(q, ops.drop_last());
    }
}

} // verus!
