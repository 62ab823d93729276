//! The relay between the capture loop and the connection to the collector: a
//! bounded queue of envelopes that never makes the capture loop wait, and the
//! rule by which the connection's worker reconnects.
use crate::envelope::encode;
use crate::envelope::envelope;
use crate::envelope::max_payload;
use std::collections::VecDeque;
use vstd::prelude::*;

verus! {

/// Number of envelopes that the queue of a relay holds.
pub const QUEUE_CAPACITY: usize = 4096;

/// Number of milliseconds that the worker waits before it connects again.
pub const BACKOFF_MS: u64 = 1000;

/// Number of attempts to connect that may fail in a row under the usual
/// policy.
pub const DEFAULT_MAX_ATTEMPTS: u64 = 10;

/// What became of a payload that was offered to the relay.
#[derive(Debug, Clone, Copy, PartialEq, Eq, Structural)]
pub enum Offer {
    /// Its envelope is in the queue.
    Queued,
    /// The queue is full; the payload was dropped.
    Dropped,
    /// The payload is too long to have an envelope; it was dropped.
    Oversized,
}

/// The views of the buffers in a queue.
pub open spec fn entry_views(entries: Seq<Vec<u8>>) -> Seq<Seq<u8>> {
    Seq::new(entries.len(), |i: int| entries[i]@)
}

/// What adding `entry` at the back does to a queue that holds `queue` and
/// has room for `capacity` entries: a full queue stays as it is.
pub open spec fn enqueued(queue: Seq<Seq<u8>>, capacity: nat, entry: Seq<u8>) -> Seq<Seq<u8>> {
    if queue.len() < capacity {
        queue.push(entry)
    } else {
        queue
    }
}

/// What offering `payload` does to a queue: it gains the payload's envelope,
/// unless it is full or the payload has no envelope.
pub open spec fn offered(queue: Seq<Seq<u8>>, capacity: nat, payload: Seq<u8>) -> Seq<Seq<u8>> {
    if payload.len() <= max_payload() {
        enqueued(queue, capacity, envelope(payload))
    } else {
        queue
    }
}

/// The answer to offering `payload` to a queue.
pub open spec fn offer_of(queue: Seq<Seq<u8>>, capacity: nat, payload: Seq<u8>) -> Offer {
    if payload.len() > max_payload() {
        Offer::Oversized
    } else if queue.len() < capacity {
        Offer::Queued
    } else {
        Offer::Dropped
    }
}

/// A bounded queue of envelopes, first in, first out. Its view is the
/// sequence of the entries, the oldest first.
pub struct RelayQueue {
    entries: VecDeque<Vec<u8>>,
    capacity: usize,
}

impl View for RelayQueue {
    type V = Seq<Seq<u8>>;

    closed spec fn view(&self) -> Seq<Seq<u8>> {
        entry_views(self.entries@)
    }
}

impl RelayQueue {
    /// The queue holds no more entries than it has room for.
    pub closed spec fn wf(&self) -> bool {
        self.entries@.len() <= self.capacity
    }

    /// A well-formed queue is within its capacity.
    pub proof fn lemma_bounded(&self)
        requires
            self.wf(),
        ensures
            self@.len() <= self.capacity(),
    {
    }

    /// Number of entries that the queue has room for.
    pub closed spec fn capacity(&self) -> nat {
        self.capacity as nat
    }

    /// An empty queue with room for `capacity` entries.
    pub fn with_capacity(capacity: usize) -> (queue: RelayQueue)
        ensures
            queue.wf(),
            queue@ == Seq::<Seq<u8>>::empty(),
            queue.capacity() == capacity,
    {
        let queue = RelayQueue { entries: VecDeque::new(), capacity };
        assert(queue@ =~= Seq::<Seq<u8>>::empty());
        queue
    }

    /// An empty queue of the usual capacity.
    pub fn new() -> (queue: RelayQueue)
        ensures
            queue.wf(),
            queue@ == Seq::<Seq<u8>>::empty(),
            queue.capacity() == QUEUE_CAPACITY,
    {
        RelayQueue::with_capacity(QUEUE_CAPACITY)
    }

    /// Number of entries in the queue.
    pub fn len(&self) -> (n: usize)
        ensures
            n == self@.len(),
    {
        self.entries.len()
    }

    /// Whether the queue has no room left.
    pub fn is_full(&self) -> (full: bool)
        ensures
            full == (self@.len() >= self.capacity()),
    {
        self.entries.len() >= self.capacity
    }

    /// Adds `entry` at the back of the queue, unless the queue is full. Never
    /// waits: a full queue stays as it is and the entry is dropped.
    pub fn try_enqueue(&mut self, entry: Vec<u8>) -> (queued: bool)
        ensures
            old(self).wf() ==> final(self).wf(),
            queued == (old(self)@.len() < old(self).capacity()),
            final(self)@ == enqueued(old(self)@, old(self).capacity(), entry@),
            final(self).capacity() == old(self).capacity(),
    {
        if self.entries.len() >= self.capacity {
            return false;
        }
        let ghost before = self@;
        self.entries.push_back(entry);
        assert(self@ =~= before.push(entry@));
        true
    }

    /// Takes the oldest entry out of the queue.
    pub fn dequeue(&mut self) -> (entry: Option<Vec<u8>>)
        ensures
            old(self).wf() ==> final(self).wf(),
            old(self)@.len() == 0 ==> entry is None && final(self)@ == old(self)@,
            old(self)@.len() > 0 ==> entry is Some && entry->0@ == old(self)@[0] && final(self)@
                == old(self)@.skip(1),
            final(self).capacity() == old(self).capacity(),
    {
        let ghost before = self@;
        let entry = self.entries.pop_front();
        assert(entry is Some ==> self@ =~= before.skip(1));
        entry
    }

    /// Frames `payload` and adds the envelope to the queue, unless the queue is
    /// full or the payload has no envelope. Never waits.
    pub fn offer(&mut self, payload: &[u8]) -> (answer: Offer)
        ensures
            old(self).wf() ==> final(self).wf(),
            answer == offer_of(old(self)@, old(self).capacity(), payload@),
            final(self)@ == offered(old(self)@, old(self).capacity(), payload@),
            final(self).capacity() == old(self).capacity(),
    {
        match encode(payload) {
            Some(entry) => {
                if self.try_enqueue(entry) {
                    Offer::Queued
                } else {
                    Offer::Dropped
                }
            },
            None => Offer::Oversized,
        }
    }
}

/// What a queue holds after each of `payloads` was offered to it in turn.
pub open spec fn offered_all(queue: Seq<Seq<u8>>, capacity: nat, payloads: Seq<Seq<u8>>) -> Seq<
    Seq<u8>,
>
    decreases payloads.len(),
{
    if payloads.len() == 0 {
        queue
    } else {
        offered_all(offered(queue, capacity, payloads[0]), capacity, payloads.skip(1))
    }
}

/// Offers to a full queue change nothing: each is answered without waiting,
/// none with `Queued`, and the entries that were queued before stay in their
/// order, so that the worker takes them out one by one as if nothing had been
/// offered.
pub proof fn lemma_full_queue_drops(queue: Seq<Seq<u8>>, capacity: nat, payloads: Seq<Seq<u8>>)
    requires
        queue.len() >= capacity,
    ensures
        offered_all(queue, capacity, payloads) == queue,
        forall|i: int|
            0 <= i < payloads.len() ==> offer_of(queue, capacity, #[trigger] payloads[i])
                != Offer::Queued,
    decreases payloads.len(),
{
    if payloads.len() > 0 {
        lemma_full_queue_drops(queue, capacity, payloads.skip(1));
    }
}

/// Envelopes leave the queue in the order in which their payloads were
/// offered: an offer that is taken in puts its envelope behind all that is
/// queued.
pub proof fn lemma_offer_keeps_order(queue: Seq<Seq<u8>>, capacity: nat, payload: Seq<u8>)
    ensures
        offered(queue, capacity, payload).len() >= queue.len(),
        offered(queue, capacity, payload).take(queue.len() as int) == queue,
        offer_of(queue, capacity, payload) == Offer::Queued ==> offered(queue, capacity, payload)
            == queue.push(envelope(payload)),
        offer_of(queue, capacity, payload) != Offer::Queued ==> offered(queue, capacity, payload)
            == queue,
{
    assert(offered(queue, capacity, payload).take(queue.len() as int) =~= queue);
}

/// What happened to the worker's connection.
#[derive(Debug, Clone, Copy, PartialEq, Eq, Structural)]
pub enum ConnectionEvent {
    /// A connection was established.
    Connected,
    /// An attempt to connect failed.
    ConnectFailed,
    /// An entry was written to the connection.
    Written,
    /// Writing an entry failed; the entry is lost.
    WriteFailed,
}

/// What the worker is to do next.
#[derive(Debug, Clone, Copy, PartialEq, Eq, Structural)]
pub enum WorkerAction {
    /// Wait for the next entry of the queue and write it to the connection.
    Drain,
    /// Give up the connection, if there is one, wait for so many
    /// milliseconds, and connect again.
    Reconnect { after_ms: u64 },
    /// Give up for good.
    Stop,
}

/// The rule by which the worker reconnects: how many attempts to connect may
/// fail in a row before it gives up, if there is such a number at all.
#[derive(Debug, Clone, Copy, PartialEq, Eq, Structural)]
pub struct RetryPolicy {
    pub max_attempts: Option<u64>,
}

impl RetryPolicy {
    /// The policy that gives up after `max_attempts` failed attempts in a row.
    pub fn bounded(max_attempts: u64) -> (policy: RetryPolicy)
        ensures
            policy.max_attempts == Some(max_attempts),
    {
        RetryPolicy { max_attempts: Some(max_attempts) }
    }

    /// The policy that never gives up.
    pub fn unbounded() -> (policy: RetryPolicy)
        ensures
            policy.max_attempts is None,
    {
        RetryPolicy { max_attempts: None }
    }
}

impl Default for RetryPolicy {
    /// The usual policy, which is bounded.
    fn default() -> (policy: RetryPolicy)
        ensures
            policy.max_attempts == Some(DEFAULT_MAX_ATTEMPTS),
    {
        RetryPolicy { max_attempts: Some(DEFAULT_MAX_ATTEMPTS) }
    }
}

/// The number of failed attempts in a row after the event, given the number
/// before it.
pub open spec fn failures_after(failures: u64, event: ConnectionEvent) -> u64 {
    match event {
        ConnectionEvent::Connected => 0,
        ConnectionEvent::ConnectFailed => if failures < u64::MAX {
            (failures + 1) as u64
        } else {
            failures
        },
        ConnectionEvent::Written => failures,
        ConnectionEvent::WriteFailed => failures,
    }
}

/// What the worker does after the event, under the policy, given the number of
/// attempts that had failed in a row before it.
pub open spec fn action_after(policy: RetryPolicy, failures: u64, event: ConnectionEvent)
    -> WorkerAction {
    match event {
        ConnectionEvent::Connected => WorkerAction::Drain,
        ConnectionEvent::Written => WorkerAction::Drain,
        ConnectionEvent::WriteFailed => WorkerAction::Reconnect { after_ms: BACKOFF_MS },
        ConnectionEvent::ConnectFailed => match policy.max_attempts {
            Some(max) => if failures_after(failures, event) >= max {
                WorkerAction::Stop
            } else {
                WorkerAction::Reconnect { after_ms: BACKOFF_MS }
            },
            None => WorkerAction::Reconnect { after_ms: BACKOFF_MS },
        },
    }
}

/// The state of the worker that writes the queue to the connection.
#[derive(Debug, Clone, Copy)]
pub struct RelayWorker {
    policy: RetryPolicy,
    failures: u64,
}

impl RelayWorker {
    /// The policy that the worker follows.
    pub closed spec fn policy(&self) -> RetryPolicy {
        self.policy
    }

    /// Number of attempts to connect that have failed in a row.
    pub closed spec fn failures(&self) -> u64 {
        self.failures
    }

    /// A worker that has not tried to connect yet.
    pub fn new(policy: RetryPolicy) -> (worker: RelayWorker)
        ensures
            worker.policy() == policy,
            worker.failures() == 0,
    {
        RelayWorker { policy, failures: 0 }
    }

    /// Takes in what happened to the connection and says what to do next.
    pub fn on_event(&mut self, event: ConnectionEvent) -> (action: WorkerAction)
        ensures
            action == action_after(old(self).policy(), old(self).failures(), event),
            final(self).failures() == failures_after(old(self).failures(), event),
            final(self).policy() == old(self).policy(),
    {
        match event {
            ConnectionEvent::Connected => {
                self.failures = 0;
                WorkerAction::Drain
            },
            ConnectionEvent::Written => WorkerAction::Drain,
            ConnectionEvent::WriteFailed => WorkerAction::Reconnect { after_ms: BACKOFF_MS },
            ConnectionEvent::ConnectFailed => {
                if self.failures < u64::MAX {
                    self.failures = self.failures + 1;
                }
                match self.policy.max_attempts {
                    Some(max) => {
                        if self.failures >= max {
                            WorkerAction::Stop
                        } else {
                            WorkerAction::Reconnect { after_ms: BACKOFF_MS }
                        }
                    },
                    None => WorkerAction::Reconnect { after_ms: BACKOFF_MS },
                }
            },
        }
    }
}

} // verus!
