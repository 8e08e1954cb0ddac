//! Backpressure without spinning.
//!
//! A worker that finds its queue full or empty must wait, and must be woken
//! when the other side makes room or delivers. The coordinator keeps, for one
//! queue, a slot per producer and a slot per consumer, and decides after each
//! attempt on the queue what the worker does next and whom it wakes.
//!
//! The coordinator decides; it does not suspend or wake anything. A worker
//! runs the loop: it makes an attempt through [`BetterCrossbeam::send`] or
//! [`BetterCrossbeam::recv`], and where the answer is to park it suspends
//! itself for at most the time given, reports back through `resume_send` or
//! `resume_recv`, and tries again. The wait is bounded, so a wake-up that went
//! to the wrong thread costs one timeout and never blocks a worker for good.

use crate::channel::{try_recv, try_send, TryRecv, TrySend};
use crossbeam_channel::{Receiver, Sender};
use vstd::prelude::*;

verus! {

/// The number of items that a queue between two stages holds at most.
pub const QUEUE_CAPACITY: usize = 512;

/// The longest a worker stays suspended before it looks at its queue again,
/// in milliseconds.
pub const PARK_TIMEOUT_MS: u64 = 100;

/// One worker's slot in a table of waiters.
pub struct ThreadsState<H> {
    /// The handle through which the worker is woken, once it has registered.
    pub t_handle: Option<H>,
    /// Set by the worker itself just before it suspends, cleared when it
    /// resumes.
    pub is_parked: bool,
}

/// What a producer does after one attempt to push.
pub enum SendStep<T> {
    /// The item is in the queue. `wake` is the slot of the consumer to wake:
    /// the first one that is parked, if any is.
    Sent { wake: Option<usize> },
    /// The queue was full and the producer's slot is now marked parked. The
    /// producer suspends for at most `timeout_ms`, calls `resume_send`, and
    /// offers `item` again.
    Park { item: T, timeout_ms: u64 },
    /// Every consumer of the queue is gone. `item` cannot be delivered.
    Disconnected { item: T },
}

/// What a consumer does after one attempt to take an item.
pub enum RecvStep<T> {
    /// `item` was taken. `wake` is the slot of the producer to wake: the
    /// first one that is parked, if any is.
    Received { item: T, wake: Option<usize> },
    /// The queue was empty and the consumer's slot is now marked parked. The
    /// consumer suspends for at most `timeout_ms`, calls `resume_recv`, and
    /// tries again.
    Park { timeout_ms: u64 },
    /// The queue is drained and every producer is gone: the stream has ended.
    Closed,
}

/// The slot of the first parked worker at or after `from`, if there is one.
pub open spec fn first_parked_from<H>(table: Seq<ThreadsState<H>>, from: int) -> Option<usize>
    decreases table.len() - from,
{
    if from < 0 || from >= table.len() {
        None
    } else if table[from].is_parked {
        Some(from as usize)
    } else {
        first_parked_from(table, from + 1)
    }
}

/// The slot of the first parked worker of a table, if any is parked.
pub open spec fn first_parked<H>(table: Seq<ThreadsState<H>>) -> Option<usize> {
    first_parked_from(table, 0)
}

/// The table with slot `t_id` marked parked or not parked.
pub open spec fn with_parked<H>(table: Seq<ThreadsState<H>>, t_id: int, parked: bool) -> Seq<
    ThreadsState<H>,
> {
    table.update(t_id, ThreadsState { t_handle: table[t_id].t_handle, is_parked: parked })
}

/// The two tables of one queue.
pub struct CoordinatorModel<H> {
    /// The producers of the queue, which wait when it is full.
    pub producers: Seq<ThreadsState<H>>,
    /// The consumers of the queue, which wait when it is empty.
    pub consumers: Seq<ThreadsState<H>>,
}

impl<H> CoordinatorModel<H> {
    /// The producer's next step after `outcome`.
    pub open spec fn send_step<T>(self, t_id: usize, outcome: TrySend<T>) -> SendStep<T> {
        match outcome {
            TrySend::Sent => SendStep::Sent { wake: first_parked(self.consumers) },
            TrySend::Full(item) => SendStep::Park { item, timeout_ms: PARK_TIMEOUT_MS },
            TrySend::Disconnected(item) => SendStep::Disconnected { item },
        }
    }

    /// The tables after a producer has seen `outcome`: its slot is marked
    /// parked if the queue was full, and nothing else changes.
    pub open spec fn after_send<T>(self, t_id: usize, outcome: TrySend<T>) -> CoordinatorModel<H> {
        match outcome {
            TrySend::Full(_) => CoordinatorModel {
                producers: with_parked(self.producers, t_id as int, true),
                consumers: self.consumers,
            },
            _ => self,
        }
    }

    /// The consumer's next step after `outcome`.
    pub open spec fn recv_step<T>(self, t_id: usize, outcome: TryRecv<T>) -> RecvStep<T> {
        match outcome {
            TryRecv::Item(item) => RecvStep::Received { item, wake: first_parked(self.producers) },
            TryRecv::Empty => RecvStep::Park { timeout_ms: PARK_TIMEOUT_MS },
            TryRecv::Disconnected => RecvStep::Closed,
        }
    }

    /// The tables after a consumer has seen `outcome`: its slot is marked
    /// parked if the queue was empty, and nothing else changes.
    pub open spec fn after_recv<T>(self, t_id: usize, outcome: TryRecv<T>) -> CoordinatorModel<H> {
        match outcome {
            TryRecv::Empty => CoordinatorModel {
                producers: self.producers,
                consumers: with_parked(self.consumers, t_id as int, true),
            },
            _ => self,
        }
    }
}

/// In a table that fits a vector, `first_parked_from` finds a parked slot,
/// and the first one: no slot between `from` and the one found is parked;
/// where it finds none, none is parked from `from` on.
pub proof fn lemma_first_parked_from<H>(table: Seq<ThreadsState<H>>, from: int)
    requires
        0 <= from,
        table.len() <= usize::MAX,
    ensures
        match first_parked_from(table, from) {
            Some(slot) => {
                &&& from <= slot < table.len()
                &&& table[slot as int].is_parked
                &&& forall|i: int| from <= i < slot ==> !(#[trigger] table[i]).is_parked
            },
            None => forall|i: int| from <= i < table.len() ==> !(#[trigger] table[i]).is_parked,
        },
    decreases table.len() - from,
{
    if from < table.len() && !table[from].is_parked {
        lemma_first_parked_from(table, from + 1);
    }
}

/// While a producer is parked on a full queue, every item that a consumer
/// takes wakes a parked producer: the consumer's step names a slot, that slot
/// is parked, and it is the parked producer itself or one before it. The
/// producer's wait is bounded by the park timeout either way, and its next
/// attempt that finds room ends with the item sent.
pub proof fn lemma_drain_wakes_a_parked_producer<H, T, U>(
    before: CoordinatorModel<H>,
    producer: usize,
    consumer: usize,
    blocked: T,
    drained: U,
)
    requires
        producer < before.producers.len() <= usize::MAX,
    ensures
        before.send_step(producer, TrySend::Full(blocked)) == (SendStep::Park {
            item: blocked,
            timeout_ms: PARK_TIMEOUT_MS,
        }),
        ({
            let parked = before.after_send(producer, TrySend::Full(blocked));
            match parked.recv_step(consumer, TryRecv::Item(drained)) {
                RecvStep::Received { item, wake: Some(slot) } => {
                    &&& item == drained
                    &&& slot <= producer
                    &&& parked.producers[slot as int].is_parked
                },
                _ => false,
            }
        }),
        forall|later: CoordinatorModel<H>| #[trigger]
            later.send_step(producer, TrySend::<T>::Sent) is Sent,
{
    let parked = before.after_send(producer, TrySend::Full(blocked));
    lemma_first_parked_from(parked.producers, 0);
    assert(parked.producers[producer as int].is_parked);
}

/// The coordinator of one queue: the table of its producers, which may be
/// blocked by a full queue, and the table of its consumers, which may be
/// blocked by an empty one. `H` is the handle through which a worker is
/// woken.
pub struct BetterCrossbeam<H> {
    blocked_by_empty: Vec<ThreadsState<H>>,
    blocked_by_full: Vec<ThreadsState<H>>,
}

impl<H> View for BetterCrossbeam<H> {
    type V = CoordinatorModel<H>;

    closed spec fn view(&self) -> CoordinatorModel<H> {
        CoordinatorModel { producers: self.blocked_by_full@, consumers: self.blocked_by_empty@ }
    }
}

/// A table of `threads` slots, none registered and none parked.
fn empty_table<H>(threads: usize) -> (table: Vec<ThreadsState<H>>)
    ensures
        table@.len() == threads,
        forall|i: int|
            0 <= i < threads ==> (#[trigger] table@[i]) == (ThreadsState::<H> {
                t_handle: None,
                is_parked: false,
            }),
{
    let mut table: Vec<ThreadsState<H>> = Vec::new();
    let mut i: usize = 0;
    while i < threads
        invariant
            i <= threads,
            table@.len() == i,
            forall|j: int|
                0 <= j < i ==> (#[trigger] table@[j]) == (ThreadsState::<H> {
                    t_handle: None,
                    is_parked: false,
                }),
        decreases threads - i,
    {
        table.push(ThreadsState { t_handle: None, is_parked: false });
        i = i + 1;
    }
    table
}

/// Scans a table for the first parked slot.
fn scan<H>(table: &Vec<ThreadsState<H>>) -> (wake: Option<usize>)
    ensures
        wake == first_parked(table@),
{
    let mut i: usize = 0;
    while i < table.len()
        invariant
            i <= table@.len(),
            first_parked(table@) == first_parked_from(table@, i as int),
        decreases table@.len() - i,
    {
        if table[i].is_parked {
            return Some(i);
        }
        i = i + 1;
    }
    None
}

impl<H> BetterCrossbeam<H> {
    /// A coordinator for a queue with `threads` producers and `threads`
    /// consumers at most. No slot is registered, none is parked.
    pub fn new(threads: usize) -> (c: BetterCrossbeam<H>)
        ensures
            c@.producers.len() == threads,
            c@.consumers.len() == threads,
            forall|i: int|
                0 <= i < threads ==> (#[trigger] c@.producers[i]) == (ThreadsState::<H> {
                    t_handle: None,
                    is_parked: false,
                }),
            forall|i: int|
                0 <= i < threads ==> (#[trigger] c@.consumers[i]) == (ThreadsState::<H> {
                    t_handle: None,
                    is_parked: false,
                }),
    {
        BetterCrossbeam {
            blocked_by_empty: empty_table(threads),
            blocked_by_full: empty_table(threads),
        }
    }

    /// How many producer slots the coordinator has.
    pub fn producer_slots(&self) -> (n: usize)
        ensures
            n == self@.producers.len(),
    {
        self.blocked_by_full.len()
    }

    /// How many consumer slots the coordinator has.
    pub fn consumer_slots(&self) -> (n: usize)
        ensures
            n == self@.consumers.len(),
    {
        self.blocked_by_empty.len()
    }

    /// Registers `thread` as the handle of producer `t_id`. Producers can be
    /// blocked only by a full queue. The slot keeps its place; it starts out
    /// not parked.
    pub fn set_send_handle(&mut self, t_id: usize, thread: H)
        requires
            t_id < old(self)@.producers.len(),
        ensures
            final(self)@.producers == old(self)@.producers.update(
                t_id as int,
                ThreadsState { t_handle: Some(thread), is_parked: false },
            ),
            final(self)@.consumers == old(self)@.consumers,
    {
        self.blocked_by_full[t_id] = ThreadsState { t_handle: Some(thread), is_parked: false };
    }

    /// Registers `thread` as the handle of consumer `t_id`. Consumers can be
    /// blocked only by an empty queue. The slot keeps its place; it starts
    /// out not parked.
    pub fn set_rcv_handle(&mut self, t_id: usize, thread: H)
        requires
            t_id < old(self)@.consumers.len(),
        ensures
            final(self)@.consumers == old(self)@.consumers.update(
                t_id as int,
                ThreadsState { t_handle: Some(thread), is_parked: false },
            ),
            final(self)@.producers == old(self)@.producers,
    {
        self.blocked_by_empty[t_id] = ThreadsState { t_handle: Some(thread), is_parked: false };
    }

    /// The handle registered for producer `slot`, if there is one.
    pub fn send_handle(&self, slot: usize) -> (h: Option<&H>)
        ensures
            match h {
                Some(handle) => slot < self@.producers.len() && self@.producers[slot as int].t_handle
                    == Some(*handle),
                None => slot >= self@.producers.len() || self@.producers[slot as int].t_handle
                    is None,
            },
    {
        if slot < self.blocked_by_full.len() {
            self.blocked_by_full[slot].t_handle.as_ref()
        } else {
            None
        }
    }

    /// The handle registered for consumer `slot`, if there is one.
    pub fn rcv_handle(&self, slot: usize) -> (h: Option<&H>)
        ensures
            match h {
                Some(handle) => slot < self@.consumers.len() && self@.consumers[slot as int].t_handle
                    == Some(*handle),
                None => slot >= self@.consumers.len() || self@.consumers[slot as int].t_handle
                    is None,
            },
    {
        if slot < self.blocked_by_empty.len() {
            self.blocked_by_empty[slot].t_handle.as_ref()
        } else {
            None
        }
    }

    /// Decides what producer `t_id` does after an attempt to push that ended
    /// in `outcome`.
    ///
    /// A successful push wakes the first parked consumer. A full queue parks
    /// the producer: its slot is marked, and the item comes back to be
    /// offered again after the wait. A disconnected queue ends the producer.
    pub fn send_outcome<T>(&mut self, t_id: usize, outcome: TrySend<T>) -> (step: SendStep<T>)
        requires
            outcome is Full ==> t_id < old(self)@.producers.len(),
        ensures
            step == old(self)@.send_step(t_id, outcome),
            final(self)@ == old(self)@.after_send(t_id, outcome),
    {
        match outcome {
            TrySend::Sent => SendStep::Sent { wake: scan(&self.blocked_by_empty) },
            TrySend::Full(item) => {
                self.blocked_by_full[t_id].is_parked = true;
                SendStep::Park { item, timeout_ms: PARK_TIMEOUT_MS }
            },
            TrySend::Disconnected(item) => SendStep::Disconnected { item },
        }
    }

    /// Clears the parked mark of producer `t_id`, which has resumed.
    pub fn resume_send(&mut self, t_id: usize)
        requires
            t_id < old(self)@.producers.len(),
        ensures
            final(self)@.producers == with_parked(old(self)@.producers, t_id as int, false),
            final(self)@.consumers == old(self)@.consumers,
    {
        self.blocked_by_full[t_id].is_parked = false;
    }

    /// Makes one attempt to push `send_data` into the queue behind `sender`,
    /// on behalf of producer `t_id`, and decides the producer's next step.
    ///
    /// The attempt never blocks. Whether the queue has room depends on the
    /// other workers, so the step is the one that `send_outcome` gives for
    /// some outcome of the attempt; an outcome that is no success carries
    /// `send_data` itself.
    pub fn send<T>(&mut self, sender: &Sender<T>, t_id: usize, send_data: T) -> (step: SendStep<T>)
        requires
            t_id < old(self)@.producers.len(),
        ensures
            exists|outcome: TrySend<T>|
                {
                    &&& outcome.returned() is Some ==> outcome.returned() == Some(send_data)
                    &&& step == old(self)@.send_step(t_id, outcome)
                    &&& final(self)@ == #[trigger] old(self)@.after_send(t_id, outcome)
                },
    {
        let outcome = try_send(sender, send_data);
        self.send_outcome(t_id, outcome)
    }

    /// Decides what consumer `t_id` does after an attempt to take an item
    /// that ended in `outcome`.
    ///
    /// An item taken wakes the first parked producer. An empty queue parks
    /// the consumer: its slot is marked. A disconnected queue is the end of
    /// the stream.
    pub fn recv_outcome<T>(&mut self, t_id: usize, outcome: TryRecv<T>) -> (step: RecvStep<T>)
        requires
            outcome is Empty ==> t_id < old(self)@.consumers.len(),
        ensures
            step == old(self)@.recv_step(t_id, outcome),
            final(self)@ == old(self)@.after_recv(t_id, outcome),
    {
        match outcome {
            TryRecv::Item(item) => RecvStep::Received { item, wake: scan(&self.blocked_by_full) },
            TryRecv::Empty => {
                self.blocked_by_empty[t_id].is_parked = true;
                RecvStep::Park { timeout_ms: PARK_TIMEOUT_MS }
            },
            TryRecv::Disconnected => RecvStep::Closed,
        }
    }

    /// Clears the parked mark of consumer `t_id`, which has resumed.
    pub fn resume_recv(&mut self, t_id: usize)
        requires
            t_id < old(self)@.consumers.len(),
        ensures
            final(self)@.consumers == with_parked(old(self)@.consumers, t_id as int, false),
            final(self)@.producers == old(self)@.producers,
    {
        self.blocked_by_empty[t_id].is_parked = false;
    }

    /// Makes one attempt to take an item from the queue behind `receiver`,
    /// on behalf of consumer `t_id`, and decides the consumer's next step.
    ///
    /// The attempt never blocks. What the queue holds depends on the other
    /// workers, so the step is the one that `recv_outcome` gives for some
    /// outcome of the attempt.
    pub fn recv<T>(&mut self, receiver: &Receiver<T>, t_id: usize) -> (step: RecvStep<T>)
        requires
            t_id < old(self)@.consumers.len(),
        ensures
            exists|outcome: TryRecv<T>|
                {
                    &&& step == old(self)@.recv_step(t_id, outcome)
                    &&& final(self)@ == #[trigger] old(self)@.after_recv(t_id, outcome)
                },
    {
        let outcome = try_recv(receiver);
        self.recv_outcome(t_id, outcome)
    }
}

} // verus!
