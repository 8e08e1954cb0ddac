//! The order-restoring sink: the single point of the pipeline where items
//! that completed in any order are turned back into the input order.
//!
//! The sink never touches the outside world itself. Each call of
//! [`OrderedSink::accept`] returns the items that have become ready, in the
//! order in which they must be handed on; the caller emits them.

use crate::item::WorkItem;
use crate::reorder::Reorder;
use vstd::prelude::*;

verus! {

/// A breach of the protocol between the stages and the sink.
#[derive(Debug, Clone, Copy, PartialEq, Eq, Structural)]
pub enum SinkError {
    /// An item carried a sequence number that was emitted already or is
    /// already waiting in the buffer.
    Duplicate { sequence: u64 },
    /// An item carried `u64::MAX`, which no generator issues.
    OutOfRange,
    /// The stream ended while `pending` items were still waiting for the
    /// item numbered `expected`, which never came.
    Missing { expected: u64, pending: usize },
}

/// What a sink is, mathematically: the next number to emit and the payloads
/// that wait for it.
pub struct SinkModel<T> {
    pub expected: u64,
    pub pending: Map<u64, T>,
}

/// How many consecutive sequence numbers, starting at `from`, are keys of `m`.
pub open spec fn run_len<T>(m: Map<u64, T>, from: u64) -> nat
    decreases u64::MAX - from,
{
    if from < u64::MAX && m.contains_key(from) {
        1 + run_len(m, (from + 1) as u64)
    } else {
        0
    }
}

impl<T> SinkModel<T> {
    /// The sink before anything has arrived.
    pub open spec fn start() -> SinkModel<T> {
        SinkModel { expected: 0, pending: Map::empty() }
    }

    /// Every waiting item lies strictly ahead of the expected one, carries a
    /// number that a generator can issue, and only finitely many wait.
    pub open spec fn well_formed(self) -> bool {
        &&& self.pending.dom().finite()
        &&& forall|k: u64| #[trigger] self.pending.contains_key(k) ==> self.expected < k < u64::MAX
    }

    /// Why an item numbered `sequence` is refused, if it is.
    pub open spec fn rejects(self, sequence: u64) -> Option<SinkError> {
        if sequence == u64::MAX {
            Some(SinkError::OutOfRange)
        } else if sequence < self.expected || self.pending.contains_key(sequence) {
            Some(SinkError::Duplicate { sequence })
        } else {
            None
        }
    }

    /// The waiting items together with the arriving one.
    pub open spec fn with(self, item: WorkItem<T>) -> Map<u64, T> {
        self.pending.insert(item.sequence, item.payload)
    }

    /// How many items become ready when `item` arrives.
    pub open spec fn ready(self, item: WorkItem<T>) -> nat {
        run_len(self.with(item), self.expected)
    }

    /// The items released by the arrival of `item`: the longest run of
    /// consecutive numbers that starts at the expected one.
    pub open spec fn released(self, item: WorkItem<T>) -> Seq<WorkItem<T>> {
        Seq::new(
            self.ready(item),
            |i: int|
                WorkItem {
                    sequence: (self.expected + i) as u64,
                    payload: self.with(item)[(self.expected + i) as u64],
                },
        )
    }

    /// The sink after an accepted `item`: the released run has left the buffer
    /// and the expected number has moved past it.
    pub open spec fn after(self, item: WorkItem<T>) -> SinkModel<T> {
        let n = self.ready(item);
        SinkModel {
            expected: (self.expected + n) as u64,
            pending: self.with(item).remove_keys(
                Set::new(|k: u64| self.expected <= k < self.expected + n),
            ),
        }
    }

    /// The sink after `item` has been offered: unchanged if it was refused.
    pub open spec fn step(self, item: WorkItem<T>) -> SinkModel<T> {
        if self.rejects(item.sequence) is None {
            self.after(item)
        } else {
            self
        }
    }

    /// What offering `item` emits: nothing if it was refused.
    pub open spec fn step_released(self, item: WorkItem<T>) -> Seq<WorkItem<T>> {
        if self.rejects(item.sequence) is None {
            self.released(item)
        } else {
            Seq::empty()
        }
    }
}

/// The sink that restores sequence order.
pub struct OrderedSink<T> {
    buffer: Reorder<T>,
    expected: u64,
}

impl<T> View for OrderedSink<T> {
    type V = SinkModel<T>;

    closed spec fn view(&self) -> SinkModel<T> {
        SinkModel { expected: self.expected, pending: self.buffer@ }
    }
}

impl<T> OrderedSink<T> {
    /// A sink that expects sequence number 0 and holds nothing.
    pub fn new() -> (sink: OrderedSink<T>)
        ensures
            sink@ == SinkModel::<T>::start(),
            sink@.well_formed(),
    {
        OrderedSink { buffer: Reorder::new(), expected: 0 }
    }

    /// The sequence number that will be emitted next.
    pub fn expected(&self) -> (e: u64)
        ensures
            e == self@.expected,
    {
        self.expected
    }

    /// How many items wait in the buffer.
    pub fn pending(&self) -> (n: usize)
        ensures
            n == self@.pending.len(),
    {
        self.buffer.len()
    }

    /// Takes one item from the last queue.
    ///
    /// If the item is the expected one it is released at once, followed by
    /// every buffered item that continues the run; otherwise it is buffered
    /// and nothing is released. An item whose number was seen before, or
    /// which no generator can have issued, is refused and leaves the sink as
    /// it was.
    pub fn accept(&mut self, item: WorkItem<T>) -> (r: Result<Vec<WorkItem<T>>, SinkError>)
        requires
            old(self)@.well_formed(),
        ensures
            final(self)@.well_formed(),
            match r {
                Ok(out) => {
                    &&& old(self)@.rejects(item.sequence) is None
                    &&& out@ == old(self)@.released(item)
                    &&& final(self)@ == old(self)@.after(item)
                },
                Err(e) => {
                    &&& old(self)@.rejects(item.sequence) == Some(e)
                    &&& final(self)@ == old(self)@
                },
            },
    {
        let sequence = item.sequence;
        if sequence == u64::MAX {
            return Err(SinkError::OutOfRange);
        }
        if sequence < self.expected || self.buffer.contains(sequence) {
            return Err(SinkError::Duplicate { sequence });
        }
        let ghost before = self@;
        let ghost all = before.with(item);
        let mut out: Vec<WorkItem<T>> = Vec::new();
        if sequence != self.expected {
            self.buffer.enqueue(item);
            proof {
                self.buffer.lemma_finite();
                assert(before.ready(item) == 0);
                assert(self@.pending =~= before.after(item).pending);
                assert(out@ =~= before.released(item));
            }
            return Ok(out);
        }
        out.push(item);
        let mut next: u64 = sequence + 1;
        loop
            invariant
                before.expected == sequence < next,
                self.expected == before.expected,
                all == before.pending.insert(sequence, item.payload),
                forall|k: u64| #[trigger] before.pending.contains_key(k) ==> sequence < k < u64::MAX,
                out@.len() == next - sequence,
                forall|k: u64| sequence <= k < next ==> #[trigger] all.contains_key(k),
                forall|i: int|
                    0 <= i < out@.len() ==> (#[trigger] out@[i]) == (WorkItem {
                        sequence: (sequence + i) as u64,
                        payload: all[(sequence + i) as u64],
                    }),
                self.buffer@ == before.pending.remove_keys(
                    Set::new(|k: u64| sequence <= k < next),
                ),
                run_len(all, sequence) == (next - sequence) + run_len(all, next),
            ensures
                run_len(all, next) == 0,
            decreases u64::MAX - next,
        {
            match self.buffer.remove(next) {
                Some(follower) => {
                    proof {
                        assert(before.pending.contains_key(next));
                        assert(all.contains_key(next));
                        assert(follower.payload == all[next]);
                        assert(self.buffer@ =~= before.pending.remove_keys(
                            Set::new(|k: u64| sequence <= k < next + 1),
                        ));
                    }
                    out.push(follower);
                    next = next + 1;
                },
                None => {
                    proof {
                        assert(!all.contains_key(next));
                        assert(run_len(all, next) == 0);
                    }
                    break ;
                },
            }
        }
        self.expected = next;
        proof {
            self.buffer.lemma_finite();
            assert(before.ready(item) == next - sequence);
            assert(self@.pending =~= before.after(item).pending);
            assert(out@ =~= before.released(item));
        }
        Ok(out)
    }

    /// Closes the sink once the last queue has reported that no more items
    /// will come.
    ///
    /// Items still waiting at that point can never be released: the one they
    /// wait for was dropped on the way. That is reported, with the number
    /// that is missing, instead of being passed over.
    pub fn finish(self) -> (r: Result<u64, SinkError>)
        ensures
            match r {
                Ok(count) => self@.pending.len() == 0 && count == self@.expected,
                Err(SinkError::Missing { expected, pending }) => {
                    &&& self@.pending.len() > 0
                    &&& expected == self@.expected
                    &&& pending == self@.pending.len()
                },
                Err(_) => false,
            },
    {
        let pending = self.buffer.len();
        if pending == 0 {
            Ok(self.expected)
        } else {
            Err(SinkError::Missing { expected: self.expected, pending })
        }
    }
}

} // verus!
