//! Work items and the generator-side counter that tags them.

use vstd::prelude::*;

verus! {

/// A payload together with its position in the input order.
///
/// The sequence number is assigned once, when the item enters the pipeline,
/// and travels with the payload through every stage.
pub struct WorkItem<T> {
    pub sequence: u64,
    pub payload: T,
}

impl<T> WorkItem<T> {
    /// Runs one stage transform on the payload and keeps the sequence number.
    ///
    /// `None` from the transform filters the item out of the stream.
    pub fn apply<U, F: FnOnce(T) -> Option<U>>(self, process: F) -> (out: Option<WorkItem<U>>)
        requires
            process.requires((self.payload,)),
        ensures
            match out {
                Some(item) => item.sequence == self.sequence && process.ensures(
                    (self.payload,),
                    Some(item.payload),
                ),
                None => process.ensures((self.payload,), None),
            },
    {
        let sequence = self.sequence;
        match process(self.payload) {
            Some(payload) => Some(WorkItem { sequence, payload }),
            None => None,
        }
    }

    /// Runs one stage transform that can fail.
    ///
    /// A failure is not swallowed: it comes back with the sequence number of
    /// the item, so that the pipeline can stop and say where.
    pub fn try_apply<U, E, F: FnOnce(T) -> Result<Option<U>, E>>(self, process: F) -> (out: Result<
        Option<WorkItem<U>>,
        StageFailure<E>,
    >)
        requires
            process.requires((self.payload,)),
        ensures
            match out {
                Ok(Some(item)) => item.sequence == self.sequence && process.ensures(
                    (self.payload,),
                    Ok(Some(item.payload)),
                ),
                Ok(None) => process.ensures((self.payload,), Ok(None)),
                Err(failure) => failure.sequence == self.sequence && process.ensures(
                    (self.payload,),
                    Err(failure.cause),
                ),
            },
    {
        let sequence = self.sequence;
        match process(self.payload) {
            Ok(Some(payload)) => Ok(Some(WorkItem { sequence, payload })),
            Ok(None) => Ok(None),
            Err(cause) => Err(StageFailure { sequence, cause }),
        }
    }
}

/// A stage transform that failed, with the number of the item it failed on.
pub struct StageFailure<E> {
    pub sequence: u64,
    pub cause: E,
}

/// Hands out sequence numbers in increasing order, each exactly once.
///
/// The largest `u64` is never issued, so that the number following any issued
/// one is always representable.
pub struct Sequencer {
    next: u64,
}

impl Sequencer {
    /// The number that the next successful `tag` will assign.
    pub closed spec fn upcoming(&self) -> nat {
        self.next as nat
    }

    /// A sequencer for a new stream: it starts at 0.
    pub fn new() -> (s: Sequencer)
        ensures
            s.upcoming() == 0,
    {
        Sequencer { next: 0 }
    }

    /// A sequencer that takes up a stream at `first`.
    pub fn starting_at(first: u64) -> (s: Sequencer)
        ensures
            s.upcoming() == first,
    {
        Sequencer { next: first }
    }

    /// The number that the next successful `tag` will assign.
    pub fn peek(&self) -> (n: u64)
        ensures
            n == self.upcoming(),
    {
        self.next
    }

    /// Tags `payload` with the next sequence number and moves on by one.
    ///
    /// Fails, handing the payload back, only when every number below
    /// `u64::MAX` has been issued.
    pub fn tag<T>(&mut self, payload: T) -> (r: Result<WorkItem<T>, T>)
        ensures
            match r {
                Ok(item) => {
                    &&& old(self).upcoming() < u64::MAX
                    &&& item.sequence == old(self).upcoming()
                    &&& item.payload == payload
                    &&& final(self).upcoming() == old(self).upcoming() + 1
                },
                Err(back) => {
                    &&& old(self).upcoming() == u64::MAX
                    &&& back == payload
                    &&& final(self).upcoming() == old(self).upcoming()
                },
            },
    {
        if self.next == u64::MAX {
            Err(payload)
        } else {
            let sequence = self.next;
            self.next = sequence + 1;
            Ok(WorkItem { sequence, payload })
        }
    }
}

} // verus!
