//! The bounded single-producer / single-consumer stream buffer.
//!
//! Samples committed by the producer wait in a circular store until the
//! consumer takes them, strictly in commit order.  The buffer keeps a ghost
//! history of everything ever committed, so the contracts can say exactly
//! which element each consume returns and how far the producer may run ahead
//! of the consumer: never more than the capacity.
//!
//! The producer marks end-of-stream with `close`; the consumer still drains
//! what is pending and then observes the end.

use vstd::prelude::*;

verus! {

/// A bounded SPSC buffer of fixed-size samples.
pub struct StreamBuffer<T: Copy> {
    pub storage: Vec<T>,
    pub head: usize,
    pub count: usize,
    pub committed: u64,
    pub closed: bool,
    pub history: Ghost<Seq<T>>,
}

impl<T: Copy> StreamBuffer<T> {
    /// The fixed capacity.
    pub open spec fn capacity_spec(self) -> int {
        self.storage@.len() as int
    }

    /// The count of elements ever committed by the producer.
    pub open spec fn committed_spec(self) -> int {
        self.committed as int
    }

    /// The count of elements ever consumed.
    pub open spec fn consumed_spec(self) -> int {
        self.committed - self.count
    }

    /// Every element ever committed, oldest first.
    pub open spec fn history_spec(self) -> Seq<T> {
        self.history@
    }

    /// Whether the producer has marked end-of-stream.
    pub open spec fn closed_spec(self) -> bool {
        self.closed
    }

    /// The committed-but-not-yet-consumed elements, oldest first.
    pub open spec fn pending(self) -> Seq<T> {
        self.history@.skip(self.consumed_spec())
    }

    /// The storage slot holding the pending element at offset `i`.
    pub open spec fn slot(self, i: int) -> int {
        if self.head + i >= self.capacity_spec() {
            self.head + i - self.capacity_spec()
        } else {
            self.head + i
        }
    }

    /// The buffer invariant: counters agree with the ghost history and the
    /// circular store holds exactly the pending suffix of the history.
    pub open spec fn wf(self) -> bool {
        &&& self.storage@.len() >= 1
        &&& self.head < self.storage@.len()
        &&& self.count <= self.storage@.len()
        &&& self.committed == self.history@.len()
        &&& self.count <= self.committed
        &&& forall|i: int|
            0 <= i < self.count ==> self.storage@[#[trigger] self.slot(i)]
                == self.history@[self.consumed_spec() + i]
    }

    /// An empty buffer.  The capacity is a power of two, as stream edges are
    /// constructed; the fill value only initializes the store.
    pub fn new(capacity: usize, fill: T) -> (b: StreamBuffer<T>)
        requires
            capacity >= 1,
            capacity & ((capacity - 1) as usize) == 0,
        ensures
            b.wf(),
            b.capacity_spec() == capacity,
            b.committed_spec() == 0,
            b.consumed_spec() == 0,
            b.history_spec() == Seq::<T>::empty(),
            !b.closed_spec(),
    {
        let mut storage: Vec<T> = Vec::new();
        let mut i: usize = 0;
        while i < capacity
            invariant
                i <= capacity,
                storage@.len() == i,
            decreases capacity - i,
        {
            storage.push(fill);
            i = i + 1;
        }
        StreamBuffer {
            storage,
            head: 0,
            count: 0,
            committed: 0,
            closed: false,
            history: Ghost(Seq::empty()),
        }
    }

    /// How many elements can be committed right now: the free window.
    pub fn free_slots(&self) -> (r: usize)
        requires
            self.wf(),
        ensures
            r == self.capacity_spec() - self.pending().len(),
    {
        proof {
            assert(self.pending().len() == self.count);
        }
        self.storage.len() - self.count
    }

    /// How many elements can be consumed right now: the read window.
    pub fn readable(&self) -> (r: usize)
        requires
            self.wf(),
        ensures
            r == self.pending().len(),
    {
        proof {
            assert(self.pending().len() == self.count);
        }
        self.count
    }

    /// Whether the producer has marked end-of-stream.
    pub fn is_closed(&self) -> (r: bool)
        ensures
            r == self.closed_spec(),
    {
        self.closed
    }

    /// The consumer has seen everything: the stream is closed and drained.
    pub fn end_of_stream(&self) -> (r: bool)
        requires
            self.wf(),
        ensures
            r == (self.closed_spec() && self.pending().len() == 0),
    {
        proof {
            assert(self.pending().len() == self.count);
        }
        self.closed && self.count == 0
    }

    /// Total count of elements ever committed.
    pub fn committed_count(&self) -> (r: u64)
        ensures
            r == self.committed_spec(),
    {
        self.committed
    }

    /// Total count of elements ever consumed.
    pub fn consumed_count(&self) -> (r: u64)
        requires
            self.wf(),
        ensures
            r == self.consumed_spec(),
    {
        self.committed - (self.count as u64)
    }

    /// Commits one element.  Succeeds exactly when the buffer has a free
    /// slot and the stream is not closed; a full buffer refuses, which is
    /// the back-pressure the producer observes.
    pub fn produce(&mut self, x: T) -> (r: bool)
        requires
            old(self).wf(),
            old(self).committed_spec() < u64::MAX,
        ensures
            final(self).wf(),
            r == (old(self).pending().len() < old(self).capacity_spec()
                && !old(self).closed_spec()),
            !r ==> *final(self) == *old(self),
            r ==> {
                &&& final(self).history_spec() == old(self).history_spec().push(x)
                &&& final(self).committed_spec() == old(self).committed_spec() + 1
                &&& final(self).consumed_spec() == old(self).consumed_spec()
                &&& final(self).pending() == old(self).pending().push(x)
                &&& final(self).capacity_spec() == old(self).capacity_spec()
                &&& final(self).closed_spec() == old(self).closed_spec()
            },
    {
        proof {
            assert(old(self).pending().len() == old(self).count);
        }
        if self.closed || self.count == self.storage.len() {
            return false;
        }
        let cap = self.storage.len();
        let gap = cap - self.count;
        let wp = if self.head >= gap {
            self.head - gap
        } else {
            self.head + self.count
        };
        self.storage[wp] = x;
        self.count = self.count + 1;
        self.committed = self.committed + 1;
        proof {
            self.history@ = self.history@.push(x);
        }
        proof {
            assert(wp == old(self).slot(old(self).count as int));
            assert forall|i: int| 0 <= i < self.count implies self.storage@[
                #[trigger] self.slot(i)] == self.history@[self.consumed_spec() + i] by {
                assert(self.slot(i) == old(self).slot(i));
                if i < old(self).count {
                    assert(self.slot(i) != wp);
                    assert(self.storage@[self.slot(i)] == old(self).storage@[old(self).slot(i)]);
                }
            }
            assert(final(self).pending() =~= old(self).pending().push(x));
        }
        true
    }

    /// Takes the oldest pending element.  Returns exactly the element the
    /// producer committed at this consume position: first in, first out.
    pub fn consume(&mut self) -> (r: Option<T>)
        requires
            old(self).wf(),
        ensures
            final(self).wf(),
            old(self).pending().len() == 0 ==> r is None && *final(self) == *old(self),
            old(self).pending().len() > 0 ==> {
                &&& (r matches Some(x) && x == old(self).history_spec()[old(
                    self).consumed_spec()])
                &&& final(self).history_spec() == old(self).history_spec()
                &&& final(self).committed_spec() == old(self).committed_spec()
                &&& final(self).consumed_spec() == old(self).consumed_spec() + 1
                &&& final(self).pending() == old(self).pending().skip(1)
                &&& final(self).capacity_spec() == old(self).capacity_spec()
                &&& final(self).closed_spec() == old(self).closed_spec()
            },
    {
        proof {
            assert(old(self).pending().len() == old(self).count);
        }
        if self.count == 0 {
            return None;
        }
        let cap = self.storage.len();
        let x = self.storage[self.head];
        self.head = if self.head + 1 == cap {
            0
        } else {
            self.head + 1
        };
        self.count = self.count - 1;
        proof {
            assert(old(self).slot(0) == old(self).head as int);
            assert(x == old(self).history@[old(self).consumed_spec()]);
            assert forall|i: int| 0 <= i < self.count implies self.storage@[
                #[trigger] self.slot(i)] == self.history@[self.consumed_spec() + i] by {
                assert(self.slot(i) == old(self).slot(i + 1));
            }
            assert(final(self).pending() =~= old(self).pending().skip(1));
        }
        Some(x)
    }

    /// The producer marks end-of-stream.  Pending elements stay readable.
    pub fn close(&mut self)
        requires
            old(self).wf(),
        ensures
            final(self).wf(),
            final(self).closed_spec(),
            final(self).history_spec() == old(self).history_spec(),
            final(self).committed_spec() == old(self).committed_spec(),
            final(self).consumed_spec() == old(self).consumed_spec(),
            final(self).pending() == old(self).pending(),
            final(self).capacity_spec() == old(self).capacity_spec(),
    {
        self.closed = true;
        proof {
            assert forall|i: int| 0 <= i < self.count implies self.storage@[
                #[trigger] self.slot(i)] == self.history@[self.consumed_spec() + i] by {
                assert(self.slot(i) == old(self).slot(i));
            }
        }
    }

    /// The consumer drops everything still pending, in one step.  After a
    /// drain every committed element has been consumed or dropped.
    pub fn drain(&mut self)
        requires
            old(self).wf(),
        ensures
            final(self).wf(),
            final(self).pending().len() == 0,
            final(self).consumed_spec() == final(self).committed_spec(),
            final(self).history_spec() == old(self).history_spec(),
            final(self).committed_spec() == old(self).committed_spec(),
            final(self).closed_spec() == old(self).closed_spec(),
            final(self).capacity_spec() == old(self).capacity_spec(),
    {
        self.count = 0;
        proof {
            assert(final(self).pending() =~= Seq::<T>::empty());
        }
    }
}

/// Law: stream conservation.  The consumer never overtakes the producer,
/// and the producer never runs more than the capacity ahead of the
/// consumer: the back-pressure bound.
pub proof fn lemma_stream_conservation<T: Copy>(b: StreamBuffer<T>)
    requires
        b.wf(),
    ensures
        0 <= b.consumed_spec() <= b.committed_spec(),
        b.committed_spec() - b.consumed_spec() <= b.capacity_spec(),
{
}

/// Law: first in, first out.  What waits to be consumed is exactly the
/// suffix of the commit history starting at the consume position, in commit
/// order: for any two committed elements, the earlier one is consumed first.
pub proof fn lemma_stream_fifo<T: Copy>(b: StreamBuffer<T>)
    requires
        b.wf(),
    ensures
        b.pending() == b.history_spec().skip(b.consumed_spec()),
        forall|i: int|
            0 <= i < b.pending().len() ==> b.pending()[i] == b.history_spec()[b.consumed_spec()
                + i],
{
    assert forall|i: int| 0 <= i < b.pending().len() implies b.pending()[i]
        == b.history_spec()[b.consumed_spec() + i] by {
    }
}

} // verus!
