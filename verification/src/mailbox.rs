//! The bounded mailbox behind each incoming message port.
//!
//! Senders append; the owning task takes messages strictly in arrival order.
//! A full mailbox refuses the message and hands it back: that refusal is the
//! back-pressure a sender observes, and it is always per-mailbox, so a cycle
//! of message edges can never deadlock the whole graph.
//!
//! A ghost log of every accepted message, in arrival order, lets the
//! contracts say exactly which message each take returns.

use vstd::prelude::*;
use crate::pmt::Pmt;
use crate::pmt::PmtV;
use crate::pmt::pmt_views;

verus! {

/// A bounded FIFO of message values.
pub struct Mailbox {
    pub queue: Vec<Pmt>,
    pub capacity: usize,
    pub accepted: Ghost<Seq<PmtV>>,
    pub taken: Ghost<nat>,
}

impl Mailbox {
    /// The count of messages ever accepted.
    pub open spec fn accepted_log(self) -> Seq<PmtV> {
        self.accepted@
    }

    /// The count of messages already handed to the handler.
    pub open spec fn taken_spec(self) -> nat {
        self.taken@
    }

    /// The mailbox invariant: the queue is exactly the not-yet-taken suffix
    /// of the arrival log.
    pub open spec fn wf(self) -> bool {
        &&& self.capacity >= 1
        &&& self.queue@.len() <= self.capacity
        &&& self.taken@ + self.queue@.len() == self.accepted@.len()
        &&& pmt_views(self.queue@) == self.accepted@.skip(self.taken@ as int)
    }

    /// An empty mailbox with the given bound.
    pub fn new(capacity: usize) -> (m: Mailbox)
        requires
            capacity >= 1,
        ensures
            m.wf(),
            m.capacity == capacity,
            m.accepted_log() == Seq::<PmtV>::empty(),
            m.taken_spec() == 0,
    {
        let m = Mailbox {
            queue: Vec::new(),
            capacity,
            accepted: Ghost(Seq::empty()),
            taken: Ghost(0),
        };
        proof {
            assert(pmt_views(m.queue@) =~= Seq::<PmtV>::empty());
            assert(m.accepted@.skip(0) =~= Seq::<PmtV>::empty());
        }
        m
    }

    /// How many messages wait.
    pub fn pending_len(&self) -> (r: usize)
        requires
            self.wf(),
        ensures
            r == self.accepted_log().len() - self.taken_spec(),
    {
        self.queue.len()
    }

    /// Appends a message.  Succeeds exactly when the mailbox has room;
    /// otherwise the message comes back unchanged and nothing happened.
    pub fn post(&mut self, m: Pmt) -> (r: Result<(), Pmt>)
        requires
            old(self).wf(),
        ensures
            final(self).wf(),
            final(self).capacity == old(self).capacity,
            (r is Ok) == (old(self).accepted_log().len() - old(self).taken_spec()
                < old(self).capacity),
            r is Ok ==> {
                &&& final(self).accepted_log() == old(self).accepted_log().push(m@)
                &&& final(self).taken_spec() == old(self).taken_spec()
            },
            r matches Err(back) ==> back == m && *final(self) == *old(self),
    {
        if self.queue.len() == self.capacity {
            return Err(m);
        }
        let ghost mv = m@;
        self.queue.push(m);
        proof {
            self.accepted@ = self.accepted@.push(mv);
            assert(pmt_views(self.queue@) =~= pmt_views(old(self).queue@).push(mv));
            assert(self.accepted@.skip(self.taken@ as int)
                =~= old(self).accepted@.skip(self.taken@ as int).push(mv));
            assert(pmt_views(self.queue@) =~= self.accepted@.skip(self.taken@ as int));
        }
        Ok(())
    }

    /// Takes the oldest waiting message: arrival order, message by message.
    pub fn take(&mut self) -> (r: Option<Pmt>)
        requires
            old(self).wf(),
        ensures
            final(self).wf(),
            final(self).capacity == old(self).capacity,
            final(self).accepted_log() == old(self).accepted_log(),
            old(self).taken_spec() == old(self).accepted_log().len() ==> r is None
                && *final(self) == *old(self),
            old(self).taken_spec() < old(self).accepted_log().len() ==> {
                &&& (r matches Some(m) && m@ == old(self).accepted_log()[old(
                    self).taken_spec() as int])
                &&& final(self).taken_spec() == old(self).taken_spec() + 1
            },
    {
        if self.queue.len() == 0 {
            return None;
        }
        let m = self.queue.remove(0);
        proof {
            assert(pmt_views(old(self).queue@)[0] == m@);
            self.taken@ = self.taken@ + 1;
            assert(pmt_views(self.queue@) =~= pmt_views(old(self).queue@).skip(1));
            assert(pmt_views(self.queue@) =~= self.accepted@.skip(self.taken@ as int));
        }
        Some(m)
    }
}

/// Law: arrival order.  The waiting messages are exactly the suffix of the
/// arrival log that the handler has not yet taken, in arrival order.
pub proof fn lemma_mailbox_order(m: Mailbox)
    requires
        m.wf(),
    ensures
        pmt_views(m.queue@) == m.accepted_log().skip(m.taken_spec() as int),
        m.taken_spec() <= m.accepted_log().len(),
{
}

} // verus!
