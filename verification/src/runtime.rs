//! The running flowgraph: one task per block.
//!
//! `launch` turns a frozen, validated flowgraph into a runtime: a stream
//! buffer per stream edge, a task with one bounded mailbox per incoming
//! message port, and the termination flags.  The embedding drives it: each
//! `step_block` call is one wake of that block's task, each `call` is one
//! external message call, delivered, handled, and replied in one step, as a
//! scheduler that serializes a block's handlers would do.
//!
//! Termination is cooperative: `terminate` raises the graph-wide flag, a
//! terminating task closes its output streams and exits at its next wake,
//! and `terminate_and_wait` finishes the drain: afterwards every task has
//! exited, every edge is drained, and every further call is refused.

use vstd::prelude::*;
use crate::flowgraph::Flowgraph;
use crate::flowgraph::MessageEdge;
use crate::kernel::Kernel;
use crate::mailbox::Mailbox;
use crate::pmt::Pmt;
use crate::pmt::PmtV;
use crate::pmt::pmt_views;
use crate::ring::StreamBuffer;

verus! {

/// The bound of every incoming message port's mailbox.
pub const MAILBOX_CAPACITY: usize = 64;

/// Why a call into the runtime was refused.
#[derive(Debug)]
pub enum CallError {
    /// No flowgraph is currently running.
    NoFlowgraph,
    /// The runtime has been terminated.
    Terminated,
    /// No block with this identifier.
    UnknownBlock { block: usize },
    /// The block has no incoming message port with this name.
    UnknownPort { block: usize, port: String },
}

/// The per-block task state: the kernel kind it drives, its exit flag, one
/// mailbox per incoming message port, and the values a message sink stored.
pub struct BlockTask {
    pub kind: Kernel,
    pub exited: bool,
    pub inboxes: Vec<Mailbox>,
    pub received: Vec<Pmt>,
}

/// A started flowgraph.
pub struct Runtime {
    pub graph: Flowgraph,
    pub buffers: Vec<StreamBuffer<u64>>,
    pub tasks: Vec<BlockTask>,
    pub reload_requests: Vec<String>,
    pub terminating: bool,
    pub terminated: bool,
}

/// How many message edges lead from the given output port to the given
/// input port.
pub open spec fn count_matching(
    edges: Seq<MessageEdge>,
    sb: int,
    sp: int,
    db: int,
    dp: int,
) -> nat
    decreases edges.len(),
{
    if edges.len() == 0 {
        0
    } else {
        count_matching(edges.drop_last(), sb, sp, db, dp) + (
        if edges.last().src_block == sb && edges.last().src_port == sp
            && edges.last().dst_block == db && edges.last().dst_port == dp {
            1nat
        } else {
            0nat
        })
    }
}

impl Runtime {
    /// The runtime invariant: the topology is frozen and valid, the buffers
    /// and tasks mirror it, and a terminated runtime has no live task.
    pub open spec fn wf(self) -> bool {
        &&& self.graph.frozen
        &&& self.graph.valid()
        &&& self.buffers@.len() == self.graph.stream_edges@.len()
        &&& forall|k: int|
            0 <= k < self.buffers@.len() ==> (#[trigger] self.buffers@[k]).wf()
        &&& self.tasks@.len() == self.graph.blocks@.len()
        &&& forall|b: int|
            0 <= b < self.tasks@.len() ==> (#[trigger] self.tasks@[b]).kind
                == self.graph.blocks@[b].kind
        &&& forall|b: int|
            0 <= b < self.tasks@.len() ==> (#[trigger] self.tasks@[b]).inboxes@.len()
                == self.graph.blocks@[b].message_inputs@.len()
        &&& forall|b: int, p: int|
            0 <= b < self.tasks@.len() && 0 <= p < self.tasks@[b].inboxes@.len()
                ==> (#[trigger] self.tasks@[b].inboxes@[p]).wf()
        &&& (self.terminated ==> self.terminating)
        &&& (self.terminated ==> forall|b: int|
            0 <= b < self.tasks@.len() ==> (#[trigger] self.tasks@[b]).exited)
    }

    /// Starts a frozen, validated flowgraph: one empty stream buffer per
    /// stream edge, one task per block with empty mailboxes.
    pub fn launch(graph: Flowgraph, capacity: usize) -> (rt: Runtime)
        requires
            graph.frozen,
            graph.valid(),
            capacity >= 1,
            capacity & ((capacity - 1) as usize) == 0,
        ensures
            rt.wf(),
            rt.graph == graph,
            !rt.terminating,
            !rt.terminated,
            rt.reload_requests@.len() == 0,
            forall|k: int|
                0 <= k < rt.buffers@.len() ==> {
                    let b = #[trigger] rt.buffers@[k];
                    &&& b.committed_spec() == 0
                    &&& b.consumed_spec() == 0
                    &&& !b.closed_spec()
                    &&& b.capacity_spec() == capacity
                },
            forall|b: int|
                0 <= b < rt.tasks@.len() ==> !(#[trigger] rt.tasks@[b]).exited
                    && rt.tasks@[b].received@.len() == 0,
            forall|b: int, p: int|
                0 <= b < rt.tasks@.len() && 0 <= p < rt.tasks@[b].inboxes@.len() ==> {
                    let m = #[trigger] rt.tasks@[b].inboxes@[p];
                    &&& m.accepted_log().len() == 0
                    &&& m.taken_spec() == 0
                    &&& m.capacity == MAILBOX_CAPACITY
                },
    {
        let mut buffers: Vec<StreamBuffer<u64>> = Vec::new();
        let mut k: usize = 0;
        let edge_total = graph.stream_edges.len();
        while k < edge_total
            invariant
                k <= edge_total,
                buffers@.len() == k,
                capacity >= 1,
                capacity & ((capacity - 1) as usize) == 0,
                forall|j: int|
                    0 <= j < k ==> {
                        let b = #[trigger] buffers@[j];
                        &&& b.wf()
                        &&& b.committed_spec() == 0
                        &&& b.consumed_spec() == 0
                        &&& !b.closed_spec()
                        &&& b.capacity_spec() == capacity
                    },
            decreases edge_total - k,
        {
            buffers.push(StreamBuffer::new(capacity, 0u64));
            k = k + 1;
        }
        let mut tasks: Vec<BlockTask> = Vec::new();
        let mut b: usize = 0;
        let block_total = graph.blocks.len();
        while b < block_total
            invariant
                b <= block_total,
                block_total == graph.blocks@.len(),
                tasks@.len() == b,
                forall|j: int|
                    0 <= j < b ==> {
                        let t = #[trigger] tasks@[j];
                        &&& t.kind == graph.blocks@[j].kind
                        &&& !t.exited
                        &&& t.received@.len() == 0
                        &&& t.inboxes@.len() == graph.blocks@[j].message_inputs@.len()
                    },
                forall|j: int, p: int|
                    0 <= j < b && 0 <= p < tasks@[j].inboxes@.len() ==> {
                        let m = #[trigger] tasks@[j].inboxes@[p];
                        &&& m.wf()
                        &&& m.accepted_log().len() == 0
                        &&& m.taken_spec() == 0
                        &&& m.capacity == MAILBOX_CAPACITY
                    },
            decreases block_total - b,
        {
            let want = graph.blocks[b].message_inputs.len();
            let mut inboxes: Vec<Mailbox> = Vec::new();
            let mut p: usize = 0;
            while p < want
                invariant
                    p <= want,
                    inboxes@.len() == p,
                    forall|q: int|
                        0 <= q < p ==> {
                            let m = #[trigger] inboxes@[q];
                            &&& m.wf()
                            &&& m.accepted_log().len() == 0
                            &&& m.taken_spec() == 0
                            &&& m.capacity == MAILBOX_CAPACITY
                        },
                decreases want - p,
            {
                inboxes.push(Mailbox::new(MAILBOX_CAPACITY));
                p = p + 1;
            }
            let kind = graph.blocks[b].kind;
            tasks.push(BlockTask { kind, exited: false, inboxes, received: Vec::new() });
            b = b + 1;
        }
        Runtime {
            graph,
            buffers,
            tasks,
            reload_requests: Vec::new(),
            terminating: false,
            terminated: false,
        }
    }

    /// The graph metadata a diagram renderer consumes: the frozen topology.
    pub fn description(&self) -> (r: &Flowgraph)
        ensures
            r == &self.graph,
    {
        &self.graph
    }

    /// Total samples ever committed on a stream edge.
    pub fn edge_committed(&self, k: usize) -> (r: u64)
        requires
            self.wf(),
            k < self.buffers@.len(),
        ensures
            r == self.buffers@[k as int].committed_spec(),
    {
        self.buffers[k].committed_count()
    }

    /// Total samples ever consumed on a stream edge.
    pub fn edge_consumed(&self, k: usize) -> (r: u64)
        requires
            self.wf(),
            k < self.buffers@.len(),
        ensures
            r == self.buffers@[k as int].consumed_spec(),
    {
        self.buffers[k].consumed_count()
    }

    /// Takes the oldest undelivered message from an incoming message port,
    /// in arrival order.
    pub fn take_message(&mut self, block: usize, port: usize) -> (r: Option<Pmt>)
        requires
            old(self).wf(),
            block < old(self).tasks@.len(),
            port < old(self).tasks@[block as int].inboxes@.len(),
        ensures
            final(self).wf(),
            ({
                let pre = old(self).tasks@[block as int].inboxes@[port as int];
                let post = final(self).tasks@[block as int].inboxes@[port as int];
                &&& post.accepted_log() == pre.accepted_log()
                &&& (pre.taken_spec() == pre.accepted_log().len() ==> r is None
                    && post == pre)
                &&& (pre.taken_spec() < pre.accepted_log().len() ==> {
                    &&& (r matches Some(m) && m@ == pre.accepted_log()[pre.taken_spec() as int])
                    &&& post.taken_spec() == pre.taken_spec() + 1
                })
            }),
            final(self).graph == old(self).graph,
            final(self).buffers == old(self).buffers,
            final(self).reload_requests == old(self).reload_requests,
            final(self).terminating == old(self).terminating,
            final(self).terminated == old(self).terminated,
            final(self).tasks@.len() == old(self).tasks@.len(),
            forall|b: int|
                0 <= b < old(self).tasks@.len() && b != block ==> #[trigger] final(
                    self).tasks@[b] == old(self).tasks@[b],
            ({
                let t0 = old(self).tasks@[block as int];
                let t1 = final(self).tasks@[block as int];
                &&& t1.kind == t0.kind
                &&& t1.exited == t0.exited
                &&& t1.received == t0.received
                &&& t1.inboxes@.len() == t0.inboxes@.len()
                &&& forall|p: int|
                    0 <= p < t0.inboxes@.len() && p != port ==> #[trigger] t1.inboxes@[p]
                        == t0.inboxes@[p]
            }),
    {
        let r = self.tasks[block].inboxes[port].take();
        proof {
            assert(final(self).tasks@[block as int].inboxes@[port as int].wf());
        }
        r
    }
}

} // verus!

// Message fan-out and handling.

verus! {

/// What a fan-out post changes and what it leaves alone: every task keeps
/// its kind, exit flag and stored messages, and every mailbox either gains
/// copies of the message at its tail or stays as it was.
pub open spec fn tasks_frame(pre: Runtime, post: Runtime) -> bool {
    &&& post.tasks@.len() == pre.tasks@.len()
    &&& forall|b: int|
        0 <= b < pre.tasks@.len() ==> {
            let t0 = #[trigger] pre.tasks@[b];
            let t1 = post.tasks@[b];
            &&& t1.kind == t0.kind
            &&& t1.exited == t0.exited
            &&& t1.received == t0.received
            &&& t1.inboxes@.len() == t0.inboxes@.len()
        }
}

/// The outcome of posting `m` on output message port `(sb, sp)`: per
/// destination mailbox, atomic delivery in edge order.  A destination wired
/// once gains exactly one copy when it has room and nothing otherwise; any
/// destination only ever gains copies of `m` at its tail, and one arrives
/// whenever there is room for it.
pub open spec fn fanout_outcome(pre: Runtime, post: Runtime, sb: int, sp: int, m: PmtV) -> bool {
    &&& tasks_frame(pre, post)
    &&& forall|b: int, p: int|
        0 <= b < pre.tasks@.len() && 0 <= p < pre.tasks@[b].inboxes@.len() ==> ({
            let q0 = #[trigger] pre.tasks@[b].inboxes@[p];
            let q1 = post.tasks@[b].inboxes@[p];
            let n = count_matching(pre.graph.message_edges@, sb, sp, b, p);
            let space = q0.capacity - (q0.accepted_log().len() - q0.taken_spec());
            &&& q1.capacity == q0.capacity
            &&& q1.taken_spec() == q0.taken_spec()
            &&& q1.accepted_log().len() >= q0.accepted_log().len()
            &&& q1.accepted_log().take(q0.accepted_log().len() as int) == q0.accepted_log()
            &&& (forall|i: int|
                q0.accepted_log().len() <= i < q1.accepted_log().len()
                    ==> q1.accepted_log()[i] == m)
            &&& q1.accepted_log().len() == q0.accepted_log().len() + (
            if n <= space {
                n as int
            } else {
                space
            })
            &&& (n == 0 ==> q1 == q0)
        })
}

/// What handling one message on an incoming port does, per kernel kind, and
/// which reply it produces.
pub open spec fn handled(
    pre: Runtime,
    post: Runtime,
    block: int,
    port: int,
    m: PmtV,
    reply: PmtV,
) -> bool {
    let kind = pre.graph.blocks@[block].kind;
    &&& (kind == Kernel::Controller ==> {
        &&& (port == 0 ==> (match m {
            PmtV::Text(path) => {
                &&& reply == PmtV::Okay
                &&& post.reload_requests@.len() == pre.reload_requests@.len() + 1
                &&& post.reload_requests@.take(pre.reload_requests@.len() as int)
                    == pre.reload_requests@
                &&& post.reload_requests@.last()@ == path
                &&& post.tasks == pre.tasks
            },
            _ => {
                &&& reply == PmtV::Text("control expects a configuration path"@)
                &&& post.reload_requests == pre.reload_requests
                &&& post.tasks == pre.tasks
            },
        }))
        &&& (port == 1 ==> reply == PmtV::Okay && fanout_outcome(pre, post, block, 0, m)
            && post.reload_requests == pre.reload_requests)
        &&& (port == 2 ==> reply == PmtV::Okay && fanout_outcome(pre, post, block, 1, m)
            && post.reload_requests == pre.reload_requests)
        &&& (port >= 3 ==> reply == PmtV::Null && post.tasks == pre.tasks
            && post.reload_requests == pre.reload_requests)
    })
    &&& (kind == Kernel::Echo ==> {
        &&& (port == 0 ==> reply == m)
        &&& (port != 0 ==> reply == PmtV::Null)
        &&& post.tasks == pre.tasks
        &&& post.reload_requests == pre.reload_requests
    })
    &&& (kind == Kernel::MessageSink ==> {
        &&& (port == 0 ==> {
            &&& reply == PmtV::Okay
            &&& post.tasks@.len() == pre.tasks@.len()
            &&& (forall|b: int|
                0 <= b < pre.tasks@.len() && b != block ==> #[trigger] post.tasks@[b]
                    == pre.tasks@[b])
            &&& post.tasks@[block].kind == pre.tasks@[block].kind
            &&& post.tasks@[block].exited == pre.tasks@[block].exited
            &&& post.tasks@[block].inboxes == pre.tasks@[block].inboxes
            &&& pmt_views(post.tasks@[block].received@)
                == pmt_views(pre.tasks@[block].received@).push(m)
        })
        &&& (port != 0 ==> reply == PmtV::Null && post.tasks == pre.tasks)
        &&& post.reload_requests == pre.reload_requests
    })
    &&& ((kind == Kernel::NullSource || kind == Kernel::NullSink || kind == Kernel::Repeater)
        ==> reply == PmtV::Null && post.tasks == pre.tasks
        && post.reload_requests == pre.reload_requests)
}

impl Runtime {
    /// Posts one message to every destination wired to the given output
    /// message port: fan-out in edge order, atomic per destination.  A full
    /// destination mailbox misses this copy.
    fn post_output(&mut self, block: usize, out_port: usize, m: &Pmt)
        requires
            old(self).wf(),
        ensures
            final(self).wf(),
            final(self).graph == old(self).graph,
            final(self).buffers == old(self).buffers,
            final(self).reload_requests == old(self).reload_requests,
            final(self).terminating == old(self).terminating,
            final(self).terminated == old(self).terminated,
            fanout_outcome(*old(self), *final(self), block as int, out_port as int, m@),
    {
        let total = self.graph.message_edges.len();
        let mut k: usize = 0;
        while k < total
            invariant
                old(self).wf(),
                self.wf(),
                total == self.graph.message_edges@.len(),
                k <= total,
                self.graph == old(self).graph,
                self.buffers == old(self).buffers,
                self.reload_requests == old(self).reload_requests,
                self.terminating == old(self).terminating,
                self.terminated == old(self).terminated,
                tasks_frame(*old(self), *self),
                forall|b: int, p: int|
                    0 <= b < old(self).tasks@.len()
                        && 0 <= p < old(self).tasks@[b].inboxes@.len() ==> ({
                        let q0 = #[trigger] old(self).tasks@[b].inboxes@[p];
                        let q1 = self.tasks@[b].inboxes@[p];
                        let np = count_matching(
                            old(self).graph.message_edges@.take(k as int),
                            block as int,
                            out_port as int,
                            b,
                            p,
                        );
                        let space = q0.capacity - (q0.accepted_log().len() - q0.taken_spec());
                        &&& q1.capacity == q0.capacity
                        &&& q1.taken_spec() == q0.taken_spec()
                        &&& q1.accepted_log().len() >= q0.accepted_log().len()
                        &&& q1.accepted_log().take(q0.accepted_log().len() as int)
                            == q0.accepted_log()
                        &&& (forall|i: int|
                            q0.accepted_log().len() <= i < q1.accepted_log().len()
                                ==> q1.accepted_log()[i] == m@)
                        &&& q1.accepted_log().len() == q0.accepted_log().len() + (
                        if np <= space {
                            np as int
                        } else {
                            space
                        })
                        &&& (np == 0 ==> q1 == q0)
                    }),
            decreases total - k,
        {
            let e = self.graph.message_edges[k];
            let ghost prev = *self;
            let mut delivered: bool = false;
            if e.src_block == block && e.src_port == out_port {
                let c = m.clone();
                proof {
                    assert(c@ == m@);
                }
                let posted = self.tasks[e.dst_block].inboxes[e.dst_port].post(c);
                proof {
                    let db = e.dst_block as int;
                    let dp = e.dst_port as int;
                    if posted is Ok {
                        assert(self.tasks@[db].inboxes@[dp].accepted_log()
                            == prev.tasks@[db].inboxes@[dp].accepted_log().push(m@));
                    } else {
                        assert(self.tasks@[db].inboxes@[dp] == prev.tasks@[db].inboxes@[dp]);
                    }
                }
                delivered = match posted {
                    Ok(_) => true,
                    Err(_back) => false,
                };
            }
            proof {
                let edges = old(self).graph.message_edges@;
                assert(edges.take(k + 1 as int).drop_last() =~= edges.take(k as int));
                assert(edges.take(k + 1 as int).last() == e);
                assert forall|b: int, p: int|
                    0 <= b < old(self).tasks@.len()
                        && 0 <= p < old(self).tasks@[b].inboxes@.len() implies ({
                    let q0 = #[trigger] old(self).tasks@[b].inboxes@[p];
                    let q1 = self.tasks@[b].inboxes@[p];
                    let np1 = count_matching(
                        edges.take(k + 1 as int),
                        block as int,
                        out_port as int,
                        b,
                        p,
                    );
                    let space = q0.capacity - (q0.accepted_log().len() - q0.taken_spec());
                    &&& q1.capacity == q0.capacity
                    &&& q1.taken_spec() == q0.taken_spec()
                    &&& q1.accepted_log().len() >= q0.accepted_log().len()
                    &&& q1.accepted_log().take(q0.accepted_log().len() as int)
                        == q0.accepted_log()
                    &&& (forall|i: int|
                        q0.accepted_log().len() <= i < q1.accepted_log().len()
                            ==> q1.accepted_log()[i] == m@)
                    &&& q1.accepted_log().len() == q0.accepted_log().len() + (
                    if np1 <= space {
                        np1 as int
                    } else {
                        space
                    })
                    &&& (np1 == 0 ==> q1 == q0)
                }) by {
                    let q0 = old(self).tasks@[b].inboxes@[p];
                    let qp = prev.tasks@[b].inboxes@[p];
                    let q1 = self.tasks@[b].inboxes@[p];
                    let np = count_matching(
                        edges.take(k as int),
                        block as int,
                        out_port as int,
                        b,
                        p,
                    );
                    let space = q0.capacity - (q0.accepted_log().len() - q0.taken_spec());
                    if e.src_block == block && e.src_port == out_port && e.dst_block == b
                        && e.dst_port == p {
                        if delivered {
                            assert(np < space);
                            assert(q1.accepted_log() == qp.accepted_log().push(m@));
                            assert(q1.accepted_log().take(q0.accepted_log().len() as int)
                                =~= qp.accepted_log().take(q0.accepted_log().len() as int));
                        } else {
                            assert(np >= space);
                            assert(q1 == qp);
                        }
                        if np == 0 {
                            assert(qp == q0);
                        }
                    } else {
                        assert(q1 == qp);
                    }
                }
            }
            k = k + 1;
        }
        proof {
            assert(old(self).graph.message_edges@.take(total as int)
                =~= old(self).graph.message_edges@);
        }
    }
}

} // verus!

// Message calls.

verus! {

impl Runtime {
    /// Handles one message on an incoming message port, by index, and
    /// returns the reply, as the owning task does when it dequeues it.
    fn handle_at(&mut self, block: usize, port: usize, m: Pmt) -> (reply: Pmt)
        requires
            old(self).wf(),
            block < old(self).tasks@.len(),
            port < old(self).graph.blocks@[block as int].message_inputs@.len(),
        ensures
            final(self).wf(),
            final(self).graph == old(self).graph,
            final(self).buffers == old(self).buffers,
            final(self).terminating == old(self).terminating,
            final(self).terminated == old(self).terminated,
            handled(*old(self), *final(self), block as int, port as int, m@, reply@),
    {
        let kind = self.tasks[block].kind;
        match kind {
            Kernel::Controller => {
                if port == 0 {
                    match m {
                        Pmt::Text(path) => {
                            self.reload_requests.push(path);
                            proof {
                                assert(self.reload_requests@.take(
                                    old(self).reload_requests@.len() as int)
                                    =~= old(self).reload_requests@);
                            }
                            Pmt::Okay
                        },
                        _ => Pmt::Text("control expects a configuration path".to_owned()),
                    }
                } else if port == 1 {
                    self.post_output(block, 0, &m);
                    Pmt::Okay
                } else if port == 2 {
                    self.post_output(block, 1, &m);
                    Pmt::Okay
                } else {
                    Pmt::Null
                }
            },
            Kernel::Echo => {
                if port == 0 {
                    m
                } else {
                    Pmt::Null
                }
            },
            Kernel::MessageSink => {
                if port == 0 {
                    let ghost mv = m@;
                    self.tasks[block].received.push(m);
                    proof {
                        assert(pmt_views(self.tasks@[block as int].received@)
                            =~= pmt_views(old(self).tasks@[block as int].received@).push(mv));
                    }
                    Pmt::Okay
                } else {
                    Pmt::Null
                }
            },
            _ => Pmt::Null,
        }
    }

    /// One external message call: resolve the target, run the handler, hand
    /// back its reply.  A terminated runtime refuses every call; an unknown
    /// block or port is refused without touching anything.
    pub fn call(&mut self, block: usize, port: &String, m: Pmt) -> (r: Result<Pmt, CallError>)
        requires
            old(self).wf(),
        ensures
            final(self).wf(),
            final(self).graph == old(self).graph,
            final(self).buffers == old(self).buffers,
            final(self).terminating == old(self).terminating,
            final(self).terminated == old(self).terminated,
            old(self).terminated ==> (r matches Err(CallError::Terminated)) && *final(self)
                == *old(self),
            !old(self).terminated && block >= old(self).graph.blocks@.len() ==> (r matches Err(
                CallError::UnknownBlock { block: bb },
            ) && bb == block) && *final(self) == *old(self),
            !old(self).terminated && block < old(self).graph.blocks@.len() ==> ({
                let names = old(self).graph.blocks@[block as int].message_inputs@;
                &&& ((forall|j: int|
                    0 <= j < names.len() ==> (#[trigger] names[j]).name@ != port@) ==> (
                r matches Err(CallError::UnknownPort { .. })) && *final(self) == *old(self))
                &&& (forall|j: int|
                    0 <= j < names.len() && (#[trigger] names[j]).name@ == port@ && (forall|q: int|
                        0 <= q < j ==> names[q].name@ != port@) ==> (
                    r matches Ok(reply) && handled(
                        *old(self),
                        *final(self),
                        block as int,
                        j,
                        m@,
                        reply@,
                    )))
            }),
            r is Err ==> *final(self) == *old(self),
    {
        if self.terminated {
            return Err(CallError::Terminated);
        }
        if block >= self.tasks.len() {
            return Err(CallError::UnknownBlock { block });
        }
        let p = match crate::flowgraph::find_message_port(
            &self.graph.blocks[block].message_inputs,
            port,
        ) {
            Some(p) => p,
            None => {
                return Err(CallError::UnknownPort { block, port: port.clone() });
            },
        };
        let reply = self.handle_at(block, p, m);
        Ok(reply)
    }
}

} // verus!

// Stream work and termination.

verus! {

/// A stream buffer that can take one more committed sample.
pub open spec fn can_accept(c: StreamBuffer<u64>) -> bool {
    !c.closed_spec() && c.pending().len() < c.capacity_spec() && c.committed_spec() < u64::MAX
}

/// One buffer gained exactly one committed sample; nothing else about it
/// changed.
pub open spec fn produced_one(c0: StreamBuffer<u64>, c1: StreamBuffer<u64>, x: u64) -> bool {
    &&& c1.history_spec() == c0.history_spec().push(x)
    &&& c1.committed_spec() == c0.committed_spec() + 1
    &&& c1.consumed_spec() == c0.consumed_spec()
    &&& c1.capacity_spec() == c0.capacity_spec()
    &&& c1.closed_spec() == c0.closed_spec()
}

/// One buffer had its oldest pending sample consumed; nothing else changed.
pub open spec fn consumed_one(c0: StreamBuffer<u64>, c1: StreamBuffer<u64>) -> bool {
    &&& c1.history_spec() == c0.history_spec()
    &&& c1.committed_spec() == c0.committed_spec()
    &&& c1.consumed_spec() == c0.consumed_spec() + 1
    &&& c1.capacity_spec() == c0.capacity_spec()
    &&& c1.closed_spec() == c0.closed_spec()
}

impl Runtime {
    /// One wake of a block's task.  While the graph is terminating, the task
    /// closes its output streams and exits.  Otherwise the kernel works: a
    /// null source commits one zero sample on each output edge with room, a
    /// null sink consumes one sample from each input edge with data, and a
    /// repeater moves one sample from its first input edge to every output
    /// edge, but only when all of them can take it.  Message-only kernels do
    /// their work in their handlers, not here.
    pub fn step_block(&mut self, b: usize)
        requires
            old(self).wf(),
            b < old(self).tasks@.len(),
        ensures
            final(self).wf(),
            final(self).graph == old(self).graph,
            final(self).reload_requests == old(self).reload_requests,
            final(self).terminating == old(self).terminating,
            final(self).terminated == old(self).terminated,
            final(self).tasks@.len() == old(self).tasks@.len(),
            forall|j: int|
                0 <= j < old(self).tasks@.len() && j != b ==> #[trigger] final(self).tasks@[j]
                    == old(self).tasks@[j],
            ({
                let t0 = old(self).tasks@[b as int];
                let t1 = final(self).tasks@[b as int];
                &&& t1.kind == t0.kind
                &&& t1.inboxes == t0.inboxes
                &&& t1.received == t0.received
                &&& t1.exited == (t0.exited || old(self).terminating)
            }),
            final(self).buffers@.len() == old(self).buffers@.len(),
            old(self).terminating ==> (forall|k: int|
                0 <= k < old(self).buffers@.len() ==> ({
                    let e = old(self).graph.stream_edges@[k];
                    let c0 = #[trigger] old(self).buffers@[k];
                    let c1 = final(self).buffers@[k];
                    &&& (e.src_block != b ==> c1 == c0)
                    &&& (e.src_block == b ==> {
                        &&& c1.closed_spec()
                        &&& c1.history_spec() == c0.history_spec()
                        &&& c1.committed_spec() == c0.committed_spec()
                        &&& c1.consumed_spec() == c0.consumed_spec()
                        &&& c1.capacity_spec() == c0.capacity_spec()
                    })
                })),
            !old(self).terminating && old(self).graph.blocks@[b as int].kind
                == Kernel::NullSource ==> (forall|k: int|
                0 <= k < old(self).buffers@.len() ==> ({
                    let e = old(self).graph.stream_edges@[k];
                    let c0 = #[trigger] old(self).buffers@[k];
                    let c1 = final(self).buffers@[k];
                    &&& (e.src_block != b ==> c1 == c0)
                    &&& (e.src_block == b && can_accept(c0) ==> produced_one(c0, c1, 0u64))
                    &&& (e.src_block == b && !can_accept(c0) ==> c1 == c0)
                })),
            !old(self).terminating && old(self).graph.blocks@[b as int].kind
                == Kernel::NullSink ==> (forall|k: int|
                0 <= k < old(self).buffers@.len() ==> ({
                    let e = old(self).graph.stream_edges@[k];
                    let c0 = #[trigger] old(self).buffers@[k];
                    let c1 = final(self).buffers@[k];
                    &&& (e.dst_block != b ==> c1 == c0)
                    &&& (e.dst_block == b && c0.pending().len() >= 1 ==> consumed_one(c0, c1))
                    &&& (e.dst_block == b && c0.pending().len() == 0 ==> c1 == c0)
                })),
            !old(self).terminating && old(self).graph.blocks@[b as int].kind
                == Kernel::Repeater ==> ({
                let edges = old(self).graph.stream_edges@;
                &&& ((forall|j: int|
                    0 <= j < edges.len() ==> (#[trigger] edges[j]).dst_block != b)
                    ==> final(self).buffers == old(self).buffers)
                &&& (forall|j: int|
                    0 <= j < edges.len() && (#[trigger] edges[j]).dst_block == b && (forall|q: int|
                        0 <= q < j ==> edges[q].dst_block != b) ==> ({
                        let src = old(self).buffers@[j];
                        let go = src.pending().len() >= 1 && (forall|k: int|
                            0 <= k < edges.len() && (#[trigger] edges[k]).src_block == b
                                ==> can_accept(old(self).buffers@[k]));
                        &&& (!go ==> final(self).buffers == old(self).buffers)
                        &&& (go ==> ({
                            let x = src.history_spec()[src.consumed_spec()];
                            forall|k: int|
                                0 <= k < edges.len() ==> ({
                                    let c0 = #[trigger] old(self).buffers@[k];
                                    let c1 = final(self).buffers@[k];
                                    let is_in = k == j;
                                    let is_out = edges[k].src_block == b;
                                    &&& (!is_in && !is_out ==> c1 == c0)
                                    &&& (is_in && !is_out ==> consumed_one(c0, c1))
                                    &&& (!is_in && is_out ==> produced_one(c0, c1, x))
                                    &&& (is_in && is_out ==> {
                                        &&& c1.history_spec() == c0.history_spec().push(x)
                                        &&& c1.committed_spec() == c0.committed_spec() + 1
                                        &&& c1.consumed_spec() == c0.consumed_spec() + 1
                                        &&& c1.capacity_spec() == c0.capacity_spec()
                                        &&& c1.closed_spec() == c0.closed_spec()
                                    })
                                })
                        }))
                    }))
            }),
            !old(self).terminating && (old(self).graph.blocks@[b as int].kind
                == Kernel::Controller || old(self).graph.blocks@[b as int].kind == Kernel::Echo
                || old(self).graph.blocks@[b as int].kind == Kernel::MessageSink)
                ==> final(self).buffers == old(self).buffers,
    {
        let total = self.buffers.len();
        if self.terminating {
            let mut k: usize = 0;
            while k < total
                invariant
                    old(self).wf(),
                    self.wf(),
                    b < self.tasks@.len(),
                    total == self.buffers@.len(),
                    k <= total,
                    self.graph == old(self).graph,
                    self.tasks == old(self).tasks,
                    self.reload_requests == old(self).reload_requests,
                    self.terminating == old(self).terminating,
                    self.terminated == old(self).terminated,
                    self.buffers@.len() == old(self).buffers@.len(),
                    forall|j: int|
                        0 <= j < total && (j >= k
                            || old(self).graph.stream_edges@[j].src_block != b)
                            ==> #[trigger] self.buffers@[j] == old(self).buffers@[j],
                    forall|j: int|
                        0 <= j < k && old(self).graph.stream_edges@[j].src_block == b ==> ({
                            let c0 = old(self).buffers@[j];
                            let c1 = #[trigger] self.buffers@[j];
                            &&& c1.closed_spec()
                            &&& c1.history_spec() == c0.history_spec()
                            &&& c1.committed_spec() == c0.committed_spec()
                            &&& c1.consumed_spec() == c0.consumed_spec()
                            &&& c1.capacity_spec() == c0.capacity_spec()
                        }),
                decreases total - k,
            {
                let e = self.graph.stream_edges[k];
                if e.src_block == b {
                    self.buffers[k].close();
                }
                k = k + 1;
            }
            self.tasks[b].exited = true;
            return;
        }
        let kind = self.tasks[b].kind;
        match kind {
            Kernel::NullSource => {
                let mut k: usize = 0;
                while k < total
                    invariant
                        old(self).wf(),
                        self.wf(),
                        b < self.tasks@.len(),
                        !old(self).terminating,
                        total == self.buffers@.len(),
                        k <= total,
                        self.graph == old(self).graph,
                        self.tasks == old(self).tasks,
                        self.reload_requests == old(self).reload_requests,
                        self.terminating == old(self).terminating,
                        self.terminated == old(self).terminated,
                        self.buffers@.len() == old(self).buffers@.len(),
                        forall|j: int|
                            0 <= j < total && (j >= k
                                || old(self).graph.stream_edges@[j].src_block != b)
                                ==> #[trigger] self.buffers@[j] == old(self).buffers@[j],
                        forall|j: int|
                            0 <= j < k && old(self).graph.stream_edges@[j].src_block == b
                                ==> ({
                                let c0 = old(self).buffers@[j];
                                let c1 = #[trigger] self.buffers@[j];
                                &&& (can_accept(c0) ==> produced_one(c0, c1, 0u64))
                                &&& (!can_accept(c0) ==> c1 == c0)
                            }),
                    decreases total - k,
                {
                    let e = self.graph.stream_edges[k];
                    if e.src_block == b {
                        if !self.buffers[k].is_closed()
                            && self.buffers[k].committed_count() < u64::MAX {
                            let _accepted = self.buffers[k].produce(0u64);
                        }
                    }
                    k = k + 1;
                }
            },
            Kernel::NullSink => {
                let mut k: usize = 0;
                while k < total
                    invariant
                        old(self).wf(),
                        self.wf(),
                        b < self.tasks@.len(),
                        !old(self).terminating,
                        total == self.buffers@.len(),
                        k <= total,
                        self.graph == old(self).graph,
                        self.tasks == old(self).tasks,
                        self.reload_requests == old(self).reload_requests,
                        self.terminating == old(self).terminating,
                        self.terminated == old(self).terminated,
                        self.buffers@.len() == old(self).buffers@.len(),
                        forall|j: int|
                            0 <= j < total && (j >= k
                                || old(self).graph.stream_edges@[j].dst_block != b)
                                ==> #[trigger] self.buffers@[j] == old(self).buffers@[j],
                        forall|j: int|
                            0 <= j < k && old(self).graph.stream_edges@[j].dst_block == b
                                ==> ({
                                let c0 = old(self).buffers@[j];
                                let c1 = #[trigger] self.buffers@[j];
                                &&& (c0.pending().len() >= 1 ==> consumed_one(c0, c1))
                                &&& (c0.pending().len() == 0 ==> c1 == c0)
                            }),
                    decreases total - k,
                {
                    let e = self.graph.stream_edges[k];
                    if e.dst_block == b {
                        let _sample = self.buffers[k].consume();
                    }
                    k = k + 1;
                }
            },
            Kernel::Repeater => {
                self.step_repeater(b);
            },
            _ => {},
        }
        proof {
            assert(self.tasks@ =~= old(self).tasks@);
        }
    }
}

} // verus!

// The repeater's work step.

verus! {

impl Runtime {
    /// One repeater work step: when the first input edge has a sample and
    /// every output edge can take one, move it; otherwise do nothing.
    fn step_repeater(&mut self, b: usize)
        requires
            old(self).wf(),
            b < old(self).tasks@.len(),
        ensures
            final(self).wf(),
            final(self).graph == old(self).graph,
            final(self).tasks == old(self).tasks,
            final(self).reload_requests == old(self).reload_requests,
            final(self).terminating == old(self).terminating,
            final(self).terminated == old(self).terminated,
            final(self).buffers@.len() == old(self).buffers@.len(),
            ({
                let edges = old(self).graph.stream_edges@;
                &&& ((forall|j: int|
                    0 <= j < edges.len() ==> (#[trigger] edges[j]).dst_block != b)
                    ==> final(self).buffers == old(self).buffers)
                &&& (forall|j: int|
                    0 <= j < edges.len() && (#[trigger] edges[j]).dst_block == b && (forall|q: int|
                        0 <= q < j ==> edges[q].dst_block != b) ==> ({
                        let src = old(self).buffers@[j];
                        let go = src.pending().len() >= 1 && (forall|k: int|
                            0 <= k < edges.len() && (#[trigger] edges[k]).src_block == b
                                ==> can_accept(old(self).buffers@[k]));
                        &&& (!go ==> final(self).buffers == old(self).buffers)
                        &&& (go ==> ({
                            let x = src.history_spec()[src.consumed_spec()];
                            forall|k: int|
                                0 <= k < edges.len() ==> ({
                                    let c0 = #[trigger] old(self).buffers@[k];
                                    let c1 = final(self).buffers@[k];
                                    let is_in = k == j;
                                    let is_out = edges[k].src_block == b;
                                    &&& (!is_in && !is_out ==> c1 == c0)
                                    &&& (is_in && !is_out ==> consumed_one(c0, c1))
                                    &&& (!is_in && is_out ==> produced_one(c0, c1, x))
                                    &&& (is_in && is_out ==> {
                                        &&& c1.history_spec() == c0.history_spec().push(x)
                                        &&& c1.committed_spec() == c0.committed_spec() + 1
                                        &&& c1.consumed_spec() == c0.consumed_spec() + 1
                                        &&& c1.capacity_spec() == c0.capacity_spec()
                                        &&& c1.closed_spec() == c0.closed_spec()
                                    })
                                })
                        }))
                    }))
            }),
    {
        let total = self.buffers.len();
        let mut j_found: usize = 0;
        let mut have_j: bool = false;
        let mut k: usize = 0;
        while k < total
            invariant
                *self == *old(self),
                old(self).wf(),
                total == self.buffers@.len(),
                k <= total,
                !have_j ==> forall|q: int|
                    0 <= q < k ==> (#[trigger] old(self).graph.stream_edges@[q]).dst_block != b,
                have_j ==> k == total,
                have_j ==> j_found < total
                    && old(self).graph.stream_edges@[j_found as int].dst_block == b && (forall|
                    q: int,
                |
                    0 <= q < j_found ==> (#[trigger] old(
                        self,
                    ).graph.stream_edges@[q]).dst_block != b),
            decreases total - k,
        {
            let e = self.graph.stream_edges[k];
            proof {
                assert(e == old(self).graph.stream_edges@[k as int]);
            }
            if e.dst_block == b {
                j_found = k;
                have_j = true;
                k = total;
            } else {
                k = k + 1;
            }
        }
        if !have_j {
            return;
        }
        let j = j_found;
        if self.buffers[j].readable() == 0 {
            return;
        }
        let mut ok: bool = true;
        let mut k2: usize = 0;
        while k2 < total
            invariant
                *self == *old(self),
                old(self).wf(),
                total == self.buffers@.len(),
                k2 <= total,
                ok ==> forall|q: int|
                    0 <= q < k2 && (#[trigger] old(self).graph.stream_edges@[q]).src_block == b
                        ==> can_accept(old(self).buffers@[q]),
                !ok ==> exists|q: int|
                    0 <= q < total && (#[trigger] old(self).graph.stream_edges@[q]).src_block
                        == b && !can_accept(old(self).buffers@[q]),
            decreases total - k2,
        {
            let e = self.graph.stream_edges[k2];
            if e.src_block == b {
                let closed = self.buffers[k2].is_closed();
                let free = self.buffers[k2].free_slots();
                let committed = self.buffers[k2].committed_count();
                if closed || free == 0 || committed == u64::MAX {
                    ok = false;
                    k2 = total;
                } else {
                    k2 = k2 + 1;
                }
            } else {
                k2 = k2 + 1;
            }
        }
        if !ok {
            return;
        }
        let x = match self.buffers[j].consume() {
            Some(x) => x,
            None => {
                proof {
                    assert(false);
                }
                0u64
            },
        };
        let ghost mid = *self;
        let mut k3: usize = 0;
        while k3 < total
            invariant
                old(self).wf(),
                self.wf(),
                mid.wf(),
                total == self.buffers@.len(),
                k3 <= total,
                j < total,
                self.graph == old(self).graph,
                mid.graph == old(self).graph,
                self.tasks == old(self).tasks,
                self.reload_requests == old(self).reload_requests,
                self.terminating == old(self).terminating,
                self.terminated == old(self).terminated,
                self.buffers@.len() == old(self).buffers@.len(),
                mid.buffers@.len() == old(self).buffers@.len(),
                old(self).graph.stream_edges@[j as int].dst_block == b,
                consumed_one(old(self).buffers@[j as int], mid.buffers@[j as int]),
                x == old(self).buffers@[j as int].history_spec()[old(self).buffers@[
                    j as int].consumed_spec()],
                forall|q: int|
                    0 <= q < total && q != j ==> #[trigger] mid.buffers@[q] == old(
                        self).buffers@[q],
                forall|q: int|
                    0 <= q < total && (#[trigger] old(self).graph.stream_edges@[q]).src_block
                        == b ==> can_accept(old(self).buffers@[q]),
                forall|q: int|
                    0 <= q < total && (q >= k3
                        || old(self).graph.stream_edges@[q].src_block != b)
                        ==> #[trigger] self.buffers@[q] == mid.buffers@[q],
                forall|q: int|
                    0 <= q < k3 && (#[trigger] old(self).graph.stream_edges@[q]).src_block == b
                        ==> produced_one(mid.buffers@[q], self.buffers@[q], x),
            decreases total - k3,
        {
            let e = self.graph.stream_edges[k3];
            if e.src_block == b {
                proof {
                    assert(can_accept(old(self).buffers@[k3 as int]));
                    if k3 == j {
                        assert(mid.buffers@[k3 as int].pending().len()
                            < mid.buffers@[k3 as int].capacity_spec());
                    }
                }
                let _accepted = self.buffers[k3].produce(x);
            }
            k3 = k3 + 1;
        }
    }
}

} // verus!

// Termination.

verus! {

impl Runtime {
    /// Raises the graph-wide terminating flag; every task observes it at its
    /// next wake.  Nothing else changes.
    pub fn terminate(&mut self)
        requires
            old(self).wf(),
        ensures
            final(self).wf(),
            final(self).terminating,
            final(self).graph == old(self).graph,
            final(self).buffers == old(self).buffers,
            final(self).tasks == old(self).tasks,
            final(self).reload_requests == old(self).reload_requests,
            final(self).terminated == old(self).terminated,
    {
        self.terminating = true;
    }

    /// Terminates the graph and finishes the drain: every task exits, every
    /// stream edge is closed and its remaining samples are dropped by the
    /// consumer.  Afterwards every committed sample has been consumed or
    /// dropped, and every call is refused.
    pub fn terminate_and_wait(&mut self)
        requires
            old(self).wf(),
        ensures
            final(self).wf(),
            final(self).terminating,
            final(self).terminated,
            final(self).graph == old(self).graph,
            final(self).reload_requests == old(self).reload_requests,
            final(self).tasks@.len() == old(self).tasks@.len(),
            forall|b: int|
                0 <= b < old(self).tasks@.len() ==> ({
                    let t0 = old(self).tasks@[b];
                    let t1 = #[trigger] final(self).tasks@[b];
                    &&& t1.exited
                    &&& t1.kind == t0.kind
                    &&& t1.inboxes == t0.inboxes
                    &&& t1.received == t0.received
                }),
            final(self).buffers@.len() == old(self).buffers@.len(),
            forall|k: int|
                0 <= k < old(self).buffers@.len() ==> ({
                    let c0 = old(self).buffers@[k];
                    let c1 = #[trigger] final(self).buffers@[k];
                    &&& c1.closed_spec()
                    &&& c1.pending().len() == 0
                    &&& c1.consumed_spec() == c1.committed_spec()
                    &&& c1.history_spec() == c0.history_spec()
                    &&& c1.committed_spec() == c0.committed_spec()
                    &&& c1.capacity_spec() == c0.capacity_spec()
                }),
    {
        self.terminating = true;
        let blocks = self.tasks.len();
        let mut b: usize = 0;
        while b < blocks
            invariant
                old(self).wf(),
                blocks == self.tasks@.len(),
                b <= blocks,
                self.graph == old(self).graph,
                self.buffers == old(self).buffers,
                self.reload_requests == old(self).reload_requests,
                self.terminating,
                self.terminated == old(self).terminated,
                self.tasks@.len() == old(self).tasks@.len(),
                self.graph.frozen && self.graph.valid(),
                self.buffers@.len() == self.graph.stream_edges@.len(),
                forall|k: int|
                    0 <= k < self.buffers@.len() ==> (#[trigger] self.buffers@[k]).wf(),
                forall|j: int|
                    0 <= j < self.tasks@.len() ==> (#[trigger] self.tasks@[j]).kind
                        == self.graph.blocks@[j].kind,
                forall|j: int|
                    0 <= j < self.tasks@.len() ==> (#[trigger] self.tasks@[j]).inboxes@.len()
                        == self.graph.blocks@[j].message_inputs@.len(),
                forall|j: int, p: int|
                    0 <= j < self.tasks@.len() && 0 <= p < self.tasks@[j].inboxes@.len()
                        ==> (#[trigger] self.tasks@[j].inboxes@[p]).wf(),
                forall|j: int|
                    0 <= j < old(self).tasks@.len() ==> ({
                        let t0 = old(self).tasks@[j];
                        let t1 = #[trigger] self.tasks@[j];
                        &&& t1.kind == t0.kind
                        &&& t1.inboxes == t0.inboxes
                        &&& t1.received == t0.received
                        &&& (j < b ==> t1.exited)
                        &&& (j >= b ==> t1.exited == t0.exited)
                    }),
            decreases blocks - b,
        {
            self.tasks[b].exited = true;
            b = b + 1;
        }
        let edges = self.buffers.len();
        let mut k: usize = 0;
        while k < edges
            invariant
                old(self).wf(),
                edges == self.buffers@.len(),
                k <= edges,
                self.graph == old(self).graph,
                self.reload_requests == old(self).reload_requests,
                self.terminating,
                self.terminated == old(self).terminated,
                self.tasks@.len() == old(self).tasks@.len(),
                self.graph.frozen && self.graph.valid(),
                self.buffers@.len() == self.graph.stream_edges@.len(),
                self.buffers@.len() == old(self).buffers@.len(),
                forall|q: int|
                    0 <= q < self.buffers@.len() ==> (#[trigger] self.buffers@[q]).wf(),
                forall|j: int|
                    0 <= j < self.tasks@.len() ==> (#[trigger] self.tasks@[j]).kind
                        == self.graph.blocks@[j].kind,
                forall|j: int|
                    0 <= j < self.tasks@.len() ==> (#[trigger] self.tasks@[j]).inboxes@.len()
                        == self.graph.blocks@[j].message_inputs@.len(),
                forall|j: int, p: int|
                    0 <= j < self.tasks@.len() && 0 <= p < self.tasks@[j].inboxes@.len()
                        ==> (#[trigger] self.tasks@[j].inboxes@[p]).wf(),
                forall|j: int|
                    0 <= j < old(self).tasks@.len() ==> ({
                        let t0 = old(self).tasks@[j];
                        let t1 = #[trigger] self.tasks@[j];
                        &&& t1.exited
                        &&& t1.kind == t0.kind
                        &&& t1.inboxes == t0.inboxes
                        &&& t1.received == t0.received
                    }),
                forall|q: int|
                    0 <= q < old(self).buffers@.len() ==> ({
                        let c0 = old(self).buffers@[q];
                        let c1 = #[trigger] self.buffers@[q];
                        &&& (q >= k ==> c1 == c0)
                        &&& (q < k ==> {
                            &&& c1.closed_spec()
                            &&& c1.pending().len() == 0
                            &&& c1.consumed_spec() == c1.committed_spec()
                            &&& c1.history_spec() == c0.history_spec()
                            &&& c1.committed_spec() == c0.committed_spec()
                            &&& c1.capacity_spec() == c0.capacity_spec()
                        })
                    }),
            decreases edges - k,
        {
            self.buffers[k].close();
            self.buffers[k].drain();
            k = k + 1;
        }
        self.terminated = true;
    }
}

/// Law: termination is complete.  In a terminated runtime every per-block
/// task has exited; `call` refuses every request on such a runtime, as its
/// own contract states.
pub proof fn lemma_terminated_all_exited(rt: Runtime)
    requires
        rt.wf(),
        rt.terminated,
    ensures
        forall|b: int| 0 <= b < rt.tasks@.len() ==> (#[trigger] rt.tasks@[b]).exited,
{
}

} // verus!
