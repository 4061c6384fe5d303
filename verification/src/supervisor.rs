//! The hot-swap supervisor.
//!
//! The supervisor owns the single slot holding the current running graph.
//! A reload request replaces the whole graph: the running one is terminated
//! and fully drained first, then the new one is built from the requested
//! configuration, started and stored.  The model is always forward: when
//! the build fails the slot stays empty, and callers observe "no current
//! flowgraph" until the next successful reload — never a half-constructed
//! graph.  After a swap into a graph with a controller at identifier zero,
//! a `reload` notice is posted through the controller's `rx` port, so every
//! consumer of its `rx_out` learns that the swap completed.

use vstd::prelude::*;
use crate::flowgraph::MessageEdge;
use crate::kernel::Kernel;
use crate::kernel::controller_shape;
use crate::loader::ConfigDescription;
use crate::loader::LoadError;
use crate::loader::enabled_controller;
use crate::loader::load;
use crate::pmt::Pmt;
use crate::pmt::PmtV;
use crate::runtime::CallError;
use crate::runtime::Runtime;
use crate::runtime::count_matching;

verus! {

/// The stream buffer capacity the supervisor launches graphs with.
pub const STREAM_CAPACITY: usize = 4096;

/// The long-lived supervisor: the current-graph slot and the preset feature
/// conditions the loader evaluates guards against.
pub struct Supervisor {
    pub slot: Option<Runtime>,
    pub features: Vec<String>,
}

/// What one reload request came to: the drained previous runtime, if one
/// was running, and the build error, if the new graph could not be built.
pub struct ReloadOutcome {
    pub previous: Option<Runtime>,
    pub error: Option<LoadError>,
}

/// There is at least one matching edge when some index matches.
proof fn lemma_count_matching_at(
    edges: Seq<MessageEdge>,
    sb: int,
    sp: int,
    db: int,
    dp: int,
    k: int,
)
    requires
        0 <= k < edges.len(),
        edges[k].src_block == sb,
        edges[k].src_port == sp,
        edges[k].dst_block == db,
        edges[k].dst_port == dp,
    ensures
        count_matching(edges, sb, sp, db, dp) >= 1,
    decreases edges.len(),
{
    if k == edges.len() - 1 {
    } else {
        assert(edges.drop_last()[k] == edges[k]);
        lemma_count_matching_at(edges.drop_last(), sb, sp, db, dp, k);
    }
}

impl Supervisor {
    /// The supervisor invariant: whatever sits in the slot is a complete,
    /// started, not yet terminated graph.  This is the hot-swap atomicity
    /// guarantee: an external call either reaches such a graph or is
    /// refused; nothing half built is ever visible.
    pub open spec fn wf(self) -> bool {
        match self.slot {
            Some(rt) => rt.wf() && rt.graph.frozen && rt.graph.valid() && !rt.terminated,
            None => true,
        }
    }

    /// A supervisor with an empty slot.
    pub fn new(features: Vec<String>) -> (s: Supervisor)
        ensures
            s.wf(),
            s.slot is None,
            s.features == features,
    {
        Supervisor { slot: None, features }
    }

    /// One reload request, in order: terminate and fully drain the running
    /// graph, build the new one, start it, store it, and notify the
    /// controller's subscribers.  On a build or validation error the slot
    /// stays empty — the model is always forward, never back to the old
    /// graph.
    pub fn handle_reload(&mut self, cfg: &ConfigDescription) -> (r: ReloadOutcome)
        requires
            old(self).wf(),
        ensures
            final(self).wf(),
            final(self).features == old(self).features,
            (r.previous is Some) == (old(self).slot is Some),
            r.previous matches Some(rt) ==> rt.terminated && rt.wf() && (forall|b: int|
                0 <= b < rt.tasks@.len() ==> (#[trigger] rt.tasks@[b]).exited) && (forall|k: int|
                0 <= k < rt.buffers@.len() ==> {
                    let c = #[trigger] rt.buffers@[k];
                    c.closed_spec() && c.consumed_spec() == c.committed_spec()
                }),
            r.error is Some ==> final(self).slot is None,
            r.error is None ==> crate::loader::config_wirable(*cfg, old(self).features@),
            (match r.error {
                Some(LoadError::Graph { .. }) => true,
                Some(_) => !crate::loader::config_wirable(*cfg, old(self).features@),
                None => true,
            }),
            r.error is None ==> (final(self).slot matches Some(rt2) && rt2.wf()
                && !rt2.terminated && rt2.graph.frozen && rt2.graph.valid()),
            r.error is None && (exists|q: int| enabled_controller(*cfg, old(self).features@, q))
                ==> (final(self).slot matches Some(rt2) && rt2.graph.blocks@.len() >= 1
                && rt2.graph.blocks@[0].kind == Kernel::Controller && (forall|k: int|
                0 <= k < rt2.graph.message_edges@.len() ==> ({
                    let e = #[trigger] rt2.graph.message_edges@[k];
                    e.src_block == 0 && e.src_port == 1 ==> ({
                        let q = rt2.tasks@[e.dst_block as int].inboxes@[e.dst_port as int];
                        &&& q.taken_spec() == 0
                        &&& q.accepted_log().len() >= 1
                        &&& (forall|i: int|
                            0 <= i < q.accepted_log().len() ==> q.accepted_log()[i]
                                == PmtV::Text("reload"@))
                    })
                }))),
    {
        let previous = match self.slot.take() {
            Some(mut rt) => {
                rt.terminate_and_wait();
                Some(rt)
            },
            None => None,
        };
        let loaded = load(cfg, &self.features);
        let (mut fg, _ctx) = match loaded {
            Ok(pair) => pair,
            Err(e) => {
                return ReloadOutcome { previous, error: Some(e) };
            },
        };
        match fg.start() {
            Ok(_) => {},
            Err(e) => {
                return ReloadOutcome { previous, error: Some(LoadError::Graph { error: e }) };
            },
        }
        proof {
            assert(STREAM_CAPACITY & ((STREAM_CAPACITY - 1) as usize) == 0) by (bit_vector);
        }
        let mut rt = Runtime::launch(fg, STREAM_CAPACITY);
        let ghost fresh = rt;
        let has_controller = rt.tasks.len() > 0 && matches!(rt.tasks[0].kind, Kernel::Controller);
        if has_controller {
            proof {
                reveal_strlit("control");
                reveal_strlit("tx");
                reveal_strlit("rx");
                assert("control"@.len() == 7);
                assert("tx"@.len() == 2);
                assert("rx"@.len() == 2);
                assert("tx"@[0] == 't');
                assert("rx"@[0] == 'r');
                assert(controller_shape(rt.graph.blocks@[0]));
            }
            let notice = Pmt::Text("reload".to_owned());
            let called = rt.call(0, &"rx".to_owned(), notice);
            proof {
                let names = fresh.graph.blocks@[0].message_inputs@;
                assert(names[2].name@ == "rx"@);
                assert(names[0].name@ != "rx"@);
                assert(names[1].name@ != "rx"@);
                assert(crate::runtime::handled(
                    fresh,
                    rt,
                    0,
                    2,
                    PmtV::Text("reload"@),
                    (match called {
                        Ok(reply) => reply@,
                        Err(_) => PmtV::Null,
                    }),
                ));
                assert(crate::runtime::fanout_outcome(fresh, rt, 0, 1, PmtV::Text("reload"@)));
                assert forall|k: int|
                    0 <= k < rt.graph.message_edges@.len() && (#[trigger] rt.graph.message_edges@[
                    k]).src_block == 0 && rt.graph.message_edges@[k].src_port == 1 implies ({
                    let e = rt.graph.message_edges@[k];
                    let q = rt.tasks@[e.dst_block as int].inboxes@[e.dst_port as int];
                    &&& q.taken_spec() == 0
                    &&& q.accepted_log().len() >= 1
                    &&& (forall|i: int|
                        0 <= i < q.accepted_log().len() ==> q.accepted_log()[i]
                            == PmtV::Text("reload"@))
                }) by {
                    let e = rt.graph.message_edges@[k];
                    assert(fresh.wf());
                    assert(fresh.graph == rt.graph);
                    assert(fresh.graph.edges_wf());
                    assert(e.dst_block < fresh.graph.blocks@.len());
                    assert(e.dst_port < fresh.graph.blocks@[
                        e.dst_block as int].message_inputs@.len());
                    assert(e.dst_block < fresh.tasks@.len());
                    assert(e.dst_port < fresh.tasks@[e.dst_block as int].inboxes@.len());
                    let q0 = fresh.tasks@[e.dst_block as int].inboxes@[e.dst_port as int];
                    assert(q0.capacity == crate::runtime::MAILBOX_CAPACITY);
                    assert(q0.accepted_log().len() == 0 && q0.taken_spec() == 0);
                    lemma_count_matching_at(
                        fresh.graph.message_edges@,
                        0,
                        1,
                        e.dst_block as int,
                        e.dst_port as int,
                        k,
                    );
                }
            }
        }
        self.slot = Some(rt);
        ReloadOutcome { previous, error: None }
    }

    /// One external call, routed to the current graph.  With an empty slot
    /// the caller learns that no flowgraph is running; otherwise the call
    /// reaches the one complete current graph.
    pub fn call(&mut self, block: usize, port: &String, m: Pmt) -> (r: Result<Pmt, CallError>)
        requires
            old(self).wf(),
        ensures
            final(self).wf(),
            final(self).features == old(self).features,
            old(self).slot is None ==> (r matches Err(CallError::NoFlowgraph)) && final(
                self).slot is None,
            old(self).slot matches Some(rt0) ==> (final(self).slot matches Some(rt1)
                && rt1.graph == rt0.graph && rt1.wf() && !rt1.terminated && (block
                >= rt0.graph.blocks@.len() ==> (r matches Err(CallError::UnknownBlock { block: bb })
                && bb == block) && rt1 == rt0) && (block < rt0.graph.blocks@.len() ==> ({
                let names = rt0.graph.blocks@[block as int].message_inputs@;
                &&& ((forall|j: int|
                    0 <= j < names.len() ==> (#[trigger] names[j]).name@ != port@) ==> (
                r matches Err(CallError::UnknownPort { .. })) && rt1 == rt0)
                &&& (forall|j: int|
                    0 <= j < names.len() && (#[trigger] names[j]).name@ == port@ && (forall|q: int|
                        0 <= q < j ==> names[q].name@ != port@) ==> (r matches Ok(reply)
                        && crate::runtime::handled(rt0, rt1, block as int, j, m@, reply@)))
            }))),
    {
        match &mut self.slot {
            None => Err(CallError::NoFlowgraph),
            Some(rt) => rt.call(block, port, m),
        }
    }

    /// Raises the terminating flag of the current graph, if any.  Nothing
    /// else changes: the tasks observe the flag at their next wake.
    pub fn terminate_current(&mut self)
        requires
            old(self).wf(),
        ensures
            final(self).wf(),
            final(self).features == old(self).features,
            old(self).slot is None ==> final(self).slot is None,
            old(self).slot matches Some(rt0) ==> (final(self).slot matches Some(rt1) && ({
                &&& rt1.terminating
                &&& rt1.graph == rt0.graph
                &&& rt1.buffers == rt0.buffers
                &&& rt1.tasks == rt0.tasks
                &&& rt1.reload_requests == rt0.reload_requests
                &&& rt1.terminated == rt0.terminated
            })),
    {
        match &mut self.slot {
            None => {},
            Some(rt) => rt.terminate(),
        }
    }
}

/// Law: hot-swap atomicity.  Whatever the supervisor's slot holds is a
/// complete graph: frozen, validated, running.  A call never observes
/// anything half built: it reaches such a graph or is refused.
pub proof fn lemma_swap_atomicity(s: Supervisor)
    requires
        s.wf(),
    ensures
        (match s.slot {
            Some(rt) => rt.wf() && rt.graph.frozen && rt.graph.valid() && !rt.terminated,
            None => true,
        }),
{
}

} // verus!
