//! Flowgraph construction and freeze-time validation.
//!
//! A flowgraph is built mutably: blocks are added, stream ports and message
//! ports are wired.  `start` validates the topology and freezes it; after a
//! successful `start` every further mutation is refused, so no running graph
//! ever observes a topology change.
//!
//! Block identifiers are dense indices into the block table, so they are
//! contiguous from zero by construction; validation reserves index zero for
//! the flowgraph controller whenever one is present.

use vstd::prelude::*;
use crate::kernel::Kernel;

verus! {

/// The element type carried by a stream port.  The runtime core never
/// computes on samples, so the kind is a wiring tag: connections are checked
/// against it, and samples travel as opaque machine words.
#[derive(Clone, Copy, PartialEq, Eq, Structural, Debug)]
pub enum ElementKind {
    U8,
    U32,
    F32,
    Complex32,
}

/// A named, typed stream endpoint declared by a block.
pub struct StreamPortDecl {
    pub name: String,
    pub element: ElementKind,
}

/// A named message endpoint declared by a block.
pub struct MessagePortDecl {
    pub name: String,
}

/// A block as declared: its kernel and its ports.  Its identifier is its
/// index in the flowgraph's block table.
pub struct BlockDecl {
    pub name: String,
    pub kind: Kernel,
    pub stream_inputs: Vec<StreamPortDecl>,
    pub stream_outputs: Vec<StreamPortDecl>,
    pub message_inputs: Vec<MessagePortDecl>,
    pub message_outputs: Vec<MessagePortDecl>,
}

/// A stream connection: producer output port to consumer input port.
#[derive(Clone, Copy, PartialEq, Eq, Structural, Debug)]
pub struct StreamEdge {
    pub src_block: usize,
    pub src_port: usize,
    pub dst_block: usize,
    pub dst_port: usize,
}

/// A message connection: producer output port to consumer input port.
#[derive(Clone, Copy, PartialEq, Eq, Structural, Debug)]
pub struct MessageEdge {
    pub src_block: usize,
    pub src_port: usize,
    pub dst_block: usize,
    pub dst_port: usize,
}

/// Why a build operation or `start` was refused.
#[derive(Debug)]
pub enum FgError {
    /// The graph is frozen: it has been started.
    Frozen,
    /// No block with this identifier.
    UnknownBlock { block: usize },
    /// The named port does not exist on the block.
    UnknownPort { block: usize, port: String },
    /// The stream input port already has a producer.
    InputConnected { block: usize, port_index: usize },
    /// A stream edge connects ports of different element kinds; both
    /// endpoints are named.
    TypeMismatch {
        src_block: usize,
        src_port: String,
        dst_block: usize,
        dst_port: String,
        src_element: ElementKind,
        dst_element: ElementKind,
    },
    /// A stream input port has no producer.
    InputNotConnected { block: usize, port_index: usize },
    /// A controller block sits at a nonzero identifier.
    ControllerNotFirst { block: usize },
}

/// The mutable-then-frozen graph of blocks and edges.
pub struct Flowgraph {
    pub blocks: Vec<BlockDecl>,
    pub stream_edges: Vec<StreamEdge>,
    pub message_edges: Vec<MessageEdge>,
    pub frozen: bool,
}

impl Flowgraph {
    /// Every edge points at existing blocks and ports.
    pub open spec fn edges_wf(self) -> bool {
        &&& forall|k: int| 0 <= k < self.stream_edges@.len() ==> {
            let e = #[trigger] self.stream_edges@[k];
            &&& e.src_block < self.blocks@.len()
            &&& e.src_port < self.blocks@[e.src_block as int].stream_outputs@.len()
            &&& e.dst_block < self.blocks@.len()
            &&& e.dst_port < self.blocks@[e.dst_block as int].stream_inputs@.len()
        }
        &&& forall|k: int| 0 <= k < self.message_edges@.len() ==> {
            let e = #[trigger] self.message_edges@[k];
            &&& e.src_block < self.blocks@.len()
            &&& e.src_port < self.blocks@[e.src_block as int].message_outputs@.len()
            &&& e.dst_block < self.blocks@.len()
            &&& e.dst_port < self.blocks@[e.dst_block as int].message_inputs@.len()
        }
    }

    /// No stream input port has two producers.
    pub open spec fn inputs_unique(self) -> bool {
        forall|j: int, k: int|
            0 <= j < k < self.stream_edges@.len() ==> !(#[trigger] self.stream_edges@[j].dst_block
                == #[trigger] self.stream_edges@[k].dst_block
                && self.stream_edges@[j].dst_port == self.stream_edges@[k].dst_port)
    }

    /// The construction invariant: established empty, preserved by every
    /// build operation.
    pub open spec fn wf(self) -> bool {
        self.edges_wf() && self.inputs_unique()
    }

    /// The element kinds at the two ends of a stream edge.
    pub open spec fn edge_elements(self, k: int) -> (ElementKind, ElementKind) {
        let e = self.stream_edges@[k];
        (
            self.blocks@[e.src_block as int].stream_outputs@[e.src_port as int].element,
            self.blocks@[e.dst_block as int].stream_inputs@[e.dst_port as int].element,
        )
    }

    /// A stream edge whose endpoints disagree on the element kind.
    pub open spec fn mismatch_at(self, k: int) -> bool {
        self.edge_elements(k).0 != self.edge_elements(k).1
    }

    /// Every stream edge connects ports of equal element kinds.
    pub open spec fn types_match(self) -> bool {
        forall|k: int| 0 <= k < self.stream_edges@.len() ==> !(#[trigger] self.mismatch_at(k))
    }

    /// The given stream input port has a producer.
    pub open spec fn input_connected(self, b: int, p: int) -> bool {
        exists|k: int|
            0 <= k < self.stream_edges@.len() && (#[trigger] self.stream_edges@[k]).dst_block == b
                && self.stream_edges@[k].dst_port == p
    }

    /// Every stream input port of every block has a producer.
    pub open spec fn inputs_connected(self) -> bool {
        forall|b: int, p: int|
            0 <= b < self.blocks@.len() && 0 <= p < self.blocks@[b].stream_inputs@.len()
                ==> #[trigger] self.input_connected(b, p)
    }

    /// A controller block, when present, sits at identifier zero.
    pub open spec fn controller_first(self) -> bool {
        forall|b: int|
            0 <= b < self.blocks@.len() && (#[trigger] self.blocks@[b]).kind == Kernel::Controller
                ==> b == 0
    }

    /// A topology that `start` accepts.
    pub open spec fn valid(self) -> bool {
        self.wf() && self.types_match() && self.inputs_connected() && self.controller_first()
    }

    /// An empty, mutable flowgraph.
    pub fn new() -> (fg: Flowgraph)
        ensures
            fg.wf(),
            !fg.frozen,
            fg.blocks@.len() == 0,
            fg.stream_edges@.len() == 0,
            fg.message_edges@.len() == 0,
    {
        Flowgraph {
            blocks: Vec::new(),
            stream_edges: Vec::new(),
            message_edges: Vec::new(),
            frozen: false,
        }
    }

    /// Adds a block and returns its identifier: the next dense index.  After
    /// `start`, fails without touching the graph.
    pub fn add_block(&mut self, block: BlockDecl) -> (r: Result<usize, FgError>)
        requires
            old(self).wf(),
        ensures
            final(self).wf(),
            old(self).frozen ==> (r matches Err(FgError::Frozen)) && *final(self) == *old(self),
            !old(self).frozen ==> {
                &&& (r matches Ok(id) && id == old(self).blocks@.len())
                &&& final(self).blocks@ == old(self).blocks@.push(block)
                &&& final(self).stream_edges == old(self).stream_edges
                &&& final(self).message_edges == old(self).message_edges
                &&& !final(self).frozen
            },
    {
        if self.frozen {
            return Err(FgError::Frozen);
        }
        let id = self.blocks.len();
        self.blocks.push(block);
        Ok(id)
    }

    /// Connects a stream output to a stream input, both named.  Fails after
    /// `start`, on unknown blocks or ports, and on an input that already has
    /// a producer; failure leaves the graph untouched.
    pub fn connect_stream(
        &mut self,
        src_block: usize,
        src_port: &String,
        dst_block: usize,
        dst_port: &String,
    ) -> (r: Result<(), FgError>)
        requires
            old(self).wf(),
        ensures
            final(self).wf(),
            r is Err ==> *final(self) == *old(self),
            old(self).frozen ==> r matches Err(FgError::Frozen),
            (r is Ok) == (!old(self).frozen && src_block < old(self).blocks@.len() && dst_block
                < old(self).blocks@.len() && (exists|p: int|
                0 <= p < old(self).blocks@[src_block as int].stream_outputs@.len() && (#[trigger] old(
                    self,
                ).blocks@[src_block as int].stream_outputs@[p]).name@ == src_port@) && (exists|p: int|
                0 <= p < old(self).blocks@[dst_block as int].stream_inputs@.len() && (#[trigger] old(
                    self,
                ).blocks@[dst_block as int].stream_inputs@[p]).name@ == dst_port@ && (forall|
                    q: int,
                |
                    0 <= q < p ==> old(self).blocks@[dst_block as int].stream_inputs@[q].name@
                        != dst_port@) && !old(self).input_connected(dst_block as int, p))),
            r is Ok ==> {
                &&& !old(self).frozen
                &&& final(self).blocks == old(self).blocks
                &&& final(self).message_edges == old(self).message_edges
                &&& final(self).frozen == old(self).frozen
                &&& final(self).stream_edges@.len() == old(self).stream_edges@.len() + 1
                &&& old(self).stream_edges@
                    == final(self).stream_edges@.take(old(self).stream_edges@.len() as int)
                &&& {
                    let e = final(self).stream_edges@.last();
                    &&& e.src_block == src_block
                    &&& e.dst_block == dst_block
                    &&& e.src_block < old(self).blocks@.len()
                    &&& e.dst_block < old(self).blocks@.len()
                    &&& e.src_port < old(self).blocks@[src_block as int].stream_outputs@.len()
                    &&& e.dst_port < old(self).blocks@[dst_block as int].stream_inputs@.len()
                    &&& old(self).blocks@[src_block as int].stream_outputs@[e.src_port as int]
                        .name@ == src_port@
                    &&& (forall|q: int|
                        0 <= q < e.src_port ==> (#[trigger] old(self).blocks@[
                            src_block as int].stream_outputs@[q]).name@ != src_port@)
                    &&& old(self).blocks@[dst_block as int].stream_inputs@[e.dst_port as int]
                        .name@ == dst_port@
                    &&& (forall|q: int|
                        0 <= q < e.dst_port ==> (#[trigger] old(self).blocks@[
                            dst_block as int].stream_inputs@[q]).name@ != dst_port@)
                    &&& !old(self).input_connected(dst_block as int, e.dst_port as int)
                }
            },
            !old(self).frozen && src_block >= old(self).blocks@.len() ==> (r matches Err(
                FgError::UnknownBlock { block },
            ) && block == src_block),
    {
        if self.frozen {
            return Err(FgError::Frozen);
        }
        if src_block >= self.blocks.len() {
            return Err(FgError::UnknownBlock { block: src_block });
        }
        if dst_block >= self.blocks.len() {
            return Err(FgError::UnknownBlock { block: dst_block });
        }
        let sp = match find_stream_port(&self.blocks[src_block].stream_outputs, src_port) {
            Some(p) => p,
            None => {
                return Err(FgError::UnknownPort { block: src_block, port: src_port.clone() });
            },
        };
        let dp = match find_stream_port(&self.blocks[dst_block].stream_inputs, dst_port) {
            Some(p) => p,
            None => {
                return Err(FgError::UnknownPort { block: dst_block, port: dst_port.clone() });
            },
        };
        let mut k: usize = 0;
        while k < self.stream_edges.len()
            invariant
                *self == *old(self),
                self.wf(),
                !self.frozen,
                src_block < self.blocks@.len(),
                dst_block < self.blocks@.len(),
                dp < self.blocks@[dst_block as int].stream_inputs@.len(),
                self.blocks@[dst_block as int].stream_inputs@[dp as int].name@ == dst_port@,
                forall|q: int|
                    0 <= q < dp ==> (#[trigger] self.blocks@[dst_block as int].stream_inputs@[
                        q]).name@ != dst_port@,
                sp < self.blocks@[src_block as int].stream_outputs@.len(),
                self.blocks@[src_block as int].stream_outputs@[sp as int].name@ == src_port@,
                k <= self.stream_edges@.len(),
                forall|j: int|
                    0 <= j < k ==> !((#[trigger] self.stream_edges@[j]).dst_block == dst_block
                        && self.stream_edges@[j].dst_port == dp),
            decreases self.stream_edges@.len() - k,
        {
            let e = self.stream_edges[k];
            if e.dst_block == dst_block && e.dst_port == dp {
                proof {
                    assert(old(self).input_connected(dst_block as int, dp as int));
                }
                return Err(FgError::InputConnected { block: dst_block, port_index: dp });
            }
            k = k + 1;
        }
        self.stream_edges.push(
            StreamEdge { src_block, src_port: sp, dst_block, dst_port: dp },
        );
        proof {
            assert(self.stream_edges@.take(self.stream_edges@.len() - 1)
                =~= old(self).stream_edges@);
        }
        Ok(())
    }

    /// Connects a message output to a message input, both named.  Fails
    /// after `start` and on unknown blocks or ports; failure leaves the
    /// graph untouched.  Message inputs may have many producers.
    pub fn connect_message(
        &mut self,
        src_block: usize,
        src_port: &String,
        dst_block: usize,
        dst_port: &String,
    ) -> (r: Result<(), FgError>)
        requires
            old(self).wf(),
        ensures
            final(self).wf(),
            r is Err ==> *final(self) == *old(self),
            old(self).frozen ==> r matches Err(FgError::Frozen),
            (r is Ok) == (!old(self).frozen && src_block < old(self).blocks@.len() && dst_block
                < old(self).blocks@.len() && (exists|p: int|
                0 <= p < old(self).blocks@[src_block as int].message_outputs@.len() && (#[trigger] old(
                    self,
                ).blocks@[src_block as int].message_outputs@[p]).name@ == src_port@) && (exists|
                p: int,
            |
                0 <= p < old(self).blocks@[dst_block as int].message_inputs@.len() && (#[trigger] old(
                    self,
                ).blocks@[dst_block as int].message_inputs@[p]).name@ == dst_port@)),
            r is Ok ==> {
                &&& !old(self).frozen
                &&& final(self).blocks == old(self).blocks
                &&& final(self).stream_edges == old(self).stream_edges
                &&& final(self).frozen == old(self).frozen
                &&& final(self).message_edges@.len() == old(self).message_edges@.len() + 1
                &&& old(self).message_edges@
                    == final(self).message_edges@.take(old(self).message_edges@.len() as int)
                &&& {
                    let e = final(self).message_edges@.last();
                    &&& e.src_block == src_block
                    &&& e.dst_block == dst_block
                    &&& e.src_block < old(self).blocks@.len()
                    &&& e.dst_block < old(self).blocks@.len()
                    &&& e.src_port < old(self).blocks@[src_block as int].message_outputs@.len()
                    &&& e.dst_port < old(self).blocks@[dst_block as int].message_inputs@.len()
                    &&& old(self).blocks@[src_block as int].message_outputs@[e.src_port as int]
                        .name@ == src_port@
                    &&& (forall|q: int|
                        0 <= q < e.src_port ==> (#[trigger] old(self).blocks@[
                            src_block as int].message_outputs@[q]).name@ != src_port@)
                    &&& old(self).blocks@[dst_block as int].message_inputs@[e.dst_port as int]
                        .name@ == dst_port@
                    &&& (forall|q: int|
                        0 <= q < e.dst_port ==> (#[trigger] old(self).blocks@[
                            dst_block as int].message_inputs@[q]).name@ != dst_port@)
                }
            },
    {
        if self.frozen {
            return Err(FgError::Frozen);
        }
        if src_block >= self.blocks.len() {
            return Err(FgError::UnknownBlock { block: src_block });
        }
        if dst_block >= self.blocks.len() {
            return Err(FgError::UnknownBlock { block: dst_block });
        }
        let sp = match find_message_port(&self.blocks[src_block].message_outputs, src_port) {
            Some(p) => p,
            None => {
                return Err(FgError::UnknownPort { block: src_block, port: src_port.clone() });
            },
        };
        let dp = match find_message_port(&self.blocks[dst_block].message_inputs, dst_port) {
            Some(p) => p,
            None => {
                return Err(FgError::UnknownPort { block: dst_block, port: dst_port.clone() });
            },
        };
        self.message_edges.push(
            MessageEdge { src_block, src_port: sp, dst_block, dst_port: dp },
        );
        proof {
            assert(self.message_edges@.take(self.message_edges@.len() - 1)
                =~= old(self).message_edges@);
        }
        Ok(())
    }

    /// Validates the topology and freezes it.  On success the graph is
    /// frozen and unchanged otherwise; on failure nothing changes.  A stream
    /// edge with unequal element kinds is reported first, naming both
    /// endpoints; then an unconnected stream input; then a controller block
    /// off identifier zero.
    pub fn start(&mut self) -> (r: Result<(), FgError>)
        requires
            old(self).wf(),
        ensures
            final(self).wf(),
            old(self).frozen ==> (r matches Err(FgError::Frozen)) && *final(self) == *old(self),
            !old(self).frozen ==> {
                &&& (r is Ok <==> old(self).valid())
                &&& (r is Ok ==> {
                    &&& final(self).blocks == old(self).blocks
                    &&& final(self).stream_edges == old(self).stream_edges
                    &&& final(self).message_edges == old(self).message_edges
                    &&& final(self).frozen
                    &&& final(self).valid()
                })
                &&& (r is Err ==> *final(self) == *old(self))
                &&& ((exists|k: int|
                    0 <= k < old(self).stream_edges@.len() && old(self).mismatch_at(k)) ==> (
                match r {
                    Err(FgError::TypeMismatch {
                        src_block,
                        src_port,
                        dst_block,
                        dst_port,
                        src_element,
                        dst_element,
                    }) => exists|k: int|
                        {
                            let e = #[trigger] old(self).stream_edges@[k];
                            &&& 0 <= k < old(self).stream_edges@.len()
                            &&& old(self).mismatch_at(k)
                            &&& src_block == e.src_block
                            &&& dst_block == e.dst_block
                            &&& src_port@ == old(self).blocks@[e.src_block as int]
                                .stream_outputs@[e.src_port as int].name@
                            &&& dst_port@ == old(self).blocks@[e.dst_block as int]
                                .stream_inputs@[e.dst_port as int].name@
                            &&& src_element == old(self).edge_elements(k).0
                            &&& dst_element == old(self).edge_elements(k).1
                        },
                    _ => false,
                }))
                &&& (match r {
                    Err(FgError::InputNotConnected { block, port_index }) => {
                        &&& old(self).types_match()
                        &&& block < old(self).blocks@.len()
                        &&& port_index < old(self).blocks@[block as int].stream_inputs@.len()
                        &&& !old(self).input_connected(block as int, port_index as int)
                    },
                    _ => true,
                })
                &&& (match r {
                    Err(FgError::ControllerNotFirst { block }) => {
                        &&& old(self).types_match()
                        &&& old(self).inputs_connected()
                        &&& 0 < block < old(self).blocks@.len()
                        &&& old(self).blocks@[block as int].kind == Kernel::Controller
                    },
                    _ => true,
                })
            },
    {
        if self.frozen {
            return Err(FgError::Frozen);
        }
        let mut k: usize = 0;
        while k < self.stream_edges.len()
            invariant
                *self == *old(self),
                !self.frozen,
                self.wf(),
                k <= self.stream_edges@.len(),
                forall|j: int| 0 <= j < k ==> !(#[trigger] self.mismatch_at(j)),
            decreases self.stream_edges@.len() - k,
        {
            let e = self.stream_edges[k];
            let se = self.blocks[e.src_block].stream_outputs[e.src_port].element;
            let de = self.blocks[e.dst_block].stream_inputs[e.dst_port].element;
            if se != de {
                let sp = self.blocks[e.src_block].stream_outputs[e.src_port].name.clone();
                let dp = self.blocks[e.dst_block].stream_inputs[e.dst_port].name.clone();
                proof {
                    let ghost ee = old(self).stream_edges@[k as int];
                    assert(self.mismatch_at(k as int));
                    assert(old(self).mismatch_at(k as int));
                    assert(ee.src_block == e.src_block && ee.dst_block == e.dst_block);
                    assert(old(self).edge_elements(k as int).0 == se);
                    assert(old(self).edge_elements(k as int).1 == de);
                    assert(!old(self).types_match());
                }
                return Err(FgError::TypeMismatch {
                    src_block: e.src_block,
                    src_port: sp,
                    dst_block: e.dst_block,
                    dst_port: dp,
                    src_element: se,
                    dst_element: de,
                });
            }
            k = k + 1;
        }
        let mut b: usize = 0;
        while b < self.blocks.len()
            invariant
                *self == *old(self),
                !self.frozen,
                self.wf(),
                self.types_match(),
                b <= self.blocks@.len(),
                forall|bb: int, p: int|
                    0 <= bb < b && 0 <= p < self.blocks@[bb].stream_inputs@.len()
                        ==> #[trigger] self.input_connected(bb, p),
            decreases self.blocks@.len() - b,
        {
            let mut p: usize = 0;
            while p < self.blocks[b].stream_inputs.len()
                invariant
                    *self == *old(self),
                    !self.frozen,
                    self.wf(),
                    self.types_match(),
                    b < self.blocks@.len(),
                    p <= self.blocks@[b as int].stream_inputs@.len(),
                    forall|bb: int, pp: int|
                        0 <= bb < b && 0 <= pp < self.blocks@[bb].stream_inputs@.len()
                            ==> #[trigger] self.input_connected(bb, pp),
                    forall|pp: int|
                        0 <= pp < p ==> #[trigger] self.input_connected(b as int, pp),
                decreases self.blocks@[b as int].stream_inputs@.len() - p,
            {
                let mut k2: usize = 0;
                let mut found: bool = false;
                while k2 < self.stream_edges.len()
                    invariant
                        k2 <= self.stream_edges@.len(),
                        found ==> self.input_connected(b as int, p as int),
                        !found ==> forall|j: int|
                            0 <= j < k2 ==> !((#[trigger] self.stream_edges@[j]).dst_block
                                == b && self.stream_edges@[j].dst_port == p),
                    decreases self.stream_edges@.len() - k2,
                {
                    let e = self.stream_edges[k2];
                    if e.dst_block == b && e.dst_port == p {
                        found = true;
                    }
                    k2 = k2 + 1;
                }
                if !found {
                    proof {
                        assert(!self.input_connected(b as int, p as int));
                        assert(!old(self).inputs_connected());
                    }
                    return Err(FgError::InputNotConnected { block: b, port_index: p });
                }
                p = p + 1;
            }
            b = b + 1;
        }
        let mut b2: usize = 1;
        while b2 < self.blocks.len()
            invariant
                *self == *old(self),
                !self.frozen,
                self.wf(),
                self.types_match(),
                self.inputs_connected(),
                1 <= b2,
                self.blocks@.len() > 0 ==> b2 <= self.blocks@.len(),
                forall|bb: int|
                    1 <= bb < b2 ==> (#[trigger] self.blocks@[bb]).kind != Kernel::Controller,
            decreases self.blocks@.len() - b2,
        {
            if matches!(self.blocks[b2].kind, Kernel::Controller) {
                proof {
                    assert(old(self).blocks@[b2 as int].kind == Kernel::Controller);
                    assert(!old(self).controller_first());
                }
                return Err(FgError::ControllerNotFirst { block: b2 });
            }
            b2 = b2 + 1;
        }
        self.frozen = true;
        proof {
            assert forall|kk: int|
                0 <= kk < self.stream_edges@.len() implies !(#[trigger] self.mismatch_at(kk)) by {
                assert(!old(self).mismatch_at(kk));
            }
            assert forall|bb: int, pp: int|
                0 <= bb < self.blocks@.len() && 0 <= pp < self.blocks@[bb].stream_inputs@.len()
                implies #[trigger] self.input_connected(bb, pp) by {
                assert(old(self).input_connected(bb, pp));
                let w = choose|kk: int|
                    0 <= kk < old(self).stream_edges@.len() && (#[trigger] old(
                        self,
                    ).stream_edges@[kk]).dst_block == bb && old(self).stream_edges@[kk].dst_port
                        == pp;
                assert(self.stream_edges@[w].dst_block == bb && self.stream_edges@[w].dst_port
                    == pp);
            }
            assert(self.valid());
        }
        Ok(())
    }
}

/// The index of the first stream port with the given name.
pub fn find_stream_port(ports: &Vec<StreamPortDecl>, name: &String) -> (r: Option<usize>)
    ensures
        (match r {
            Some(p) => p < ports@.len() && ports@[p as int].name@ == name@ && (forall|k: int|
                0 <= k < p ==> (#[trigger] ports@[k]).name@ != name@),
            None => forall|k: int| 0 <= k < ports@.len() ==> (#[trigger] ports@[k]).name@ != name@,
        }),
{
    let mut k: usize = 0;
    while k < ports.len()
        invariant
            k <= ports@.len(),
            forall|j: int| 0 <= j < k ==> (#[trigger] ports@[j]).name@ != name@,
        decreases ports@.len() - k,
    {
        if ports[k].name == *name {
            return Some(k);
        }
        k = k + 1;
    }
    None
}

/// The index of the first message port with the given name.
pub fn find_message_port(ports: &Vec<MessagePortDecl>, name: &String) -> (r: Option<usize>)
    ensures
        (match r {
            Some(p) => p < ports@.len() && ports@[p as int].name@ == name@ && (forall|k: int|
                0 <= k < p ==> (#[trigger] ports@[k]).name@ != name@),
            None => forall|k: int| 0 <= k < ports@.len() ==> (#[trigger] ports@[k]).name@ != name@,
        }),
{
    let mut k: usize = 0;
    while k < ports.len()
        invariant
            k <= ports@.len(),
            forall|j: int| 0 <= j < k ==> (#[trigger] ports@[j]).name@ != name@,
        decreases ports@.len() - k,
    {
        if ports[k].name == *name {
            return Some(k);
        }
        k = k + 1;
    }
    None
}

} // verus!
