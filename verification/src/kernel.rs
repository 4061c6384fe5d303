//! Block kinds and their port declarations.
//!
//! A block's kernel is the logic driven by its task: a work step over the
//! stream ports and a handler per incoming message port.  The runtime ships a
//! small set of built-in kernels; richer signal-processing blocks live
//! outside the core and are registered the same way.  Each constructor here
//! returns the block declaration a factory would: the kernel together with
//! its declared stream and message ports.

use vstd::prelude::*;
use crate::flowgraph::BlockDecl;
use crate::flowgraph::ElementKind;
use crate::flowgraph::MessagePortDecl;
use crate::flowgraph::StreamPortDecl;

verus! {

/// The built-in block kinds.
#[derive(Clone, Copy, PartialEq, Eq, Structural, Debug)]
pub enum Kernel {
    /// Produces a constant stream of zero samples on its one output.
    NullSource,
    /// Consumes and discards everything on its one input.
    NullSink,
    /// Forwards samples from its one input to its one output.
    Repeater,
    /// The flowgraph controller: forwards `tx` to `tx_out` and `rx` to
    /// `rx_out`, and turns a `control` message into a reload request.
    Controller,
    /// Replies to a `ping` message with the received value.
    Echo,
    /// Stores every message received on its `in` port.
    MessageSink,
}

/// A source block with one stream output named `output`.
pub fn null_source(name: String, element: ElementKind) -> (b: BlockDecl)
    ensures
        b.name == name,
        b.kind == Kernel::NullSource,
        b.stream_inputs@.len() == 0,
        b.stream_outputs@.len() == 1,
        b.stream_outputs@[0].name@ == "output"@,
        b.stream_outputs@[0].element == element,
        b.message_inputs@.len() == 0,
        b.message_outputs@.len() == 0,
{
    BlockDecl {
        name,
        kind: Kernel::NullSource,
        stream_inputs: Vec::new(),
        stream_outputs: vec![StreamPortDecl { name: "output".to_owned(), element }],
        message_inputs: Vec::new(),
        message_outputs: Vec::new(),
    }
}

/// A sink block with one stream input named `input`.
pub fn null_sink(name: String, element: ElementKind) -> (b: BlockDecl)
    ensures
        b.name == name,
        b.kind == Kernel::NullSink,
        b.stream_inputs@.len() == 1,
        b.stream_inputs@[0].name@ == "input"@,
        b.stream_inputs@[0].element == element,
        b.stream_outputs@.len() == 0,
        b.message_inputs@.len() == 0,
        b.message_outputs@.len() == 0,
{
    BlockDecl {
        name,
        kind: Kernel::NullSink,
        stream_inputs: vec![StreamPortDecl { name: "input".to_owned(), element }],
        stream_outputs: Vec::new(),
        message_inputs: Vec::new(),
        message_outputs: Vec::new(),
    }
}

/// A pass-through block with stream ports `input` and `output`.
pub fn repeater(name: String, element: ElementKind) -> (b: BlockDecl)
    ensures
        b.name == name,
        b.kind == Kernel::Repeater,
        b.stream_inputs@.len() == 1,
        b.stream_inputs@[0].name@ == "input"@,
        b.stream_inputs@[0].element == element,
        b.stream_outputs@.len() == 1,
        b.stream_outputs@[0].name@ == "output"@,
        b.stream_outputs@[0].element == element,
        b.message_inputs@.len() == 0,
        b.message_outputs@.len() == 0,
{
    BlockDecl {
        name,
        kind: Kernel::Repeater,
        stream_inputs: vec![StreamPortDecl { name: "input".to_owned(), element }],
        stream_outputs: vec![StreamPortDecl { name: "output".to_owned(), element }],
        message_inputs: Vec::new(),
        message_outputs: Vec::new(),
    }
}

/// The port layout every controller block has: message inputs `control`,
/// `tx` and `rx`, message outputs `tx_out` and `rx_out`, no stream ports.
pub open spec fn controller_shape(b: BlockDecl) -> bool {
    &&& b.kind == Kernel::Controller
    &&& b.stream_inputs@.len() == 0
    &&& b.stream_outputs@.len() == 0
    &&& b.message_inputs@.len() == 3
    &&& b.message_inputs@[0].name@ == "control"@
    &&& b.message_inputs@[1].name@ == "tx"@
    &&& b.message_inputs@[2].name@ == "rx"@
    &&& b.message_outputs@.len() == 2
    &&& b.message_outputs@[0].name@ == "tx_out"@
    &&& b.message_outputs@[1].name@ == "rx_out"@
}

/// The flowgraph controller block: message inputs `control`, `tx` and `rx`,
/// message outputs `tx_out` and `rx_out`.
pub fn controller_block(name: String) -> (b: BlockDecl)
    ensures
        b.name == name,
        b.kind == Kernel::Controller,
        controller_shape(b),
        b.stream_inputs@.len() == 0,
        b.stream_outputs@.len() == 0,
        b.message_inputs@.len() == 3,
        b.message_inputs@[0].name@ == "control"@,
        b.message_inputs@[1].name@ == "tx"@,
        b.message_inputs@[2].name@ == "rx"@,
        b.message_outputs@.len() == 2,
        b.message_outputs@[0].name@ == "tx_out"@,
        b.message_outputs@[1].name@ == "rx_out"@,
{
    BlockDecl {
        name,
        kind: Kernel::Controller,
        stream_inputs: Vec::new(),
        stream_outputs: Vec::new(),
        message_inputs: vec![
            MessagePortDecl { name: "control".to_owned() },
            MessagePortDecl { name: "tx".to_owned() },
            MessagePortDecl { name: "rx".to_owned() },
        ],
        message_outputs: vec![
            MessagePortDecl { name: "tx_out".to_owned() },
            MessagePortDecl { name: "rx_out".to_owned() },
        ],
    }
}

/// A block whose `ping` handler replies with the value it received.
pub fn echo_block(name: String) -> (b: BlockDecl)
    ensures
        b.name == name,
        b.kind == Kernel::Echo,
        b.stream_inputs@.len() == 0,
        b.stream_outputs@.len() == 0,
        b.message_inputs@.len() == 1,
        b.message_inputs@[0].name@ == "ping"@,
        b.message_outputs@.len() == 0,
{
    BlockDecl {
        name,
        kind: Kernel::Echo,
        stream_inputs: Vec::new(),
        stream_outputs: Vec::new(),
        message_inputs: vec![MessagePortDecl { name: "ping".to_owned() }],
        message_outputs: Vec::new(),
    }
}

/// A block that stores every message received on its `in` port.
pub fn message_sink_block(name: String) -> (b: BlockDecl)
    ensures
        b.name == name,
        b.kind == Kernel::MessageSink,
        b.stream_inputs@.len() == 0,
        b.stream_outputs@.len() == 0,
        b.message_inputs@.len() == 1,
        b.message_inputs@[0].name@ == "in"@,
        b.message_outputs@.len() == 0,
{
    BlockDecl {
        name,
        kind: Kernel::MessageSink,
        stream_inputs: Vec::new(),
        stream_outputs: Vec::new(),
        message_inputs: vec![MessagePortDecl { name: "in".to_owned() }],
        message_outputs: Vec::new(),
    }
}

} // verus!
