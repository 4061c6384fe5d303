//! The declarative loader and the block registry.
//!
//! A parsed configuration lists blocks, stream connections and message
//! connections, an optional guard per entry, and the periodic-sender tasks
//! of its runtime section.  The loader evaluates the guards against the
//! preset feature conditions, instantiates each remaining block through the
//! registry, wires the connections with the documented port defaults, and
//! returns the flowgraph together with the name-to-identifier map and the
//! runtime section.  Controller blocks are instantiated first, so a
//! controller, when present, always receives identifier zero.

use vstd::prelude::*;
use crate::flowgraph::BlockDecl;
use crate::flowgraph::ElementKind;
use crate::flowgraph::FgError;
use crate::flowgraph::Flowgraph;
use crate::flowgraph::MessageEdge;
use crate::flowgraph::StreamEdge;
use crate::kernel::Kernel;
use crate::kernel::controller_shape;
use crate::kernel::controller_block;
use crate::kernel::echo_block;
use crate::kernel::message_sink_block;
use crate::kernel::null_sink;
use crate::kernel::null_source;
use crate::kernel::repeater;
use crate::pmt::Pmt;

verus! {

/// One block parameter: a name and a dynamically typed value.
pub struct ParamEntry {
    pub name: String,
    pub value: Pmt,
}

/// One `blocks` entry of a configuration.
pub struct BlockEntry {
    pub name: String,
    pub type_key: String,
    pub dtype: Option<String>,
    pub params: Vec<ParamEntry>,
    pub condition: Option<String>,
}

/// One `connections` entry: the ports default to `output` and `input`.
pub struct ConnectionEntry {
    pub from: String,
    pub from_port: Option<String>,
    pub to: String,
    pub to_port: Option<String>,
    pub condition: Option<String>,
}

/// One `message_connections` entry: the destination port defaults to the
/// source port's name.
pub struct MessageConnectionEntry {
    pub from: String,
    pub from_port: String,
    pub to: String,
    pub to_port: Option<String>,
    pub condition: Option<String>,
}

/// One periodic-sender task of the `runtime` section.
pub struct AsyncTaskEntry {
    pub block: String,
    pub port: String,
    pub interval_ms: u64,
    pub message_pattern: String,
}

/// A parsed configuration.
pub struct ConfigDescription {
    pub blocks: Vec<BlockEntry>,
    pub connections: Vec<ConnectionEntry>,
    pub message_connections: Vec<MessageConnectionEntry>,
    pub runtime_tasks: Vec<AsyncTaskEntry>,
}

/// A block name bound to the identifier the loader assigned.
pub struct NameBinding {
    pub name: String,
    pub block: usize,
}

/// What the loader hands back beside the graph: the name map and the
/// runtime section, for the embedding to set up periodic senders.
pub struct LoaderContext {
    pub names: Vec<NameBinding>,
    pub runtime_tasks: Vec<AsyncTaskEntry>,
}

/// Why loading was refused.
#[derive(Debug)]
pub enum LoadError {
    /// The registry knows no such block type.
    UnknownBlockType { name: String, type_key: String },
    /// The element type of a generic block is not recognized.
    UnknownElementType { name: String },
    /// Two enabled blocks share one name.
    DuplicateBlockName { name: String },
    /// A connection endpoint names no enabled block.
    UnknownBlockName { name: String },
    /// Wiring was refused by the graph under construction.
    Graph { error: FgError },
}

/// Whether a guard holds under the preset features: no guard always holds,
/// `feature` holds when listed, `!feature` holds when not listed.
pub open spec fn spec_enabled(cond: Option<Seq<char>>, features: Seq<Seq<char>>) -> bool {
    match cond {
        None => true,
        Some(c) => if c.len() >= 1 && c[0] == '!' {
            !(exists|i: int| 0 <= i < features.len() && features[i] == c.skip(1))
        } else {
            exists|i: int| 0 <= i < features.len() && features[i] == c
        },
    }
}

/// The feature names, as sequences.
pub open spec fn feature_views(features: Seq<String>) -> Seq<Seq<char>> {
    Seq::new(features.len(), |i: int| features[i]@)
}

/// Evaluates an entry guard against the preset features.
pub fn eval_guard(cond: &Option<String>, features: &Vec<String>) -> (r: bool)
    ensures
        r == spec_enabled(
            (match cond {
                Some(c) => Some(c@),
                None => None,
            }),
            feature_views(features@),
        ),
{
    let c = match cond {
        None => {
            return true;
        },
        Some(c) => c,
    };
    let negated = c.as_str().unicode_len() >= 1 && c.as_str().get_char(0) == '!';
    let want = if negated {
        c.as_str().substring_char(1, c.as_str().unicode_len())
    } else {
        c.as_str()
    };
    let mut i: usize = 0;
    let mut found: bool = false;
    while i < features.len()
        invariant
            i <= features@.len(),
            found ==> exists|j: int| 0 <= j < features@.len() && features@[j]@ == want@,
            !found ==> forall|j: int| 0 <= j < i ==> (#[trigger] features@[j])@ != want@,
        decreases features@.len() - i,
    {
        if features[i] == want.to_owned() {
            found = true;
        }
        i = i + 1;
    }
    proof {
        assert forall|j: int| 0 <= j < features@.len() implies feature_views(features@)[j]
            == features@[j]@ by {}
        if negated {
            assert(want@ =~= c@.skip(1));
        }
        if found {
            let j = choose|j: int| 0 <= j < features@.len() && features@[j]@ == want@;
            assert(feature_views(features@)[j] == want@);
        } else {
            assert forall|j: int|
                0 <= j < feature_views(features@).len() implies feature_views(features@)[j]
                != want@ by {
                assert(features@[j]@ != want@);
            }
        }
    }
    if negated {
        !found
    } else {
        found
    }
}

/// The element kind a `dtype` string names.
pub fn element_kind_of(dtype: &String) -> (r: Option<ElementKind>)
    ensures
        dtype@ == "u8"@ ==> r == Some(ElementKind::U8),
        dtype@ == "u32"@ ==> r == Some(ElementKind::U32),
        dtype@ == "f32"@ ==> r == Some(ElementKind::F32),
        dtype@ == "Complex32"@ ==> r == Some(ElementKind::Complex32),
        (r is Some) == (dtype@ == "u8"@ || dtype@ == "u32"@ || dtype@ == "f32"@ || dtype@
            == "Complex32"@),
{
    proof {
        reveal_strlit("u8");
        reveal_strlit("u32");
        reveal_strlit("f32");
        reveal_strlit("Complex32");
        assert("u8"@.len() == 2);
        assert("u32"@.len() == 3);
        assert("f32"@.len() == 3);
        assert("Complex32"@.len() == 9);
        assert("u32"@[0] == 'u');
        assert("f32"@[0] == 'f');
    }
    if *dtype == "u8".to_owned() {
        Some(ElementKind::U8)
    } else if *dtype == "u32".to_owned() {
        Some(ElementKind::U32)
    } else if *dtype == "f32".to_owned() {
        Some(ElementKind::F32)
    } else if *dtype == "Complex32".to_owned() {
        Some(ElementKind::Complex32)
    } else {
        None
    }
}

/// A type key whose block is generic over the element kind.
pub open spec fn needs_dtype(key: Seq<char>) -> bool {
    key == "NullSource"@ || key == "NullSink"@ || key == "Repeater"@
}

/// The `dtype` string names exactly this element kind.
pub open spec fn dtype_names_kind(dtype: Option<String>, kind: ElementKind) -> bool {
    match dtype {
        Some(d) => (d@ == "u8"@ && kind == ElementKind::U8) || (d@ == "u32"@ && kind
            == ElementKind::U32) || (d@ == "f32"@ && kind == ElementKind::F32) || (d@
            == "Complex32"@ && kind == ElementKind::Complex32),
        None => false,
    }
}

/// A `dtype` entry naming an element kind the registry knows.
pub open spec fn dtype_known(dtype: Option<String>) -> bool {
    match dtype {
        Some(d) => d@ == "u8"@ || d@ == "u32"@ || d@ == "f32"@ || d@ == "Complex32"@,
        None => false,
    }
}

/// A block entry the registry can build: a known type key, with a known
/// element kind where the type is generic.
pub open spec fn entry_key_ok(e: BlockEntry) -> bool {
    known_type(e.type_key@) && (needs_dtype(e.type_key@) ==> dtype_known(e.dtype))
}

/// The stream output ports a type key declares.
pub open spec fn key_stream_output(key: Seq<char>, port: Seq<char>) -> bool {
    (key == "NullSource"@ || key == "Repeater"@) && port == "output"@
}

/// The stream input ports a type key declares.
pub open spec fn key_stream_input(key: Seq<char>, port: Seq<char>) -> bool {
    (key == "NullSink"@ || key == "Repeater"@) && port == "input"@
}

/// The message output ports a type key declares.
pub open spec fn key_message_output(key: Seq<char>, port: Seq<char>) -> bool {
    key == "FlowgraphController"@ && (port == "tx_out"@ || port == "rx_out"@)
}

/// The message input ports a type key declares.
pub open spec fn key_message_input(key: Seq<char>, port: Seq<char>) -> bool {
    ||| key == "FlowgraphController"@ && (port == "control"@ || port == "tx"@ || port == "rx"@)
    ||| key == "Echo"@ && port == "ping"@
    ||| key == "MessageSink"@ && port == "in"@
}

/// The block a configuration entry builds: the entry's name, the kind its
/// type key names, and exactly the ports the key declares, stream ports
/// carrying the element kind the entry's `dtype` names.
pub open spec fn block_of_entry(b: BlockDecl, e: BlockEntry) -> bool {
    &&& b.name@ == e.name@
    &&& (e.type_key@ == "NullSource"@ ==> b.kind == Kernel::NullSource
        && b.stream_inputs@.len() == 0 && b.stream_outputs@.len() == 1
        && b.stream_outputs@[0].name@ == "output"@ && dtype_names_kind(
        e.dtype,
        b.stream_outputs@[0].element,
    ) && b.message_inputs@.len() == 0 && b.message_outputs@.len() == 0)
    &&& (e.type_key@ == "NullSink"@ ==> b.kind == Kernel::NullSink && b.stream_inputs@.len() == 1
        && b.stream_inputs@[0].name@ == "input"@ && dtype_names_kind(
        e.dtype,
        b.stream_inputs@[0].element,
    ) && b.stream_outputs@.len() == 0 && b.message_inputs@.len() == 0
        && b.message_outputs@.len() == 0)
    &&& (e.type_key@ == "Repeater"@ ==> b.kind == Kernel::Repeater && b.stream_inputs@.len() == 1
        && b.stream_inputs@[0].name@ == "input"@ && b.stream_outputs@.len() == 1
        && b.stream_outputs@[0].name@ == "output"@ && dtype_names_kind(
        e.dtype,
        b.stream_inputs@[0].element,
    ) && b.stream_outputs@[0].element == b.stream_inputs@[0].element
        && b.message_inputs@.len() == 0 && b.message_outputs@.len() == 0)
    &&& (e.type_key@ == "FlowgraphController"@ ==> controller_shape(b))
    &&& (e.type_key@ == "Echo"@ ==> b.kind == Kernel::Echo && b.stream_inputs@.len() == 0
        && b.stream_outputs@.len() == 0 && b.message_inputs@.len() == 1
        && b.message_inputs@[0].name@ == "ping"@ && b.message_outputs@.len() == 0)
    &&& (e.type_key@ == "MessageSink"@ ==> b.kind == Kernel::MessageSink
        && b.stream_inputs@.len() == 0 && b.stream_outputs@.len() == 0
        && b.message_inputs@.len() == 1 && b.message_inputs@[0].name@ == "in"@
        && b.message_outputs@.len() == 0)
}

/// A type key the registry knows.
pub open spec fn known_type(key: Seq<char>) -> bool {
    ||| key == "NullSource"@
    ||| key == "NullSink"@
    ||| key == "Repeater"@
    ||| key == "FlowgraphController"@
    ||| key == "Echo"@
    ||| key == "MessageSink"@
}

/// The registry: builds the block a configuration entry asks for.  The
/// stream block types take their element kind from `dtype`; an unknown type
/// key or element kind is a hard error.
pub fn instantiate(entry: &BlockEntry) -> (r: Result<BlockDecl, LoadError>)
    ensures
        (r is Ok) == (known_type(entry.type_key@) && (needs_dtype(entry.type_key@)
            ==> dtype_known(entry.dtype))),
        r matches Ok(b) ==> block_of_entry(b, *entry) && (b.kind == Kernel::Controller
            ==> entry.type_key@ == "FlowgraphController"@),
        r matches Err(LoadError::UnknownBlockType { type_key, .. }) ==> !known_type(
            entry.type_key@,
        ) && type_key@ == entry.type_key@,
        r matches Err(LoadError::UnknownElementType { .. }) ==> needs_dtype(entry.type_key@)
            && !dtype_known(entry.dtype),
        r is Err ==> (r matches Err(LoadError::UnknownBlockType { .. })) || (r matches Err(
            LoadError::UnknownElementType { .. },
        )),
{
    proof {
        reveal_strlit("NullSource");
        reveal_strlit("NullSink");
        reveal_strlit("Repeater");
        reveal_strlit("FlowgraphController");
        reveal_strlit("Echo");
        reveal_strlit("MessageSink");
        assert("NullSource"@.len() == 10);
        assert("NullSink"@.len() == 8);
        assert("Repeater"@.len() == 8);
        assert("FlowgraphController"@.len() == 19);
        assert("Echo"@.len() == 4);
        assert("MessageSink"@.len() == 11);
        assert("NullSink"@[0] == 'N');
        assert("Repeater"@[0] == 'R');
    }
    if entry.type_key == "NullSource".to_owned() {
        match &entry.dtype {
            Some(d) => match element_kind_of(d) {
                Some(kind) => Ok(null_source(entry.name.clone(), kind)),
                None => Err(LoadError::UnknownElementType { name: entry.name.clone() }),
            },
            None => Err(LoadError::UnknownElementType { name: entry.name.clone() }),
        }
    } else if entry.type_key == "NullSink".to_owned() {
        match &entry.dtype {
            Some(d) => match element_kind_of(d) {
                Some(kind) => Ok(null_sink(entry.name.clone(), kind)),
                None => Err(LoadError::UnknownElementType { name: entry.name.clone() }),
            },
            None => Err(LoadError::UnknownElementType { name: entry.name.clone() }),
        }
    } else if entry.type_key == "Repeater".to_owned() {
        match &entry.dtype {
            Some(d) => match element_kind_of(d) {
                Some(kind) => Ok(repeater(entry.name.clone(), kind)),
                None => Err(LoadError::UnknownElementType { name: entry.name.clone() }),
            },
            None => Err(LoadError::UnknownElementType { name: entry.name.clone() }),
        }
    } else if entry.type_key == "FlowgraphController".to_owned() {
        Ok(controller_block(entry.name.clone()))
    } else if entry.type_key == "Echo".to_owned() {
        Ok(echo_block(entry.name.clone()))
    } else if entry.type_key == "MessageSink".to_owned() {
        Ok(message_sink_block(entry.name.clone()))
    } else {
        Err(LoadError::UnknownBlockType {
            name: entry.name.clone(),
            type_key: entry.type_key.clone(),
        })
    }
}

/// Looks a block name up in the loader's bindings.
pub fn resolve_name(names: &Vec<NameBinding>, name: &String) -> (r: Option<usize>)
    ensures
        (match r {
            Some(b) => exists|i: int|
                0 <= i < names@.len() && (#[trigger] names@[i]).name@ == name@
                    && names@[i].block == b,
            None => forall|i: int| 0 <= i < names@.len() ==> (#[trigger] names@[i]).name@ != name@,
        }),
{
    let mut i: usize = 0;
    while i < names.len()
        invariant
            i <= names@.len(),
            forall|j: int| 0 <= j < i ==> (#[trigger] names@[j]).name@ != name@,
        decreases names@.len() - i,
    {
        if names[i].name == *name {
            return Some(names[i].block);
        }
        i = i + 1;
    }
    None
}

} // verus!

// The loader itself.

verus! {

/// The guard text of a block entry, if any.
pub open spec fn cond_view(c: Option<String>) -> Option<Seq<char>> {
    match c {
        Some(s) => Some(s@),
        None => None,
    }
}

/// Whether a block entry survives guard evaluation.
pub open spec fn entry_enabled(e: BlockEntry, features: Seq<String>) -> bool {
    spec_enabled(cond_view(e.condition), feature_views(features))
}

/// Whether entry `q` is an enabled controller declaration.
pub open spec fn enabled_controller(cfg: ConfigDescription, features: Seq<String>, q: int) -> bool {
    &&& 0 <= q < cfg.blocks@.len()
    &&& entry_enabled(cfg.blocks@[q], features)
    &&& cfg.blocks@[q].type_key@ == "FlowgraphController"@
}

/// Whether a stream connection entry survives guard evaluation.
pub open spec fn conn_enabled(c: ConnectionEntry, features: Seq<String>) -> bool {
    spec_enabled(cond_view(c.condition), feature_views(features))
}

/// Whether a message connection entry survives guard evaluation.
pub open spec fn msg_conn_enabled(m: MessageConnectionEntry, features: Seq<String>) -> bool {
    spec_enabled(cond_view(m.condition), feature_views(features))
}

/// The effective source port of a stream connection: `output` when omitted.
pub open spec fn eff_from_port(c: ConnectionEntry) -> Seq<char> {
    match c.from_port {
        Some(p) => p@,
        None => "output"@,
    }
}

/// The effective destination port of a stream connection: `input` when
/// omitted.
pub open spec fn eff_to_port(c: ConnectionEntry) -> Seq<char> {
    match c.to_port {
        Some(p) => p@,
        None => "input"@,
    }
}

/// The effective destination port of a message connection: the source
/// port's own name when omitted.
pub open spec fn eff_msg_to_port(m: MessageConnectionEntry) -> Seq<char> {
    match m.to_port {
        Some(p) => p@,
        None => m.from_port@,
    }
}

/// An enabled block entry with the given name exists.
pub open spec fn enabled_entry_named(
    cfg: ConfigDescription,
    features: Seq<String>,
    name: Seq<char>,
) -> bool {
    exists|q: int|
        0 <= q < cfg.blocks@.len() && entry_enabled(#[trigger] cfg.blocks@[q], features)
            && cfg.blocks@[q].name@ == name
}

/// A stream connection entry that can be wired: both endpoints name
/// enabled blocks, and those blocks' types declare the effective ports.
pub open spec fn conn_wirable(cfg: ConfigDescription, features: Seq<String>, c: int) -> bool {
    let ce = cfg.connections@[c];
    &&& enabled_entry_named(cfg, features, ce.from@)
    &&& enabled_entry_named(cfg, features, ce.to@)
    &&& (forall|q: int|
        0 <= q < cfg.blocks@.len() && entry_enabled(#[trigger] cfg.blocks@[q], features)
            && cfg.blocks@[q].name@ == ce.from@ ==> key_stream_output(
            cfg.blocks@[q].type_key@,
            eff_from_port(ce),
        ))
    &&& (forall|q: int|
        0 <= q < cfg.blocks@.len() && entry_enabled(#[trigger] cfg.blocks@[q], features)
            && cfg.blocks@[q].name@ == ce.to@ ==> key_stream_input(
            cfg.blocks@[q].type_key@,
            eff_to_port(ce),
        ))
}

/// A message connection entry that can be wired.
pub open spec fn msg_conn_wirable(cfg: ConfigDescription, features: Seq<String>, c: int) -> bool {
    let me = cfg.message_connections@[c];
    &&& enabled_entry_named(cfg, features, me.from@)
    &&& enabled_entry_named(cfg, features, me.to@)
    &&& (forall|q: int|
        0 <= q < cfg.blocks@.len() && entry_enabled(#[trigger] cfg.blocks@[q], features)
            && cfg.blocks@[q].name@ == me.from@ ==> key_message_output(
            cfg.blocks@[q].type_key@,
            me.from_port@,
        ))
    &&& (forall|q: int|
        0 <= q < cfg.blocks@.len() && entry_enabled(#[trigger] cfg.blocks@[q], features)
            && cfg.blocks@[q].name@ == me.to@ ==> key_message_input(
            cfg.blocks@[q].type_key@,
            eff_msg_to_port(me),
        ))
}

/// Exactly when `load` succeeds: every enabled block entry is one the
/// registry can build, no two enabled entries share a name, and every
/// enabled connection names enabled blocks whose types declare the used
/// ports, with no stream input claimed twice.
#[verifier::opaque]
pub open spec fn config_wirable(cfg: ConfigDescription, features: Seq<String>) -> bool {
    &&& (forall|q: int|
        0 <= q < cfg.blocks@.len() && entry_enabled(#[trigger] cfg.blocks@[q], features)
            ==> entry_key_ok(cfg.blocks@[q]))
    &&& (forall|q1: int, q2: int|
        0 <= q1 < q2 < cfg.blocks@.len() && entry_enabled(#[trigger] cfg.blocks@[q1], features)
            && entry_enabled(#[trigger] cfg.blocks@[q2], features) ==> cfg.blocks@[q1].name@
            != cfg.blocks@[q2].name@)
    &&& (forall|c: int|
        0 <= c < cfg.connections@.len() && conn_enabled(#[trigger] cfg.connections@[c], features)
            ==> conn_wirable(cfg, features, c))
    &&& (forall|c1: int, c2: int|
        0 <= c1 < c2 < cfg.connections@.len() && conn_enabled(
            #[trigger] cfg.connections@[c1],
            features,
        ) && conn_enabled(#[trigger] cfg.connections@[c2], features) ==> !(
        cfg.connections@[c1].to@ == cfg.connections@[c2].to@ && eff_to_port(cfg.connections@[c1])
            == eff_to_port(cfg.connections@[c2])))
    &&& (forall|c: int|
        0 <= c < cfg.message_connections@.len() && msg_conn_enabled(
            #[trigger] cfg.message_connections@[c],
            features,
        ) ==> msg_conn_wirable(cfg, features, c))
}

/// A defective enabled block entry makes the configuration unwirable.
proof fn lemma_unwirable_entry(cfg: &ConfigDescription, features: Seq<String>, q: int)
    requires
        0 <= q < cfg.blocks@.len(),
        entry_enabled(cfg.blocks@[q], features),
        !entry_key_ok(cfg.blocks@[q]),
    ensures
        !config_wirable(*cfg, features),
{
    reveal(config_wirable);
}

/// Two enabled entries sharing a name make the configuration unwirable.
proof fn lemma_unwirable_duplicate(cfg: &ConfigDescription, features: Seq<String>, q1: int, q2: int)
    requires
        0 <= q1 < cfg.blocks@.len(),
        0 <= q2 < cfg.blocks@.len(),
        q1 != q2,
        entry_enabled(cfg.blocks@[q1], features),
        entry_enabled(cfg.blocks@[q2], features),
        cfg.blocks@[q1].name@ == cfg.blocks@[q2].name@,
    ensures
        !config_wirable(*cfg, features),
{
    reveal(config_wirable);
}

/// An enabled stream connection that cannot be wired makes the whole
/// configuration unwirable.
proof fn lemma_unwirable_conn(cfg: &ConfigDescription, features: Seq<String>, c: int)
    requires
        0 <= c < cfg.connections@.len(),
        conn_enabled(cfg.connections@[c], features),
        !conn_wirable(*cfg, features, c),
    ensures
        !config_wirable(*cfg, features),
{
    reveal(config_wirable);
}

/// Two enabled stream connections claiming one input make the configuration
/// unwirable.
proof fn lemma_unwirable_conflict(cfg: &ConfigDescription, features: Seq<String>, c1: int, c2: int)
    requires
        0 <= c1 < c2 < cfg.connections@.len(),
        conn_enabled(cfg.connections@[c1], features),
        conn_enabled(cfg.connections@[c2], features),
        cfg.connections@[c1].to@ == cfg.connections@[c2].to@,
        eff_to_port(cfg.connections@[c1]) == eff_to_port(cfg.connections@[c2]),
    ensures
        !config_wirable(*cfg, features),
{
    reveal(config_wirable);
}

/// An enabled message connection that cannot be wired makes the whole
/// configuration unwirable.
proof fn lemma_unwirable_msg(cfg: &ConfigDescription, features: Seq<String>, c: int)
    requires
        0 <= c < cfg.message_connections@.len(),
        msg_conn_enabled(cfg.message_connections@[c], features),
        !msg_conn_wirable(*cfg, features, c),
    ensures
        !config_wirable(*cfg, features),
{
    reveal(config_wirable);
}

/// A stream edge realizes a connection entry: the endpoint blocks carry the
/// entry's names and the ports carry the entry's effective port names.
pub open spec fn edge_matches_connection(fg: Flowgraph, e: StreamEdge, ce: ConnectionEntry) -> bool {
    &&& e.src_block < fg.blocks@.len()
    &&& e.dst_block < fg.blocks@.len()
    &&& fg.blocks@[e.src_block as int].name@ == ce.from@
    &&& fg.blocks@[e.dst_block as int].name@ == ce.to@
    &&& e.src_port < fg.blocks@[e.src_block as int].stream_outputs@.len()
    &&& fg.blocks@[e.src_block as int].stream_outputs@[e.src_port as int].name@ == eff_from_port(ce)
    &&& e.dst_port < fg.blocks@[e.dst_block as int].stream_inputs@.len()
    &&& fg.blocks@[e.dst_block as int].stream_inputs@[e.dst_port as int].name@ == eff_to_port(ce)
}

/// A message edge realizes a message connection entry.
pub open spec fn edge_matches_message_connection(
    fg: Flowgraph,
    e: MessageEdge,
    me: MessageConnectionEntry,
) -> bool {
    &&& e.src_block < fg.blocks@.len()
    &&& e.dst_block < fg.blocks@.len()
    &&& fg.blocks@[e.src_block as int].name@ == me.from@
    &&& fg.blocks@[e.dst_block as int].name@ == me.to@
    &&& e.src_port < fg.blocks@[e.src_block as int].message_outputs@.len()
    &&& fg.blocks@[e.src_block as int].message_outputs@[e.src_port as int].name@ == me.from_port@
    &&& e.dst_port < fg.blocks@[e.dst_block as int].message_inputs@.len()
    &&& fg.blocks@[e.dst_block as int].message_inputs@[e.dst_port as int].name@ == eff_msg_to_port(
        me,
    )
}

/// Within one built block, the ports a name can reach are exactly the ones
/// the entry's type key declares.
proof fn lemma_entry_ports(b: BlockDecl, e: BlockEntry, port: Seq<char>)
    requires
        block_of_entry(b, e),
        known_type(e.type_key@),
    ensures
        (exists|p: int|
            0 <= p < b.stream_outputs@.len() && (#[trigger] b.stream_outputs@[p]).name@ == port)
            <==> key_stream_output(e.type_key@, port),
        (exists|p: int|
            0 <= p < b.stream_inputs@.len() && (#[trigger] b.stream_inputs@[p]).name@ == port)
            <==> key_stream_input(e.type_key@, port),
        (exists|p: int|
            0 <= p < b.message_outputs@.len() && (#[trigger] b.message_outputs@[p]).name@ == port)
            <==> key_message_output(e.type_key@, port),
        (exists|p: int|
            0 <= p < b.message_inputs@.len() && (#[trigger] b.message_inputs@[p]).name@ == port)
            <==> key_message_input(e.type_key@, port),
{
    if e.type_key@ == "NullSource"@ || e.type_key@ == "Repeater"@ {
        if b.stream_outputs@[0].name@ == port {
            assert(exists|p: int|
                0 <= p < b.stream_outputs@.len() && (#[trigger] b.stream_outputs@[p]).name@
                    == port);
        }
    }
    if e.type_key@ == "NullSink"@ || e.type_key@ == "Repeater"@ {
        if b.stream_inputs@[0].name@ == port {
            assert(exists|p: int|
                0 <= p < b.stream_inputs@.len() && (#[trigger] b.stream_inputs@[p]).name@ == port);
        }
    }
    if e.type_key@ == "FlowgraphController"@ {
        if b.message_outputs@[0].name@ == port || b.message_outputs@[1].name@ == port {
            assert(exists|p: int|
                0 <= p < b.message_outputs@.len() && (#[trigger] b.message_outputs@[p]).name@
                    == port);
        }
        if b.message_inputs@[0].name@ == port || b.message_inputs@[1].name@ == port
            || b.message_inputs@[2].name@ == port {
            assert(exists|p: int|
                0 <= p < b.message_inputs@.len() && (#[trigger] b.message_inputs@[p]).name@
                    == port);
        }
    }
    if e.type_key@ == "Echo"@ || e.type_key@ == "MessageSink"@ {
        if b.message_inputs@[0].name@ == port {
            assert(exists|p: int|
                0 <= p < b.message_inputs@.len() && (#[trigger] b.message_inputs@[p]).name@
                    == port);
        }
    }
}

/// From the loader's provenance facts, the configuration is wirable.
#[verifier::rlimit(100)]
#[verifier::spinoff_prover]
proof fn lemma_load_wirable(
    cfg: &ConfigDescription,
    features: Seq<String>,
    fg: Flowgraph,
    names: Seq<NameBinding>,
    sources: Seq<int>,
    conn_sources: Seq<int>,
    msg_sources: Seq<int>,
)
    requires
        fg.wf(),
        names.len() == fg.blocks@.len(),
        sources.len() == fg.blocks@.len(),
        forall|j: int|
            0 <= j < names.len() ==> (#[trigger] names[j]).block == j && names[j].name@
                == fg.blocks@[j].name@,
        forall|j: int|
            0 <= j < sources.len() ==> ({
                let q = #[trigger] sources[j];
                &&& 0 <= q < cfg.blocks@.len()
                &&& entry_enabled(cfg.blocks@[q], features)
                &&& entry_key_ok(cfg.blocks@[q])
                &&& block_of_entry(fg.blocks@[j], cfg.blocks@[q])
            }),
        forall|j1: int, j2: int| 0 <= j1 < j2 < sources.len() ==> sources[j1] != sources[j2],
        forall|j1: int, j2: int|
            0 <= j1 < j2 < names.len() ==> (#[trigger] names[j1]).name@
                != (#[trigger] names[j2]).name@,
        forall|q: int|
            0 <= q < cfg.blocks@.len() && entry_enabled(#[trigger] cfg.blocks@[q], features)
                ==> exists|j: int| 0 <= j < sources.len() && sources[j] == q,
        conn_sources.len() == fg.stream_edges@.len(),
        forall|t: int|
            0 <= t < conn_sources.len() ==> ({
                let c = #[trigger] conn_sources[t];
                &&& 0 <= c < cfg.connections@.len()
                &&& conn_enabled(cfg.connections@[c], features)
                &&& edge_matches_connection(fg, fg.stream_edges@[t], cfg.connections@[c])
            }),
        forall|c: int|
            0 <= c < cfg.connections@.len() && conn_enabled(#[trigger] cfg.connections@[c], features)
                ==> exists|t: int| 0 <= t < conn_sources.len() && conn_sources[t] == c,
        forall|c: int|
            0 <= c < cfg.connections@.len() && conn_enabled(#[trigger] cfg.connections@[c], features)
                ==> conn_wirable(*cfg, features, c),
        msg_sources.len() == fg.message_edges@.len(),
        forall|t: int|
            0 <= t < msg_sources.len() ==> ({
                let c = #[trigger] msg_sources[t];
                &&& 0 <= c < cfg.message_connections@.len()
                &&& msg_conn_enabled(cfg.message_connections@[c], features)
                &&& edge_matches_message_connection(
                    fg,
                    fg.message_edges@[t],
                    cfg.message_connections@[c],
                )
            }),
        forall|c: int|
            0 <= c < cfg.message_connections@.len() && msg_conn_enabled(
                #[trigger] cfg.message_connections@[c],
                features,
            ) ==> exists|t: int| 0 <= t < msg_sources.len() && msg_sources[t] == c,
        forall|c: int|
            0 <= c < cfg.message_connections@.len() && msg_conn_enabled(
                #[trigger] cfg.message_connections@[c],
                features,
            ) ==> msg_conn_wirable(*cfg, features, c),
    ensures
        config_wirable(*cfg, features),
{
    reveal(config_wirable);
        assert forall|q1: int, q2: int|
            0 <= q1 < q2 < cfg.blocks@.len() && entry_enabled(#[trigger] cfg.blocks@[q1], features)
                && entry_enabled(#[trigger] cfg.blocks@[q2], features) implies cfg.blocks@[
            q1].name@ != cfg.blocks@[q2].name@ by {
            let j1 = choose|j: int| 0 <= j < sources.len() && sources[j] == q1;
            let j2 = choose|j: int| 0 <= j < sources.len() && sources[j] == q2;
            assert(j1 != j2);
            assert(names[j1].name@ == cfg.blocks@[q1].name@);
            assert(names[j2].name@ == cfg.blocks@[q2].name@);
        }
        assert forall|c1: int, c2: int|
            0 <= c1 < c2 < cfg.connections@.len() && conn_enabled(
                #[trigger] cfg.connections@[c1],
                features,
            ) && conn_enabled(#[trigger] cfg.connections@[c2], features) implies !(
        cfg.connections@[c1].to@ == cfg.connections@[c2].to@ && eff_to_port(cfg.connections@[c1])
            == eff_to_port(cfg.connections@[c2])) by {
            if cfg.connections@[c1].to@ == cfg.connections@[c2].to@ && eff_to_port(
                cfg.connections@[c1],
            ) == eff_to_port(cfg.connections@[c2]) {
                let t1 = choose|t: int| 0 <= t < conn_sources.len() && conn_sources[t] == c1;
                let t2 = choose|t: int| 0 <= t < conn_sources.len() && conn_sources[t] == c2;
                assert(t1 != t2);
                let e1 = fg.stream_edges@[t1];
                let e2 = fg.stream_edges@[t2];
                assert(fg.blocks@[e1.dst_block as int].name@ == fg.blocks@[
                    e2.dst_block as int].name@);
                if e1.dst_block != e2.dst_block {
                    assert(names[e1.dst_block as int].name@ == fg.blocks@[
                        e1.dst_block as int].name@);
                    assert(names[e2.dst_block as int].name@ == fg.blocks@[
                        e2.dst_block as int].name@);
                    assert(names[e1.dst_block as int].name@ != names[
                        e2.dst_block as int].name@);
                }
                assert(e1.dst_block == e2.dst_block);
                let qd = sources[e1.dst_block as int];
                assert(entry_enabled(cfg.blocks@[qd], features));
                assert(cfg.blocks@[qd].name@ == fg.blocks@[e1.dst_block as int].name@);
                assert(cfg.blocks@[qd].name@ == cfg.connections@[c1].to@);
                assert(key_stream_input(cfg.blocks@[qd].type_key@, eff_to_port(cfg.connections@[
                    c1])));
                assert(cfg.blocks@[qd].type_key@ == "NullSink"@ || cfg.blocks@[qd].type_key@
                    == "Repeater"@);
                assert(block_of_entry(fg.blocks@[e1.dst_block as int], cfg.blocks@[qd]));
                assert(fg.blocks@[e1.dst_block as int].stream_inputs@.len() == 1);
                assert(e1.dst_port == 0 && e2.dst_port == 0);
                if t1 < t2 {
                    assert(false);
                } else {
                    assert(false);
                }
            }
        }
        assert(config_wirable(*cfg, features));
    
}

/// Builds a flowgraph from a parsed configuration: guards are evaluated,
/// the remaining blocks are instantiated (controllers first, so a controller
/// always receives identifier zero), connections are wired with the
/// documented port defaults, and the name map and runtime section are handed
/// back for the embedding.  Loading succeeds exactly on wirable
/// configurations, and then every enabled entry stands in the graph: each
/// block entry as the block its type key declares, each connection as an
/// edge on the entries' names and effective ports — and nothing else does.
#[verifier::rlimit(100)]
#[verifier::spinoff_prover]
pub fn load(cfg: &ConfigDescription, features: &Vec<String>) -> (r: Result<
    (Flowgraph, LoaderContext),
    LoadError,
>)
    ensures
        (r is Ok) == config_wirable(*cfg, features@),
        r matches Ok(pair) ==> ({
            let fg = pair.0;
            let ctx = pair.1;
            &&& fg.wf()
            &&& !fg.frozen
            &&& ctx.names@.len() == fg.blocks@.len()
            &&& (forall|i: int|
                0 <= i < ctx.names@.len() ==> (#[trigger] ctx.names@[i]).block == i
                    && ctx.names@[i].name@ == fg.blocks@[i].name@)
            &&& ((exists|q: int| enabled_controller(*cfg, features@, q)) ==> fg.blocks@.len() >= 1
                && fg.blocks@[0].kind == Kernel::Controller)
            &&& ((forall|q: int| !enabled_controller(*cfg, features@, q)) ==> (forall|b: int|
                0 <= b < fg.blocks@.len() ==> (#[trigger] fg.blocks@[b]).kind
                    != Kernel::Controller))
            &&& (forall|b: int|
                0 <= b < fg.blocks@.len() && (#[trigger] fg.blocks@[b]).kind
                    == Kernel::Controller ==> controller_shape(fg.blocks@[b]))
            &&& ctx.runtime_tasks@.len() == cfg.runtime_tasks@.len()
            &&& (forall|t: int|
                0 <= t < cfg.runtime_tasks@.len() ==> {
                    let t0 = cfg.runtime_tasks@[t];
                    let t1 = #[trigger] ctx.runtime_tasks@[t];
                    &&& t1.block@ == t0.block@
                    &&& t1.port@ == t0.port@
                    &&& t1.interval_ms == t0.interval_ms
                    &&& t1.message_pattern@ == t0.message_pattern@
                })
        }),
        r matches Err(LoadError::UnknownBlockType { type_key, .. }) ==> (exists|q: int|
            0 <= q < cfg.blocks@.len() && entry_enabled(#[trigger] cfg.blocks@[q], features@)
                && !known_type(cfg.blocks@[q].type_key@)) && !known_type(type_key@),
        r matches Err(LoadError::UnknownElementType { .. }) ==> (exists|q: int|
            0 <= q < cfg.blocks@.len() && entry_enabled(#[trigger] cfg.blocks@[q], features@)
                && needs_dtype(cfg.blocks@[q].type_key@) && !dtype_known(cfg.blocks@[q].dtype)),
{
    proof {
        reveal_strlit("FlowgraphController");
    }
    let mut fg = Flowgraph::new();
    let mut names: Vec<NameBinding> = Vec::new();
    let ghost mut sources: Seq<int> = Seq::empty();
    let block_total = cfg.blocks.len();
    let mut pass: usize = 0;
    while pass < 2
        invariant
            block_total == cfg.blocks@.len(),
            pass <= 2,
            fg.wf(),
            !fg.frozen,
            fg.stream_edges@.len() == 0,
            fg.message_edges@.len() == 0,
            names@.len() == fg.blocks@.len(),
            sources.len() == fg.blocks@.len(),
            forall|j: int|
                0 <= j < names@.len() ==> (#[trigger] names@[j]).block == j
                    && names@[j].name@ == fg.blocks@[j].name@,
            forall|j: int|
                0 <= j < sources.len() ==> ({
                    let q = #[trigger] sources[j];
                    &&& 0 <= q < cfg.blocks@.len()
                    &&& entry_enabled(cfg.blocks@[q], features@)
                    &&& entry_key_ok(cfg.blocks@[q])
                    &&& block_of_entry(fg.blocks@[j], cfg.blocks@[q])
                }),
            forall|j1: int, j2: int|
                0 <= j1 < j2 < sources.len() ==> sources[j1] != sources[j2],
            forall|j1: int, j2: int|
                0 <= j1 < j2 < names@.len() ==> (#[trigger] names@[j1]).name@
                    != (#[trigger] names@[j2]).name@,
            pass == 0 ==> fg.blocks@.len() == 0,
            pass >= 1 ==> (forall|q: int|
                enabled_controller(*cfg, features@, q) ==> exists|j: int|
                    0 <= j < sources.len() && sources[j] == q),
            pass == 1 ==> (forall|j: int|
                0 <= j < sources.len() ==> cfg.blocks@[#[trigger] sources[j]].type_key@
                    == "FlowgraphController"@),
            pass == 2 ==> (forall|q: int|
                0 <= q < cfg.blocks@.len() && entry_enabled(#[trigger] cfg.blocks@[q], features@)
                    ==> exists|j: int| 0 <= j < sources.len() && sources[j] == q),
            forall|b: int|
                0 <= b < fg.blocks@.len() && (#[trigger] fg.blocks@[b]).kind
                    == Kernel::Controller ==> controller_shape(fg.blocks@[b]),
            pass >= 1 ==> ((exists|q: int| enabled_controller(*cfg, features@, q))
                ==> fg.blocks@.len() >= 1 && fg.blocks@[0].kind == Kernel::Controller),
            pass >= 1 ==> ((forall|q: int| !enabled_controller(*cfg, features@, q)) ==> (forall|
                b: int,
            | 0 <= b < fg.blocks@.len() ==> (#[trigger] fg.blocks@[b]).kind != Kernel::Controller)),
        decreases 2 - pass,
    {
        let want_controller = pass == 0;
        let mut i: usize = 0;
        while i < block_total
            invariant
                block_total == cfg.blocks@.len(),
                want_controller == (pass == 0),
                pass < 2,
                i <= block_total,
                fg.wf(),
                !fg.frozen,
                fg.stream_edges@.len() == 0,
                fg.message_edges@.len() == 0,
                names@.len() == fg.blocks@.len(),
                sources.len() == fg.blocks@.len(),
                forall|j: int|
                    0 <= j < names@.len() ==> (#[trigger] names@[j]).block == j
                        && names@[j].name@ == fg.blocks@[j].name@,
                forall|j: int|
                    0 <= j < sources.len() ==> ({
                        let q = #[trigger] sources[j];
                        &&& 0 <= q < cfg.blocks@.len()
                        &&& entry_enabled(cfg.blocks@[q], features@)
                        &&& entry_key_ok(cfg.blocks@[q])
                        &&& block_of_entry(fg.blocks@[j], cfg.blocks@[q])
                    }),
                forall|j1: int, j2: int|
                    0 <= j1 < j2 < sources.len() ==> sources[j1] != sources[j2],
                forall|j1: int, j2: int|
                    0 <= j1 < j2 < names@.len() ==> (#[trigger] names@[j1]).name@
                        != (#[trigger] names@[j2]).name@,
                want_controller ==> (forall|j: int|
                    0 <= j < sources.len() ==> cfg.blocks@[#[trigger] sources[j]].type_key@
                        == "FlowgraphController"@ && sources[j] < i),
                want_controller ==> (forall|q: int|
                    0 <= q < i && enabled_controller(*cfg, features@, q) ==> exists|j: int|
                        0 <= j < sources.len() && sources[j] == q),
                !want_controller ==> (forall|j: int|
                    0 <= j < sources.len()
                        ==> cfg.blocks@[#[trigger] sources[j]].type_key@
                        == "FlowgraphController"@ || sources[j] < i),
                !want_controller ==> (forall|q: int|
                    enabled_controller(*cfg, features@, q) ==> exists|j: int|
                        0 <= j < sources.len() && sources[j] == q),
                !want_controller ==> (forall|q: int|
                    0 <= q < i && entry_enabled(#[trigger] cfg.blocks@[q], features@)
                        && cfg.blocks@[q].type_key@ != "FlowgraphController"@ ==> exists|j: int|
                        0 <= j < sources.len() && sources[j] == q),
                forall|b: int|
                    0 <= b < fg.blocks@.len() && (#[trigger] fg.blocks@[b]).kind
                        == Kernel::Controller ==> controller_shape(fg.blocks@[b]),
                want_controller ==> (forall|b: int|
                    0 <= b < fg.blocks@.len() ==> (#[trigger] fg.blocks@[b]).kind
                        == Kernel::Controller),
                want_controller ==> ((exists|q: int|
                    0 <= q < i && enabled_controller(*cfg, features@, q)) ==> fg.blocks@.len()
                    >= 1),
                want_controller ==> ((forall|q: int| !enabled_controller(*cfg, features@, q))
                    ==> fg.blocks@.len() == 0),
                !want_controller ==> ((exists|q: int| enabled_controller(*cfg, features@, q))
                    ==> fg.blocks@.len() >= 1 && fg.blocks@[0].kind == Kernel::Controller),
                !want_controller ==> ((forall|q: int| !enabled_controller(*cfg, features@, q))
                    ==> (forall|b: int|
                    0 <= b < fg.blocks@.len() ==> (#[trigger] fg.blocks@[b]).kind
                        != Kernel::Controller)),
            decreases block_total - i,
        {
            let entry = &cfg.blocks[i];
            if eval_guard(&entry.condition, features) {
                proof {
                    assert(entry_enabled(cfg.blocks@[i as int], features@));
                }
                let is_controller = entry.type_key == "FlowgraphController".to_owned();
                if is_controller == want_controller {
                    proof {
                        if is_controller {
                            assert(enabled_controller(*cfg, features@, i as int));
                        }
                    }
                    match resolve_name(&names, &entry.name) {
                        Some(_prior) => {
                            proof {
                                let j = choose|j: int|
                                    0 <= j < names@.len() && (#[trigger] names@[j]).name@
                                        == entry.name@ && names@[j].block == _prior;
                                let q2 = sources[j];
                                assert(cfg.blocks@[q2].name@ == cfg.blocks@[i as int].name@);
                                assert(q2 != i as int);
                                lemma_unwirable_duplicate(cfg, features@, q2, i as int);
                            }
                            return Err(LoadError::DuplicateBlockName {
                                name: entry.name.clone(),
                            });
                        },
                        None => {},
                    }
                    let decl = match instantiate(entry) {
                        Ok(d) => d,
                        Err(e) => {
                            proof {
                                assert(!entry_key_ok(cfg.blocks@[i as int]));
                                lemma_unwirable_entry(cfg, features@, i as int);
                            }
                            return Err(e);
                        },
                    };
                    let id = match fg.add_block(decl) {
                        Ok(id) => id,
                        Err(_e) => {
                            proof {
                                assert(false);
                            }
                            return Err(LoadError::UnknownBlockName {
                                name: entry.name.clone(),
                            });
                        },
                    };
                    names.push(NameBinding { name: entry.name.clone(), block: id });
                    proof {
                        let srcs0 = sources;
                        sources = sources.push(i as int);
                        assert forall|j: int| 0 <= j < sources.len() implies ({
                            let q = #[trigger] sources[j];
                            &&& 0 <= q < cfg.blocks@.len()
                            &&& entry_enabled(cfg.blocks@[q], features@)
                            &&& entry_key_ok(cfg.blocks@[q])
                            &&& block_of_entry(fg.blocks@[j], cfg.blocks@[q])
                        }) by {
                            if j < srcs0.len() {
                                assert(sources[j] == srcs0[j]);
                            } else {
                                assert(sources[j] == i as int);
                                assert(block_of_entry(fg.blocks@[j], cfg.blocks@[i as int]));
                            }
                        }
                        assert forall|j: int|
                            0 <= j < sources.len() && want_controller implies cfg.blocks@[
                            #[trigger] sources[j]].type_key@ == "FlowgraphController"@
                            && sources[j] < i + 1 by {
                            if j < srcs0.len() {
                                assert(sources[j] == srcs0[j]);
                            } else {
                                assert(sources[j] == i as int);
                            }
                        }
                        assert forall|j: int|
                            0 <= j < sources.len() && !want_controller implies cfg.blocks@[
                            #[trigger] sources[j]].type_key@ == "FlowgraphController"@
                            || sources[j] < i + 1 by {
                            if j < srcs0.len() {
                                assert(sources[j] == srcs0[j]);
                            } else {
                                assert(sources[j] == i as int);
                            }
                        }
                        assert forall|j1: int, j2: int|
                            0 <= j1 < j2 < sources.len() implies sources[j1] != sources[j2] by {
                            if j2 == sources.len() - 1 {
                                assert(sources[j2] == i as int);
                                assert(sources[j1] == srcs0[j1]);
                            }
                        }
                        assert(sources[sources.len() - 1] == i as int);
                        if want_controller {
                            assert forall|q: int|
                                0 <= q < i + 1 && enabled_controller(*cfg, features@, q)
                                implies (exists|j: int|
                                0 <= j < sources.len() && sources[j] == q) by {
                                if q == i as int {
                                    assert(sources[sources.len() - 1] == q);
                                } else {
                                    let j0 = choose|j: int|
                                        0 <= j < srcs0.len() && srcs0[j] == q;
                                    assert(sources[j0] == q);
                                }
                            }
                        } else {
                            assert forall|q: int|
                                enabled_controller(*cfg, features@, q) implies (exists|j: int|
                                0 <= j < sources.len() && sources[j] == q) by {
                                let j0 = choose|j: int| 0 <= j < srcs0.len() && srcs0[j] == q;
                                assert(sources[j0] == q);
                            }
                            assert forall|q: int|
                                0 <= q < i + 1 && entry_enabled(
                                    #[trigger] cfg.blocks@[q],
                                    features@,
                                ) && cfg.blocks@[q].type_key@ != "FlowgraphController"@
                                implies (exists|j: int|
                                0 <= j < sources.len() && sources[j] == q) by {
                                if q == i as int {
                                    assert(sources[sources.len() - 1] == q);
                                } else {
                                    let j0 = choose|j: int|
                                        0 <= j < srcs0.len() && srcs0[j] == q;
                                    assert(sources[j0] == q);
                                }
                            }
                        }
                    }
                }
            }
            i = i + 1;
        }
        proof {
            if !want_controller {
                assert forall|q: int|
                    0 <= q < cfg.blocks@.len() && entry_enabled(
                        #[trigger] cfg.blocks@[q],
                        features@,
                    ) implies exists|j: int| 0 <= j < sources.len() && sources[j] == q by {
                    if cfg.blocks@[q].type_key@ == "FlowgraphController"@ {
                        assert(enabled_controller(*cfg, features@, q));
                    }
                }
            }
        }
        pass = pass + 1;
    }
    let conn_total = cfg.connections.len();
    let ghost mut conn_sources: Seq<int> = Seq::empty();
    let mut k: usize = 0;
    while k < conn_total
        invariant
            conn_total == cfg.connections@.len(),
            k <= conn_total,
            fg.wf(),
            !fg.frozen,
            fg.message_edges@.len() == 0,
            names@.len() == fg.blocks@.len(),
            sources.len() == fg.blocks@.len(),
            forall|j: int|
                0 <= j < names@.len() ==> (#[trigger] names@[j]).block == j
                    && names@[j].name@ == fg.blocks@[j].name@,
            forall|j: int|
                0 <= j < sources.len() ==> ({
                    let q = #[trigger] sources[j];
                    &&& 0 <= q < cfg.blocks@.len()
                    &&& entry_enabled(cfg.blocks@[q], features@)
                    &&& entry_key_ok(cfg.blocks@[q])
                    &&& block_of_entry(fg.blocks@[j], cfg.blocks@[q])
                }),
            forall|j1: int, j2: int|
                0 <= j1 < j2 < sources.len() ==> sources[j1] != sources[j2],
            forall|j1: int, j2: int|
                0 <= j1 < j2 < names@.len() ==> (#[trigger] names@[j1]).name@
                    != (#[trigger] names@[j2]).name@,
            forall|q: int|
                0 <= q < cfg.blocks@.len() && entry_enabled(#[trigger] cfg.blocks@[q], features@)
                    ==> exists|j: int| 0 <= j < sources.len() && sources[j] == q,
            forall|b: int|
                0 <= b < fg.blocks@.len() && (#[trigger] fg.blocks@[b]).kind
                    == Kernel::Controller ==> controller_shape(fg.blocks@[b]),
            (exists|q: int| enabled_controller(*cfg, features@, q)) ==> fg.blocks@.len() >= 1
                && fg.blocks@[0].kind == Kernel::Controller,
            (forall|q: int| !enabled_controller(*cfg, features@, q)) ==> (forall|b: int|
                0 <= b < fg.blocks@.len() ==> (#[trigger] fg.blocks@[b]).kind
                    != Kernel::Controller),
            conn_sources.len() == fg.stream_edges@.len(),
            forall|t: int|
                0 <= t < conn_sources.len() ==> ({
                    let c = #[trigger] conn_sources[t];
                    &&& 0 <= c < k
                    &&& conn_enabled(cfg.connections@[c], features@)
                    &&& edge_matches_connection(fg, fg.stream_edges@[t], cfg.connections@[c])
                }),
            forall|c: int|
                0 <= c < k && conn_enabled(#[trigger] cfg.connections@[c], features@)
                    ==> exists|t: int| 0 <= t < conn_sources.len() && conn_sources[t] == c,
            forall|c: int|
                0 <= c < k && conn_enabled(#[trigger] cfg.connections@[c], features@) ==> conn_wirable(*cfg, features@, c),
        decreases conn_total - k,
    {
        let ce = &cfg.connections[k];
        if eval_guard(&ce.condition, features) {
            proof {
                assert(conn_enabled(cfg.connections@[k as int], features@));
            }
            let src = match resolve_name(&names, &ce.from) {
                Some(b) => b,
                None => {
                    proof {
                        assert forall|q: int|
                            0 <= q < cfg.blocks@.len() && entry_enabled(
                                #[trigger] cfg.blocks@[q],
                                features@,
                            ) implies cfg.blocks@[q].name@ != ce.from@ by {
                            let j = choose|j: int|
                                0 <= j < sources.len() && sources[j] == q;
                            assert(names@[j].name@ == cfg.blocks@[q].name@);
                        }
                        assert(!enabled_entry_named(*cfg, features@, cfg.connections@[
                            k as int].from@));
                        assert(!conn_wirable(*cfg, features@, k as int));
                        lemma_unwirable_conn(cfg, features@, k as int);
                    }
                    return Err(LoadError::UnknownBlockName { name: ce.from.clone() });
                },
            };
            let dst = match resolve_name(&names, &ce.to) {
                Some(b) => b,
                None => {
                    proof {
                        assert forall|q: int|
                            0 <= q < cfg.blocks@.len() && entry_enabled(
                                #[trigger] cfg.blocks@[q],
                                features@,
                            ) implies cfg.blocks@[q].name@ != ce.to@ by {
                            let j = choose|j: int|
                                0 <= j < sources.len() && sources[j] == q;
                            assert(names@[j].name@ == cfg.blocks@[q].name@);
                        }
                        assert(!enabled_entry_named(*cfg, features@, cfg.connections@[
                            k as int].to@));
                        assert(!conn_wirable(*cfg, features@, k as int));
                        lemma_unwirable_conn(cfg, features@, k as int);
                    }
                    return Err(LoadError::UnknownBlockName { name: ce.to.clone() });
                },
            };
            proof {
                assert(names@[src as int].block == src as int);
                assert(names@[dst as int].block == dst as int);
                assert(fg.blocks@[src as int].name@ == ce.from@);
                assert(fg.blocks@[dst as int].name@ == ce.to@);
            }
            let sp = match &ce.from_port {
                Some(p) => p.clone(),
                None => "output".to_owned(),
            };
            let dp = match &ce.to_port {
                Some(p) => p.clone(),
                None => "input".to_owned(),
            };
            proof {
                assert(sp@ == eff_from_port(cfg.connections@[k as int]));
                assert(dp@ == eff_to_port(cfg.connections@[k as int]));
            }
            let ghost pre = fg;
            match fg.connect_stream(src, &sp, dst, &dp) {
                Ok(_) => {
                    proof {
                        let cs0 = conn_sources;
                        conn_sources = conn_sources.push(k as int);
                        assert(conn_sources[conn_sources.len() - 1] == k as int);
                        assert forall|c: int|
                            0 <= c < k + 1 && conn_enabled(#[trigger] cfg.connections@[c], features@)
                            implies (exists|t: int|
                            0 <= t < conn_sources.len() && conn_sources[t] == c) by {
                            if c == k as int {
                                assert(conn_sources[conn_sources.len() - 1] == c);
                            } else {
                                let t0 = choose|t: int| 0 <= t < cs0.len() && cs0[t] == c;
                                assert(conn_sources[t0] == c);
                            }
                        }
                        let ce_k = cfg.connections@[k as int];
                        let e = fg.stream_edges@.last();
                        assert(edge_matches_connection(fg, e, ce_k));
                        assert forall|q: int|
                            0 <= q < cfg.blocks@.len() && entry_enabled(
                                #[trigger] cfg.blocks@[q],
                                features@,
                            ) && cfg.blocks@[q].name@ == ce_k.from@ implies key_stream_output(
                            cfg.blocks@[q].type_key@,
                            eff_from_port(ce_k),
                        ) by {
                            let j = choose|j: int| 0 <= j < sources.len() && sources[j] == q;
                            assert(names@[j].name@ == cfg.blocks@[q].name@);
                            assert(names@[src as int].name@ == ce_k.from@);
                            assert(j == src as int);
                            assert(0 <= e.src_port < fg.blocks@[
                                src as int].stream_outputs@.len() && fg.blocks@[
                                src as int].stream_outputs@[e.src_port as int].name@
                                == eff_from_port(ce_k));
                            lemma_entry_ports(
                                fg.blocks@[src as int],
                                cfg.blocks@[q],
                                eff_from_port(ce_k),
                            );
                        }
                        assert forall|q: int|
                            0 <= q < cfg.blocks@.len() && entry_enabled(
                                #[trigger] cfg.blocks@[q],
                                features@,
                            ) && cfg.blocks@[q].name@ == ce_k.to@ implies key_stream_input(
                            cfg.blocks@[q].type_key@,
                            eff_to_port(ce_k),
                        ) by {
                            let j = choose|j: int| 0 <= j < sources.len() && sources[j] == q;
                            assert(names@[j].name@ == cfg.blocks@[q].name@);
                            assert(names@[dst as int].name@ == ce_k.to@);
                            assert(j == dst as int);
                            assert(0 <= e.dst_port < fg.blocks@[
                                dst as int].stream_inputs@.len() && fg.blocks@[
                                dst as int].stream_inputs@[e.dst_port as int].name@
                                == eff_to_port(ce_k));
                            lemma_entry_ports(
                                fg.blocks@[dst as int],
                                cfg.blocks@[q],
                                eff_to_port(ce_k),
                            );
                        }
                        assert forall|t: int|
                            0 <= t < conn_sources.len() - 1 implies fg.stream_edges@[t]
                            == pre.stream_edges@[t] by {
                            assert(pre.stream_edges@ == fg.stream_edges@.take(
                                pre.stream_edges@.len() as int,
                            ));
                        }
                    }
                },
                Err(e) => {
                    proof {
                        let ce_k = cfg.connections@[k as int];
                        let qs = sources[src as int];
                        let qd = sources[dst as int];
                        lemma_entry_ports(fg.blocks@[src as int], cfg.blocks@[qs], eff_from_port(ce_k));
                        lemma_entry_ports(fg.blocks@[dst as int], cfg.blocks@[qd], eff_to_port(ce_k));
                        if !key_stream_output(cfg.blocks@[qs].type_key@, eff_from_port(ce_k)) {
                            assert(!conn_wirable(*cfg, features@, k as int));
                            lemma_unwirable_conn(cfg, features@, k as int);
                        } else if !key_stream_input(cfg.blocks@[qd].type_key@, eff_to_port(ce_k)) {
                            assert(!conn_wirable(*cfg, features@, k as int));
                            lemma_unwirable_conn(cfg, features@, k as int);
                        } else {
                            assert(fg.blocks@[dst as int].stream_inputs@.len() == 1);
                            assert(fg.blocks@[dst as int].stream_inputs@[0].name@
                                == eff_to_port(ce_k));
                            assert(fg.input_connected(dst as int, 0));
                            let t = choose|t: int|
                                0 <= t < fg.stream_edges@.len() && (#[trigger] fg.stream_edges@[
                                t]).dst_block == dst as int && fg.stream_edges@[t].dst_port == 0;
                            let cprev = conn_sources[t];
                            let ce_p = cfg.connections@[cprev];
                            assert(edge_matches_connection(fg, fg.stream_edges@[t], ce_p));
                            assert(ce_p.to@ == ce_k.to@);
                            assert(eff_to_port(ce_p) == eff_to_port(ce_k));
                            lemma_unwirable_conflict(cfg, features@, cprev, k as int);
                        }
                    }
                    return Err(LoadError::Graph { error: e });
                },
            }
        }
        k = k + 1;
    }
    let mc_total = cfg.message_connections.len();
    let ghost mut msg_sources: Seq<int> = Seq::empty();
    let mut k2: usize = 0;
    while k2 < mc_total
        invariant
            mc_total == cfg.message_connections@.len(),
            conn_total == cfg.connections@.len(),
            k2 <= mc_total,
            fg.wf(),
            !fg.frozen,
            names@.len() == fg.blocks@.len(),
            sources.len() == fg.blocks@.len(),
            forall|j: int|
                0 <= j < names@.len() ==> (#[trigger] names@[j]).block == j
                    && names@[j].name@ == fg.blocks@[j].name@,
            forall|j: int|
                0 <= j < sources.len() ==> ({
                    let q = #[trigger] sources[j];
                    &&& 0 <= q < cfg.blocks@.len()
                    &&& entry_enabled(cfg.blocks@[q], features@)
                    &&& entry_key_ok(cfg.blocks@[q])
                    &&& block_of_entry(fg.blocks@[j], cfg.blocks@[q])
                }),
            forall|j1: int, j2: int|
                0 <= j1 < j2 < sources.len() ==> sources[j1] != sources[j2],
            forall|j1: int, j2: int|
                0 <= j1 < j2 < names@.len() ==> (#[trigger] names@[j1]).name@
                    != (#[trigger] names@[j2]).name@,
            forall|q: int|
                0 <= q < cfg.blocks@.len() && entry_enabled(#[trigger] cfg.blocks@[q], features@)
                    ==> exists|j: int| 0 <= j < sources.len() && sources[j] == q,
            forall|b: int|
                0 <= b < fg.blocks@.len() && (#[trigger] fg.blocks@[b]).kind
                    == Kernel::Controller ==> controller_shape(fg.blocks@[b]),
            (exists|q: int| enabled_controller(*cfg, features@, q)) ==> fg.blocks@.len() >= 1
                && fg.blocks@[0].kind == Kernel::Controller,
            (forall|q: int| !enabled_controller(*cfg, features@, q)) ==> (forall|b: int|
                0 <= b < fg.blocks@.len() ==> (#[trigger] fg.blocks@[b]).kind
                    != Kernel::Controller),
            conn_sources.len() == fg.stream_edges@.len(),
            forall|t: int|
                0 <= t < conn_sources.len() ==> ({
                    let c = #[trigger] conn_sources[t];
                    &&& 0 <= c < cfg.connections@.len()
                    &&& conn_enabled(cfg.connections@[c], features@)
                    &&& edge_matches_connection(fg, fg.stream_edges@[t], cfg.connections@[c])
                }),
            forall|c: int|
                0 <= c < cfg.connections@.len() && conn_enabled(
                    #[trigger] cfg.connections@[c],
                    features@,
                ) ==> exists|t: int| 0 <= t < conn_sources.len() && conn_sources[t] == c,
            forall|c: int|
                0 <= c < cfg.connections@.len() && conn_enabled(
                    #[trigger] cfg.connections@[c],
                    features@,
                ) ==> conn_wirable(*cfg, features@, c),
            msg_sources.len() == fg.message_edges@.len(),
            forall|t: int|
                0 <= t < msg_sources.len() ==> ({
                    let c = #[trigger] msg_sources[t];
                    &&& 0 <= c < k2
                    &&& msg_conn_enabled(cfg.message_connections@[c], features@)
                    &&& edge_matches_message_connection(
                        fg,
                        fg.message_edges@[t],
                        cfg.message_connections@[c],
                    )
                }),
            forall|c: int|
                0 <= c < k2 && msg_conn_enabled(#[trigger] cfg.message_connections@[c], features@)
                    ==> exists|t: int| 0 <= t < msg_sources.len() && msg_sources[t] == c,
            forall|c: int|
                0 <= c < k2 && msg_conn_enabled(#[trigger] cfg.message_connections@[c], features@)
                    ==> msg_conn_wirable(*cfg, features@, c),
        decreases mc_total - k2,
    {
        let me = &cfg.message_connections[k2];
        if eval_guard(&me.condition, features) {
            proof {
                assert(msg_conn_enabled(cfg.message_connections@[k2 as int], features@));
            }
            let src = match resolve_name(&names, &me.from) {
                Some(b) => b,
                None => {
                    proof {
                        assert forall|q: int|
                            0 <= q < cfg.blocks@.len() && entry_enabled(
                                #[trigger] cfg.blocks@[q],
                                features@,
                            ) implies cfg.blocks@[q].name@ != me.from@ by {
                            let j = choose|j: int|
                                0 <= j < sources.len() && sources[j] == q;
                            assert(names@[j].name@ == cfg.blocks@[q].name@);
                        }
                        assert(!enabled_entry_named(*cfg, features@, cfg.message_connections@[
                            k2 as int].from@));
                        assert(!msg_conn_wirable(*cfg, features@, k2 as int));
                        lemma_unwirable_msg(cfg, features@, k2 as int);
                    }
                    return Err(LoadError::UnknownBlockName { name: me.from.clone() });
                },
            };
            let dst = match resolve_name(&names, &me.to) {
                Some(b) => b,
                None => {
                    proof {
                        assert forall|q: int|
                            0 <= q < cfg.blocks@.len() && entry_enabled(
                                #[trigger] cfg.blocks@[q],
                                features@,
                            ) implies cfg.blocks@[q].name@ != me.to@ by {
                            let j = choose|j: int|
                                0 <= j < sources.len() && sources[j] == q;
                            assert(names@[j].name@ == cfg.blocks@[q].name@);
                        }
                        assert(!enabled_entry_named(*cfg, features@, cfg.message_connections@[
                            k2 as int].to@));
                        assert(!msg_conn_wirable(*cfg, features@, k2 as int));
                        lemma_unwirable_msg(cfg, features@, k2 as int);
                    }
                    return Err(LoadError::UnknownBlockName { name: me.to.clone() });
                },
            };
            proof {
                assert(names@[src as int].block == src as int);
                assert(names@[dst as int].block == dst as int);
                assert(fg.blocks@[src as int].name@ == me.from@);
                assert(fg.blocks@[dst as int].name@ == me.to@);
            }
            let sp = me.from_port.clone();
            let dp = match &me.to_port {
                Some(p) => p.clone(),
                None => me.from_port.clone(),
            };
            proof {
                assert(sp@ == cfg.message_connections@[k2 as int].from_port@);
                assert(dp@ == eff_msg_to_port(cfg.message_connections@[k2 as int]));
            }
            let ghost pre = fg;
            match fg.connect_message(src, &sp, dst, &dp) {
                Ok(_) => {
                    proof {
                        let ms0 = msg_sources;
                        msg_sources = msg_sources.push(k2 as int);
                        assert(msg_sources[msg_sources.len() - 1] == k2 as int);
                        assert forall|c: int|
                            0 <= c < k2 + 1 && msg_conn_enabled(
                                #[trigger] cfg.message_connections@[c],
                                features@,
                            ) implies (exists|t: int|
                            0 <= t < msg_sources.len() && msg_sources[t] == c) by {
                            if c == k2 as int {
                                assert(msg_sources[msg_sources.len() - 1] == c);
                            } else {
                                let t0 = choose|t: int| 0 <= t < ms0.len() && ms0[t] == c;
                                assert(msg_sources[t0] == c);
                            }
                        }
                        let me_k = cfg.message_connections@[k2 as int];
                        let e = fg.message_edges@.last();
                        assert(edge_matches_message_connection(fg, e, me_k));
                        assert forall|q: int|
                            0 <= q < cfg.blocks@.len() && entry_enabled(
                                #[trigger] cfg.blocks@[q],
                                features@,
                            ) && cfg.blocks@[q].name@ == me_k.from@ implies key_message_output(
                            cfg.blocks@[q].type_key@,
                            me_k.from_port@,
                        ) by {
                            let j = choose|j: int| 0 <= j < sources.len() && sources[j] == q;
                            assert(names@[j].name@ == cfg.blocks@[q].name@);
                            assert(names@[src as int].name@ == me_k.from@);
                            assert(j == src as int);
                            assert(0 <= e.src_port < fg.blocks@[
                                src as int].message_outputs@.len() && fg.blocks@[
                                src as int].message_outputs@[e.src_port as int].name@
                                == me_k.from_port@);
                            lemma_entry_ports(
                                fg.blocks@[src as int],
                                cfg.blocks@[q],
                                me_k.from_port@,
                            );
                        }
                        assert forall|q: int|
                            0 <= q < cfg.blocks@.len() && entry_enabled(
                                #[trigger] cfg.blocks@[q],
                                features@,
                            ) && cfg.blocks@[q].name@ == me_k.to@ implies key_message_input(
                            cfg.blocks@[q].type_key@,
                            eff_msg_to_port(me_k),
                        ) by {
                            let j = choose|j: int| 0 <= j < sources.len() && sources[j] == q;
                            assert(names@[j].name@ == cfg.blocks@[q].name@);
                            assert(names@[dst as int].name@ == me_k.to@);
                            assert(j == dst as int);
                            assert(0 <= e.dst_port < fg.blocks@[
                                dst as int].message_inputs@.len() && fg.blocks@[
                                dst as int].message_inputs@[e.dst_port as int].name@
                                == eff_msg_to_port(me_k));
                            lemma_entry_ports(
                                fg.blocks@[dst as int],
                                cfg.blocks@[q],
                                eff_msg_to_port(me_k),
                            );
                        }
                        assert forall|t: int|
                            0 <= t < msg_sources.len() - 1 implies fg.message_edges@[t]
                            == pre.message_edges@[t] by {
                            assert(pre.message_edges@ == fg.message_edges@.take(
                                pre.message_edges@.len() as int,
                            ));
                        }
                    }
                },
                Err(e) => {
                    proof {
                        let me_k = cfg.message_connections@[k2 as int];
                        let qs = sources[src as int];
                        let qd = sources[dst as int];
                        lemma_entry_ports(fg.blocks@[src as int], cfg.blocks@[qs], me_k.from_port@);
                        lemma_entry_ports(fg.blocks@[dst as int], cfg.blocks@[qd], eff_msg_to_port(me_k));
                        if !key_message_output(cfg.blocks@[qs].type_key@, me_k.from_port@) {
                            assert(!msg_conn_wirable(*cfg, features@, k2 as int));
                        } else {
                            assert(!key_message_input(cfg.blocks@[qd].type_key@, eff_msg_to_port(me_k)));
                            assert(!msg_conn_wirable(*cfg, features@, k2 as int));
                        }
                        lemma_unwirable_msg(cfg, features@, k2 as int);
                    }
                    return Err(LoadError::Graph { error: e });
                },
            }
        }
        k2 = k2 + 1;
    }
    proof {
        lemma_load_wirable(cfg, features@, fg, names@, sources, conn_sources, msg_sources);
    }
    let task_total = cfg.runtime_tasks.len();
    let mut tasks: Vec<AsyncTaskEntry> = Vec::new();
    let mut t: usize = 0;
    while t < task_total
        invariant
            task_total == cfg.runtime_tasks@.len(),
            t <= task_total,
            tasks@.len() == t,
            forall|j: int|
                0 <= j < t ==> {
                    let t0 = cfg.runtime_tasks@[j];
                    let t1 = #[trigger] tasks@[j];
                    &&& t1.block@ == t0.block@
                    &&& t1.port@ == t0.port@
                    &&& t1.interval_ms == t0.interval_ms
                    &&& t1.message_pattern@ == t0.message_pattern@
                },
        decreases task_total - t,
    {
        let src = &cfg.runtime_tasks[t];
        tasks.push(
            AsyncTaskEntry {
                block: src.block.clone(),
                port: src.port.clone(),
                interval_ms: src.interval_ms,
                message_pattern: src.message_pattern.clone(),
            },
        );
        t = t + 1;
    }
    Ok((fg, LoaderContext { names, runtime_tasks: tasks }))
}

} // verus!
