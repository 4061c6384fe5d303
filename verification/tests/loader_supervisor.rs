use flowrt::flowgraph::FgError;
use flowrt::kernel::Kernel;
use flowrt::loader::AsyncTaskEntry;
use flowrt::loader::BlockEntry;
use flowrt::loader::ConfigDescription;
use flowrt::loader::ConnectionEntry;
use flowrt::loader::LoadError;
use flowrt::loader::MessageConnectionEntry;
use flowrt::loader::load;
use flowrt::pmt::Pmt;
use flowrt::pmt::pmt_eq;
use flowrt::runtime::CallError;
use flowrt::supervisor::Supervisor;

fn block(name: &str, type_key: &str, dtype: Option<&str>) -> BlockEntry {
    BlockEntry {
        name: name.to_string(),
        type_key: type_key.to_string(),
        dtype: dtype.map(|d| d.to_string()),
        params: Vec::new(),
        condition: None,
    }
}

fn stream(from: &str, to: &str) -> ConnectionEntry {
    ConnectionEntry {
        from: from.to_string(),
        from_port: None,
        to: to.to_string(),
        to_port: None,
        condition: None,
    }
}

fn message(from: &str, from_port: &str, to: &str, to_port: &str) -> MessageConnectionEntry {
    MessageConnectionEntry {
        from: from.to_string(),
        from_port: from_port.to_string(),
        to: to.to_string(),
        to_port: Some(to_port.to_string()),
        condition: None,
    }
}

fn pipeline_config() -> ConfigDescription {
    ConfigDescription {
        blocks: vec![
            block("src", "NullSource", Some("u8")),
            block("snk", "NullSink", Some("u8")),
        ],
        connections: vec![stream("src", "snk")],
        message_connections: Vec::new(),
        runtime_tasks: Vec::new(),
    }
}

fn controller_config() -> ConfigDescription {
    // The controller is listed last on purpose: the loader must still give
    // it identifier zero.
    ConfigDescription {
        blocks: vec![
            block("src", "NullSource", Some("u8")),
            block("snk", "NullSink", Some("u8")),
            block("listener", "MessageSink", None),
            block("ctl", "FlowgraphController", None),
        ],
        connections: vec![stream("src", "snk")],
        message_connections: vec![message("ctl", "rx_out", "listener", "in")],
        runtime_tasks: Vec::new(),
    }
}

#[test]
fn loader_gives_the_controller_identifier_zero() {
    let cfg = controller_config();
    let (fg, ctx) = load(&cfg, &Vec::new()).expect("the configuration is well formed");
    assert!(matches!(fg.blocks[0].kind, Kernel::Controller));
    assert_eq!(ctx.names.len(), fg.blocks.len());
    assert_eq!(ctx.names[0].name, "ctl".to_string());
    assert_eq!(ctx.names[0].block, 0);
}

#[test]
fn loader_resolves_names_and_defaults_ports() {
    let cfg = pipeline_config();
    let (mut fg, ctx) = load(&cfg, &Vec::new()).expect("the configuration is well formed");
    assert_eq!(ctx.names.len(), 2);
    assert_eq!(fg.stream_edges.len(), 1);
    assert!(fg.start().is_ok());
}

#[test]
fn loader_rejects_unknown_block_type() {
    let mut cfg = pipeline_config();
    cfg.blocks.push(block("w", "wifi::Mac", None));
    match load(&cfg, &Vec::new()) {
        Err(LoadError::UnknownBlockType { name, type_key }) => {
            assert_eq!(name, "w".to_string());
            assert_eq!(type_key, "wifi::Mac".to_string());
        },
        other => panic!("expected an unknown block type, got {:?}", other.is_ok()),
    }
}

#[test]
fn loader_rejects_unknown_element_type() {
    let cfg = ConfigDescription {
        blocks: vec![block("src", "NullSource", Some("i16"))],
        connections: Vec::new(),
        message_connections: Vec::new(),
        runtime_tasks: Vec::new(),
    };
    assert!(matches!(
        load(&cfg, &Vec::new()),
        Err(LoadError::UnknownElementType { .. })
    ));
    let missing = ConfigDescription {
        blocks: vec![block("src", "NullSource", None)],
        connections: Vec::new(),
        message_connections: Vec::new(),
        runtime_tasks: Vec::new(),
    };
    assert!(matches!(
        load(&missing, &Vec::new()),
        Err(LoadError::UnknownElementType { .. })
    ));
}

#[test]
fn loader_rejects_duplicate_names_and_unknown_endpoints() {
    let mut cfg = pipeline_config();
    cfg.blocks.push(block("src", "NullSink", Some("u8")));
    assert!(matches!(
        load(&cfg, &Vec::new()),
        Err(LoadError::DuplicateBlockName { .. })
    ));

    let mut cfg2 = pipeline_config();
    cfg2.connections.push(stream("ghost", "snk"));
    assert!(matches!(
        load(&cfg2, &Vec::new()),
        Err(LoadError::UnknownBlockName { .. })
    ));
}

#[test]
fn loader_propagates_wiring_errors() {
    let mut cfg = pipeline_config();
    // A second producer into the one sink input.
    cfg.blocks.push(block("src2", "NullSource", Some("u8")));
    cfg.connections.push(stream("src2", "snk"));
    match load(&cfg, &Vec::new()) {
        Err(LoadError::Graph { error: FgError::InputConnected { .. } }) => {},
        other => panic!("expected a wiring refusal, got {:?}", other.is_ok()),
    }
}

#[test]
fn guards_pick_blocks_by_feature() {
    let mut cfg = pipeline_config();
    cfg.blocks[0].condition = Some("radio".to_string());
    cfg.blocks.push(BlockEntry {
        name: "alt".to_string(),
        type_key: "NullSource".to_string(),
        dtype: Some("u8".to_string()),
        params: Vec::new(),
        condition: Some("!radio".to_string()),
    });
    cfg.connections[0].condition = Some("radio".to_string());
    cfg.connections.push(ConnectionEntry {
        from: "alt".to_string(),
        from_port: None,
        to: "snk".to_string(),
        to_port: None,
        condition: Some("!radio".to_string()),
    });

    let (fg_with, _) = load(&cfg, &vec!["radio".to_string()]).expect("enabled side loads");
    assert_eq!(fg_with.blocks.len(), 2);
    assert_eq!(fg_with.blocks[0].name, "src".to_string());

    let (fg_without, _) = load(&cfg, &Vec::new()).expect("disabled side loads");
    assert_eq!(fg_without.blocks.len(), 2);
    assert_eq!(fg_without.blocks[0].name, "snk".to_string());
    assert_eq!(fg_without.blocks[1].name, "alt".to_string());
}

#[test]
fn loader_returns_the_runtime_section() {
    let mut cfg = pipeline_config();
    cfg.runtime_tasks.push(AsyncTaskEntry {
        block: "snk".to_string(),
        port: "tx".to_string(),
        interval_ms: 50,
        message_pattern: "hello {seq}".to_string(),
    });
    let (_fg, ctx) = load(&cfg, &Vec::new()).expect("the configuration is well formed");
    assert_eq!(ctx.runtime_tasks.len(), 1);
    assert_eq!(ctx.runtime_tasks[0].interval_ms, 50);
    assert_eq!(ctx.runtime_tasks[0].message_pattern, "hello {seq}".to_string());
}

#[test]
fn calls_without_a_running_graph_are_refused() {
    let mut sup = Supervisor::new(Vec::new());
    let refused = sup.call(0, &"control".to_string(), Pmt::Null);
    assert!(matches!(refused, Err(CallError::NoFlowgraph)));
}

#[test]
fn failed_reload_leaves_the_slot_empty() {
    let mut sup = Supervisor::new(Vec::new());
    sup.handle_reload(&pipeline_config());
    assert!(sup.slot.is_some());

    let mut broken = pipeline_config();
    broken.blocks[0].type_key = "bogus".to_string();
    let outcome = sup.handle_reload(&broken);
    assert!(outcome.error.is_some());
    assert!(sup.slot.is_none());
    let refused = sup.call(0, &"control".to_string(), Pmt::Null);
    assert!(matches!(refused, Err(CallError::NoFlowgraph)));
}

#[test]
fn hot_swap_drains_the_old_graph_and_notifies_subscribers() {
    // Start graph A, run it a little, then swap to graph B.  The old graph
    // must be fully drained; the new controller's subscribers must see the
    // reload notice.
    let mut sup = Supervisor::new(Vec::new());
    let first = sup.handle_reload(&pipeline_config());
    assert!(first.error.is_none());
    assert!(first.previous.is_none());
    {
        let rt = sup.slot.as_mut().expect("a graph is running");
        for _ in 0..20 {
            rt.step_block(0);
            rt.step_block(1);
        }
        assert!(rt.edge_committed(0) > 0);
    }

    let second = sup.handle_reload(&controller_config());
    assert!(second.error.is_none());
    let old = second.previous.expect("a graph was running before the swap");
    assert!(old.terminated);
    for task in &old.tasks {
        assert!(task.exited);
    }
    assert_eq!(old.edge_committed(0), old.edge_consumed(0));

    // The reload call went out: graph B has a controller at zero whose
    // rx_out subscriber holds the notice.
    let rt = sup.slot.as_mut().expect("the new graph is running");
    assert!(matches!(rt.description().blocks[0].kind, Kernel::Controller));
    let listener = rt
        .description()
        .blocks
        .iter()
        .position(|b| b.name == "listener")
        .expect("the listener block exists");
    let notice = rt.take_message(listener, 0).expect("the subscriber was notified");
    assert!(pmt_eq(&notice, &Pmt::Text("reload".to_string())));

    // A call through the supervisor now reaches graph B.
    let reply = sup
        .call(0, &"control".to_string(), Pmt::Text("c.toml".to_string()))
        .expect("the controller answers");
    assert!(pmt_eq(&reply, &Pmt::Okay));
}
