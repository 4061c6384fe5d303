use flowrt::flowgraph::ElementKind;
use flowrt::flowgraph::FgError;
use flowrt::flowgraph::Flowgraph;
use flowrt::kernel::controller_block;
use flowrt::kernel::null_sink;
use flowrt::kernel::null_source;

fn simple_pipeline() -> Flowgraph {
    let mut fg = Flowgraph::new();
    let src = fg
        .add_block(null_source("src".to_string(), ElementKind::U8))
        .expect("adding to a fresh graph succeeds");
    let snk = fg
        .add_block(null_sink("snk".to_string(), ElementKind::U8))
        .expect("adding to a fresh graph succeeds");
    fg.connect_stream(src, &"output".to_string(), snk, &"input".to_string())
        .expect("matching ports connect");
    fg
}

#[test]
fn start_accepts_a_well_formed_pipeline() {
    let mut fg = simple_pipeline();
    assert!(fg.start().is_ok());
    assert!(fg.frozen);
}

#[test]
fn mutation_after_start_is_refused_without_change() {
    let mut fg = simple_pipeline();
    fg.start().expect("the pipeline is valid");
    let blocks_before = fg.blocks.len();
    let edges_before = fg.stream_edges.len();

    let add = fg.add_block(null_source("late".to_string(), ElementKind::U8));
    assert!(matches!(add, Err(FgError::Frozen)));
    let conn = fg.connect_stream(0, &"output".to_string(), 1, &"input".to_string());
    assert!(matches!(conn, Err(FgError::Frozen)));
    let msg = fg.connect_message(0, &"tx_out".to_string(), 1, &"rx".to_string());
    assert!(matches!(msg, Err(FgError::Frozen)));

    assert_eq!(fg.blocks.len(), blocks_before);
    assert_eq!(fg.stream_edges.len(), edges_before);
    let again = fg.start();
    assert!(matches!(again, Err(FgError::Frozen)));
}

#[test]
fn connecting_a_connected_input_is_refused() {
    let mut fg = Flowgraph::new();
    let a = fg.add_block(null_source("a".to_string(), ElementKind::U8)).unwrap();
    let b = fg.add_block(null_source("b".to_string(), ElementKind::U8)).unwrap();
    let snk = fg.add_block(null_sink("snk".to_string(), ElementKind::U8)).unwrap();
    fg.connect_stream(a, &"output".to_string(), snk, &"input".to_string()).unwrap();
    let edges_before = fg.stream_edges.len();
    let second = fg.connect_stream(b, &"output".to_string(), snk, &"input".to_string());
    assert!(matches!(second, Err(FgError::InputConnected { block: 2, port_index: 0 })));
    assert_eq!(fg.stream_edges.len(), edges_before);
}

#[test]
fn type_mismatch_is_reported_with_both_endpoints() {
    // A Complex32 output wired to an f32 input: start must fail and name
    // both ports.
    let mut fg = Flowgraph::new();
    let src = fg.add_block(null_source("iq".to_string(), ElementKind::Complex32)).unwrap();
    let snk = fg.add_block(null_sink("audio".to_string(), ElementKind::F32)).unwrap();
    fg.connect_stream(src, &"output".to_string(), snk, &"input".to_string()).unwrap();
    match fg.start() {
        Err(FgError::TypeMismatch {
            src_block,
            src_port,
            dst_block,
            dst_port,
            src_element,
            dst_element,
        }) => {
            assert_eq!(src_block, src);
            assert_eq!(dst_block, snk);
            assert_eq!(src_port, "output".to_string());
            assert_eq!(dst_port, "input".to_string());
            assert!(matches!(src_element, ElementKind::Complex32));
            assert!(matches!(dst_element, ElementKind::F32));
        },
        other => panic!("expected a type mismatch, got {:?}", other),
    }
    assert!(!fg.frozen);
}

#[test]
fn unconnected_input_is_refused_at_start() {
    let mut fg = Flowgraph::new();
    fg.add_block(null_sink("snk".to_string(), ElementKind::U8)).unwrap();
    match fg.start() {
        Err(FgError::InputNotConnected { block: 0, port_index: 0 }) => {},
        other => panic!("expected an unconnected input, got {:?}", other),
    }
}

#[test]
fn controller_off_zero_is_refused_at_start() {
    let mut fg = Flowgraph::new();
    let src = fg.add_block(null_source("src".to_string(), ElementKind::U8)).unwrap();
    let snk = fg.add_block(null_sink("snk".to_string(), ElementKind::U8)).unwrap();
    fg.connect_stream(src, &"output".to_string(), snk, &"input".to_string()).unwrap();
    let ctl = fg.add_block(controller_block("ctl".to_string())).unwrap();
    match fg.start() {
        Err(FgError::ControllerNotFirst { block }) => assert_eq!(block, ctl),
        other => panic!("expected a misplaced controller, got {:?}", other),
    }
}

#[test]
fn unknown_blocks_and_ports_are_refused() {
    let mut fg = Flowgraph::new();
    let src = fg.add_block(null_source("src".to_string(), ElementKind::U8)).unwrap();
    let snk = fg.add_block(null_sink("snk".to_string(), ElementKind::U8)).unwrap();
    let bad_block = fg.connect_stream(7, &"output".to_string(), snk, &"input".to_string());
    assert!(matches!(bad_block, Err(FgError::UnknownBlock { block: 7 })));
    let bad_port = fg.connect_stream(src, &"out".to_string(), snk, &"input".to_string());
    assert!(matches!(bad_port, Err(FgError::UnknownPort { block: 0, .. })));
}

#[test]
fn block_identifiers_are_dense_from_zero() {
    let mut fg = Flowgraph::new();
    let a = fg.add_block(null_source("a".to_string(), ElementKind::U8)).unwrap();
    let b = fg.add_block(null_source("b".to_string(), ElementKind::U8)).unwrap();
    let c = fg.add_block(null_sink("c".to_string(), ElementKind::U8)).unwrap();
    assert_eq!((a, b, c), (0, 1, 2));
}
