use flowrt::flowgraph::ElementKind;
use flowrt::flowgraph::Flowgraph;
use flowrt::kernel::controller_block;
use flowrt::kernel::echo_block;
use flowrt::kernel::message_sink_block;
use flowrt::kernel::null_sink;
use flowrt::kernel::null_source;
use flowrt::kernel::repeater;
use flowrt::pmt::Pmt;
use flowrt::pmt::pmt_eq;
use flowrt::runtime::CallError;
use flowrt::runtime::Runtime;

fn started_pipeline() -> Flowgraph {
    let mut fg = Flowgraph::new();
    let src = fg.add_block(null_source("src".to_string(), ElementKind::U8)).unwrap();
    let snk = fg.add_block(null_sink("snk".to_string(), ElementKind::U8)).unwrap();
    fg.connect_stream(src, &"output".to_string(), snk, &"input".to_string()).unwrap();
    fg.start().expect("the pipeline is valid");
    fg
}

fn run_rounds(rt: &mut Runtime, rounds: usize) {
    let blocks = rt.description().blocks.len();
    for _ in 0..rounds {
        for b in 0..blocks {
            rt.step_block(b);
        }
    }
}

#[test]
fn pass_through_conserves_every_sample() {
    // A null source feeding a null sink: run, terminate, drain.  Afterwards
    // the consumed count equals the committed count and work happened.
    let mut rt = Runtime::launch(started_pipeline(), 16);
    run_rounds(&mut rt, 100);
    rt.terminate_and_wait();
    let committed = rt.edge_committed(0);
    let consumed = rt.edge_consumed(0);
    assert!(committed > 0);
    assert_eq!(committed, consumed);
}

#[test]
fn consumer_never_overtakes_producer() {
    let mut rt = Runtime::launch(started_pipeline(), 16);
    for _ in 0..50 {
        for b in 0..2 {
            rt.step_block(b);
            assert!(rt.edge_consumed(0) <= rt.edge_committed(0));
        }
    }
}

#[test]
fn producer_throttles_at_the_buffer_bound() {
    // Step only the producer: its lead over the consumer stops at the
    // capacity, which is the back-pressure bound.
    let mut rt = Runtime::launch(started_pipeline(), 4);
    for _ in 0..64 {
        rt.step_block(0);
        assert!(rt.edge_committed(0) - rt.edge_consumed(0) <= 4);
    }
    assert_eq!(rt.edge_committed(0), 4);
    // Once the consumer drains one, the producer may commit one more.
    rt.step_block(1);
    rt.step_block(0);
    assert_eq!(rt.edge_committed(0), 5);
    assert_eq!(rt.edge_consumed(0), 1);
}

#[test]
fn repeater_moves_samples_in_order() {
    let mut fg = Flowgraph::new();
    let src = fg.add_block(null_source("src".to_string(), ElementKind::U32)).unwrap();
    let mid = fg.add_block(repeater("mid".to_string(), ElementKind::U32)).unwrap();
    let snk = fg.add_block(null_sink("snk".to_string(), ElementKind::U32)).unwrap();
    fg.connect_stream(src, &"output".to_string(), mid, &"input".to_string()).unwrap();
    fg.connect_stream(mid, &"output".to_string(), snk, &"input".to_string()).unwrap();
    fg.start().unwrap();
    let mut rt = Runtime::launch(fg, 8);
    run_rounds(&mut rt, 50);
    rt.terminate_and_wait();
    assert!(rt.edge_committed(1) > 0);
    assert_eq!(rt.edge_committed(0), rt.edge_consumed(0));
    assert_eq!(rt.edge_committed(1), rt.edge_consumed(1));
}

#[test]
fn echo_call_returns_the_value_sent() {
    let mut fg = Flowgraph::new();
    let echo = fg.add_block(echo_block("echo".to_string())).unwrap();
    fg.start().unwrap();
    let mut rt = Runtime::launch(fg, 16);
    let reply = rt.call(echo, &"ping".to_string(), Pmt::U64(42)).expect("the port exists");
    assert!(pmt_eq(&reply, &Pmt::U64(42)));
}

#[test]
fn terminate_and_wait_exits_every_task_and_refuses_calls() {
    let mut fg = Flowgraph::new();
    let echo = fg.add_block(echo_block("echo".to_string())).unwrap();
    fg.start().unwrap();
    let mut rt = Runtime::launch(fg, 16);
    assert!(rt.call(echo, &"ping".to_string(), Pmt::Null).is_ok());
    rt.terminate_and_wait();
    for task in &rt.tasks {
        assert!(task.exited);
    }
    let refused = rt.call(echo, &"ping".to_string(), Pmt::Null);
    assert!(matches!(refused, Err(CallError::Terminated)));
}

#[test]
fn tasks_exit_at_their_next_wake_after_terminate() {
    let mut rt = Runtime::launch(started_pipeline(), 16);
    rt.step_block(0);
    assert!(!rt.tasks[0].exited);
    rt.terminate();
    rt.step_block(0);
    rt.step_block(1);
    assert!(rt.tasks[0].exited);
    assert!(rt.tasks[1].exited);
}

#[test]
fn unknown_targets_are_refused() {
    let mut fg = Flowgraph::new();
    fg.add_block(echo_block("echo".to_string())).unwrap();
    fg.start().unwrap();
    let mut rt = Runtime::launch(fg, 16);
    let no_block = rt.call(5, &"ping".to_string(), Pmt::Null);
    assert!(matches!(no_block, Err(CallError::UnknownBlock { block: 5 })));
    let no_port = rt.call(0, &"pong".to_string(), Pmt::Null);
    assert!(matches!(no_port, Err(CallError::UnknownPort { block: 0, .. })));
}

#[test]
fn controller_forwards_tx_to_every_subscriber() {
    let mut fg = Flowgraph::new();
    let ctl = fg.add_block(controller_block("ctl".to_string())).unwrap();
    let sink_a = fg.add_block(message_sink_block("a".to_string())).unwrap();
    let sink_b = fg.add_block(message_sink_block("b".to_string())).unwrap();
    fg.connect_message(ctl, &"tx_out".to_string(), sink_a, &"in".to_string()).unwrap();
    fg.connect_message(ctl, &"tx_out".to_string(), sink_b, &"in".to_string()).unwrap();
    fg.start().unwrap();
    let mut rt = Runtime::launch(fg, 16);

    let reply = rt.call(ctl, &"tx".to_string(), Pmt::U32(7)).expect("tx exists");
    assert!(pmt_eq(&reply, &Pmt::Okay));
    let got_a = rt.take_message(sink_a, 0).expect("the first subscriber got a copy");
    let got_b = rt.take_message(sink_b, 0).expect("the second subscriber got a copy");
    assert!(pmt_eq(&got_a, &Pmt::U32(7)));
    assert!(pmt_eq(&got_b, &Pmt::U32(7)));
    assert!(rt.take_message(sink_a, 0).is_none());
}

#[test]
fn messages_arrive_in_post_order() {
    let mut fg = Flowgraph::new();
    let ctl = fg.add_block(controller_block("ctl".to_string())).unwrap();
    let sink = fg.add_block(message_sink_block("s".to_string())).unwrap();
    fg.connect_message(ctl, &"rx_out".to_string(), sink, &"in".to_string()).unwrap();
    fg.start().unwrap();
    let mut rt = Runtime::launch(fg, 16);

    for k in 0..5u32 {
        rt.call(ctl, &"rx".to_string(), Pmt::U32(k)).expect("rx exists");
    }
    for k in 0..5u32 {
        let got = rt.take_message(sink, 0).expect("five messages wait");
        assert!(pmt_eq(&got, &Pmt::U32(k)));
    }
}

#[test]
fn control_records_a_reload_request() {
    let mut fg = Flowgraph::new();
    let ctl = fg.add_block(controller_block("ctl".to_string())).unwrap();
    fg.start().unwrap();
    let mut rt = Runtime::launch(fg, 16);

    let reply = rt
        .call(ctl, &"control".to_string(), Pmt::Text("next.toml".to_string()))
        .expect("control exists");
    assert!(pmt_eq(&reply, &Pmt::Okay));
    assert_eq!(rt.reload_requests.len(), 1);
    assert_eq!(rt.reload_requests[0], "next.toml".to_string());

    let bad = rt.call(ctl, &"control".to_string(), Pmt::U32(1)).expect("control exists");
    assert!(pmt_eq(&bad, &Pmt::Text("control expects a configuration path".to_string())));
    assert_eq!(rt.reload_requests.len(), 1);
}
