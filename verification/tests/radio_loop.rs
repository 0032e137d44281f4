use std::collections::VecDeque;

use mesh::app::{ChannelConfig, MeshNode, ProcessError};
use mesh::mac::packet::BROADCAST;
use mesh::model::{apply_commands, startup_commands, Command, LogEntry, MsgDir, RadioState, SimMode, DEFAULT_INTERVAL_MS, SR_HZ};
use mesh::radio::{plan_tick, push_log, run_tick, rx_action, LoopSchedule, MAX_LOG};
use mesh::serial::{encode, StreamDecoder};

fn radio_state() -> RadioState {
    RadioState {
        running: true,
        sf: 11,
        interval_ms: DEFAULT_INTERVAL_MS,
        mode: SimMode::Terminal,
        node_short: "TERM".to_owned(),
        node_long: "Mesh Terminal".to_owned(),
        tx_dest: BROADCAST,
        use_uhd: false,
        uhd_args: String::new(),
        uhd_warning: None,
        auto_tx: true,
        tx_queue: Vec::new(),
        tx_count: 0,
        rx_count: 0,
        log: VecDeque::new(),
        rebuild_driver: false,
        rebuild_nodes: false,
    }
}

fn log_line(text: &str) -> LogEntry {
    LogEntry { time: "00:00:00".to_owned(), dir: MsgDir::System, text: text.to_owned(), from_id: None, hops: None, self_origin: false }
}

#[test]
fn startup_with_sdr_listens_without_auto_messages() {
    let cmds = startup_commands(true);
    assert_eq!(cmds.len(), 2);
    assert!(matches!(cmds[0], Command::SetAutoTx(false)));
    assert!(matches!(cmds[1], Command::SetMode(SimMode::Listen)));
    assert!(startup_commands(false).is_empty());
    let mut st = radio_state();
    apply_commands(&mut st, startup_commands(true));
    assert!(!st.auto_tx);
    assert_eq!(st.mode, SimMode::Listen);
    assert!(st.rebuild_nodes);
}

#[test]
fn commands_apply_in_order() {
    let mut st = radio_state();
    apply_commands(&mut st, vec![Command::SetTxDest(5), Command::SendText("a".to_owned()), Command::SetTxDest(6), Command::SendText("b".to_owned())]);
    assert_eq!(st.tx_dest, 6);
    assert_eq!(st.tx_queue, vec!["a".to_owned(), "b".to_owned()]);
}

#[test]
fn paused_loop_still_applies_commands() {
    let mut st = radio_state();
    st.running = false;
    let mut sched = LoopSchedule::new();
    sched.advance(5 * SR_HZ);
    let plan = run_tick(&mut st, &mut sched, vec![Command::SetTxDest(9), Command::SendText("x".to_owned())]);
    assert!(!plan.beacon && plan.texts.is_empty() && plan.auto_text.is_none());
    assert_eq!(st.tx_dest, 9);
    assert_eq!(st.tx_queue, vec!["x".to_owned()]);
    assert_eq!(sched.produced, 5 * SR_HZ);
    // Setting it running takes effect within the same iteration.
    let plan = run_tick(&mut st, &mut sched, vec![Command::SetRunning(true)]);
    assert!(st.running);
    assert_eq!(plan.texts, vec!["x".to_owned()]);
    assert!(plan.beacon);
    assert_eq!(plan.auto_text.as_deref(), Some("Test #1"));
}

#[test]
fn paused_tick_ignores_exhausted_message_numbers() {
    let mut st = radio_state();
    st.running = false;
    let mut sched = LoopSchedule::new();
    sched.seq = u32::MAX;
    let plan = plan_tick(&mut st, &mut sched);
    assert!(plan.auto_text.is_none());
    assert_eq!(sched.seq, u32::MAX);
}

#[test]
fn listen_mode_logs_but_does_not_relay() {
    let ch = ChannelConfig::default();
    let a = MeshNode::with_id(ch.clone(), 0x0a, "A", "Alpha");
    let mut b = MeshNode::with_id(ch, 0x0b, "B", "Bravo");
    let f = a.build_text_frame(BROADCAST, "hello").unwrap();
    let r = b.process_rx_frame(&f.to_bytes());
    let act = rx_action(SimMode::Listen, r);
    assert!(act.counted);
    assert_eq!(act.label.as_deref(), Some("\"hello\""));
    assert!(act.error.is_none());
    assert!(act.relay.is_none());

    let mut c = MeshNode::with_id(ChannelConfig::default(), 0x0c, "C", "Charlie");
    let act = rx_action(SimMode::Terminal, c.process_rx_frame(&f.to_bytes()));
    assert!(act.counted);
    assert_eq!(act.relay.unwrap().header.hop_limit, 2);
}

#[test]
fn refused_frame_is_an_error_action() {
    let mut b = MeshNode::with_id(ChannelConfig::default(), 0x0b, "B", "Bravo");
    let act = rx_action(SimMode::Terminal, b.process_rx_frame(&[1, 2, 3]));
    assert!(!act.counted && act.label.is_none() && act.relay.is_none());
    assert!(matches!(act.error, Some(ProcessError::Malformed)));
}

#[test]
fn log_drops_oldest_past_limit() {
    let mut log: VecDeque<LogEntry> = VecDeque::new();
    for i in 0..(MAX_LOG + 5) {
        push_log(&mut log, log_line(&i.to_string()));
    }
    assert_eq!(log.len(), MAX_LOG);
    assert_eq!(log.front().unwrap().text, "5");
    assert_eq!(log.back().unwrap().text, (MAX_LOG + 4).to_string());
    // A log that is already over the limit loses one entry per push.
    let mut long: VecDeque<LogEntry> = (0..(MAX_LOG + 3)).map(|i| log_line(&i.to_string())).collect();
    push_log(&mut long, log_line("new"));
    assert_eq!(long.len(), MAX_LOG + 3);
    assert_eq!(long.front().unwrap().text, "1");
}

#[test]
fn stream_of_frames_with_magic_inside_payloads() {
    let payloads: Vec<Vec<u8>> = vec![vec![0x94, 0xC3, 0x00, 0x01], vec![0x01], vec![0x94; 300]];
    let mut bytes = Vec::new();
    for p in &payloads {
        bytes.extend_from_slice(&encode(p).unwrap());
    }
    let mut dec = StreamDecoder::new();
    dec.push(&bytes);
    for p in &payloads {
        assert_eq!(&dec.next_frame().unwrap(), p);
    }
    assert!(dec.next_frame().is_none());
}
