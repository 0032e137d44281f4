use std::collections::VecDeque;

use mesh::mac::packet::{MeshFrame, MeshHeader, BROADCAST};
use mesh::model::{Command, LogEntry, MsgDir, RadioState, SimMode, DEFAULT_INTERVAL_MS, SR_HZ};
use mesh::radio::{plan_tick, relay_for, LoopSchedule, BEACON_INTERVAL};

fn state() -> RadioState {
    RadioState {
        running: true,
        sf: 11,
        interval_ms: DEFAULT_INTERVAL_MS,
        mode: SimMode::Terminal,
        node_short: "TERM".to_owned(),
        node_long: "Mesh Terminal".to_owned(),
        tx_dest: BROADCAST,
        use_uhd: false,
        uhd_args: String::new(),
        uhd_warning: Some("old".to_owned()),
        auto_tx: true,
        tx_queue: Vec::new(),
        tx_count: 3,
        rx_count: 4,
        log: VecDeque::new(),
        rebuild_driver: false,
        rebuild_nodes: false,
    }
}

#[test]
fn commands_set_rebuild_flags() {
    let mut st = state();
    Command::SetSf(9).apply(&mut st);
    assert_eq!(st.sf, 9);
    assert!(!st.rebuild_nodes && !st.rebuild_driver);
    Command::SetUhdArgs("type=b200".to_owned()).apply(&mut st);
    assert_eq!(st.uhd_args, "type=b200");
    assert!(!st.rebuild_driver);
    Command::SetUhdFreqHz.apply(&mut st);
    assert!(!st.rebuild_driver);
    Command::SetUhdEnabled(true).apply(&mut st);
    assert!(st.use_uhd && st.rebuild_driver);
    assert!(st.uhd_warning.is_none());
    st.rebuild_driver = false;
    Command::SetUhdFreqHz.apply(&mut st);
    assert!(st.rebuild_driver);
    Command::SetNodeShort("NEW".to_owned()).apply(&mut st);
    assert!(st.rebuild_nodes);
    assert_eq!(st.node_short, "NEW");
    Command::SendText("one".to_owned()).apply(&mut st);
    Command::SendText("two".to_owned()).apply(&mut st);
    assert_eq!(st.tx_queue, vec!["one".to_owned(), "two".to_owned()]);
    st.log.push_back(LogEntry {
        time: String::new(),
        dir: MsgDir::Tx,
        text: String::new(),
        from_id: None,
        hops: None,
        self_origin: false,
    });
    Command::ResetStats.apply(&mut st);
    assert_eq!((st.tx_count, st.rx_count, st.log.len()), (0, 0, 0));
    Command::SetRunning(false).apply(&mut st);
    assert!(!st.running);
}

#[test]
fn listen_mode_transmits_nothing() {
    let mut st = state();
    Command::SendText("hello".to_owned()).apply(&mut st);
    Command::SetMode(SimMode::Listen).apply(&mut st);
    let mut sched = LoopSchedule::new();
    sched.advance(10 * SR_HZ);
    let plan = plan_tick(&mut st, &mut sched);
    assert_eq!(plan.rebuild_nodes.as_deref(), Some("Mode → Listen (RX only)"));
    assert!(!plan.beacon);
    assert!(plan.refresh_neighbours);
    assert!(plan.texts.is_empty());
    assert!(plan.auto_text.is_none());
    assert!(st.tx_queue.is_empty());
    assert!(!st.rebuild_nodes);
    let f = MeshFrame {
        header: MeshHeader { to: 1, from: 2, id: 3, hop_limit: 2, want_ack: false, via_mqtt: false, hop_start: 3, channel_hash: 0 },
        payload: vec![],
    };
    assert!(relay_for(SimMode::Listen, Some(f.clone())).is_none());
    assert!(relay_for(SimMode::Terminal, Some(f)).is_some());
}

#[test]
fn terminal_tick_sends_queue_beacon_and_auto_message() {
    let mut st = state();
    Command::SendText("a".to_owned()).apply(&mut st);
    Command::SendText("b".to_owned()).apply(&mut st);
    let mut sched = LoopSchedule::new();
    sched.advance(SR_HZ);
    let plan = plan_tick(&mut st, &mut sched);
    assert!(plan.rebuild_nodes.is_none());
    assert!(plan.beacon);
    assert_eq!(plan.texts, vec!["a".to_owned(), "b".to_owned()]);
    assert_eq!(plan.auto_text.as_deref(), Some("Test #1"));
    assert!(st.tx_queue.is_empty());
    assert_eq!(sched.next_beacon_at, SR_HZ + BEACON_INTERVAL);
    assert_eq!(sched.next_tx_at, SR_HZ + 2 * SR_HZ);
    // Nothing more is due right away.
    let again = plan_tick(&mut st, &mut sched);
    assert!(!again.beacon && again.texts.is_empty() && again.auto_text.is_none());
}

#[test]
fn paused_tick_does_nothing_and_driver_rebuild_restarts_clock() {
    let mut st = state();
    st.running = false;
    st.rebuild_driver = true;
    let mut sched = LoopSchedule::new();
    sched.advance(5 * SR_HZ);
    let plan = plan_tick(&mut st, &mut sched);
    assert!(!plan.rebuild_driver && !plan.beacon);
    assert!(st.rebuild_driver);
    assert_eq!(sched.produced, 5 * SR_HZ);
    st.running = true;
    let plan = plan_tick(&mut st, &mut sched);
    assert!(plan.rebuild_driver);
    assert!(!st.rebuild_driver);
    assert_eq!(sched.produced, 0);
    assert!(!plan.beacon);
}
