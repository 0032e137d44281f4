use std::collections::VecDeque;

use mesh::mesh::node::NodeInfo;
use mesh::model::{LogEntry, MsgDir, SimMode, DEFAULT_INTERVAL_MS, SR_HZ};
use mesh::proto::Data;
use mesh::radio::{
    auto_tx_text, mode_log_text, neighbour_label, push_log, push_rx_label, rx_drain_len, tx_allowed,
    tx_log_text, LoopSchedule, BEACON_INTERVAL, MAX_LOG, MAX_RX_BUF,
};

fn entry(text: &str) -> LogEntry {
    LogEntry {
        time: "12:00:00".to_owned(),
        dir: MsgDir::System,
        text: text.to_owned(),
        from_id: None,
        hops: None,
        self_origin: false,
    }
}

#[test]
fn schedule_starts_with_beacon_before_message() {
    let s = LoopSchedule::new();
    assert_eq!(s.produced, 0);
    assert_eq!(s.next_beacon_at, SR_HZ / 2);
    assert_eq!(s.next_tx_at, SR_HZ);
    assert_eq!(s.prev_interval_ms, DEFAULT_INTERVAL_MS);
    assert_eq!(s.seq, 0);
}

#[test]
fn beacons_every_five_seconds_of_samples() {
    let mut s = LoopSchedule::new();
    assert!(!s.beacon_due());
    s.advance(SR_HZ / 2);
    assert!(s.beacon_due());
    assert_eq!(s.next_beacon_at, SR_HZ / 2 + BEACON_INTERVAL);
    assert!(!s.beacon_due());
    s.advance(BEACON_INTERVAL);
    assert!(s.beacon_due());
}

#[test]
fn auto_messages_follow_the_interval() {
    let mut s = LoopSchedule::new();
    assert_eq!(s.auto_tx_due(true, true, 2000), None);
    s.advance(SR_HZ);
    assert_eq!(s.auto_tx_due(true, false, 2000), None);
    assert_eq!(s.auto_tx_due(false, true, 2000), None);
    assert_eq!(s.auto_tx_due(true, true, 2000), Some(1));
    assert_eq!(s.next_tx_at, SR_HZ + 2 * SR_HZ);
    assert_eq!(s.auto_tx_due(true, true, 2000), None);
    s.advance(2 * SR_HZ);
    assert_eq!(s.auto_tx_due(true, true, 2000), Some(2));
}

#[test]
fn shorter_interval_brings_next_message_forward() {
    let mut s = LoopSchedule::new();
    s.advance(SR_HZ);
    assert_eq!(s.auto_tx_due(true, true, 10_000), Some(1));
    assert_eq!(s.next_tx_at, 11 * SR_HZ);
    s.set_interval(500);
    assert_eq!(s.prev_interval_ms, 500);
    assert_eq!(s.next_tx_at, SR_HZ + SR_HZ / 2);
    // A longer interval does not push it back.
    s.set_interval(60_000);
    assert_eq!(s.next_tx_at, SR_HZ + SR_HZ / 2);
    s.restart();
    assert_eq!((s.produced, s.next_tx_at, s.next_beacon_at, s.seq), (0, SR_HZ, SR_HZ / 2, 1));
}

#[test]
fn listen_mode_forbids_transmitting() {
    assert!(tx_allowed(SimMode::Terminal));
    assert!(!tx_allowed(SimMode::Listen));
    assert_eq!(mode_log_text(SimMode::Terminal), "Mode → Terminal");
    assert_eq!(mode_log_text(SimMode::Listen), "Mode → Listen (RX only)");
}

#[test]
fn log_and_label_texts() {
    assert_eq!(auto_tx_text(42), "Test #42");
    assert_eq!(auto_tx_text(0), "Test #0");
    assert_eq!(tx_log_text("hi there"), "\"hi there\"");
    let n = NodeInfo { node_id: 0xBEEF, short_name: "BF".to_owned(), long_name: String::new(), last_rssi: None };
    assert_eq!(neighbour_label(&n), "BF (!0000beef)");
    let mut s = String::new();
    let text = Data { portnum: 1, payload: b"yo".to_vec(), want_response: false, dest: 0, source: 0, request_id: 0 };
    push_rx_label(&mut s, &text);
    assert_eq!(s, "\"yo\"");
    let mut t = String::from("> ");
    let tele = Data { portnum: 67, payload: vec![0; 24], want_response: false, dest: 0, source: 0, request_id: 0 };
    push_rx_label(&mut t, &tele);
    assert_eq!(t, "> portnum=67 len=24");
    let mut u = String::new();
    let neg = Data { portnum: -5, payload: vec![], want_response: false, dest: 0, source: 0, request_id: 0 };
    push_rx_label(&mut u, &neg);
    assert_eq!(u, "portnum=-5 len=0");
}

#[test]
fn log_keeps_the_newest_entries() {
    let mut log = VecDeque::new();
    for i in 0..MAX_LOG {
        push_log(&mut log, entry(&i.to_string()));
    }
    assert_eq!(log.len(), MAX_LOG);
    assert_eq!(log.front().unwrap().text, "0");
    push_log(&mut log, entry("new"));
    assert_eq!(log.len(), MAX_LOG);
    assert_eq!(log.front().unwrap().text, "1");
    assert_eq!(log.back().unwrap().text, "new");
}

#[test]
fn rx_buffer_trim() {
    assert_eq!(rx_drain_len(0), 0);
    assert_eq!(rx_drain_len(MAX_RX_BUF), 0);
    assert_eq!(rx_drain_len(MAX_RX_BUF + 1), MAX_RX_BUF / 2 + 1);
}
