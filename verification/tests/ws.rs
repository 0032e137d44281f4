use mesh::mac::packet::BROADCAST;
use mesh::ws::{default_broadcast, WsCommand, WsEvent};

#[test]
fn send_text_defaults_to_broadcast() {
    assert_eq!(default_broadcast(), BROADCAST);
    assert_eq!(default_broadcast(), 0xFFFF_FFFF);
    let cmd = WsCommand::SendText { to: default_broadcast(), text: "hi".to_owned() };
    match cmd {
        WsCommand::SendText { to, text } => {
            assert_eq!(to, BROADCAST);
            assert_eq!(text, "hi");
        }
    }
    let ev = WsEvent::Tx { text: "hi".to_owned() };
    assert!(matches!(ev, WsEvent::Tx { .. }));
}
