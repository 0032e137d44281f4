use mesh::app::{ChannelConfig, MeshMessage, MeshNode};
use mesh::host::{
    config_messages, handle_to_radio, msg_to_from_radio, rx_line, tx_line, FIRMWARE_VERSION, MAX_CHANNELS,
};
use mesh::mac::packet::BROADCAST;
use mesh::proto::radio::{from_radio, mesh_packet, to_radio, MeshPacket, ToRadio};
use mesh::proto::Data;

fn data(text: &str) -> Data {
    Data { portnum: 1, payload: text.as_bytes().to_vec(), want_response: false, dest: 0, source: 0, request_id: 0 }
}

fn to_radio_packet(to: u32, payload: Option<mesh_packet::PayloadVariant>) -> ToRadio {
    ToRadio {
        payload_variant: Some(to_radio::PayloadVariant::Packet(MeshPacket {
            from: 0,
            to,
            channel: 0,
            id: 0,
            rx_time: 0,
            hop_limit: 3,
            want_ack: false,
            rx_rssi: 0,
            payload_variant: payload,
        })),
    }
}

#[test]
fn message_becomes_from_radio_packet() {
    let msg = MeshMessage { from: 5, to: BROADCAST, data: data("yo"), hop_limit: 2 };
    let mut seq = 41;
    let fr = msg_to_from_radio(&msg, &mut seq);
    assert_eq!(seq, 42);
    assert_eq!(fr.id, 42);
    match fr.payload_variant {
        Some(from_radio::PayloadVariant::Packet(p)) => {
            assert_eq!(p.from, 5);
            assert_eq!(p.to, BROADCAST);
            assert_eq!(p.hop_limit, 2);
            assert_eq!((p.id, p.channel, p.rx_time, p.rx_rssi, p.want_ack), (0, 0, 0, 0, false));
            match p.payload_variant {
                Some(mesh_packet::PayloadVariant::Decoded(d)) => assert_eq!(d, data("yo")),
                _ => panic!("expected decoded payload"),
            }
        }
        _ => panic!("expected packet"),
    }
}

#[test]
fn config_dump_lists_self_and_neighbours() {
    let a = MeshNode::with_id(ChannelConfig::default(), 0x11, "A", "Alpha");
    let mut me = MeshNode::with_id(ChannelConfig::default(), 0x22, "ME", "Myself");
    me.process_rx_frame(&a.build_nodeinfo_frame().unwrap().to_bytes()).unwrap();
    let mut seq = 10;
    let msgs = config_messages(&me, "ME", "Myself", 777, &mut seq);
    assert_eq!(msgs.len(), 4);
    assert_eq!(seq, 14);
    let ids: Vec<u32> = msgs.iter().map(|m| m.id).collect();
    assert_eq!(ids, vec![11, 12, 13, 14]);
    match &msgs[0].payload_variant {
        Some(from_radio::PayloadVariant::MyInfo(mi)) => {
            assert_eq!(mi.my_node_num, 0x22);
            assert_eq!(mi.max_channels, MAX_CHANNELS);
            assert_eq!(mi.max_channels, 8);
            assert_eq!(mi.firmware_version, FIRMWARE_VERSION);
            assert_eq!(mi.firmware_version, "meshtastic-rs 0.1.0");
        }
        _ => panic!("expected MyInfo"),
    }
    match &msgs[1].payload_variant {
        Some(from_radio::PayloadVariant::NodeInfo(ni)) => {
            assert_eq!(ni.num, 0x22);
            let u = ni.user.as_ref().unwrap();
            assert_eq!(u.id, "!00000022");
            assert_eq!(u.short_name, "ME");
            assert_eq!(u.long_name, "Myself");
            assert!(u.macaddr.is_empty());
        }
        _ => panic!("expected own NodeInfo"),
    }
    match &msgs[2].payload_variant {
        Some(from_radio::PayloadVariant::NodeInfo(ni)) => {
            assert_eq!(ni.num, 0x11);
            let u = ni.user.as_ref().unwrap();
            assert_eq!(u.id, "!00000011");
            assert_eq!(u.short_name, "A");
            assert_eq!(u.long_name, "Alpha");
        }
        _ => panic!("expected neighbour NodeInfo"),
    }
    assert!(matches!(msgs[3].payload_variant, Some(from_radio::PayloadVariant::ConfigCompleteId(777))));
}

#[test]
fn to_radio_config_request() {
    let me = MeshNode::with_id(ChannelConfig::default(), 3, "ME", "Myself");
    let mut seq = 0;
    let req = ToRadio { payload_variant: Some(to_radio::PayloadVariant::WantConfigId(5)) };
    let (replies, frame) = handle_to_radio(&req, &me, "ME", "Myself", &mut seq);
    assert!(frame.is_none());
    assert_eq!(replies.len(), 3);
    assert_eq!(seq, 3);
    assert!(matches!(replies[2].payload_variant, Some(from_radio::PayloadVariant::ConfigCompleteId(5))));
}

#[test]
fn to_radio_packet_is_transmitted() {
    let me = MeshNode::with_id(ChannelConfig::default(), 3, "ME", "Myself");
    let mut seq = 9;
    let req = to_radio_packet(0, Some(mesh_packet::PayloadVariant::Decoded(data("hi all"))));
    let (replies, frame) = handle_to_radio(&req, &me, "ME", "Myself", &mut seq);
    assert!(replies.is_empty());
    assert_eq!(seq, 9);
    let f = frame.unwrap();
    assert_eq!(f.header.to, BROADCAST);
    assert_eq!(f.header.from, 3);
    let mut other = MeshNode::with_id(ChannelConfig::default(), 4, "O", "Other");
    let (msg, _) = other.process_rx_frame(&f.to_bytes()).unwrap();
    assert_eq!(msg.unwrap().data.text(), Some("hi all"));

    let req = to_radio_packet(4, Some(mesh_packet::PayloadVariant::Decoded(data("just you"))));
    let (_, frame) = handle_to_radio(&req, &me, "ME", "Myself", &mut seq);
    assert_eq!(frame.unwrap().header.to, 4);
}

#[test]
fn to_radio_other_requests_are_ignored() {
    let me = MeshNode::with_id(ChannelConfig::default(), 3, "ME", "Myself");
    let mut seq = 1;
    let enc = to_radio_packet(0, Some(mesh_packet::PayloadVariant::Encrypted(vec![1, 2])));
    let (r, f) = handle_to_radio(&enc, &me, "ME", "Myself", &mut seq);
    assert!(r.is_empty() && f.is_none());
    let bare = to_radio_packet(0, None);
    let (r, f) = handle_to_radio(&bare, &me, "ME", "Myself", &mut seq);
    assert!(r.is_empty() && f.is_none());
    let none = ToRadio { payload_variant: None };
    let (r, f) = handle_to_radio(&none, &me, "ME", "Myself", &mut seq);
    assert!(r.is_empty() && f.is_none());
    assert_eq!(seq, 1);
    let big = to_radio_packet(0, Some(mesh_packet::PayloadVariant::Decoded(data(&"x".repeat(300)))));
    let (r, f) = handle_to_radio(&big, &me, "ME", "Myself", &mut seq);
    assert!(r.is_empty() && f.is_none());
}

#[test]
fn text_mode_lines() {
    let text = MeshMessage { from: 0xA1B2C3D4, to: BROADCAST, data: data("hello from terminal 1"), hop_limit: 3 };
    assert_eq!(rx_line(&text), "[RX] !a1b2c3d4: \"hello from terminal 1\"  (hops=3)");
    let other = MeshMessage {
        from: 0xCCDD5678,
        to: BROADCAST,
        data: Data { portnum: 67, payload: vec![0; 24], want_response: false, dest: 0, source: 0, request_id: 0 },
        hop_limit: 1,
    };
    assert_eq!(rx_line(&other), "[RX] !ccdd5678: portnum=67 len=24");
    assert_eq!(tx_line("hello from terminal 1"), "[TX] \"hello from terminal 1\"");
}
