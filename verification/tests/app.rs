use mesh::app::{node_id_string, ChannelConfig, MeshNode, ProcessError};
use mesh::mac::crypto::MeshCrypto;
use mesh::mac::packet::{MeshFrame, MeshHeader, BROADCAST};
use mesh::proto::{Data, TEXT_MESSAGE_APP};

fn node(id: u32, short: &str, long: &str) -> MeshNode {
    MeshNode::with_id(ChannelConfig::default(), id, short, long)
}

#[test]
fn default_channel_hash() {
    // "LongFast" bytes sum to 798 = 30 mod 256; the public key ends in 0.
    let c = ChannelConfig::default();
    assert_eq!(c.name, "LongFast");
    assert_eq!(c.psk, MeshCrypto::public_psk());
    assert_eq!(c.channel_hash(), 30);
    let other = ChannelConfig { name: "AB".to_owned(), psk: [3u8; 32] };
    assert_eq!(other.channel_hash(), (65 + 66) ^ 3);
}

#[test]
fn node_id_text() {
    assert_eq!(node_id_string(0xDEADBEEF), "!deadbeef");
    assert_eq!(node_id_string(0x1F), "!0000001f");
}

#[test]
fn new_nodes_have_names_and_no_neighbours() {
    let n = MeshNode::with_identity(ChannelConfig::default(), "AB", "Alpha Beta");
    assert!(n.neighbours().is_empty());
    let m = MeshNode::new(ChannelConfig::default());
    assert!(m.neighbours().is_empty());
    let k = node(77, "K", "Kilo");
    assert_eq!(k.node_id(), 77);
}

#[test]
fn text_frame_reaches_other_node() {
    let a = node(0xA, "A", "Alpha");
    let mut b = node(0xB, "B", "Bravo");
    let f = a.build_text_frame(BROADCAST, "hello mesh").unwrap();
    assert_eq!(f.header.from, 0xA);
    assert_eq!(f.header.to, BROADCAST);
    assert_eq!(f.header.hop_limit, 3);
    assert_eq!(f.header.hop_start, 3);
    assert_eq!(f.header.channel_hash, 30);
    assert!(!f.header.via_mqtt);
    let raw = f.to_bytes();
    let (msg, fwd) = b.process_rx_frame(&raw).unwrap();
    let msg = msg.unwrap();
    assert_eq!(msg.from, 0xA);
    assert_eq!(msg.to, BROADCAST);
    assert_eq!(msg.hop_limit, 3);
    assert_eq!(msg.data.portnum, TEXT_MESSAGE_APP);
    assert_eq!(msg.data.text(), Some("hello mesh"));
    let fwd = fwd.unwrap();
    assert_eq!(fwd.header.hop_limit, 2);
    assert_eq!(fwd.payload, f.payload);
    // The same frame again is a duplicate.
    let (m2, f2) = b.process_rx_frame(&raw).unwrap();
    assert!(m2.is_none() && f2.is_none());
}

#[test]
fn body_is_encrypted_on_air() {
    let a = node(1, "A", "Alpha");
    let f = a.build_text_frame(2, "secret").unwrap();
    let plain = Data {
        portnum: TEXT_MESSAGE_APP,
        payload: b"secret".to_vec(),
        want_response: false,
        dest: 0,
        source: 0,
        request_id: 0,
    }
    .encode_to_vec();
    assert_eq!(f.payload.len(), plain.len());
    assert_ne!(f.payload, plain);
    let c = MeshCrypto::new(MeshCrypto::public_psk());
    assert_eq!(c.decrypt(f.header.id, 1, &f.payload), plain);
}

#[test]
fn build_frame_with_id_uses_given_id() {
    let a = node(1, "A", "Alpha");
    let d = Data { portnum: 3, payload: vec![1, 2], want_response: false, dest: 0, source: 0, request_id: 0 };
    let f = a.build_frame_with_id(9, &d, 1234).unwrap();
    assert_eq!(f.header.id, 1234);
    assert_eq!(f.header.to, 9);
    let g = a.build_frame(9, &d).unwrap();
    assert_eq!(g.payload.len(), f.payload.len());
}

#[test]
fn too_long_text_is_refused() {
    let a = node(1, "A", "Alpha");
    // portnum (2 bytes) + key and length (3 bytes) + body must fit in 237.
    assert!(a.build_text_frame(BROADCAST, &"x".repeat(232)).is_some());
    assert!(a.build_text_frame(BROADCAST, &"x".repeat(233)).is_none());
}

#[test]
fn unicast_for_other_node_is_relayed_only() {
    let a = node(1, "A", "Alpha");
    let mut b = node(2, "B", "Bravo");
    let f = a.build_text_frame(3, "for charlie").unwrap();
    let (msg, fwd) = b.process_rx_frame(&f.to_bytes()).unwrap();
    assert!(msg.is_none());
    assert_eq!(fwd.unwrap().header.hop_limit, 2);
}

#[test]
fn unicast_for_us_is_delivered() {
    let a = node(1, "A", "Alpha");
    let mut b = node(2, "B", "Bravo");
    let f = a.build_text_frame(2, "for bravo").unwrap();
    let (msg, fwd) = b.process_rx_frame(&f.to_bytes()).unwrap();
    assert_eq!(msg.unwrap().data.text(), Some("for bravo"));
    assert!(fwd.is_some());
}

#[test]
fn exhausted_frame_is_delivered_not_relayed() {
    let a = node(1, "A", "Alpha");
    let mut b = node(2, "B", "Bravo");
    let mut f = a.build_text_frame(BROADCAST, "last hop").unwrap();
    f.header.hop_limit = 0;
    let (msg, fwd) = b.process_rx_frame(&f.to_bytes()).unwrap();
    assert_eq!(msg.unwrap().hop_limit, 0);
    assert!(fwd.is_none());
}

#[test]
fn short_frame_is_malformed() {
    let mut b = node(2, "B", "Bravo");
    let e = b.process_rx_frame(&[0u8; 15]).unwrap_err();
    assert!(matches!(e, ProcessError::Malformed));
    assert_eq!(e.to_string(), "malformed frame");
}

#[test]
fn other_channel_is_refused() {
    let a = MeshNode::with_id(ChannelConfig { name: "Private".to_owned(), psk: [5u8; 32] }, 1, "A", "Alpha");
    let mut b = node(2, "B", "Bravo");
    let f = a.build_text_frame(BROADCAST, "hi").unwrap();
    let e = b.process_rx_frame(&f.to_bytes()).unwrap_err();
    assert!(matches!(e, ProcessError::WrongChannel));
    assert_eq!(e.to_string(), "wrong channel");
}

#[test]
fn undecodable_body_is_proto_error() {
    let mut b = node(2, "B", "Bravo");
    let c = MeshCrypto::new(MeshCrypto::public_psk());
    let header = MeshHeader {
        to: BROADCAST,
        from: 1,
        id: 55,
        hop_limit: 3,
        want_ack: false,
        via_mqtt: false,
        hop_start: 3,
        channel_hash: 30,
    };
    let f = MeshFrame { header, payload: c.encrypt(55, 1, &[0x08]) };
    let e = b.process_rx_frame(&f.to_bytes()).unwrap_err();
    assert!(matches!(e, ProcessError::Proto(_)));
    assert!(e.to_string().starts_with("proto decode: "));
}

#[test]
fn beacon_fills_neighbour_table() {
    let a = node(0xAABBCCDD, "AB", "Alpha Beta");
    let mut b = node(2, "B", "Bravo");
    let f = a.build_nodeinfo_frame().unwrap();
    assert_eq!(f.header.to, BROADCAST);
    let (msg, _) = b.process_rx_frame(&f.to_bytes()).unwrap();
    let msg = msg.unwrap();
    let user = msg.data.decode_user().unwrap();
    assert_eq!(user.id, "!aabbccdd");
    assert_eq!(user.short_name, "AB");
    assert_eq!(user.long_name, "Alpha Beta");
    let ns = b.neighbours();
    assert_eq!(ns.len(), 1);
    assert_eq!(ns[0].node_id, 0xAABBCCDD);
    assert_eq!(ns[0].short_name, "AB");
    assert_eq!(ns[0].long_name, "Alpha Beta");
    assert_eq!(ns[0].last_rssi, None);
}

#[test]
fn later_beacon_replaces_entry() {
    let a1 = node(7, "A1", "First");
    let a2 = node(7, "A2", "Second");
    let c = node(8, "C", "Charlie");
    let mut b = node(2, "B", "Bravo");
    b.process_rx_frame(&a1.build_nodeinfo_frame().unwrap().to_bytes()).unwrap();
    b.process_rx_frame(&c.build_nodeinfo_frame().unwrap().to_bytes()).unwrap();
    b.process_rx_frame(&a2.build_nodeinfo_frame().unwrap().to_bytes()).unwrap();
    let mut ns = b.neighbours();
    ns.sort_by_key(|n| n.node_id);
    assert_eq!(ns.len(), 2);
    assert_eq!(ns[0].short_name, "A2");
    assert_eq!(ns[0].long_name, "Second");
    assert_eq!(ns[1].short_name, "C");
}

#[test]
fn message_crosses_two_hops() {
    // A -> B -> C, as in the flooding walkthrough.
    let a = node(0xA, "A", "Alpha");
    let mut b = node(0xB, "B", "Bravo");
    let mut c = node(0xC, "C", "Charlie");
    let f = a.build_text_frame(BROADCAST, "relay me").unwrap();
    let (mb, fb) = b.process_rx_frame(&f.to_bytes()).unwrap();
    assert_eq!(mb.unwrap().hop_limit, 3);
    let relayed = fb.unwrap();
    assert_eq!(relayed.header.hop_limit, 2);
    let (mc, fc) = c.process_rx_frame(&relayed.to_bytes()).unwrap();
    let mc = mc.unwrap();
    assert_eq!(mc.from, 0xA);
    assert_eq!(mc.hop_limit, 2);
    assert_eq!(mc.data.text(), Some("relay me"));
    assert_eq!(fc.unwrap().header.hop_limit, 1);
    // The original arriving later at C is a duplicate.
    let (m2, f2) = c.process_rx_frame(&f.to_bytes()).unwrap();
    assert!(m2.is_none() && f2.is_none());
}

#[test]
fn own_frame_loops_back() {
    // In the simulated channel a node hears its own transmission.
    let mut n = node(0xA1B2C3D4, "MRST", "meshtastic-rs");
    let f = n.build_text_frame(BROADCAST, "hello from terminal 1").unwrap();
    let (msg, _) = n.process_rx_frame(&f.to_bytes()).unwrap();
    let msg = msg.unwrap();
    assert_eq!(node_id_string(msg.from), "!a1b2c3d4");
    assert_eq!(msg.data.text(), Some("hello from terminal 1"));
    assert_eq!(msg.hop_limit, 3);
}

#[test]
fn same_key_other_channel_name_is_refused_on_air() {
    let a = MeshNode::with_id(
        ChannelConfig { name: "Other".to_owned(), psk: MeshCrypto::public_psk() },
        1,
        "A",
        "Alpha",
    );
    let mut b = node(2, "B", "Bravo");
    let f = a.build_text_frame(BROADCAST, "hi").unwrap();
    assert!(matches!(b.process_rx_frame(&f.to_bytes()), Err(ProcessError::WrongChannel)));
}

#[test]
fn repeated_beacons_list_sender_once() {
    let a = node(0x51, "S", "Sender");
    let mut b = node(0x52, "R", "Receiver");
    for _ in 0..3 {
        b.process_rx_frame(&a.build_nodeinfo_frame().unwrap().to_bytes()).unwrap();
    }
    let ns = b.neighbours();
    assert_eq!(ns.iter().filter(|n| n.node_id == 0x51).count(), 1);
    assert_eq!(ns.len(), 1);
}
