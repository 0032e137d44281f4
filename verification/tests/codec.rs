use mesh::proto::radio::{from_radio, mesh_packet, to_radio, FromRadio, MeshPacket, MyNodeInfo, NodeInfoProto, ToRadio};
use mesh::proto::service_envelope::ServiceEnvelope;
use mesh::proto::{Data, User, TEXT_MESSAGE_APP};

fn hi_data() -> Data {
    Data { portnum: TEXT_MESSAGE_APP, payload: b"hi".to_vec(), want_response: false, dest: 0, source: 0, request_id: 0 }
}

fn packet() -> MeshPacket {
    MeshPacket {
        from: 1,
        to: 2,
        channel: 0,
        id: 3,
        rx_time: 0x0102_0304,
        hop_limit: 3,
        want_ack: true,
        rx_rssi: -1,
        payload_variant: Some(mesh_packet::PayloadVariant::Decoded(hi_data())),
    }
}

fn packet_bytes() -> Vec<u8> {
    let mut v = vec![0x08, 0x01, 0x10, 0x02];
    v.extend_from_slice(&[0x22, 0x06, 0x08, 0x01, 0x12, 0x02, b'h', b'i']);
    v.extend_from_slice(&[0x30, 0x03]);
    v.extend_from_slice(&[0x3d, 0x04, 0x03, 0x02, 0x01]);
    v.extend_from_slice(&[0x50, 0x03, 0x58, 0x01]);
    v.extend_from_slice(&[0x68, 0xff, 0xff, 0xff, 0xff, 0xff, 0xff, 0xff, 0xff, 0xff, 0x01]);
    v
}

fn assert_is_packet(p: &MeshPacket) {
    assert_eq!((p.from, p.to, p.channel, p.id), (1, 2, 0, 3));
    assert_eq!(p.rx_time, 0x0102_0304);
    assert_eq!(p.hop_limit, 3);
    assert!(p.want_ack);
    assert_eq!(p.rx_rssi, -1);
    match &p.payload_variant {
        Some(mesh_packet::PayloadVariant::Decoded(d)) => assert_eq!(d, &hi_data()),
        _ => panic!("expected a decoded payload"),
    }
}

#[test]
fn mesh_packet_encodes_in_tag_order() {
    assert_eq!(packet().encode_to_vec(), packet_bytes());
}

#[test]
fn mesh_packet_round_trip() {
    let p = MeshPacket::decode(&packet_bytes()).unwrap();
    assert_is_packet(&p);
}

#[test]
fn mesh_packet_default_encodes_empty() {
    assert!(MeshPacket::empty().encode_to_vec().is_empty());
    let p = MeshPacket::decode(&[]).unwrap();
    assert_eq!((p.from, p.to, p.id, p.rx_rssi), (0, 0, 0, 0));
    assert!(p.payload_variant.is_none());
}

#[test]
fn mesh_packet_encrypted_payload() {
    let mut p = MeshPacket::empty();
    p.payload_variant = Some(mesh_packet::PayloadVariant::Encrypted(vec![0xAA, 0xBB]));
    let bytes = p.encode_to_vec();
    assert_eq!(bytes, vec![0x2a, 0x02, 0xAA, 0xBB]);
    match MeshPacket::decode(&bytes).unwrap().payload_variant {
        Some(mesh_packet::PayloadVariant::Encrypted(b)) => assert_eq!(b, vec![0xAA, 0xBB]),
        _ => panic!("expected encrypted bytes"),
    }
}

#[test]
fn mesh_packet_skips_snr_float() {
    // rx_snr (tag 8, fixed32 float 1.0) is read and dropped.
    let mut bytes = vec![0x45, 0x00, 0x00, 0x80, 0x3f];
    bytes.extend_from_slice(&[0x08, 0x07]);
    let p = MeshPacket::decode(&bytes).unwrap();
    assert_eq!(p.from, 7);
}

#[test]
fn mesh_packet_decode_errors() {
    // truncated fixed32
    assert!(MeshPacket::decode(&[0x3d, 0x01, 0x02]).is_err());
    // length past the end
    assert!(MeshPacket::decode(&[0x22, 0x05, 0x08]).is_err());
    // field number 0
    assert!(MeshPacket::decode(&[0x00, 0x01]).is_err());
}

#[test]
fn from_radio_config_complete() {
    let f = FromRadio { id: 1, payload_variant: Some(from_radio::PayloadVariant::ConfigCompleteId(5)) };
    assert_eq!(f.encode_to_vec(), vec![0x08, 0x01, 0x40, 0x05]);
}

#[test]
fn from_radio_carries_packet_and_infos() {
    let f = FromRadio { id: 2, payload_variant: Some(from_radio::PayloadVariant::Packet(packet())) };
    let mut expected = vec![0x08, 0x02, 0x12, packet_bytes().len() as u8];
    expected.extend_from_slice(&packet_bytes());
    assert_eq!(f.encode_to_vec(), expected);

    let m = MyNodeInfo { my_node_num: 0x10, max_channels: 8, firmware_version: "1.0".to_owned() };
    assert_eq!(m.encode_to_vec(), vec![0x08, 0x10, 0x38, 0x08, 0x42, 0x03, b'1', b'.', b'0']);
    let f = FromRadio { id: 0, payload_variant: Some(from_radio::PayloadVariant::MyInfo(m)) };
    assert_eq!(f.encode_to_vec()[..2], [0x1a, 0x09]);

    let n = NodeInfoProto { num: 3, user: None, last_heard: 0x0a0b0c0d };
    assert_eq!(n.encode_to_vec(), vec![0x08, 0x03, 0x2d, 0x0d, 0x0c, 0x0b, 0x0a]);
    let n = NodeInfoProto {
        num: 0,
        user: Some(User { id: "!1".to_owned(), long_name: String::new(), short_name: String::new(), macaddr: Vec::new() }),
        last_heard: 0,
    };
    assert_eq!(n.encode_to_vec(), vec![0x12, 0x04, 0x0a, 0x02, b'!', b'1']);
}

#[test]
fn to_radio_want_config() {
    let t = ToRadio::decode(&[0x18, 0x07]).unwrap();
    match t.payload_variant {
        Some(to_radio::PayloadVariant::WantConfigId(7)) => {},
        _ => panic!("expected WantConfigId(7)"),
    }
    let t = ToRadio { payload_variant: Some(to_radio::PayloadVariant::WantConfigId(7)) };
    assert_eq!(t.encode_to_vec(), vec![0x18, 0x07]);
}

#[test]
fn to_radio_packet_round_trip() {
    let t = ToRadio { payload_variant: Some(to_radio::PayloadVariant::Packet(packet())) };
    let bytes = t.encode_to_vec();
    assert_eq!(bytes[0], 0x0a);
    match ToRadio::decode(&bytes).unwrap().payload_variant {
        Some(to_radio::PayloadVariant::Packet(p)) => assert_is_packet(&p),
        _ => panic!("expected a packet"),
    }
}

#[test]
fn to_radio_decode_errors_and_unknown_fields() {
    assert!(ToRadio::decode(&[0x18]).is_err());
    assert!(ToRadio::decode(&[0x0a, 0x03, 0x08]).is_err());
    // an unknown varint field is skipped
    let t = ToRadio::decode(&[0x20, 0x05]).unwrap();
    assert!(t.payload_variant.is_none());
}

#[test]
fn service_envelope_round_trip() {
    let e = ServiceEnvelope { packet: Some(packet()), channel_id: "LongFast".to_owned(), gateway_id: 0x1234 };
    let bytes = e.encode_to_vec();
    let mut expected = vec![0x0a, packet_bytes().len() as u8];
    expected.extend_from_slice(&packet_bytes());
    expected.extend_from_slice(&[0x12, 0x08]);
    expected.extend_from_slice(b"LongFast");
    expected.extend_from_slice(&[0x18, 0xb4, 0x24]);
    assert_eq!(bytes, expected);
    let d = ServiceEnvelope::decode(&bytes).unwrap();
    assert_eq!(d.channel_id, "LongFast");
    assert_eq!(d.gateway_id, 0x1234);
    assert_is_packet(d.packet.as_ref().unwrap());
}

#[test]
fn service_envelope_decode_errors() {
    assert!(ServiceEnvelope::decode(&[0x12, 0x02, 0xff, 0xfe]).is_err());
    assert!(ServiceEnvelope::decode(&[0x18]).is_err());
    let e = ServiceEnvelope::decode(&[]).unwrap();
    assert!(e.packet.is_none() && e.channel_id.is_empty() && e.gateway_id == 0);
}
