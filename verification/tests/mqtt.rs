use mesh::app::{ChannelConfig, MeshNode};
use mesh::mac::packet::{MeshFrame, BROADCAST};
use mesh::mqtt::{
    client_id, frame_to_mqtt_packet, mqtt_packet_to_raw, mqtt_rx_of, service_envelope, MqttConfig,
};
use mesh::proto::radio::mesh_packet::PayloadVariant;
use mesh::proto::radio::MeshPacket;
use mesh::proto::Data;

fn packet(hop_limit: u32, payload: Option<PayloadVariant>) -> MeshPacket {
    MeshPacket {
        from: 0x0102_0304,
        to: BROADCAST,
        channel: 0,
        id: 0x0A0B_0C0D,
        rx_time: 0,
        hop_limit,
        want_ack: true,
        rx_rssi: 0,
        payload_variant: payload,
    }
}

#[test]
fn default_config_and_topics() {
    let c = MqttConfig::default();
    assert_eq!(c.host, "mqtt.meshtastic.org");
    assert_eq!(c.port, 1883);
    assert_eq!(c.username, "meshdev");
    assert_eq!(c.password, "large4cats");
    assert_eq!(c.channel, "LongFast");
    assert_eq!(c.topic_root, "msh/2/c");
    assert_eq!(c.sub_topic(), "msh/2/c/LongFast/+");
    assert_eq!(c.pub_topic(0xDEADBEEF), "msh/2/c/LongFast/%21deadbeef");
    assert_eq!(c.pub_topic(5), "msh/2/c/LongFast/%2100000005");
}

#[test]
fn client_id_text() {
    assert_eq!(client_id(0x00AB_CDEF), "meshrs-00abcdef");
}

#[test]
fn packet_to_raw_builds_via_mqtt_header() {
    let raw = mqtt_packet_to_raw(&packet(3, Some(PayloadVariant::Encrypted(vec![7, 8])))).unwrap();
    assert_eq!(
        raw,
        vec![
            0xFF, 0xFF, 0xFF, 0xFF, 0x04, 0x03, 0x02, 0x01, 0x0D, 0x0C, 0x0B, 0x0A,
            0x03 | 0x08 | 0x10 | (0x03 << 5),
            0x00, 0x00, 0x00, 7, 8,
        ]
    );
}

#[test]
fn packet_to_raw_caps_hops_at_seven() {
    let raw = mqtt_packet_to_raw(&packet(100, Some(PayloadVariant::Encrypted(vec![])))).unwrap();
    assert_eq!(raw.len(), 16);
    assert_eq!(raw[12], 0x07 | 0x08 | 0x10 | (0x07 << 5));
}

#[test]
fn packet_to_raw_needs_encrypted_payload() {
    let d = Data { portnum: 1, payload: vec![], want_response: false, dest: 0, source: 0, request_id: 0 };
    assert!(mqtt_packet_to_raw(&packet(3, Some(PayloadVariant::Decoded(d)))).is_none());
    assert!(mqtt_packet_to_raw(&packet(3, None)).is_none());
}

#[test]
fn envelope_filtering() {
    let env = service_envelope(packet(3, None), "LongFast", 9);
    assert_eq!(env.channel_id, "LongFast");
    assert_eq!(env.gateway_id, 9);
    assert!(mqtt_rx_of(env, 9).is_none());
    let rx = mqtt_rx_of(service_envelope(packet(2, None), "LongFast", 9), 10).unwrap();
    assert_eq!(rx.gateway_id, 9);
    assert_eq!(rx.packet.hop_limit, 2);
    let empty = mesh::proto::service_envelope::ServiceEnvelope {
        packet: None,
        channel_id: String::new(),
        gateway_id: 9,
    };
    assert!(mqtt_rx_of(empty, 10).is_none());
}

#[test]
fn frame_relayed_over_mqtt_is_delivered_on_any_channel() {
    let a = MeshNode::with_id(ChannelConfig::default(), 1, "A", "Alpha");
    // Same key, different channel name (so a different channel hash).
    let other = ChannelConfig { name: "Elsewhere".to_owned(), psk: ChannelConfig::default().psk };
    let mut b = MeshNode::with_id(other, 2, "B", "Bravo");
    let f: MeshFrame = a.build_text_frame(BROADCAST, "over the bridge").unwrap();
    // Directly, the channel hash does not match.
    assert!(b.process_rx_frame(&f.to_bytes()).is_err());
    let pkt = frame_to_mqtt_packet(&f);
    assert_eq!(pkt.from, 1);
    assert_eq!(pkt.id, f.header.id);
    assert_eq!(pkt.hop_limit, 3);
    let raw = mqtt_packet_to_raw(&pkt).unwrap();
    let (msg, fwd) = b.process_rx_frame(&raw).unwrap();
    let msg = msg.unwrap();
    assert_eq!(msg.from, 1);
    assert_eq!(msg.hop_limit, 3);
    assert_eq!(msg.data.text(), Some("over the bridge"));
    assert_eq!(fwd.unwrap().header.hop_limit, 2);
}
