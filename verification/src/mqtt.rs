//! MQTT topic layout and packet conversion.
//!
//! Meshtastic nodes use MQTT topics of the form
//! `msh/2/c/{channel_name}/{gateway_id}`, carrying encrypted packets.
use vstd::prelude::*;
use vstd::string::StringExecFns;
use crate::mac::packet::{HEADER_LEN, MeshFrame, MeshHeader};
use crate::proto::radio::MeshPacket;
use crate::proto::service_envelope::ServiceEnvelope;
use crate::proto::radio::mesh_packet::PayloadVariant;
use crate::text::{hex8, push_hex8};
use crate::app::{MeshMessage, MeshNode, ProcessError, neighbours_after};
use crate::mac::packet::BROADCAST;
use crate::mesh::node::NodeInfo;
use crate::proto::{DataView, data_bytes};

verus! {

/// Configuration for the MQTT bridge.
#[derive(Clone)]
pub struct MqttConfig {
    /// Broker host (default: `mqtt.meshtastic.org`).
    pub host: String,
    /// Broker port (default: 1883).
    pub port: u16,
    /// MQTT username (default: `meshdev`).
    pub username: String,
    /// MQTT password (default: `large4cats`).
    pub password: String,
    /// Channel name used in topic path (default: `LongFast`).
    pub channel: String,
    /// Root topic prefix (default: `msh/2/c`).
    pub topic_root: String,
}

impl Default for MqttConfig {
    fn default() -> (c: Self)
        ensures
            c.host@ == "mqtt.meshtastic.org"@,
            c.port == 1883,
            c.username@ == "meshdev"@,
            c.password@ == "large4cats"@,
            c.channel@ == "LongFast"@,
            c.topic_root@ == "msh/2/c"@,
    {
        MqttConfig {
            host: "mqtt.meshtastic.org".to_owned(),
            port: 1883,
            username: "meshdev".to_owned(),
            password: "large4cats".to_owned(),
            channel: "LongFast".to_owned(),
            topic_root: "msh/2/c".to_owned(),
        }
    }
}

impl MqttConfig {
    /// Subscribe topic: `{topic_root}/{channel}/+`.
    pub fn sub_topic(&self) -> (t: String)
        ensures
            t@ == self.topic_root@ + seq!['/'] + self.channel@ + seq!['/', '+'],
    {
        let mut t = self.topic_root.clone();
        proof {
            reveal_strlit("/");
            reveal_strlit("/+");
        }
        t.append("/");
        t.append(self.channel.as_str());
        t.append("/+");
        assert(t@ =~= self.topic_root@ + seq!['/'] + self.channel@ + seq!['/', '+']);
        t
    }

    /// Publish topic: `{topic_root}/{channel}/%21{gateway_id:08x}`.
    pub fn pub_topic(&self, gateway_id: u32) -> (t: String)
        ensures
            t@ == self.topic_root@ + seq!['/'] + self.channel@ + seq!['/', '%', '2', '1'] + hex8(
                gateway_id,
            ),
    {
        let mut t = self.topic_root.clone();
        proof {
            reveal_strlit("/");
            reveal_strlit("/%21");
        }
        t.append("/");
        t.append(self.channel.as_str());
        t.append("/%21");
        push_hex8(&mut t, gateway_id);
        assert(t@ =~= self.topic_root@ + seq!['/'] + self.channel@ + seq!['/', '%', '2', '1'] + hex8(
            gateway_id,
        ));
        t
    }
}

/// A packet received from MQTT, ready for local processing.
pub struct MqttRx {
    /// The packet taken out of the `ServiceEnvelope`.
    pub packet: MeshPacket,
    /// Gateway that relayed it.
    pub gateway_id: u32,
}

/// The MQTT client id of gateway `gateway_id`: `meshrs-` and its ID in
/// eight lowercase hex digits.
pub fn client_id(gateway_id: u32) -> (t: String)
    ensures
        t@ == "meshrs-"@ + hex8(gateway_id),
{
    let mut t = "meshrs-".to_owned();
    push_hex8(&mut t, gateway_id);
    t
}

/// The envelope gateway `gateway_id` publishes `packet` in on channel
/// `channel_id`.
pub fn service_envelope(packet: MeshPacket, channel_id: &str, gateway_id: u32) -> (env: ServiceEnvelope)
    ensures
        env.packet == Some(packet),
        env.channel_id@ == channel_id@,
        env.gateway_id == gateway_id,
{
    ServiceEnvelope { packet: Some(packet), channel_id: channel_id.to_owned(), gateway_id }
}

/// What a bridge hands on of an envelope that arrived on MQTT: nothing for
/// the bridge's own messages (relayed by `own_gateway`) or an empty
/// envelope, else the packet and the gateway that relayed it.
pub fn mqtt_rx_of(env: ServiceEnvelope, own_gateway: u32) -> (r: Option<MqttRx>)
    ensures
        env.gateway_id == own_gateway ==> r is None,
        env.gateway_id != own_gateway ==> match env.packet {
            Some(p) => r matches Some(rx) && rx.packet == p && rx.gateway_id == env.gateway_id,
            None => r is None,
        },
{
    if env.gateway_id == own_gateway {
        return None;
    }
    match env.packet {
        Some(packet) => Some(MqttRx { packet, gateway_id: env.gateway_id }),
        None => None,
    }
}

/// The packet that stands for `frame` on MQTT: its header fields and its
/// payload, still encrypted.
pub open spec fn is_mqtt_packet_of(pkt: MeshPacket, frame: MeshFrame) -> bool {
    let h = frame.header;
    &&& pkt.from == h.from
    &&& pkt.to == h.to
    &&& pkt.id == h.id
    &&& pkt.channel == 0
    &&& pkt.rx_time == 0
    &&& pkt.hop_limit == h.hop_limit as u32
    &&& pkt.want_ack == h.want_ack
    &&& pkt.rx_rssi == 0
    &&& pkt.payload_variant matches Some(PayloadVariant::Encrypted(e))
    &&& e@ == frame.payload@
}

/// Convert a raw frame (from local RX or TX) to the packet published for it
/// on MQTT; the payload is sent as it is, encrypted.
pub fn frame_to_mqtt_packet(frame: &MeshFrame) -> (pkt: MeshPacket)
    ensures
        is_mqtt_packet_of(pkt, *frame),
{
    let h = &frame.header;
    let mut payload: Vec<u8> = Vec::new();
    crate::mac::packet::extend_bytes(&mut payload, frame.payload.as_slice());
    assert(payload@ =~= frame.payload@);
    MeshPacket {
        from: h.from,
        to: h.to,
        id: h.id,
        channel: 0,
        rx_time: 0,
        hop_limit: h.hop_limit as u32,
        want_ack: h.want_ack,
        rx_rssi: 0,
        payload_variant: Some(PayloadVariant::Encrypted(payload)),
    }
}

/// The header of the frame an MQTT packet stands for: hop fields capped at
/// 7, marked as relayed via MQTT, and no channel hash (MQTT carries none).
pub open spec fn mqtt_header(pkt: &MeshPacket) -> MeshHeader {
    let hops = if pkt.hop_limit < 7 { pkt.hop_limit as u8 } else { 7u8 };
    MeshHeader {
        to: pkt.to,
        from: pkt.from,
        id: pkt.id,
        hop_limit: hops,
        hop_start: hops,
        want_ack: pkt.want_ack,
        via_mqtt: true,
        channel_hash: 0,
    }
}

/// Convert an MQTT-received packet with an encrypted payload into the raw
/// over-the-air bytes (16-byte header + ciphertext) that
/// `MeshNode::process_rx_frame` takes.  `None` for a packet without payload
/// or with a decoded one.
pub fn mqtt_packet_to_raw(pkt: &MeshPacket) -> (r: Option<Vec<u8>>)
    ensures
        match pkt.payload_variant {
            Some(PayloadVariant::Encrypted(e)) => (r matches Some(raw) && raw@ == mqtt_header(
                pkt,
            ).spec_bytes() + e@),
            _ => r is None,
        },
{
    let encrypted = match &pkt.payload_variant {
        Some(PayloadVariant::Encrypted(e)) => e,
        _ => return None,
    };
    let hops: u8 = if pkt.hop_limit < 7 { pkt.hop_limit as u8 } else { 7 };
    let header = MeshHeader {
        to: pkt.to,
        from: pkt.from,
        id: pkt.id,
        hop_limit: hops,
        hop_start: hops,
        want_ack: pkt.want_ack,
        via_mqtt: true,
        channel_hash: 0,
    };
    let mut payload: Vec<u8> = Vec::new();
    crate::mac::packet::extend_bytes(&mut payload, encrypted.as_slice());
    let frame = MeshFrame { header, payload };
    Some(frame.to_bytes())
}

/// A packet relayed from MQTT parses back to its header, whatever channel
/// hash the receiving node expects: the via-MQTT flag survives encoding.
pub proof fn lemma_mqtt_raw_parses(pkt: &MeshPacket, e: Seq<u8>)
    ensures
        (mqtt_header(pkt).spec_bytes() + e).len() >= HEADER_LEN,
        MeshHeader::spec_parse(mqtt_header(pkt).spec_bytes() + e) == mqtt_header(pkt),
        MeshHeader::spec_parse(mqtt_header(pkt).spec_bytes() + e).via_mqtt,
        (mqtt_header(pkt).spec_bytes() + e).skip(HEADER_LEN as int) == e,
{
    crate::mac::packet::lemma_frame_round_trip(mqtt_header(pkt), e);
    crate::mac::packet::lemma_header_round_trip(mqtt_header(pkt));
}

/// A frame that one node sends, published on MQTT and fed back through
/// [`mqtt_packet_to_raw`] to another node with the same key, is accepted
/// whatever channel hash that node expects, and (if addressed to it and not
/// seen before) delivers the body that was sent, from the sender, with
/// three hops left, and is relayed with two.
pub proof fn lemma_mqtt_relay_delivered(
    sender: &MeshNode,
    receiver: &MeshNode,
    to: u32,
    d: DataView,
    id: u32,
    f: MeshFrame,
    pkt: MeshPacket,
    r: Result<(Option<MeshMessage>, Option<MeshFrame>), ProcessError>,
    dedup: Seq<(u32, u32)>,
    nb: Map<u32, NodeInfo>,
)
    requires
        sender.is_tx_frame(to, d, id, f),
        is_mqtt_packet_of(pkt, f),
        sender.spec_key() == receiver.spec_key(),
        !receiver.spec_dedup().contains((sender.spec_node_id(), id)),
        to == receiver.spec_node_id() || to == BROADCAST,
        d.payload.len() <= u64::MAX,
    ensures
        receiver.accepts(mqtt_header(&pkt).spec_bytes() + f.payload@),
        receiver.rx_ok(mqtt_header(&pkt).spec_bytes() + f.payload@, r, dedup, nb) ==> {
            &&& r matches Ok((Some(m), Some(g)))
            &&& m.data@ == d
            &&& m.from == sender.spec_node_id()
            &&& m.to == to
            &&& m.hop_limit == 3
            &&& g.header.hop_limit == 2
            &&& neighbours_after(receiver.spec_neighbours(), nb, sender.spec_node_id(), d)
        },
{
    lemma_mqtt_raw_parses(&pkt, f.payload@);
    crate::mac::crypto::lemma_decrypt_encrypt(sender.spec_key(), id, sender.spec_node_id(), data_bytes(d));
    crate::proto::lemma_data_round_trip(d);
}

/// The frame built for an MQTT packet keeps its sender, destination, packet
/// id and want-ack flag, is marked as relayed via MQTT, and has as many hops
/// left, and started with as many, as the packet says, up to the seven that
/// the header has room for: `min(pkt.hop_limit, 7)`.
pub proof fn lemma_mqtt_header_hops(pkt: &MeshPacket)
    ensures
        mqtt_header(pkt).hop_limit == mqtt_header(pkt).hop_start,
        pkt.hop_limit <= 7 ==> mqtt_header(pkt).hop_limit == pkt.hop_limit,
        pkt.hop_limit > 7 ==> mqtt_header(pkt).hop_limit == 7,
        mqtt_header(pkt).from == pkt.from,
        mqtt_header(pkt).to == pkt.to,
        mqtt_header(pkt).id == pkt.id,
        mqtt_header(pkt).want_ack == pkt.want_ack,
        mqtt_header(pkt).via_mqtt,
{
}

/// Publishing a frame on MQTT and converting the packet back gives the
/// frame's header with its hop count unchanged (and the hop start reset to
/// it), marked as relayed via MQTT, without a channel hash.
pub proof fn lemma_mqtt_round_trip_header(pkt: MeshPacket, frame: MeshFrame)
    requires
        is_mqtt_packet_of(pkt, frame),
        frame.header.hop_limit <= 7,
    ensures
        mqtt_header(&pkt) == (MeshHeader {
            hop_start: frame.header.hop_limit,
            via_mqtt: true,
            channel_hash: 0,
            ..frame.header
        }),
{
}

} // verus!
