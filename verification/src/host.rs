//! What a headless node tells its host: in serial mode the `FromRadio`
//! messages it sends and how it answers a `ToRadio` request; in text mode
//! the lines it prints.
use vstd::prelude::*;
use crate::app::{MeshMessage, MeshNode, node_id_string, node_id_text};
use crate::mac::packet::{BROADCAST, MAX_PAYLOAD, MeshFrame};
use crate::mesh::node::{NodeInfo, lists_table};
use crate::proto::{User, UserView, data_bytes, data_text};
use crate::radio::{push_rx_label, quoted, rx_label_text, tx_log_text};
use crate::text::{decimal, hex8, push_decimal, push_hex8};
use vstd::string::StringExecFns;
use crate::proto::radio::{FromRadio, MeshPacket, MyNodeInfo, NodeInfoProto, ToRadio};
use crate::proto::radio::{from_radio, mesh_packet, to_radio};

verus! {

/// The firmware version reported in `MyNodeInfo`.
pub const FIRMWARE_VERSION: &'static str = "meshtastic-rs 0.1.0";

/// The number of channels reported in `MyNodeInfo`.
pub const MAX_CHANNELS: u32 = 8;

/// `fr` is the `FromRadio` packet numbered `id` that hands `msg` to the host.
pub open spec fn is_packet_report(fr: FromRadio, id: u32, msg: MeshMessage) -> bool {
    &&& fr.id == id
    &&& fr.payload_variant matches Some(from_radio::PayloadVariant::Packet(p))
    &&& p.from == msg.from
    &&& p.to == msg.to
    &&& p.id == 0
    &&& p.channel == 0
    &&& p.rx_time == 0
    &&& p.hop_limit == msg.hop_limit as u32
    &&& !p.want_ack
    &&& p.rx_rssi == 0
    &&& p.payload_variant matches Some(mesh_packet::PayloadVariant::Decoded(d))
    &&& d@ == msg.data@
}

/// `fr` is the `FromRadio` numbered `id` describing node `num` with the
/// given names.
pub open spec fn is_node_report(fr: FromRadio, id: u32, num: u32, short_name: Seq<char>, long_name: Seq<char>) -> bool {
    &&& fr.id == id
    &&& fr.payload_variant matches Some(from_radio::PayloadVariant::NodeInfo(ni))
    &&& ni.num == num
    &&& ni.last_heard == 0
    &&& ni.user matches Some(u)
    &&& u@ == UserView { id: node_id_text(num), long_name, short_name, macaddr: Seq::empty() }
}

/// `msgs` is the config dump a node with ID `node_id`, names `short_name` and
/// `long_name` and neighbour table `nb` sends for request `want_id`, numbered
/// from `seq + 1`: its own `MyNodeInfo`, its own node info, one node info per
/// neighbour (one per node ID, in some order), and the completion marker.
pub open spec fn is_config_dump(
    node_id: u32,
    short_name: Seq<char>,
    long_name: Seq<char>,
    nb: Map<u32, NodeInfo>,
    want_id: u32,
    seq: u32,
    msgs: Seq<FromRadio>,
) -> bool {
    let n = nb.dom().len() as int;
    &&& msgs.len() == n + 3
    &&& msgs[0].id == seq + 1
    &&& msgs[0].payload_variant matches Some(from_radio::PayloadVariant::MyInfo(mi))
    &&& mi.my_node_num == node_id
    &&& mi.max_channels == MAX_CHANNELS
    &&& mi.firmware_version@ == FIRMWARE_VERSION@
    &&& is_node_report(msgs[1], (seq + 2) as u32, node_id, short_name, long_name)
    &&& exists|ns: Seq<NodeInfo>|
        {
            &&& lists_table(nb, ns)
            &&& forall|j: int|
                0 <= j < n ==> is_node_report(
                    #[trigger] msgs[j + 2],
                    (seq + j + 3) as u32,
                    ns[j].node_id,
                    ns[j].short_name@,
                    ns[j].long_name@,
                )
        }
    &&& msgs[n + 2].id == seq + n + 3
    &&& msgs[n + 2].payload_variant == Some(from_radio::PayloadVariant::ConfigCompleteId(want_id))
}

/// Convert a received message to the `FromRadio` packet that reports it,
/// numbered with the next sequence number.
pub fn msg_to_from_radio(msg: &MeshMessage, seq: &mut u32) -> (r: FromRadio)
    requires
        *old(seq) < u32::MAX,
    ensures
        *final(seq) == *old(seq) + 1,
        is_packet_report(r, *final(seq), *msg),
{
    *seq = *seq + 1;
    FromRadio {
        id: *seq,
        payload_variant: Some(
            from_radio::PayloadVariant::Packet(
                MeshPacket {
                    from: msg.from,
                    to: msg.to,
                    id: 0,
                    channel: 0,
                    rx_time: 0,
                    hop_limit: msg.hop_limit as u32,
                    want_ack: false,
                    rx_rssi: 0,
                    payload_variant: Some(mesh_packet::PayloadVariant::Decoded(msg.data.copy_data())),
                },
            ),
        ),
    }
}

fn node_report(id: u32, num: u32, short_name: &String, long_name: &String) -> (r: FromRadio)
    ensures
        is_node_report(r, id, num, short_name@, long_name@),
{
    let user = User {
        id: node_id_string(num),
        long_name: long_name.clone(),
        short_name: short_name.clone(),
        macaddr: Vec::new(),
    };
    assert(user@ =~= UserView { id: node_id_text(num), long_name: long_name@, short_name: short_name@, macaddr: Seq::empty() });
    FromRadio {
        id,
        payload_variant: Some(
            from_radio::PayloadVariant::NodeInfo(
                NodeInfoProto { num, user: Some(user), last_heard: 0 },
            ),
        ),
    }
}

/// The config dump for the host's request `want_id`: this node's
/// `MyNodeInfo`, its own node info under `short_name` and `long_name`, every
/// neighbour's node info, and the completion marker, numbered on from `seq`.
pub fn config_messages(
    node: &MeshNode,
    short_name: &str,
    long_name: &str,
    want_id: u32,
    seq: &mut u32,
) -> (r: Vec<FromRadio>)
    requires
        *old(seq) + node.spec_neighbours().dom().len() + 3 <= u32::MAX,
    ensures
        *final(seq) == *old(seq) + r@.len(),
        is_config_dump(
            node.spec_node_id(),
            short_name@,
            long_name@,
            node.spec_neighbours(),
            want_id,
            *old(seq),
            r@,
        ),
{
    let ghost seq0: u32 = *seq;
    let ghost n = node.spec_neighbours().dom().len();
    let node_id = node.node_id();
    let mut out: Vec<FromRadio> = Vec::new();
    *seq = *seq + 1;
    out.push(
        FromRadio {
            id: *seq,
            payload_variant: Some(
                from_radio::PayloadVariant::MyInfo(
                    MyNodeInfo {
                        my_node_num: node_id,
                        max_channels: MAX_CHANNELS,
                        firmware_version: FIRMWARE_VERSION.to_owned(),
                    },
                ),
            ),
        },
    );
    let short = short_name.to_owned();
    let long = long_name.to_owned();
    *seq = *seq + 1;
    out.push(node_report(*seq, node_id, &short, &long));
    let nbrs = node.neighbours();
    let mut i: usize = 0;
    while i < nbrs.len()
        invariant
            nbrs@.len() == n,
            seq0 + n + 3 <= u32::MAX,
            i <= nbrs@.len(),
            *seq == seq0 + 2 + i,
            out@.len() == i + 2,
            out@[0].id == seq0 + 1,
            out@[0].payload_variant matches Some(from_radio::PayloadVariant::MyInfo(mi)) && mi.my_node_num
                == node_id && mi.max_channels == MAX_CHANNELS && mi.firmware_version@
                == FIRMWARE_VERSION@,
            is_node_report(out@[1], (seq0 + 2) as u32, node_id, short_name@, long_name@),
            forall|j: int|
                0 <= j < i ==> is_node_report(
                    #[trigger] out@[j + 2],
                    (seq0 + j + 3) as u32,
                    nbrs@[j].node_id,
                    nbrs@[j].short_name@,
                    nbrs@[j].long_name@,
                ),
        decreases nbrs@.len() - i,
    {
        *seq = *seq + 1;
        let nb = &nbrs[i];
        out.push(node_report(*seq, nb.node_id, &nb.short_name, &nb.long_name));
        i = i + 1;
    }
    *seq = *seq + 1;
    out.push(
        FromRadio {
            id: *seq,
            payload_variant: Some(from_radio::PayloadVariant::ConfigCompleteId(want_id)),
        },
    );
    assert(forall|j: int|
        0 <= j < n ==> is_node_report(
            #[trigger] out@[j + 2],
            (seq0 + j + 3) as u32,
            nbrs@[j].node_id,
            nbrs@[j].short_name@,
            nbrs@[j].long_name@,
        ));
    out
}

/// Answer a `ToRadio` request: a config request gets the config dump and
/// nothing to transmit; a decoded packet is built into a frame to
/// transmit (to `BROADCAST` when its destination is 0) and gets no reply;
/// anything else is ignored.
pub fn handle_to_radio(
    to_radio: &ToRadio,
    node: &MeshNode,
    short_name: &str,
    long_name: &str,
    seq: &mut u32,
) -> (r: (Vec<FromRadio>, Option<MeshFrame>))
    requires
        to_radio.payload_variant matches Some(to_radio::PayloadVariant::WantConfigId(_))
            ==> *old(seq) + node.spec_neighbours().dom().len() + 3 <= u32::MAX,
    ensures
        match to_radio.payload_variant {
            Some(to_radio::PayloadVariant::WantConfigId(want_id)) => {
                &&& r.1 is None
                &&& *final(seq) == *old(seq) + r.0@.len()
                &&& is_config_dump(
                    node.spec_node_id(),
                    short_name@,
                    long_name@,
                    node.spec_neighbours(),
                    want_id,
                    *old(seq),
                    r.0@,
                )
            },
            Some(to_radio::PayloadVariant::Packet(p)) => {
                &&& r.0@.len() == 0
                &&& *final(seq) == *old(seq)
                &&& match p.payload_variant {
                    Some(mesh_packet::PayloadVariant::Decoded(d)) => {
                        let to = if p.to == 0 { BROADCAST } else { p.to };
                        &&& data_bytes(d@).len() > MAX_PAYLOAD ==> r.1 is None
                        &&& data_bytes(d@).len() <= MAX_PAYLOAD ==> (r.1 matches Some(f)
                            && node.is_tx_frame(to, d@, f.header.id, f))
                    },
                    _ => r.1 is None,
                }
            },
            None => r.0@.len() == 0 && r.1 is None && *final(seq) == *old(seq),
        },
{
    match &to_radio.payload_variant {
        None => (Vec::new(), None),
        Some(to_radio::PayloadVariant::WantConfigId(want_id)) => {
            let msgs = config_messages(node, short_name, long_name, *want_id, seq);
            (msgs, None)
        },
        Some(to_radio::PayloadVariant::Packet(pkt)) => {
            match &pkt.payload_variant {
                Some(mesh_packet::PayloadVariant::Decoded(d)) => {
                    let to = if pkt.to == 0 {
                        BROADCAST
                    } else {
                        pkt.to
                    };
                    (Vec::new(), node.build_frame(to, d))
                },
                _ => (Vec::new(), None),
            }
        },
    }
}

/// The line printed for a received message: the sender's node-id text,
/// then the text in double quotes and the hops left for a text message, or
/// else the port number and payload length.
pub open spec fn rx_line_text(m: MeshMessage) -> Seq<char> {
    "[RX] !"@ + hex8(m.from) + ": "@ + match data_text(m.data@) {
        Some(t) => quoted(t) + "  (hops="@ + decimal(m.hop_limit as nat) + ")"@,
        None => rx_label_text(m.data@),
    }
}

/// The line printed for a received message.
pub fn rx_line(m: &MeshMessage) -> (s: String)
    ensures
        s@ == rx_line_text(*m),
{
    let mut s = "[RX] !".to_owned();
    push_hex8(&mut s, m.from);
    s.append(": ");
    push_rx_label(&mut s, &m.data);
    if m.data.text().is_some() {
        s.append("  (hops=");
        push_decimal(&mut s, m.hop_limit as u64);
        s.append(")");
    }
    assert(s@ =~= rx_line_text(*m));
    s
}

/// The line printed for a transmitted text: `[TX] ` and the text in double
/// quotes.
pub fn tx_line(text: &str) -> (s: String)
    ensures
        s@ == "[TX] "@ + quoted(text@),
{
    let mut s = "[TX] ".to_owned();
    let q = tx_log_text(text);
    s.append(q.as_str());
    s
}

} // verus!
