//! Serial-protocol messages (meshtastic/mesh.proto): `FromRadio`, `ToRadio`,
//! `MeshPacket`, `MyNodeInfo` and `NodeInfo`, with the fields the serial host
//! API uses.
pub mod mesh_packet;
pub mod from_radio;
pub mod to_radio;

use vstd::prelude::*;
use vstd::slice::slice_subrange;
use vstd::utf8::encode_utf8;
use crate::proto::{
    Data, DataView, User, UserView, data_bytes, data_fields, empty_data, empty_user, field_bytes,
    field_fixed32, field_varint, opt, user_bytes, user_fields, lemma_bytes_field, lemma_fixed32_field,
    lemma_string_field, lemma_varint_bounds, lemma_varint_field, put_bytes_field, put_fixed32_field,
    put_varint_field,
};
use crate::proto::wire::{
    WIRE_FIXED32, WIRE_LEN, WIRE_VARINT, bytes_field, fixed32_field, key_bytes, key_decode, lemma_key_round_trip,
    pb_decode_key, pb_merge_bytes, pb_merge_fixed32, pb_merge_string, pb_merge_varint, pb_skip_field,
    skip_field_len, string_field, tail, varint_bytes,
};

verus! {

/// An over-the-air mesh packet as the serial and MQTT protocols carry it.
///
/// The received SNR (`rx_snr`, a float) is not held here.
pub struct MeshPacket {
    pub from: u32,
    pub to: u32,
    /// Channel index (0-based).
    pub channel: u32,
    pub id: u32,
    /// Unix timestamp when received (0 if unknown).
    pub rx_time: u32,
    pub hop_limit: u32,
    pub want_ack: bool,
    /// RSSI of received packet (dBm, typically negative).
    pub rx_rssi: i32,
    /// Payload: decoded Data (cleartext) or raw encrypted bytes.
    pub payload_variant: Option<mesh_packet::PayloadVariant>,
}

/// Sent once at config time to tell the host our node number.
pub struct MyNodeInfo {
    /// This node's numeric ID.
    pub my_node_num: u32,
    /// Maximum number of channels this device supports.
    pub max_channels: u32,
    /// Firmware version string.
    pub firmware_version: String,
}

/// Information about a known node (ourselves or a neighbour).
///
/// The last SNR heard (`snr`, a float) is not held here.
pub struct NodeInfoProto {
    /// Node number.
    pub num: u32,
    /// User identity.
    pub user: Option<User>,
    /// Unix timestamp of last reception.
    pub last_heard: u32,
}

/// Message sent from the node to the host over the serial link.
pub struct FromRadio {
    /// Sequence number (monotonically increasing).
    pub id: u32,
    pub payload_variant: Option<from_radio::PayloadVariant>,
}

/// Message sent from the host to the node over the serial link.
pub struct ToRadio {
    pub payload_variant: Option<to_radio::PayloadVariant>,
}

// ── Values ────────────────────────────────────────────────────────────────

/// The payload of a [`MeshPacketView`].
pub ghost enum MeshPayloadView {
    Decoded(DataView),
    Encrypted(Seq<u8>),
}

/// The value of a [`MeshPacket`].
pub ghost struct MeshPacketView {
    pub from: u32,
    pub to: u32,
    pub channel: u32,
    pub id: u32,
    pub rx_time: u32,
    pub hop_limit: u32,
    pub want_ack: bool,
    pub rx_rssi: i32,
    pub payload: Option<MeshPayloadView>,
}

impl View for MeshPacket {
    type V = MeshPacketView;

    open spec fn view(&self) -> MeshPacketView {
        MeshPacketView {
            from: self.from,
            to: self.to,
            channel: self.channel,
            id: self.id,
            rx_time: self.rx_time,
            hop_limit: self.hop_limit,
            want_ack: self.want_ack,
            rx_rssi: self.rx_rssi,
            payload: match self.payload_variant {
                Some(mesh_packet::PayloadVariant::Decoded(d)) => Some(MeshPayloadView::Decoded(d@)),
                Some(mesh_packet::PayloadVariant::Encrypted(e)) => Some(MeshPayloadView::Encrypted(e@)),
                None => None,
            },
        }
    }
}

/// The packet with every field at its default and no payload.
pub open spec fn empty_mesh_packet() -> MeshPacketView {
    MeshPacketView {
        from: 0,
        to: 0,
        channel: 0,
        id: 0,
        rx_time: 0,
        hop_limit: 0,
        want_ack: false,
        rx_rssi: 0,
        payload: None,
    }
}

// ── MeshPacket wire format ────────────────────────────────────────────────

/// The payload field of a packet: a decoded body as field 4, raw
/// ciphertext as field 5 (either always written when present).
pub open spec fn mesh_payload_bytes(p: Option<MeshPayloadView>) -> Seq<u8> {
    match p {
        Some(MeshPayloadView::Decoded(d)) => field_bytes(4, data_bytes(d)),
        Some(MeshPayloadView::Encrypted(e)) => field_bytes(5, e),
        None => Seq::empty(),
    }
}

/// The wire encoding of a `MeshPacket`: its non-default fields in tag order
/// (the payload in the place of its lowest tag, 4).  The received SNR (tag
/// 8, a float) is always 0 here and so never written.
pub open spec fn mesh_packet_bytes(p: MeshPacketView) -> Seq<u8> {
    opt(p.from != 0, field_varint(1, p.from as nat)) + (opt(p.to != 0, field_varint(2, p.to as nat)) + (
    opt(p.channel != 0, field_varint(3, p.channel as nat)) + (mesh_payload_bytes(p.payload)
        + mesh_packet_tail_bytes(p))))
}

/// The fields of a packet after its payload.
pub open spec fn mesh_packet_tail_bytes(p: MeshPacketView) -> Seq<u8> {
    opt(p.id != 0, field_varint(6, p.id as nat)) + (opt(p.rx_time != 0, field_fixed32(7, p.rx_time)) + (opt(
        p.hop_limit != 0,
        field_varint(10, p.hop_limit as nat),
    ) + (opt(p.want_ack, field_varint(11, 1)) + opt(
        p.rx_rssi != 0,
        field_varint(13, (p.rx_rssi as u64) as nat),
    ))))
}

/// The packet after reading the varint `v` into field `tag`.
pub open spec fn mesh_packet_set_varint(p: MeshPacketView, tag: u32, v: u64) -> MeshPacketView {
    if tag == 1 {
        MeshPacketView { from: v as u32, ..p }
    } else if tag == 2 {
        MeshPacketView { to: v as u32, ..p }
    } else if tag == 3 {
        MeshPacketView { channel: v as u32, ..p }
    } else if tag == 6 {
        MeshPacketView { id: v as u32, ..p }
    } else if tag == 10 {
        MeshPacketView { hop_limit: v as u32, ..p }
    } else if tag == 11 {
        MeshPacketView { want_ack: v != 0, ..p }
    } else {
        MeshPacketView { rx_rssi: v as i32, ..p }
    }
}

/// The tags of a packet's varint fields.
pub open spec fn mesh_packet_varint_tag(tag: u32) -> bool {
    tag == 1 || tag == 2 || tag == 3 || tag == 6 || tag == 10 || tag == 11 || tag == 13
}

/// One field of a `MeshPacket` read from `s`: the updated packet and what is
/// left.  A decoded body merges into the one already read, as protobuf
/// merges embedded messages; the SNR (tag 8) is read and dropped.
pub open spec fn mesh_packet_field(p: MeshPacketView, tag: u32, wire: u8, s: Seq<u8>) -> Option<(MeshPacketView, nat)> {
    if mesh_packet_varint_tag(tag) {
        match crate::proto::wire::varint_field(wire, s) {
            Some((v, r)) => Some((mesh_packet_set_varint(p, tag, v), r)),
            None => None,
        }
    } else if tag == 4 {
        match bytes_field(wire, s) {
            Some((b, r)) => {
                let start = match p.payload {
                    Some(MeshPayloadView::Decoded(d)) => d,
                    _ => empty_data(),
                };
                match data_fields(b, start) {
                    Some(d2) => Some((MeshPacketView { payload: Some(MeshPayloadView::Decoded(d2)), ..p }, r)),
                    None => None,
                }
            },
            None => None,
        }
    } else if tag == 5 {
        match bytes_field(wire, s) {
            Some((b, r)) => Some((MeshPacketView { payload: Some(MeshPayloadView::Encrypted(b)), ..p }, r)),
            None => None,
        }
    } else if tag == 7 {
        match fixed32_field(wire, s) {
            Some((v, r)) => Some((MeshPacketView { rx_time: v, ..p }, r)),
            None => None,
        }
    } else if tag == 8 {
        match fixed32_field(wire, s) {
            Some((_, r)) => Some((p, r)),
            None => None,
        }
    } else {
        match skip_field_len(wire, tag, s) {
            Some(r) => Some((p, r)),
            None => None,
        }
    }
}

/// The fields of a `MeshPacket` read from `s` in turn, starting from `p`.
#[verifier::opaque]
pub open spec fn mesh_packet_fields(s: Seq<u8>, p: MeshPacketView) -> Option<MeshPacketView>
    decreases s.len(),
{
    if s.len() == 0 {
        Some(p)
    } else {
        match key_decode(s) {
            Some((tag, wire, rest)) => if rest >= s.len() {
                None
            } else {
                match mesh_packet_field(p, tag, wire, tail(s, rest)) {
                    Some((p2, rest2)) => if rest2 < s.len() {
                        mesh_packet_fields(tail(s, rest2), p2)
                    } else {
                        None
                    },
                    None => None,
                }
            },
            None => None,
        }
    }
}

/// The `MeshPacket` that the bytes `s` decode to, if any.
pub open spec fn mesh_packet_decode(s: Seq<u8>) -> Option<MeshPacketView> {
    mesh_packet_fields(s, empty_mesh_packet())
}

proof fn lemma_mesh_packet_chunk(
    present: bool,
    tag: u32,
    wire: u8,
    body: Seq<u8>,
    rest: Seq<u8>,
    p: MeshPacketView,
    p2: MeshPacketView,
)
    requires
        1 <= tag <= 15,
        wire <= 5,
        present ==> mesh_packet_field(p, tag, wire, body + rest) == Some((p2, rest.len())),
    ensures
        mesh_packet_fields(opt(present, key_bytes(tag as nat, wire as nat) + body) + rest, p)
            == mesh_packet_fields(rest, if present { p2 } else { p }),
{
    reveal(mesh_packet_fields);
    if present {
        let k = key_bytes(tag as nat, wire as nat);
        let s = opt(present, k + body) + rest;
        assert(s =~= k + (body + rest));
        lemma_key_round_trip(tag, wire, body + rest);
        assert(tail(s, (body + rest).len()) =~= body + rest);
        assert(tail(s, rest.len()) =~= rest);
    } else {
        assert(opt(present, key_bytes(tag as nat, wire as nat) + body) + rest =~= rest);
    }
}

proof fn lemma_mesh_packet_varint_chunk(present: bool, tag: u32, v: u64, rest: Seq<u8>, p: MeshPacketView)
    requires
        mesh_packet_varint_tag(tag),
    ensures
        mesh_packet_fields(opt(present, field_varint(tag as nat, v as nat)) + rest, p) == mesh_packet_fields(
            rest,
            if present { mesh_packet_set_varint(p, tag, v) } else { p },
        ),
{
    lemma_varint_field(v, rest);
    assert(field_varint(tag as nat, v as nat) == key_bytes(tag as nat, WIRE_VARINT as nat) + varint_bytes(v as nat));
    lemma_mesh_packet_chunk(present, tag, WIRE_VARINT, varint_bytes(v as nat), rest, p, mesh_packet_set_varint(p, tag, v));
}

/// Decoding the encoding of a `MeshPacket` gives it back.
#[verifier::rlimit(60)]
pub proof fn lemma_mesh_packet_round_trip(p: MeshPacketView)
    requires
        mesh_packet_bytes(p).len() <= u64::MAX,
    ensures
        mesh_packet_decode(mesh_packet_bytes(p)) == Some(p),
{
    let e = empty_mesh_packet();
    let nil = Seq::<u8>::empty();
    let c9 = opt(p.rx_rssi != 0, field_varint(13, (p.rx_rssi as u64) as nat));
    let c8 = opt(p.want_ack, field_varint(11, 1));
    let c7 = opt(p.hop_limit != 0, field_varint(10, p.hop_limit as nat));
    let c6 = opt(p.rx_time != 0, field_fixed32(7, p.rx_time));
    let c5 = opt(p.id != 0, field_varint(6, p.id as nat));
    let c4 = mesh_payload_bytes(p.payload);
    let s8 = c8 + c9;
    let s7 = c7 + s8;
    let s6 = c6 + s7;
    let s5 = c5 + s6;
    let s4 = c4 + s5;
    let s3 = opt(p.channel != 0, field_varint(3, p.channel as nat)) + s4;
    let s2 = opt(p.to != 0, field_varint(2, p.to as nat)) + s3;
    let p1 = MeshPacketView { from: p.from, ..e };
    let p2 = MeshPacketView { to: p.to, ..p1 };
    let p3 = MeshPacketView { channel: p.channel, ..p2 };
    let p4 = MeshPacketView { payload: p.payload, ..p3 };
    let p5 = MeshPacketView { id: p.id, ..p4 };
    let p6 = MeshPacketView { rx_time: p.rx_time, ..p5 };
    let p7 = MeshPacketView { hop_limit: p.hop_limit, ..p6 };
    let p8 = MeshPacketView { want_ack: p.want_ack, ..p7 };
    let p9 = MeshPacketView { rx_rssi: p.rx_rssi, ..p8 };
    lemma_mesh_packet_varint_chunk(p.from != 0, 1, p.from as u64, s2, e);
    lemma_mesh_packet_varint_chunk(p.to != 0, 2, p.to as u64, s3, p1);
    lemma_mesh_packet_varint_chunk(p.channel != 0, 3, p.channel as u64, s4, p2);
    match p.payload {
        Some(MeshPayloadView::Decoded(d)) => {
            let b = data_bytes(d);
            lemma_bytes_field(b, s5);
            crate::proto::lemma_data_round_trip(d);
            assert(c4 == key_bytes(4, WIRE_LEN as nat) + (varint_bytes(b.len()) + b));
            assert(varint_bytes(b.len()) + b + s5 =~= (varint_bytes(b.len()) + b) + s5);
            lemma_mesh_packet_chunk(true, 4, WIRE_LEN, varint_bytes(b.len()) + b, s5, p3, p4);
            assert(opt(true, key_bytes(4, WIRE_LEN as nat) + (varint_bytes(b.len()) + b)) == c4);
        },
        Some(MeshPayloadView::Encrypted(b)) => {
            lemma_bytes_field(b, s5);
            assert(c4 == key_bytes(5, WIRE_LEN as nat) + (varint_bytes(b.len()) + b));
            assert(varint_bytes(b.len()) + b + s5 =~= (varint_bytes(b.len()) + b) + s5);
            lemma_mesh_packet_chunk(true, 5, WIRE_LEN, varint_bytes(b.len()) + b, s5, p3, p4);
            assert(opt(true, key_bytes(5, WIRE_LEN as nat) + (varint_bytes(b.len()) + b)) == c4);
        },
        None => {
            assert(c4 + s5 =~= s5);
            assert(p4 == p3);
        },
    }
    lemma_mesh_packet_varint_chunk(p.id != 0, 6, p.id as u64, s6, p4);
    lemma_fixed32_field(p.rx_time, s7);
    lemma_mesh_packet_chunk(p.rx_time != 0, 7, WIRE_FIXED32, crate::mac::packet::u32_le_bytes(p.rx_time), s7, p5, p6);
    lemma_mesh_packet_varint_chunk(p.hop_limit != 0, 10, p.hop_limit as u64, s8, p6);
    lemma_mesh_packet_varint_chunk(p.want_ack, 11, 1, c9, p7);
    let rssi = p.rx_rssi;
    assert(((rssi as u64) as i32) == rssi) by (bit_vector);
    lemma_mesh_packet_varint_chunk(p.rx_rssi != 0, 13, p.rx_rssi as u64, nil, p8);
    assert(c9 + nil =~= c9);
    assert(mesh_packet_fields(nil, p9) == Some(p9)) by {
        reveal(mesh_packet_fields);
    }
    assert(p9 == p);
}

impl MeshPacket {
    /// The packet with every field at its default and no payload.
    pub fn empty() -> (p: MeshPacket)
        ensures
            p@ == empty_mesh_packet(),
    {
        MeshPacket {
            from: 0,
            to: 0,
            channel: 0,
            id: 0,
            rx_time: 0,
            hop_limit: 0,
            want_ack: false,
            rx_rssi: 0,
            payload_variant: None,
        }
    }

    /// Encode this packet in the protobuf wire format.
    pub fn encode_to_vec(&self) -> (r: Vec<u8>)
        ensures
            r@ == mesh_packet_bytes(self@),
    {
        let ghost p = self@;
        let ghost c1 = opt(p.from != 0, field_varint(1, p.from as nat));
        let ghost c2 = opt(p.to != 0, field_varint(2, p.to as nat));
        let ghost c3 = opt(p.channel != 0, field_varint(3, p.channel as nat));
        let ghost c4 = mesh_payload_bytes(p.payload);
        let mut buf: Vec<u8> = Vec::new();
        if self.from != 0 {
            put_varint_field(&mut buf, 1, self.from as u64);
        }
        assert(buf@ == c1);
        if self.to != 0 {
            put_varint_field(&mut buf, 2, self.to as u64);
        }
        assert(buf@ == c1 + c2);
        if self.channel != 0 {
            put_varint_field(&mut buf, 3, self.channel as u64);
        }
        assert(buf@ == (c1 + c2) + c3);
        let ghost b3 = buf@;
        match &self.payload_variant {
            Some(mesh_packet::PayloadVariant::Decoded(d)) => {
                let body = d.encode_to_vec();
                put_bytes_field(&mut buf, 4, body.as_slice());
            },
            Some(mesh_packet::PayloadVariant::Encrypted(e)) => {
                put_bytes_field(&mut buf, 5, e.as_slice());
            },
            None => {},
        }
        assert(buf@ == b3 + c4);
        let ghost b4 = buf@;
        self.encode_tail(&mut buf);
        proof {
            crate::proto::lemma_concat_assoc5(c1, c2, c3, c4, buf@.skip(b4.len() as int));
            assert(buf@.skip(b4.len() as int) =~= mesh_packet_tail_bytes(p));
        }
        buf
    }

    /// The fields after the payload: id, receive time, hop limit, ack, RSSI.
    fn encode_tail(&self, buf: &mut Vec<u8>)
        ensures
            final(buf)@ == old(buf)@ + mesh_packet_tail_bytes(self@),
    {
        let ghost p = self@;
        let ghost b0 = buf@;
        let ghost c5 = opt(p.id != 0, field_varint(6, p.id as nat));
        let ghost c6 = opt(p.rx_time != 0, field_fixed32(7, p.rx_time));
        let ghost c7 = opt(p.hop_limit != 0, field_varint(10, p.hop_limit as nat));
        let ghost c8 = opt(p.want_ack, field_varint(11, 1));
        let ghost c9 = opt(p.rx_rssi != 0, field_varint(13, (p.rx_rssi as u64) as nat));
        if self.id != 0 {
            put_varint_field(buf, 6, self.id as u64);
        }
        assert(buf@ == b0 + c5);
        if self.rx_time != 0 {
            put_fixed32_field(buf, 7, self.rx_time);
        }
        assert(buf@ == (b0 + c5) + c6);
        if self.hop_limit != 0 {
            put_varint_field(buf, 10, self.hop_limit as u64);
        }
        assert(buf@ == ((b0 + c5) + c6) + c7);
        if self.want_ack {
            put_varint_field(buf, 11, 1);
        }
        assert(buf@ == (((b0 + c5) + c6) + c7) + c8);
        if self.rx_rssi != 0 {
            put_varint_field(buf, 13, self.rx_rssi as u64);
        }
        assert(buf@ == ((((b0 + c5) + c6) + c7) + c8) + c9);
        proof {
            crate::proto::lemma_concat_assoc6(b0, c5, c6, c7, c8, c9);
        }
    }

    /// Read the fields of `buf` into `start`, as protobuf merging does.
    pub fn merge_from(buf: &[u8], start: MeshPacket) -> (r: Result<MeshPacket, prost::DecodeError>)
        ensures
            r matches Ok(p) ==> mesh_packet_fields(buf@, start@) == Some(p@),
            r is Err ==> mesh_packet_fields(buf@, start@) is None,
    {
        let mut p = start;
        let mut rem: usize = buf.len();
        assert(tail(buf@, rem as nat) =~= buf@);
        while rem > 0
            invariant
                rem <= buf@.len(),
                mesh_packet_fields(buf@, start@) == mesh_packet_fields(tail(buf@, rem as nat), p@),
            decreases rem,
        {
            proof {
                reveal(mesh_packet_fields);
            }
            let cur = slice_subrange(buf, buf.len() - rem, buf.len());
            let (tag, wire, after_key) = pb_decode_key(cur)?;
            proof {
                lemma_varint_bounds(cur@, 10);
            }
            let field = slice_subrange(buf, buf.len() - after_key, buf.len());
            assert(field@ =~= tail(cur@, after_key as nat));
            proof {
                lemma_varint_bounds(field@, 10);
            }
            let ghost before = p@;
            let rest = if tag == 1 || tag == 2 || tag == 3 || tag == 6 || tag == 10 || tag == 11 || tag == 13 {
                let (v, r) = pb_merge_varint(wire, field)?;
                if tag == 1 {
                    p.from = #[verifier::truncate] (v as u32);
                } else if tag == 2 {
                    p.to = #[verifier::truncate] (v as u32);
                } else if tag == 3 {
                    p.channel = #[verifier::truncate] (v as u32);
                } else if tag == 6 {
                    p.id = #[verifier::truncate] (v as u32);
                } else if tag == 10 {
                    p.hop_limit = #[verifier::truncate] (v as u32);
                } else if tag == 11 {
                    p.want_ack = v != 0;
                } else {
                    p.rx_rssi = #[verifier::truncate] (v as i32);
                }
                assert(p@ == mesh_packet_set_varint(before, tag, v));
                r
            } else if tag == 4 {
                let (b, r) = pb_merge_bytes(wire, field)?;
                let mut slot: Option<mesh_packet::PayloadVariant> = None;
                std::mem::swap(&mut slot, &mut p.payload_variant);
                let prior = match slot {
                    Some(mesh_packet::PayloadVariant::Decoded(d)) => d,
                    _ => Data::default(),
                };
                assert(prior@ == match before.payload {
                    Some(MeshPayloadView::Decoded(d)) => d,
                    _ => empty_data(),
                });
                let d2 = Data::merge_from(b.as_slice(), prior)?;
                p.payload_variant = Some(mesh_packet::PayloadVariant::Decoded(d2));
                r
            } else if tag == 5 {
                let (b, r) = pb_merge_bytes(wire, field)?;
                p.payload_variant = Some(mesh_packet::PayloadVariant::Encrypted(b));
                r
            } else if tag == 7 {
                let (v, r) = pb_merge_fixed32(wire, field)?;
                p.rx_time = v;
                r
            } else if tag == 8 {
                let (_, r) = pb_merge_fixed32(wire, field)?;
                r
            } else {
                pb_skip_field(wire, tag, field)?
            };
            assert(mesh_packet_field(before, tag, wire, field@) == Some((p@, rest as nat)));
            assert(rest <= field@.len());
            assert(tail(cur@, rest as nat) =~= tail(buf@, rest as nat));
            assert(cur@ =~= tail(buf@, rem as nat));
            rem = rest;
        }
        proof {
            reveal(mesh_packet_fields);
        }
        Ok(p)
    }

    /// Decode a packet from the protobuf wire format.
    pub fn decode(buf: &[u8]) -> (r: Result<MeshPacket, prost::DecodeError>)
        ensures
            r matches Ok(p) ==> mesh_packet_decode(buf@) == Some(p@),
            r is Err ==> mesh_packet_decode(buf@) is None,
    {
        MeshPacket::merge_from(buf, MeshPacket::empty())
    }
}

/// The schema's field numbers and wire types of `MeshPacket`: a packet
/// whose only non-default field is one of these encodes to that field's key
/// byte and value — `from` 1, `to` 2, `channel` 3, `id` 6, `hop_limit` 10,
/// `want_ack` 11 and `rx_rssi` 13 as varints (a negative RSSI sign-extended
/// to 64 bits), `rx_time` 7 as four little-endian bytes, a decoded body 4 and
/// raw ciphertext 5 length-delimited; the default packet encodes to nothing.
pub proof fn lemma_mesh_packet_field_numbers(v: u32, r: i32, d: DataView, e: Seq<u8>)
    ensures
        mesh_packet_bytes(empty_mesh_packet()) == Seq::<u8>::empty(),
        v != 0 ==> mesh_packet_bytes(MeshPacketView { from: v, ..empty_mesh_packet() }) == seq![0x08u8]
            + varint_bytes(v as nat),
        v != 0 ==> mesh_packet_bytes(MeshPacketView { to: v, ..empty_mesh_packet() }) == seq![0x10u8]
            + varint_bytes(v as nat),
        v != 0 ==> mesh_packet_bytes(MeshPacketView { channel: v, ..empty_mesh_packet() }) == seq![0x18u8]
            + varint_bytes(v as nat),
        v != 0 ==> mesh_packet_bytes(MeshPacketView { id: v, ..empty_mesh_packet() }) == seq![0x30u8]
            + varint_bytes(v as nat),
        v != 0 ==> mesh_packet_bytes(MeshPacketView { rx_time: v, ..empty_mesh_packet() }) == seq![0x3du8]
            + crate::mac::packet::u32_le_bytes(v),
        v != 0 ==> mesh_packet_bytes(MeshPacketView { hop_limit: v, ..empty_mesh_packet() }) == seq![0x50u8]
            + varint_bytes(v as nat),
        mesh_packet_bytes(MeshPacketView { want_ack: true, ..empty_mesh_packet() }) == seq![0x58u8, 0x01u8],
        r != 0 ==> mesh_packet_bytes(MeshPacketView { rx_rssi: r, ..empty_mesh_packet() }) == seq![0x68u8]
            + varint_bytes((r as u64) as nat),
        mesh_packet_bytes(MeshPacketView { payload: Some(MeshPayloadView::Decoded(d)), ..empty_mesh_packet() })
            == seq![0x22u8] + varint_bytes(data_bytes(d).len()) + data_bytes(d),
        mesh_packet_bytes(MeshPacketView { payload: Some(MeshPayloadView::Encrypted(e)), ..empty_mesh_packet() })
            == seq![0x2au8] + varint_bytes(e.len()) + e,
{
    crate::proto::lemma_key_byte(1, 0);
    crate::proto::lemma_key_byte(2, 0);
    crate::proto::lemma_key_byte(3, 0);
    crate::proto::lemma_key_byte(4, 2);
    crate::proto::lemma_key_byte(5, 2);
    crate::proto::lemma_key_byte(6, 0);
    crate::proto::lemma_key_byte(7, 5);
    crate::proto::lemma_key_byte(10, 0);
    crate::proto::lemma_key_byte(11, 0);
    crate::proto::lemma_key_byte(13, 0);
    let nil = Seq::<u8>::empty();
    assert(nil + nil =~= nil);
    assert(varint_bytes(1) == seq![1u8]);
    let x = empty_mesh_packet();
    assert(mesh_packet_tail_bytes(x) =~= nil);
    assert(mesh_packet_bytes(x) =~= nil);
    let p = MeshPacketView { from: v, ..x };
    assert(mesh_packet_tail_bytes(p) =~= nil);
    assert(v != 0 ==> mesh_packet_bytes(p) =~= seq![0x08u8] + varint_bytes(v as nat));
    let p = MeshPacketView { to: v, ..x };
    assert(mesh_packet_tail_bytes(p) =~= nil);
    assert(v != 0 ==> mesh_packet_bytes(p) =~= seq![0x10u8] + varint_bytes(v as nat));
    let p = MeshPacketView { channel: v, ..x };
    assert(mesh_packet_tail_bytes(p) =~= nil);
    assert(v != 0 ==> mesh_packet_bytes(p) =~= seq![0x18u8] + varint_bytes(v as nat));
    let p = MeshPacketView { id: v, ..x };
    assert(v != 0 ==> mesh_packet_tail_bytes(p) =~= seq![0x30u8] + varint_bytes(v as nat));
    assert(v != 0 ==> mesh_packet_bytes(p) =~= seq![0x30u8] + varint_bytes(v as nat));
    let p = MeshPacketView { rx_time: v, ..x };
    assert(v != 0 ==> mesh_packet_tail_bytes(p) =~= seq![0x3du8] + crate::mac::packet::u32_le_bytes(v));
    assert(v != 0 ==> mesh_packet_bytes(p) =~= seq![0x3du8] + crate::mac::packet::u32_le_bytes(v));
    let p = MeshPacketView { hop_limit: v, ..x };
    assert(v != 0 ==> mesh_packet_tail_bytes(p) =~= seq![0x50u8] + varint_bytes(v as nat));
    assert(v != 0 ==> mesh_packet_bytes(p) =~= seq![0x50u8] + varint_bytes(v as nat));
    let p = MeshPacketView { want_ack: true, ..x };
    assert(mesh_packet_tail_bytes(p) =~= seq![0x58u8, 0x01u8]);
    assert(mesh_packet_bytes(p) =~= seq![0x58u8, 0x01u8]);
    let p = MeshPacketView { rx_rssi: r, ..x };
    assert(r != 0 ==> mesh_packet_tail_bytes(p) =~= seq![0x68u8] + varint_bytes((r as u64) as nat));
    assert(r != 0 ==> mesh_packet_bytes(p) =~= seq![0x68u8] + varint_bytes((r as u64) as nat));
    let p = MeshPacketView { payload: Some(MeshPayloadView::Decoded(d)), ..x };
    assert(mesh_packet_tail_bytes(p) =~= nil);
    assert(mesh_packet_bytes(p) =~= seq![0x22u8] + varint_bytes(data_bytes(d).len()) + data_bytes(d));
    let p = MeshPacketView { payload: Some(MeshPayloadView::Encrypted(e)), ..x };
    assert(mesh_packet_tail_bytes(p) =~= nil);
    assert(mesh_packet_bytes(p) =~= seq![0x2au8] + varint_bytes(e.len()) + e);
}

/// A packet's encoding is the encodings of its fields, each on its own, in
/// the order of their field numbers: `from`, `to`, `channel`, the payload,
/// `id`, `rx_time`, `hop_limit`, `want_ack`, `rx_rssi`.
pub proof fn lemma_mesh_packet_fields_in_order(p: MeshPacketView)
    ensures
        ({
            let x = empty_mesh_packet();
            mesh_packet_bytes(p) == mesh_packet_bytes(MeshPacketView { from: p.from, ..x })
                + mesh_packet_bytes(MeshPacketView { to: p.to, ..x })
                + mesh_packet_bytes(MeshPacketView { channel: p.channel, ..x })
                + mesh_packet_bytes(MeshPacketView { payload: p.payload, ..x })
                + mesh_packet_bytes(MeshPacketView { id: p.id, ..x })
                + mesh_packet_bytes(MeshPacketView { rx_time: p.rx_time, ..x })
                + mesh_packet_bytes(MeshPacketView { hop_limit: p.hop_limit, ..x })
                + mesh_packet_bytes(MeshPacketView { want_ack: p.want_ack, ..x })
                + mesh_packet_bytes(MeshPacketView { rx_rssi: p.rx_rssi, ..x })
        }),
{
    let x = empty_mesh_packet();
    let nil = Seq::<u8>::empty();
    assert(mesh_packet_tail_bytes(x) =~= nil);
    let f1 = MeshPacketView { from: p.from, ..x };
    let f2 = MeshPacketView { to: p.to, ..x };
    let f3 = MeshPacketView { channel: p.channel, ..x };
    let f4 = MeshPacketView { payload: p.payload, ..x };
    let f6 = MeshPacketView { id: p.id, ..x };
    let f7 = MeshPacketView { rx_time: p.rx_time, ..x };
    let f10 = MeshPacketView { hop_limit: p.hop_limit, ..x };
    let f11 = MeshPacketView { want_ack: p.want_ack, ..x };
    let f13 = MeshPacketView { rx_rssi: p.rx_rssi, ..x };
    assert(mesh_packet_tail_bytes(f1) =~= nil);
    assert(mesh_packet_tail_bytes(f2) =~= nil);
    assert(mesh_packet_tail_bytes(f3) =~= nil);
    assert(mesh_packet_tail_bytes(f4) =~= nil);
    assert(mesh_packet_bytes(f1) =~= opt(p.from != 0, field_varint(1, p.from as nat)));
    assert(mesh_packet_bytes(f2) =~= opt(p.to != 0, field_varint(2, p.to as nat)));
    assert(mesh_packet_bytes(f3) =~= opt(p.channel != 0, field_varint(3, p.channel as nat)));
    assert(mesh_packet_bytes(f4) =~= mesh_payload_bytes(p.payload));
    assert(mesh_packet_bytes(f6) =~= opt(p.id != 0, field_varint(6, p.id as nat)));
    assert(mesh_packet_bytes(f7) =~= opt(p.rx_time != 0, field_fixed32(7, p.rx_time)));
    assert(mesh_packet_bytes(f10) =~= opt(p.hop_limit != 0, field_varint(10, p.hop_limit as nat)));
    assert(mesh_packet_bytes(f11) =~= opt(p.want_ack, field_varint(11, 1)));
    assert(mesh_packet_bytes(f13) =~= opt(p.rx_rssi != 0, field_varint(13, (p.rx_rssi as u64) as nat)));
    lemma_concat_flat9(
        mesh_packet_bytes(f1),
        mesh_packet_bytes(f2),
        mesh_packet_bytes(f3),
        mesh_packet_bytes(f4),
        mesh_packet_bytes(f6),
        mesh_packet_bytes(f7),
        mesh_packet_bytes(f10),
        mesh_packet_bytes(f11),
        mesh_packet_bytes(f13),
    );
}

proof fn lemma_concat_flat9(
    a: Seq<u8>,
    b: Seq<u8>,
    c: Seq<u8>,
    d: Seq<u8>,
    e: Seq<u8>,
    f: Seq<u8>,
    g: Seq<u8>,
    h: Seq<u8>,
    i: Seq<u8>,
)
    ensures
        a + (b + (c + (d + (e + (f + (g + (h + i))))))) == a + b + c + d + e + f + g + h + i,
{
    assert(a + (b + (c + (d + (e + (f + (g + (h + i))))))) =~= a + b + c + d + e + f + g + h + i);
}

/// Decoding a single varint field of `MeshPacket` sets the field the
/// schema gives that number: 1 `from`, 2 `to`, 3 `channel`, 6 `id`, 10
/// `hop_limit`; the key byte `0x3d` (field 7, fixed32) sets `rx_time`.
pub proof fn lemma_mesh_packet_decodes_field_numbers(v: u32)
    requires
        v != 0,
    ensures
        mesh_packet_decode(seq![0x08u8] + varint_bytes(v as nat)) == Some(MeshPacketView { from: v, ..empty_mesh_packet() }),
        mesh_packet_decode(seq![0x10u8] + varint_bytes(v as nat)) == Some(MeshPacketView { to: v, ..empty_mesh_packet() }),
        mesh_packet_decode(seq![0x18u8] + varint_bytes(v as nat)) == Some(MeshPacketView { channel: v, ..empty_mesh_packet() }),
        mesh_packet_decode(seq![0x30u8] + varint_bytes(v as nat)) == Some(MeshPacketView { id: v, ..empty_mesh_packet() }),
        mesh_packet_decode(seq![0x50u8] + varint_bytes(v as nat)) == Some(MeshPacketView { hop_limit: v, ..empty_mesh_packet() }),
        mesh_packet_decode(seq![0x3du8] + crate::mac::packet::u32_le_bytes(v)) == Some(MeshPacketView { rx_time: v, ..empty_mesh_packet() }),
{
    lemma_mesh_packet_field_numbers(v, 0, arbitrary(), Seq::empty());
    crate::proto::lemma_varint_len(v as nat);
    let x = empty_mesh_packet();
    lemma_mesh_packet_round_trip(MeshPacketView { from: v, ..x });
    lemma_mesh_packet_round_trip(MeshPacketView { to: v, ..x });
    lemma_mesh_packet_round_trip(MeshPacketView { channel: v, ..x });
    lemma_mesh_packet_round_trip(MeshPacketView { id: v, ..x });
    lemma_mesh_packet_round_trip(MeshPacketView { hop_limit: v, ..x });
    lemma_mesh_packet_round_trip(MeshPacketView { rx_time: v, ..x });
}

// ── MyNodeInfo, NodeInfo ──────────────────────────────────────────────────

/// The value of a [`MyNodeInfo`].
pub ghost struct MyNodeInfoView {
    pub my_node_num: u32,
    pub max_channels: u32,
    pub firmware_version: Seq<char>,
}

impl View for MyNodeInfo {
    type V = MyNodeInfoView;

    open spec fn view(&self) -> MyNodeInfoView {
        MyNodeInfoView {
            my_node_num: self.my_node_num,
            max_channels: self.max_channels,
            firmware_version: self.firmware_version@,
        }
    }
}

pub open spec fn empty_my_node_info() -> MyNodeInfoView {
    MyNodeInfoView { my_node_num: 0, max_channels: 0, firmware_version: Seq::empty() }
}

/// The wire encoding of a `MyNodeInfo`: its non-default fields in tag order.
pub open spec fn my_node_info_bytes(m: MyNodeInfoView) -> Seq<u8> {
    opt(m.my_node_num != 0, field_varint(1, m.my_node_num as nat)) + (opt(
        m.max_channels != 0,
        field_varint(7, m.max_channels as nat),
    ) + opt(m.firmware_version.len() > 0, field_bytes(8, encode_utf8(m.firmware_version))))
}

/// One field of a `MyNodeInfo` read from `s`.
pub open spec fn my_node_info_field(m: MyNodeInfoView, tag: u32, wire: u8, s: Seq<u8>) -> Option<(MyNodeInfoView, nat)> {
    if tag == 1 {
        match crate::proto::wire::varint_field(wire, s) {
            Some((v, r)) => Some((MyNodeInfoView { my_node_num: v as u32, ..m }, r)),
            None => None,
        }
    } else if tag == 7 {
        match crate::proto::wire::varint_field(wire, s) {
            Some((v, r)) => Some((MyNodeInfoView { max_channels: v as u32, ..m }, r)),
            None => None,
        }
    } else if tag == 8 {
        match string_field(wire, s) {
            Some((c, r)) => Some((MyNodeInfoView { firmware_version: c, ..m }, r)),
            None => None,
        }
    } else {
        match skip_field_len(wire, tag, s) {
            Some(r) => Some((m, r)),
            None => None,
        }
    }
}

/// The fields of a `MyNodeInfo` read from `s` in turn, starting from `x`.
#[verifier::opaque]
pub open spec fn my_node_info_fields(s: Seq<u8>, x: MyNodeInfoView) -> Option<MyNodeInfoView>
    decreases s.len(),
{
    if s.len() == 0 {
        Some(x)
    } else {
        match key_decode(s) {
            Some((tag, wire, rest)) => if rest >= s.len() {
                None
            } else {
                match my_node_info_field(x, tag, wire, tail(s, rest)) {
                    Some((x2, rest2)) => if rest2 < s.len() {
                        my_node_info_fields(tail(s, rest2), x2)
                    } else {
                        None
                    },
                    None => None,
                }
            },
            None => None,
        }
    }
}

/// The `MyNodeInfo` that the bytes `s` decode to, if any.
pub open spec fn my_node_info_decode(s: Seq<u8>) -> Option<MyNodeInfoView> {
    my_node_info_fields(s, empty_my_node_info())
}

proof fn lemma_my_node_info_chunk(present: bool, tag: u32, wire: u8, body: Seq<u8>, rest: Seq<u8>, x: MyNodeInfoView, x2: MyNodeInfoView)
    requires
        1 <= tag <= 15,
        wire <= 5,
        present ==> my_node_info_field(x, tag, wire, body + rest) == Some((x2, rest.len())),
    ensures
        my_node_info_fields(opt(present, key_bytes(tag as nat, wire as nat) + body) + rest, x)
            == my_node_info_fields(rest, if present { x2 } else { x }),
{
    reveal(my_node_info_fields);
    if present {
        let k = key_bytes(tag as nat, wire as nat);
        let s = opt(present, k + body) + rest;
        assert(s =~= k + (body + rest));
        lemma_key_round_trip(tag, wire, body + rest);
        assert(tail(s, (body + rest).len()) =~= body + rest);
        assert(tail(s, rest.len()) =~= rest);
    } else {
        assert(opt(present, key_bytes(tag as nat, wire as nat) + body) + rest =~= rest);
    }
}

proof fn lemma_my_node_info_end(x: MyNodeInfoView)
    ensures
        my_node_info_fields(Seq::<u8>::empty(), x) == Some(x),
{
    reveal(my_node_info_fields);
}

/// Decoding the encoding of a `MyNodeInfo` gives it back.
pub proof fn lemma_my_node_info_round_trip(m: MyNodeInfoView)
    requires
        my_node_info_bytes(m).len() <= u64::MAX,
    ensures
        my_node_info_decode(my_node_info_bytes(m)) == Some(m),
{
    let e = empty_my_node_info();
    let nil = Seq::<u8>::empty();
    let fw = encode_utf8(m.firmware_version);
    let c3 = opt(m.firmware_version.len() > 0, field_bytes(8, fw));
    let c2 = opt(m.max_channels != 0, field_varint(7, m.max_channels as nat));
    let s2 = c2 + c3;
    let m1 = MyNodeInfoView { my_node_num: m.my_node_num, ..e };
    let m2 = MyNodeInfoView { max_channels: m.max_channels, ..m1 };
    lemma_varint_field(m.my_node_num as u64, s2);
    lemma_my_node_info_chunk(m.my_node_num != 0, 1, WIRE_VARINT, varint_bytes(m.my_node_num as nat), s2, e, m1);
    lemma_varint_field(m.max_channels as u64, c3);
    lemma_my_node_info_chunk(m.max_channels != 0, 7, WIRE_VARINT, varint_bytes(m.max_channels as nat), c3, m1, m2);
    if m.firmware_version.len() > 0 {
        lemma_string_field(m.firmware_version, nil);
        assert(varint_bytes(fw.len()) + fw + nil =~= (varint_bytes(fw.len()) + fw) + nil);
        assert(field_bytes(8, fw) == key_bytes(8, WIRE_LEN as nat) + (varint_bytes(fw.len()) + fw));
        lemma_my_node_info_chunk(true, 8, WIRE_LEN, varint_bytes(fw.len()) + fw, nil, m2, m);
    } else {
        assert(m.firmware_version =~= Seq::<char>::empty());
    }
    assert(c3 + nil =~= c3);
    lemma_my_node_info_end(m);
    lemma_my_node_info_end(m2);
}

/// The value of a [`NodeInfoProto`].
pub ghost struct NodeInfoView {
    pub num: u32,
    pub user: Option<UserView>,
    pub last_heard: u32,
}

impl View for NodeInfoProto {
    type V = NodeInfoView;

    open spec fn view(&self) -> NodeInfoView {
        NodeInfoView {
            num: self.num,
            user: match self.user {
                Some(u) => Some(u@),
                None => None,
            },
            last_heard: self.last_heard,
        }
    }
}

pub open spec fn empty_node_info() -> NodeInfoView {
    NodeInfoView { num: 0, user: None, last_heard: 0 }
}

/// The user field of a node info: written whenever present.
pub open spec fn node_user_bytes(u: Option<UserView>) -> Seq<u8> {
    match u {
        Some(u) => field_bytes(2, user_bytes(u)),
        None => Seq::empty(),
    }
}

/// The wire encoding of a `NodeInfo`: its non-default fields in tag order.
/// The last SNR (tag 4, a float) is always 0 here and so never written.
pub open spec fn node_info_bytes(n: NodeInfoView) -> Seq<u8> {
    opt(n.num != 0, field_varint(1, n.num as nat)) + (node_user_bytes(n.user) + opt(
        n.last_heard != 0,
        field_fixed32(5, n.last_heard),
    ))
}

/// One field of a `NodeInfo` read from `s`: the user merges into the one
/// already read; the SNR (tag 4) is read and dropped.
pub open spec fn node_info_field(n: NodeInfoView, tag: u32, wire: u8, s: Seq<u8>) -> Option<(NodeInfoView, nat)> {
    if tag == 1 {
        match crate::proto::wire::varint_field(wire, s) {
            Some((v, r)) => Some((NodeInfoView { num: v as u32, ..n }, r)),
            None => None,
        }
    } else if tag == 2 {
        match bytes_field(wire, s) {
            Some((b, r)) => {
                let start = match n.user {
                    Some(u) => u,
                    None => empty_user(),
                };
                match user_fields(b, start) {
                    Some(u2) => Some((NodeInfoView { user: Some(u2), ..n }, r)),
                    None => None,
                }
            },
            None => None,
        }
    } else if tag == 4 {
        match fixed32_field(wire, s) {
            Some((_, r)) => Some((n, r)),
            None => None,
        }
    } else if tag == 5 {
        match fixed32_field(wire, s) {
            Some((v, r)) => Some((NodeInfoView { last_heard: v, ..n }, r)),
            None => None,
        }
    } else {
        match skip_field_len(wire, tag, s) {
            Some(r) => Some((n, r)),
            None => None,
        }
    }
}

/// The fields of a `NodeInfo` read from `s` in turn, starting from `x`.
#[verifier::opaque]
pub open spec fn node_info_fields(s: Seq<u8>, x: NodeInfoView) -> Option<NodeInfoView>
    decreases s.len(),
{
    if s.len() == 0 {
        Some(x)
    } else {
        match key_decode(s) {
            Some((tag, wire, rest)) => if rest >= s.len() {
                None
            } else {
                match node_info_field(x, tag, wire, tail(s, rest)) {
                    Some((x2, rest2)) => if rest2 < s.len() {
                        node_info_fields(tail(s, rest2), x2)
                    } else {
                        None
                    },
                    None => None,
                }
            },
            None => None,
        }
    }
}

/// The `NodeInfo` that the bytes `s` decode to, if any.
pub open spec fn node_info_decode(s: Seq<u8>) -> Option<NodeInfoView> {
    node_info_fields(s, empty_node_info())
}

proof fn lemma_node_info_chunk(present: bool, tag: u32, wire: u8, body: Seq<u8>, rest: Seq<u8>, x: NodeInfoView, x2: NodeInfoView)
    requires
        1 <= tag <= 15,
        wire <= 5,
        present ==> node_info_field(x, tag, wire, body + rest) == Some((x2, rest.len())),
    ensures
        node_info_fields(opt(present, key_bytes(tag as nat, wire as nat) + body) + rest, x)
            == node_info_fields(rest, if present { x2 } else { x }),
{
    reveal(node_info_fields);
    if present {
        let k = key_bytes(tag as nat, wire as nat);
        let s = opt(present, k + body) + rest;
        assert(s =~= k + (body + rest));
        lemma_key_round_trip(tag, wire, body + rest);
        assert(tail(s, (body + rest).len()) =~= body + rest);
        assert(tail(s, rest.len()) =~= rest);
    } else {
        assert(opt(present, key_bytes(tag as nat, wire as nat) + body) + rest =~= rest);
    }
}

proof fn lemma_node_info_end(x: NodeInfoView)
    ensures
        node_info_fields(Seq::<u8>::empty(), x) == Some(x),
{
    reveal(node_info_fields);
}

/// Decoding the encoding of a `NodeInfo` gives it back.
pub proof fn lemma_node_info_round_trip(n: NodeInfoView)
    requires
        node_info_bytes(n).len() <= u64::MAX,
    ensures
        node_info_decode(node_info_bytes(n)) == Some(n),
{
    let e = empty_node_info();
    let nil = Seq::<u8>::empty();
    let c3 = opt(n.last_heard != 0, field_fixed32(5, n.last_heard));
    let c2 = node_user_bytes(n.user);
    let s2 = c2 + c3;
    let n1 = NodeInfoView { num: n.num, ..e };
    let n2 = NodeInfoView { user: n.user, ..n1 };
    lemma_varint_field(n.num as u64, s2);
    lemma_node_info_chunk(n.num != 0, 1, WIRE_VARINT, varint_bytes(n.num as nat), s2, e, n1);
    match n.user {
        Some(u) => {
            let b = user_bytes(u);
            lemma_bytes_field(b, c3);
            lemma_user_bounds(u);
            crate::proto::lemma_user_round_trip(u);
            assert(varint_bytes(b.len()) + b + c3 =~= (varint_bytes(b.len()) + b) + c3);
            assert(c2 == key_bytes(2, WIRE_LEN as nat) + (varint_bytes(b.len()) + b));
            lemma_node_info_chunk(true, 2, WIRE_LEN, varint_bytes(b.len()) + b, c3, n1, n2);
        },
        None => {
            assert(c2 + c3 =~= c3);
        },
    }
    lemma_fixed32_field(n.last_heard, nil);
    lemma_node_info_chunk(n.last_heard != 0, 5, WIRE_FIXED32, crate::mac::packet::u32_le_bytes(n.last_heard), nil, n2, n);
    assert(c3 + nil =~= c3);
    lemma_node_info_end(n);
    lemma_node_info_end(n2);
}

/// The parts of a user's encoding are no longer than the whole.
proof fn lemma_user_bounds(u: UserView)
    ensures
        encode_utf8(u.id).len() <= user_bytes(u).len(),
        encode_utf8(u.long_name).len() <= user_bytes(u).len(),
        encode_utf8(u.short_name).len() <= user_bytes(u).len(),
        u.macaddr.len() <= user_bytes(u).len(),
{
    if u.id.len() == 0 {
        assert(u.id =~= Seq::<char>::empty());
    }
    if u.long_name.len() == 0 {
        assert(u.long_name =~= Seq::<char>::empty());
    }
    if u.short_name.len() == 0 {
        assert(u.short_name =~= Seq::<char>::empty());
    }
}

// ── FromRadio ──────────────────────────────────────────────────────────────

/// The payload of a [`FromRadioView`].
pub ghost enum FromPayloadView {
    Packet(MeshPacketView),
    MyInfo(MyNodeInfoView),
    NodeInfo(NodeInfoView),
    ConfigCompleteId(u32),
}

/// The value of a [`FromRadio`].
pub ghost struct FromRadioView {
    pub id: u32,
    pub payload: Option<FromPayloadView>,
}

impl View for FromRadio {
    type V = FromRadioView;

    open spec fn view(&self) -> FromRadioView {
        FromRadioView {
            id: self.id,
            payload: match self.payload_variant {
                Some(from_radio::PayloadVariant::Packet(p)) => Some(FromPayloadView::Packet(p@)),
                Some(from_radio::PayloadVariant::MyInfo(m)) => Some(FromPayloadView::MyInfo(m@)),
                Some(from_radio::PayloadVariant::NodeInfo(n)) => Some(FromPayloadView::NodeInfo(n@)),
                Some(from_radio::PayloadVariant::ConfigCompleteId(v)) => Some(FromPayloadView::ConfigCompleteId(v)),
                None => None,
            },
        }
    }
}

pub open spec fn empty_from_radio() -> FromRadioView {
    FromRadioView { id: 0, payload: None }
}

/// The payload field of a `FromRadio`, written whenever present.
pub open spec fn from_payload_bytes(p: Option<FromPayloadView>) -> Seq<u8> {
    match p {
        Some(FromPayloadView::Packet(m)) => field_bytes(2, mesh_packet_bytes(m)),
        Some(FromPayloadView::MyInfo(m)) => field_bytes(3, my_node_info_bytes(m)),
        Some(FromPayloadView::NodeInfo(n)) => field_bytes(4, node_info_bytes(n)),
        Some(FromPayloadView::ConfigCompleteId(v)) => field_varint(8, v as nat),
        None => Seq::empty(),
    }
}

/// The wire encoding of a `FromRadio`: the id when non-zero, then the payload.
pub open spec fn from_radio_bytes(f: FromRadioView) -> Seq<u8> {
    opt(f.id != 0, field_varint(1, f.id as nat)) + from_payload_bytes(f.payload)
}

/// One field of a `FromRadio` read from `s`: an embedded message merges into
/// one of the same kind already read, else starts afresh.
pub open spec fn from_radio_field(f: FromRadioView, tag: u32, wire: u8, s: Seq<u8>) -> Option<(FromRadioView, nat)> {
    if tag == 1 {
        match crate::proto::wire::varint_field(wire, s) {
            Some((v, r)) => Some((FromRadioView { id: v as u32, ..f }, r)),
            None => None,
        }
    } else if tag == 2 {
        match bytes_field(wire, s) {
            Some((b, r)) => {
                let start = match f.payload {
                    Some(FromPayloadView::Packet(m)) => m,
                    _ => empty_mesh_packet(),
                };
                match mesh_packet_fields(b, start) {
                    Some(m2) => Some((FromRadioView { payload: Some(FromPayloadView::Packet(m2)), ..f }, r)),
                    None => None,
                }
            },
            None => None,
        }
    } else if tag == 3 {
        match bytes_field(wire, s) {
            Some((b, r)) => {
                let start = match f.payload {
                    Some(FromPayloadView::MyInfo(m)) => m,
                    _ => empty_my_node_info(),
                };
                match my_node_info_fields(b, start) {
                    Some(m2) => Some((FromRadioView { payload: Some(FromPayloadView::MyInfo(m2)), ..f }, r)),
                    None => None,
                }
            },
            None => None,
        }
    } else if tag == 4 {
        match bytes_field(wire, s) {
            Some((b, r)) => {
                let start = match f.payload {
                    Some(FromPayloadView::NodeInfo(n)) => n,
                    _ => empty_node_info(),
                };
                match node_info_fields(b, start) {
                    Some(n2) => Some((FromRadioView { payload: Some(FromPayloadView::NodeInfo(n2)), ..f }, r)),
                    None => None,
                }
            },
            None => None,
        }
    } else if tag == 8 {
        match crate::proto::wire::varint_field(wire, s) {
            Some((v, r)) => Some((FromRadioView { payload: Some(FromPayloadView::ConfigCompleteId(v as u32)), ..f }, r)),
            None => None,
        }
    } else {
        match skip_field_len(wire, tag, s) {
            Some(r) => Some((f, r)),
            None => None,
        }
    }
}

/// The fields of a `FromRadio` read from `s` in turn, starting from `x`.
#[verifier::opaque]
pub open spec fn from_radio_fields(s: Seq<u8>, x: FromRadioView) -> Option<FromRadioView>
    decreases s.len(),
{
    if s.len() == 0 {
        Some(x)
    } else {
        match key_decode(s) {
            Some((tag, wire, rest)) => if rest >= s.len() {
                None
            } else {
                match from_radio_field(x, tag, wire, tail(s, rest)) {
                    Some((x2, rest2)) => if rest2 < s.len() {
                        from_radio_fields(tail(s, rest2), x2)
                    } else {
                        None
                    },
                    None => None,
                }
            },
            None => None,
        }
    }
}

/// The `FromRadio` that the bytes `s` decode to, if any.
pub open spec fn from_radio_decode(s: Seq<u8>) -> Option<FromRadioView> {
    from_radio_fields(s, empty_from_radio())
}

proof fn lemma_from_radio_chunk(present: bool, tag: u32, wire: u8, body: Seq<u8>, rest: Seq<u8>, x: FromRadioView, x2: FromRadioView)
    requires
        1 <= tag <= 15,
        wire <= 5,
        present ==> from_radio_field(x, tag, wire, body + rest) == Some((x2, rest.len())),
    ensures
        from_radio_fields(opt(present, key_bytes(tag as nat, wire as nat) + body) + rest, x)
            == from_radio_fields(rest, if present { x2 } else { x }),
{
    reveal(from_radio_fields);
    if present {
        let k = key_bytes(tag as nat, wire as nat);
        let s = opt(present, k + body) + rest;
        assert(s =~= k + (body + rest));
        lemma_key_round_trip(tag, wire, body + rest);
        assert(tail(s, (body + rest).len()) =~= body + rest);
        assert(tail(s, rest.len()) =~= rest);
    } else {
        assert(opt(present, key_bytes(tag as nat, wire as nat) + body) + rest =~= rest);
    }
}

proof fn lemma_from_radio_end(x: FromRadioView)
    ensures
        from_radio_fields(Seq::<u8>::empty(), x) == Some(x),
{
    reveal(from_radio_fields);
}

/// Decoding the encoding of a `FromRadio` gives it back.
#[verifier::rlimit(40)]
pub proof fn lemma_from_radio_round_trip(f: FromRadioView)
    requires
        from_radio_bytes(f).len() <= u64::MAX,
    ensures
        from_radio_decode(from_radio_bytes(f)) == Some(f),
{
    let e = empty_from_radio();
    let nil = Seq::<u8>::empty();
    let c2 = from_payload_bytes(f.payload);
    let f1 = FromRadioView { id: f.id, ..e };
    lemma_varint_field(f.id as u64, c2);
    lemma_from_radio_chunk(f.id != 0, 1, WIRE_VARINT, varint_bytes(f.id as nat), c2, e, f1);
    assert(c2 + nil =~= c2);
    match f.payload {
        Some(FromPayloadView::Packet(m)) => {
            let b = mesh_packet_bytes(m);
            lemma_bytes_field(b, nil);
            lemma_mesh_packet_round_trip(m);
            assert(varint_bytes(b.len()) + b + nil =~= (varint_bytes(b.len()) + b) + nil);
            assert(c2 == key_bytes(2, WIRE_LEN as nat) + (varint_bytes(b.len()) + b));
            lemma_from_radio_chunk(true, 2, WIRE_LEN, varint_bytes(b.len()) + b, nil, f1, f);
        },
        Some(FromPayloadView::MyInfo(m)) => {
            let b = my_node_info_bytes(m);
            lemma_bytes_field(b, nil);
            lemma_my_node_info_round_trip(m);
            assert(varint_bytes(b.len()) + b + nil =~= (varint_bytes(b.len()) + b) + nil);
            assert(c2 == key_bytes(3, WIRE_LEN as nat) + (varint_bytes(b.len()) + b));
            lemma_from_radio_chunk(true, 3, WIRE_LEN, varint_bytes(b.len()) + b, nil, f1, f);
        },
        Some(FromPayloadView::NodeInfo(n)) => {
            let b = node_info_bytes(n);
            lemma_bytes_field(b, nil);
            lemma_node_info_round_trip(n);
            assert(varint_bytes(b.len()) + b + nil =~= (varint_bytes(b.len()) + b) + nil);
            assert(c2 == key_bytes(4, WIRE_LEN as nat) + (varint_bytes(b.len()) + b));
            lemma_from_radio_chunk(true, 4, WIRE_LEN, varint_bytes(b.len()) + b, nil, f1, f);
        },
        Some(FromPayloadView::ConfigCompleteId(v)) => {
            lemma_varint_field(v as u64, nil);
            lemma_from_radio_chunk(true, 8, WIRE_VARINT, varint_bytes(v as nat), nil, f1, f);
        },
        None => {
            assert(f1 == f);
        },
    }
    lemma_from_radio_end(f);
}

impl MyNodeInfo {
    /// Encode in the protobuf wire format.
    pub fn encode_to_vec(&self) -> (r: Vec<u8>)
        ensures
            r@ == my_node_info_bytes(self@),
    {
        let ghost m = self@;
        let ghost c1 = opt(m.my_node_num != 0, field_varint(1, m.my_node_num as nat));
        let ghost c2 = opt(m.max_channels != 0, field_varint(7, m.max_channels as nat));
        let ghost c3 = opt(m.firmware_version.len() > 0, field_bytes(8, encode_utf8(m.firmware_version)));
        let mut buf: Vec<u8> = Vec::new();
        if self.my_node_num != 0 {
            put_varint_field(&mut buf, 1, self.my_node_num as u64);
        }
        assert(buf@ == c1);
        if self.max_channels != 0 {
            put_varint_field(&mut buf, 7, self.max_channels as u64);
        }
        assert(buf@ == c1 + c2);
        if !self.firmware_version.as_str().is_empty() {
            put_bytes_field(&mut buf, 8, self.firmware_version.as_str().as_bytes());
        }
        assert(buf@ == (c1 + c2) + c3);
        assert(buf@ =~= c1 + (c2 + c3));
        buf
    }
}

impl NodeInfoProto {
    /// Encode in the protobuf wire format.
    pub fn encode_to_vec(&self) -> (r: Vec<u8>)
        ensures
            r@ == node_info_bytes(self@),
    {
        let ghost n = self@;
        let ghost c1 = opt(n.num != 0, field_varint(1, n.num as nat));
        let ghost c2 = node_user_bytes(n.user);
        let ghost c3 = opt(n.last_heard != 0, field_fixed32(5, n.last_heard));
        let mut buf: Vec<u8> = Vec::new();
        if self.num != 0 {
            put_varint_field(&mut buf, 1, self.num as u64);
        }
        assert(buf@ == c1);
        match &self.user {
            Some(u) => {
                let body = u.encode_to_vec();
                put_bytes_field(&mut buf, 2, body.as_slice());
            },
            None => {},
        }
        assert(buf@ == c1 + c2);
        if self.last_heard != 0 {
            put_fixed32_field(&mut buf, 5, self.last_heard);
        }
        assert(buf@ == (c1 + c2) + c3);
        assert(buf@ =~= c1 + (c2 + c3));
        buf
    }
}

impl FromRadio {
    /// Encode in the protobuf wire format.
    pub fn encode_to_vec(&self) -> (r: Vec<u8>)
        ensures
            r@ == from_radio_bytes(self@),
    {
        let ghost f = self@;
        let mut buf: Vec<u8> = Vec::new();
        if self.id != 0 {
            put_varint_field(&mut buf, 1, self.id as u64);
        }
        assert(buf@ == opt(f.id != 0, field_varint(1, f.id as nat)));
        let ghost b1 = buf@;
        match &self.payload_variant {
            Some(from_radio::PayloadVariant::Packet(p)) => {
                let body = p.encode_to_vec();
                put_bytes_field(&mut buf, 2, body.as_slice());
            },
            Some(from_radio::PayloadVariant::MyInfo(m)) => {
                let body = m.encode_to_vec();
                put_bytes_field(&mut buf, 3, body.as_slice());
            },
            Some(from_radio::PayloadVariant::NodeInfo(n)) => {
                let body = n.encode_to_vec();
                put_bytes_field(&mut buf, 4, body.as_slice());
            },
            Some(from_radio::PayloadVariant::ConfigCompleteId(v)) => {
                put_varint_field(&mut buf, 8, *v as u64);
            },
            None => {},
        }
        assert(buf@ == b1 + from_payload_bytes(f.payload));
        buf
    }
}

// ── ToRadio ────────────────────────────────────────────────────────────────

/// The payload of a [`ToRadioView`].
pub ghost enum ToPayloadView {
    Packet(MeshPacketView),
    WantConfigId(u32),
}

/// The value of a [`ToRadio`].
pub ghost struct ToRadioView {
    pub payload: Option<ToPayloadView>,
}

impl View for ToRadio {
    type V = ToRadioView;

    open spec fn view(&self) -> ToRadioView {
        ToRadioView {
            payload: match self.payload_variant {
                Some(to_radio::PayloadVariant::Packet(p)) => Some(ToPayloadView::Packet(p@)),
                Some(to_radio::PayloadVariant::WantConfigId(v)) => Some(ToPayloadView::WantConfigId(v)),
                None => None,
            },
        }
    }
}

pub open spec fn empty_to_radio() -> ToRadioView {
    ToRadioView { payload: None }
}

/// The wire encoding of a `ToRadio`: its payload, written whenever present.
pub open spec fn to_radio_bytes(t: ToRadioView) -> Seq<u8> {
    match t.payload {
        Some(ToPayloadView::Packet(m)) => field_bytes(1, mesh_packet_bytes(m)),
        Some(ToPayloadView::WantConfigId(v)) => field_varint(3, v as nat),
        None => Seq::empty(),
    }
}

/// One field of a `ToRadio` read from `s`: a packet merges into a packet
/// already read, else starts afresh.
pub open spec fn to_radio_field(t: ToRadioView, tag: u32, wire: u8, s: Seq<u8>) -> Option<(ToRadioView, nat)> {
    if tag == 1 {
        match bytes_field(wire, s) {
            Some((b, r)) => {
                let start = match t.payload {
                    Some(ToPayloadView::Packet(m)) => m,
                    _ => empty_mesh_packet(),
                };
                match mesh_packet_fields(b, start) {
                    Some(m2) => Some((ToRadioView { payload: Some(ToPayloadView::Packet(m2)) }, r)),
                    None => None,
                }
            },
            None => None,
        }
    } else if tag == 3 {
        match crate::proto::wire::varint_field(wire, s) {
            Some((v, r)) => Some((ToRadioView { payload: Some(ToPayloadView::WantConfigId(v as u32)) }, r)),
            None => None,
        }
    } else {
        match skip_field_len(wire, tag, s) {
            Some(r) => Some((t, r)),
            None => None,
        }
    }
}

/// The fields of a `ToRadio` read from `s` in turn, starting from `x`.
#[verifier::opaque]
pub open spec fn to_radio_fields(s: Seq<u8>, x: ToRadioView) -> Option<ToRadioView>
    decreases s.len(),
{
    if s.len() == 0 {
        Some(x)
    } else {
        match key_decode(s) {
            Some((tag, wire, rest)) => if rest >= s.len() {
                None
            } else {
                match to_radio_field(x, tag, wire, tail(s, rest)) {
                    Some((x2, rest2)) => if rest2 < s.len() {
                        to_radio_fields(tail(s, rest2), x2)
                    } else {
                        None
                    },
                    None => None,
                }
            },
            None => None,
        }
    }
}

/// The `ToRadio` that the bytes `s` decode to, if any.
pub open spec fn to_radio_decode(s: Seq<u8>) -> Option<ToRadioView> {
    to_radio_fields(s, empty_to_radio())
}

proof fn lemma_to_radio_chunk(present: bool, tag: u32, wire: u8, body: Seq<u8>, rest: Seq<u8>, x: ToRadioView, x2: ToRadioView)
    requires
        1 <= tag <= 15,
        wire <= 5,
        present ==> to_radio_field(x, tag, wire, body + rest) == Some((x2, rest.len())),
    ensures
        to_radio_fields(opt(present, key_bytes(tag as nat, wire as nat) + body) + rest, x)
            == to_radio_fields(rest, if present { x2 } else { x }),
{
    reveal(to_radio_fields);
    if present {
        let k = key_bytes(tag as nat, wire as nat);
        let s = opt(present, k + body) + rest;
        assert(s =~= k + (body + rest));
        lemma_key_round_trip(tag, wire, body + rest);
        assert(tail(s, (body + rest).len()) =~= body + rest);
        assert(tail(s, rest.len()) =~= rest);
    } else {
        assert(opt(present, key_bytes(tag as nat, wire as nat) + body) + rest =~= rest);
    }
}

proof fn lemma_to_radio_end(x: ToRadioView)
    ensures
        to_radio_fields(Seq::<u8>::empty(), x) == Some(x),
{
    reveal(to_radio_fields);
}

/// Decoding the encoding of a `ToRadio` gives it back.
pub proof fn lemma_to_radio_round_trip(t: ToRadioView)
    requires
        to_radio_bytes(t).len() <= u64::MAX,
    ensures
        to_radio_decode(to_radio_bytes(t)) == Some(t),
{
    let e = empty_to_radio();
    let nil = Seq::<u8>::empty();
    let c = to_radio_bytes(t);
    assert(c + nil =~= c);
    match t.payload {
        Some(ToPayloadView::Packet(m)) => {
            let b = mesh_packet_bytes(m);
            lemma_bytes_field(b, nil);
            lemma_mesh_packet_round_trip(m);
            assert(varint_bytes(b.len()) + b + nil =~= (varint_bytes(b.len()) + b) + nil);
            assert(c == key_bytes(1, WIRE_LEN as nat) + (varint_bytes(b.len()) + b));
            lemma_to_radio_chunk(true, 1, WIRE_LEN, varint_bytes(b.len()) + b, nil, e, t);
        },
        Some(ToPayloadView::WantConfigId(v)) => {
            lemma_varint_field(v as u64, nil);
            lemma_to_radio_chunk(true, 3, WIRE_VARINT, varint_bytes(v as nat), nil, e, t);
        },
        None => {
            assert(t == e);
        },
    }
    lemma_to_radio_end(t);
}

impl ToRadio {
    /// Encode in the protobuf wire format.
    pub fn encode_to_vec(&self) -> (r: Vec<u8>)
        ensures
            r@ == to_radio_bytes(self@),
    {
        let mut buf: Vec<u8> = Vec::new();
        match &self.payload_variant {
            Some(to_radio::PayloadVariant::Packet(p)) => {
                let body = p.encode_to_vec();
                put_bytes_field(&mut buf, 1, body.as_slice());
            },
            Some(to_radio::PayloadVariant::WantConfigId(v)) => {
                put_varint_field(&mut buf, 3, *v as u64);
            },
            None => {},
        }
        buf
    }

    /// Decode a message from the protobuf wire format.
    pub fn decode(buf: &[u8]) -> (r: Result<ToRadio, prost::DecodeError>)
        ensures
            r matches Ok(t) ==> to_radio_decode(buf@) == Some(t@),
            r is Err ==> to_radio_decode(buf@) is None,
    {
        let mut v = ToRadio { payload_variant: None };
        let mut rem: usize = buf.len();
        assert(tail(buf@, rem as nat) =~= buf@);
        while rem > 0
            invariant
                rem <= buf@.len(),
                to_radio_fields(buf@, empty_to_radio()) == to_radio_fields(tail(buf@, rem as nat), v@),
            decreases rem,
        {
            proof {
                reveal(to_radio_fields);
            }
            let cur = slice_subrange(buf, buf.len() - rem, buf.len());
            let (tag, wire, after_key) = pb_decode_key(cur)?;
            proof {
                lemma_varint_bounds(cur@, 10);
            }
            let field = slice_subrange(buf, buf.len() - after_key, buf.len());
            assert(field@ =~= tail(cur@, after_key as nat));
            proof {
                lemma_varint_bounds(field@, 10);
            }
            let ghost before = v@;
            let rest = if tag == 1 {
                let (b, r) = pb_merge_bytes(wire, field)?;
                let mut slot: Option<to_radio::PayloadVariant> = None;
                std::mem::swap(&mut slot, &mut v.payload_variant);
                let prior = match slot {
                    Some(to_radio::PayloadVariant::Packet(p)) => p,
                    _ => MeshPacket::empty(),
                };
                assert(prior@ == match before.payload {
                    Some(ToPayloadView::Packet(m)) => m,
                    _ => empty_mesh_packet(),
                });
                let p2 = MeshPacket::merge_from(b.as_slice(), prior)?;
                v.payload_variant = Some(to_radio::PayloadVariant::Packet(p2));
                r
            } else if tag == 3 {
                let (x, r) = pb_merge_varint(wire, field)?;
                v.payload_variant = Some(to_radio::PayloadVariant::WantConfigId(#[verifier::truncate] (x as u32)));
                r
            } else {
                pb_skip_field(wire, tag, field)?
            };
            assert(to_radio_field(before, tag, wire, field@) == Some((v@, rest as nat)));
            assert(rest <= field@.len());
            assert(tail(cur@, rest as nat) =~= tail(buf@, rest as nat));
            assert(cur@ =~= tail(buf@, rem as nat));
            rem = rest;
        }
        proof {
            reveal(to_radio_fields);
        }
        Ok(v)
    }
}

/// The schema's field numbers of `MyNodeInfo` (`my_node_num` 1 and
/// `max_channels` 7 as varints, `firmware_version` 8 as UTF-8 bytes) and
/// `NodeInfo` (`num` 1 as a varint, `user` 2 as an embedded message,
/// `last_heard` 5 as four little-endian bytes): a message whose only
/// non-default field is one of these encodes to that field's key byte and
/// value.
pub proof fn lemma_node_info_field_numbers(v: u32, t: Seq<char>, u: UserView)
    ensures
        v != 0 ==> my_node_info_bytes(MyNodeInfoView { my_node_num: v, ..empty_my_node_info() }) == seq![0x08u8]
            + varint_bytes(v as nat),
        v != 0 ==> my_node_info_bytes(MyNodeInfoView { max_channels: v, ..empty_my_node_info() }) == seq![0x38u8]
            + varint_bytes(v as nat),
        t.len() > 0 ==> my_node_info_bytes(MyNodeInfoView { firmware_version: t, ..empty_my_node_info() }) == seq![
            0x42u8,
        ] + varint_bytes(encode_utf8(t).len()) + encode_utf8(t),
        v != 0 ==> node_info_bytes(NodeInfoView { num: v, ..empty_node_info() }) == seq![0x08u8] + varint_bytes(
            v as nat,
        ),
        node_info_bytes(NodeInfoView { user: Some(u), ..empty_node_info() }) == seq![0x12u8] + varint_bytes(
            user_bytes(u).len(),
        ) + user_bytes(u),
        v != 0 ==> node_info_bytes(NodeInfoView { last_heard: v, ..empty_node_info() }) == seq![0x2du8]
            + crate::mac::packet::u32_le_bytes(v),
{
    crate::proto::lemma_key_byte(1, 0);
    crate::proto::lemma_key_byte(7, 0);
    crate::proto::lemma_key_byte(8, 2);
    crate::proto::lemma_key_byte(2, 2);
    crate::proto::lemma_key_byte(5, 5);
    let nil = Seq::<u8>::empty();
    let m = empty_my_node_info();
    assert(v != 0 ==> my_node_info_bytes(MyNodeInfoView { my_node_num: v, ..m }) =~= seq![0x08u8] + varint_bytes(v as nat));
    assert(v != 0 ==> my_node_info_bytes(MyNodeInfoView { max_channels: v, ..m }) =~= seq![0x38u8] + varint_bytes(v as nat));
    assert(t.len() > 0 ==> my_node_info_bytes(MyNodeInfoView { firmware_version: t, ..m }) =~= seq![0x42u8]
        + varint_bytes(encode_utf8(t).len()) + encode_utf8(t));
    let n = empty_node_info();
    assert(v != 0 ==> node_info_bytes(NodeInfoView { num: v, ..n }) =~= seq![0x08u8] + varint_bytes(v as nat));
    assert(node_info_bytes(NodeInfoView { user: Some(u), ..n }) =~= seq![0x12u8] + varint_bytes(user_bytes(u).len())
        + user_bytes(u));
    assert(v != 0 ==> node_info_bytes(NodeInfoView { last_heard: v, ..n }) =~= seq![0x2du8]
        + crate::mac::packet::u32_le_bytes(v));
}

/// A `MyNodeInfo`'s and a `NodeInfo`'s encodings are the encodings of
/// their fields, each on its own, in the order of their field numbers.
pub proof fn lemma_node_info_fields_in_order(m: MyNodeInfoView, n: NodeInfoView)
    ensures
        ({
            let x = empty_my_node_info();
            my_node_info_bytes(m) == my_node_info_bytes(MyNodeInfoView { my_node_num: m.my_node_num, ..x })
                + my_node_info_bytes(MyNodeInfoView { max_channels: m.max_channels, ..x })
                + my_node_info_bytes(MyNodeInfoView { firmware_version: m.firmware_version, ..x })
        }),
        ({
            let y = empty_node_info();
            node_info_bytes(n) == node_info_bytes(NodeInfoView { num: n.num, ..y }) + node_info_bytes(
                NodeInfoView { user: n.user, ..y },
            ) + node_info_bytes(NodeInfoView { last_heard: n.last_heard, ..y })
        }),
{
    let x = empty_my_node_info();
    let c1 = my_node_info_bytes(MyNodeInfoView { my_node_num: m.my_node_num, ..x });
    let c2 = my_node_info_bytes(MyNodeInfoView { max_channels: m.max_channels, ..x });
    let c3 = my_node_info_bytes(MyNodeInfoView { firmware_version: m.firmware_version, ..x });
    assert(c1 =~= opt(m.my_node_num != 0, field_varint(1, m.my_node_num as nat)));
    assert(c2 =~= opt(m.max_channels != 0, field_varint(7, m.max_channels as nat)));
    assert(c3 =~= opt(m.firmware_version.len() > 0, field_bytes(8, encode_utf8(m.firmware_version))));
    assert(c1 + (c2 + c3) =~= c1 + c2 + c3);
    let y = empty_node_info();
    let d1 = node_info_bytes(NodeInfoView { num: n.num, ..y });
    let d2 = node_info_bytes(NodeInfoView { user: n.user, ..y });
    let d3 = node_info_bytes(NodeInfoView { last_heard: n.last_heard, ..y });
    assert(d1 =~= opt(n.num != 0, field_varint(1, n.num as nat)));
    assert(d2 =~= node_user_bytes(n.user));
    assert(d3 =~= opt(n.last_heard != 0, field_fixed32(5, n.last_heard)));
    assert(d1 + (d2 + d3) =~= d1 + d2 + d3);
}

/// The schema's field numbers of `FromRadio`: the `id` is field 1 (a
/// varint, left out when 0), a packet field 2, `my_info` field 3 and
/// `node_info` field 4 (embedded messages), `config_complete_id` field 8 (a
/// varint).
pub proof fn lemma_from_radio_field_numbers(id: u32, m: MeshPacketView, mi: MyNodeInfoView, n: NodeInfoView, c: u32)
    ensures
        from_radio_bytes(FromRadioView { id, payload: None }) == opt(id != 0, seq![0x08u8] + varint_bytes(id as nat)),
        from_radio_bytes(FromRadioView { id, payload: Some(FromPayloadView::Packet(m)) }) == opt(
            id != 0,
            seq![0x08u8] + varint_bytes(id as nat),
        ) + seq![0x12u8] + varint_bytes(mesh_packet_bytes(m).len()) + mesh_packet_bytes(m),
        from_radio_bytes(FromRadioView { id, payload: Some(FromPayloadView::MyInfo(mi)) }) == opt(
            id != 0,
            seq![0x08u8] + varint_bytes(id as nat),
        ) + seq![0x1au8] + varint_bytes(my_node_info_bytes(mi).len()) + my_node_info_bytes(mi),
        from_radio_bytes(FromRadioView { id, payload: Some(FromPayloadView::NodeInfo(n)) }) == opt(
            id != 0,
            seq![0x08u8] + varint_bytes(id as nat),
        ) + seq![0x22u8] + varint_bytes(node_info_bytes(n).len()) + node_info_bytes(n),
        from_radio_bytes(FromRadioView { id, payload: Some(FromPayloadView::ConfigCompleteId(c)) }) == opt(
            id != 0,
            seq![0x08u8] + varint_bytes(id as nat),
        ) + seq![0x40u8] + varint_bytes(c as nat),
{
    let h = opt(id != 0, seq![0x08u8] + varint_bytes(id as nat));
    assert(opt(id != 0, field_varint(1, id as nat)) == h) by {
        crate::proto::lemma_key_byte(1, 0);
    }
    assert(from_radio_bytes(FromRadioView { id, payload: None }) =~= h);
    lemma_len_field_key(h, 2, mesh_packet_bytes(m));
    lemma_len_field_key(h, 3, my_node_info_bytes(mi));
    lemma_len_field_key(h, 4, node_info_bytes(n));
    assert(field_varint(8, c as nat) == seq![0x40u8] + varint_bytes(c as nat)) by {
        crate::proto::lemma_key_byte(8, 0);
    }
}

/// A length-delimited field with a number below 16 after the bytes `h`.
proof fn lemma_len_field_key(h: Seq<u8>, tag: nat, b: Seq<u8>)
    requires
        1 <= tag < 16,
    ensures
        h + field_bytes(tag, b) == h + seq![(tag * 8 + 2) as u8] + varint_bytes(b.len()) + b,
{
    crate::proto::lemma_key_byte(tag, 2);
    assert(h + field_bytes(tag, b) =~= h + seq![(tag * 8 + 2) as u8] + varint_bytes(b.len()) + b);
}

/// The schema's field numbers of `ToRadio`: a packet is field 1 (an
/// embedded message), `want_config_id` field 3 (a varint).  Decoding those
/// bytes gives the request back.
pub proof fn lemma_to_radio_field_numbers(m: MeshPacketView, c: u32)
    ensures
        to_radio_bytes(ToRadioView { payload: Some(ToPayloadView::Packet(m)) }) == seq![0x0au8] + varint_bytes(
            mesh_packet_bytes(m).len(),
        ) + mesh_packet_bytes(m),
        to_radio_bytes(ToRadioView { payload: Some(ToPayloadView::WantConfigId(c)) }) == seq![0x18u8]
            + varint_bytes(c as nat),
        to_radio_decode(seq![0x18u8] + varint_bytes(c as nat)) == Some(
            ToRadioView { payload: Some(ToPayloadView::WantConfigId(c)) },
        ),
{
    crate::proto::lemma_key_byte(1, 2);
    crate::proto::lemma_key_byte(3, 0);
    assert(to_radio_bytes(ToRadioView { payload: Some(ToPayloadView::Packet(m)) }) =~= seq![0x0au8]
        + varint_bytes(mesh_packet_bytes(m).len()) + mesh_packet_bytes(m));
    let t = ToRadioView { payload: Some(ToPayloadView::WantConfigId(c)) };
    assert(to_radio_bytes(t) =~= seq![0x18u8] + varint_bytes(c as nat));
    crate::proto::lemma_varint_len(c as nat);
    lemma_to_radio_round_trip(t);
}

} // verus!
