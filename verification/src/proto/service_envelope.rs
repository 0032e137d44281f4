//! `ServiceEnvelope`: the protobuf wrapper that MQTT topics carry
//! (meshtastic/mqtt.proto), with its wire format.
use vstd::prelude::*;
use vstd::slice::slice_subrange;
use vstd::utf8::encode_utf8;
use crate::proto::{field_bytes, field_varint, opt, lemma_bytes_field, lemma_string_field, lemma_varint_bounds,
    lemma_varint_field, put_bytes_field, put_varint_field};
use crate::proto::radio::{MeshPacket, MeshPacketView, empty_mesh_packet, lemma_mesh_packet_round_trip,
    mesh_packet_bytes, mesh_packet_fields};
use crate::proto::wire::{
    WIRE_LEN, WIRE_VARINT, bytes_field, key_bytes, key_decode, lemma_key_round_trip, pb_decode_key, pb_merge_bytes,
    pb_merge_string, pb_merge_varint, pb_skip_field, skip_field_len, string_field, tail, varint_bytes,
};

verus! {

/// A mesh packet relayed over MQTT, with the gateway that relayed it.
pub struct ServiceEnvelope {
    /// The mesh packet being relayed.
    pub packet: Option<MeshPacket>,
    /// Channel ID string (e.g. "LongFast").
    pub channel_id: String,
    /// Gateway node ID (the node bridging to/from MQTT).
    pub gateway_id: u32,
}

/// The value of a [`ServiceEnvelope`].
pub ghost struct ServiceEnvelopeView {
    pub packet: Option<MeshPacketView>,
    pub channel_id: Seq<char>,
    pub gateway_id: u32,
}

impl View for ServiceEnvelope {
    type V = ServiceEnvelopeView;

    open spec fn view(&self) -> ServiceEnvelopeView {
        ServiceEnvelopeView {
            packet: match self.packet {
                Some(p) => Some(p@),
                None => None,
            },
            channel_id: self.channel_id@,
            gateway_id: self.gateway_id,
        }
    }
}

pub open spec fn empty_service_envelope() -> ServiceEnvelopeView {
    ServiceEnvelopeView { packet: None, channel_id: Seq::empty(), gateway_id: 0 }
}

/// The packet field of an envelope, written whenever present.
pub open spec fn envelope_packet_bytes(p: Option<MeshPacketView>) -> Seq<u8> {
    match p {
        Some(m) => field_bytes(1, mesh_packet_bytes(m)),
        None => Seq::empty(),
    }
}

/// The wire encoding of a `ServiceEnvelope`: its non-default fields in tag
/// order.
pub open spec fn service_envelope_bytes(e: ServiceEnvelopeView) -> Seq<u8> {
    envelope_packet_bytes(e.packet) + (opt(e.channel_id.len() > 0, field_bytes(2, encode_utf8(e.channel_id)))
        + opt(e.gateway_id != 0, field_varint(3, e.gateway_id as nat)))
}

/// One field of a `ServiceEnvelope` read from `s`: the packet merges into
/// one already read.
pub open spec fn service_envelope_field(e: ServiceEnvelopeView, tag: u32, wire: u8, s: Seq<u8>) -> Option<(ServiceEnvelopeView, nat)> {
    if tag == 1 {
        match bytes_field(wire, s) {
            Some((b, r)) => {
                let start = match e.packet {
                    Some(m) => m,
                    None => empty_mesh_packet(),
                };
                match mesh_packet_fields(b, start) {
                    Some(m2) => Some((ServiceEnvelopeView { packet: Some(m2), ..e }, r)),
                    None => None,
                }
            },
            None => None,
        }
    } else if tag == 2 {
        match string_field(wire, s) {
            Some((c, r)) => Some((ServiceEnvelopeView { channel_id: c, ..e }, r)),
            None => None,
        }
    } else if tag == 3 {
        match crate::proto::wire::varint_field(wire, s) {
            Some((v, r)) => Some((ServiceEnvelopeView { gateway_id: v as u32, ..e }, r)),
            None => None,
        }
    } else {
        match skip_field_len(wire, tag, s) {
            Some(r) => Some((e, r)),
            None => None,
        }
    }
}

/// The fields of a `ServiceEnvelope` read from `s` in turn, starting from `x`.
#[verifier::opaque]
pub open spec fn service_envelope_fields(s: Seq<u8>, x: ServiceEnvelopeView) -> Option<ServiceEnvelopeView>
    decreases s.len(),
{
    if s.len() == 0 {
        Some(x)
    } else {
        match key_decode(s) {
            Some((tag, wire, rest)) => if rest >= s.len() {
                None
            } else {
                match service_envelope_field(x, tag, wire, tail(s, rest)) {
                    Some((x2, rest2)) => if rest2 < s.len() {
                        service_envelope_fields(tail(s, rest2), x2)
                    } else {
                        None
                    },
                    None => None,
                }
            },
            None => None,
        }
    }
}

/// The `ServiceEnvelope` that the bytes `s` decode to, if any.
pub open spec fn service_envelope_decode(s: Seq<u8>) -> Option<ServiceEnvelopeView> {
    service_envelope_fields(s, empty_service_envelope())
}

proof fn lemma_service_envelope_chunk(present: bool, tag: u32, wire: u8, body: Seq<u8>, rest: Seq<u8>, x: ServiceEnvelopeView, x2: ServiceEnvelopeView)
    requires
        1 <= tag <= 15,
        wire <= 5,
        present ==> service_envelope_field(x, tag, wire, body + rest) == Some((x2, rest.len())),
    ensures
        service_envelope_fields(opt(present, key_bytes(tag as nat, wire as nat) + body) + rest, x)
            == service_envelope_fields(rest, if present { x2 } else { x }),
{
    reveal(service_envelope_fields);
    if present {
        let k = key_bytes(tag as nat, wire as nat);
        let s = opt(present, k + body) + rest;
        assert(s =~= k + (body + rest));
        lemma_key_round_trip(tag, wire, body + rest);
        assert(tail(s, (body + rest).len()) =~= body + rest);
        assert(tail(s, rest.len()) =~= rest);
    } else {
        assert(opt(present, key_bytes(tag as nat, wire as nat) + body) + rest =~= rest);
    }
}

proof fn lemma_service_envelope_end(x: ServiceEnvelopeView)
    ensures
        service_envelope_fields(Seq::<u8>::empty(), x) == Some(x),
{
    reveal(service_envelope_fields);
}

/// Decoding the encoding of a `ServiceEnvelope` gives it back.
pub proof fn lemma_service_envelope_round_trip(e: ServiceEnvelopeView)
    requires
        service_envelope_bytes(e).len() <= u64::MAX,
    ensures
        service_envelope_decode(service_envelope_bytes(e)) == Some(e),
{
    let e0 = empty_service_envelope();
    let nil = Seq::<u8>::empty();
    let cid = encode_utf8(e.channel_id);
    let c3 = opt(e.gateway_id != 0, field_varint(3, e.gateway_id as nat));
    let c2 = opt(e.channel_id.len() > 0, field_bytes(2, cid));
    let c1 = envelope_packet_bytes(e.packet);
    let s2 = c2 + c3;
    let e1 = ServiceEnvelopeView { packet: e.packet, ..e0 };
    let e2 = ServiceEnvelopeView { channel_id: e.channel_id, ..e1 };
    match e.packet {
        Some(m) => {
            let b = mesh_packet_bytes(m);
            lemma_bytes_field(b, s2);
            lemma_mesh_packet_round_trip(m);
            assert(varint_bytes(b.len()) + b + s2 =~= (varint_bytes(b.len()) + b) + s2);
            assert(c1 == key_bytes(1, WIRE_LEN as nat) + (varint_bytes(b.len()) + b));
            lemma_service_envelope_chunk(true, 1, WIRE_LEN, varint_bytes(b.len()) + b, s2, e0, e1);
        },
        None => {
            assert(c1 + s2 =~= s2);
            assert(e1 == e0);
        },
    }
    if e.channel_id.len() > 0 {
        lemma_string_field(e.channel_id, c3);
        assert(varint_bytes(cid.len()) + cid + c3 =~= (varint_bytes(cid.len()) + cid) + c3);
        assert(field_bytes(2, cid) == key_bytes(2, WIRE_LEN as nat) + (varint_bytes(cid.len()) + cid));
        lemma_service_envelope_chunk(true, 2, WIRE_LEN, varint_bytes(cid.len()) + cid, c3, e1, e2);
    } else {
        assert(e.channel_id =~= Seq::<char>::empty());
        assert(c2 + c3 =~= c3);
        assert(e2 == e1);
    }
    lemma_varint_field(e.gateway_id as u64, nil);
    lemma_service_envelope_chunk(e.gateway_id != 0, 3, WIRE_VARINT, varint_bytes(e.gateway_id as nat), nil, e2, e);
    assert(c3 + nil =~= c3);
    lemma_service_envelope_end(e);
    lemma_service_envelope_end(e2);
}

impl ServiceEnvelope {
    /// Encode in the protobuf wire format.
    pub fn encode_to_vec(&self) -> (r: Vec<u8>)
        ensures
            r@ == service_envelope_bytes(self@),
    {
        let ghost e = self@;
        let ghost c1 = envelope_packet_bytes(e.packet);
        let ghost c2 = opt(e.channel_id.len() > 0, field_bytes(2, encode_utf8(e.channel_id)));
        let ghost c3 = opt(e.gateway_id != 0, field_varint(3, e.gateway_id as nat));
        let mut buf: Vec<u8> = Vec::new();
        match &self.packet {
            Some(p) => {
                let body = p.encode_to_vec();
                put_bytes_field(&mut buf, 1, body.as_slice());
            },
            None => {},
        }
        assert(buf@ == c1);
        if !self.channel_id.as_str().is_empty() {
            put_bytes_field(&mut buf, 2, self.channel_id.as_str().as_bytes());
        }
        assert(buf@ == c1 + c2);
        if self.gateway_id != 0 {
            put_varint_field(&mut buf, 3, self.gateway_id as u64);
        }
        assert(buf@ == (c1 + c2) + c3);
        assert(buf@ =~= c1 + (c2 + c3));
        buf
    }

    /// Decode a message from the protobuf wire format.
    pub fn decode(buf: &[u8]) -> (r: Result<ServiceEnvelope, prost::DecodeError>)
        ensures
            r matches Ok(e) ==> service_envelope_decode(buf@) == Some(e@),
            r is Err ==> service_envelope_decode(buf@) is None,
    {
        let mut v = ServiceEnvelope { packet: None, channel_id: String::new(), gateway_id: 0 };
        let mut rem: usize = buf.len();
        assert(tail(buf@, rem as nat) =~= buf@);
        while rem > 0
            invariant
                rem <= buf@.len(),
                service_envelope_fields(buf@, empty_service_envelope()) == service_envelope_fields(tail(buf@, rem as nat), v@),
            decreases rem,
        {
            proof {
                reveal(service_envelope_fields);
            }
            let cur = slice_subrange(buf, buf.len() - rem, buf.len());
            let (tag, wire, after_key) = pb_decode_key(cur)?;
            proof {
                lemma_varint_bounds(cur@, 10);
            }
            let field = slice_subrange(buf, buf.len() - after_key, buf.len());
            assert(field@ =~= tail(cur@, after_key as nat));
            proof {
                lemma_varint_bounds(field@, 10);
            }
            let ghost before = v@;
            let rest = if tag == 1 {
                let (b, r) = pb_merge_bytes(wire, field)?;
                let mut slot: Option<MeshPacket> = None;
                std::mem::swap(&mut slot, &mut v.packet);
                let prior = match slot {
                    Some(p) => p,
                    None => MeshPacket::empty(),
                };
                assert(prior@ == match before.packet {
                    Some(m) => m,
                    None => empty_mesh_packet(),
                });
                let p2 = MeshPacket::merge_from(b.as_slice(), prior)?;
                v.packet = Some(p2);
                r
            } else if tag == 2 {
                let (c, r) = pb_merge_string(wire, field)?;
                v.channel_id = c;
                r
            } else if tag == 3 {
                let (x, r) = pb_merge_varint(wire, field)?;
                v.gateway_id = #[verifier::truncate] (x as u32);
                r
            } else {
                pb_skip_field(wire, tag, field)?
            };
            assert(service_envelope_field(before, tag, wire, field@) == Some((v@, rest as nat)));
            assert(rest <= field@.len());
            assert(tail(cur@, rest as nat) =~= tail(buf@, rest as nat));
            assert(cur@ =~= tail(buf@, rem as nat));
            rem = rest;
        }
        proof {
            reveal(service_envelope_fields);
        }
        Ok(v)
    }
}

/// The schema's field numbers of `ServiceEnvelope`: the packet is field 1
/// (an embedded message, written whenever present), `channel_id` field 2
/// (UTF-8 bytes), `gateway_id` field 3 (a varint); each is left out at its
/// default.
pub proof fn lemma_service_envelope_field_numbers(p: MeshPacketView, c: Seq<char>, g: u32)
    ensures
        service_envelope_bytes(ServiceEnvelopeView { packet: Some(p), ..empty_service_envelope() }) == seq![0x0au8]
            + varint_bytes(mesh_packet_bytes(p).len()) + mesh_packet_bytes(p),
        c.len() > 0 ==> service_envelope_bytes(ServiceEnvelopeView { channel_id: c, ..empty_service_envelope() })
            == seq![0x12u8] + varint_bytes(encode_utf8(c).len()) + encode_utf8(c),
        g != 0 ==> service_envelope_bytes(ServiceEnvelopeView { gateway_id: g, ..empty_service_envelope() })
            == seq![0x18u8] + varint_bytes(g as nat),
        service_envelope_bytes(empty_service_envelope()) == Seq::<u8>::empty(),
{
    crate::proto::lemma_key_byte(1, 2);
    crate::proto::lemma_key_byte(2, 2);
    crate::proto::lemma_key_byte(3, 0);
    let e = empty_service_envelope();
    let nil = Seq::<u8>::empty();
    assert(service_envelope_bytes(e) =~= nil);
    let b = mesh_packet_bytes(p);
    assert(service_envelope_bytes(ServiceEnvelopeView { packet: Some(p), ..e }) =~= seq![0x0au8]
        + varint_bytes(b.len()) + b);
    assert(c.len() > 0 ==> service_envelope_bytes(ServiceEnvelopeView { channel_id: c, ..e }) =~= seq![0x12u8]
        + varint_bytes(encode_utf8(c).len()) + encode_utf8(c));
    assert(g != 0 ==> service_envelope_bytes(ServiceEnvelopeView { gateway_id: g, ..e }) =~= seq![0x18u8]
        + varint_bytes(g as nat));
}

/// An envelope's encoding is the encodings of its fields, each on its own,
/// in the order of their field numbers: the packet, `channel_id`,
/// `gateway_id`.
pub proof fn lemma_service_envelope_fields_in_order(e: ServiceEnvelopeView)
    ensures
        ({
            let x = empty_service_envelope();
            service_envelope_bytes(e) == service_envelope_bytes(ServiceEnvelopeView { packet: e.packet, ..x })
                + service_envelope_bytes(ServiceEnvelopeView { channel_id: e.channel_id, ..x })
                + service_envelope_bytes(ServiceEnvelopeView { gateway_id: e.gateway_id, ..x })
        }),
{
    let x = empty_service_envelope();
    let c1 = service_envelope_bytes(ServiceEnvelopeView { packet: e.packet, ..x });
    let c2 = service_envelope_bytes(ServiceEnvelopeView { channel_id: e.channel_id, ..x });
    let c3 = service_envelope_bytes(ServiceEnvelopeView { gateway_id: e.gateway_id, ..x });
    assert(c1 =~= envelope_packet_bytes(e.packet));
    assert(c2 =~= opt(e.channel_id.len() > 0, field_bytes(2, encode_utf8(e.channel_id))));
    assert(c3 =~= opt(e.gateway_id != 0, field_varint(3, e.gateway_id as nat)));
    assert(c1 + (c2 + c3) =~= c1 + c2 + c3);
}

} // verus!
