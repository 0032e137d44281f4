//! Protobuf messages of the Meshtastic schema (`meshtastic/mesh.proto`)
//! that the mesh layer reads and writes, with their wire format.
pub mod radio;
pub mod service_envelope;
pub mod wire;

use vstd::prelude::*;
use vstd::slice::slice_subrange;
use vstd::utf8::{valid_utf8, decode_utf8, encode_utf8};
use crate::proto::wire::{
    WIRE_FIXED32, WIRE_LEN, WIRE_VARINT, fixed32_field, bytes_field, key_bytes, key_decode, pb_decode_key, pb_encode_varint,
    pb_merge_bytes, pb_merge_string, pb_merge_varint, pb_skip_field, skip_field_len, string_field,
    lemma_key_round_trip, lemma_varint_round_trip,
    tail, varint_bytes, varint_decode, varint_field,
};

verus! {

/// Destination port numbers (meshtastic/mesh.proto `PortNum`).
#[derive(Clone, Copy, Debug, PartialEq, Eq, Structural)]
pub enum PortNum {
    UnknownApp,
    TextMessageApp,
    RemoteHardwareApp,
    PositionApp,
    NodeinfoApp,
    TelemetryApp,
}

impl PortNum {
    /// The protobuf number of this port.
    pub open spec fn number(self) -> i32 {
        match self {
            PortNum::UnknownApp => 0,
            PortNum::TextMessageApp => 1,
            PortNum::RemoteHardwareApp => 2,
            PortNum::PositionApp => 3,
            PortNum::NodeinfoApp => 4,
            PortNum::TelemetryApp => 67,
        }
    }

    /// The protobuf number of this port.
    pub fn as_i32(self) -> (v: i32)
        ensures
            v == self.number(),
    {
        match self {
            PortNum::UnknownApp => 0,
            PortNum::TextMessageApp => 1,
            PortNum::RemoteHardwareApp => 2,
            PortNum::PositionApp => 3,
            PortNum::NodeinfoApp => 4,
            PortNum::TelemetryApp => 67,
        }
    }
}

/// `TEXT_MESSAGE_APP`
pub const TEXT_MESSAGE_APP: i32 = 1;

/// `NODEINFO_APP`
pub const NODEINFO_APP: i32 = 4;

/// `s` if `present`, else nothing.
pub open spec fn opt(present: bool, s: Seq<u8>) -> Seq<u8> {
    if present {
        s
    } else {
        Seq::empty()
    }
}

/// A varint-typed field.
pub open spec fn field_varint(tag: nat, v: nat) -> Seq<u8> {
    key_bytes(tag, WIRE_VARINT as nat) + varint_bytes(v)
}

/// A length-delimited field.
pub open spec fn field_bytes(tag: nat, b: Seq<u8>) -> Seq<u8> {
    key_bytes(tag, WIRE_LEN as nat) + varint_bytes(b.len()) + b
}

/// A field key with a number and wire type that fit in seven bits is the
/// single byte `number * 8 + wire type`.
pub proof fn lemma_key_byte(tag: nat, wire: nat)
    requires
        tag * 8 + wire < 128,
    ensures
        key_bytes(tag, wire) == seq![(tag * 8 + wire) as u8],
{
}

/// A varint of `v` takes at most `v + 1` bytes.
pub proof fn lemma_varint_len(v: nat)
    ensures
        1 <= varint_bytes(v).len() <= v + 1,
    decreases v,
{
    if v >= 128 {
        lemma_varint_len(v / 128);
    }
}

pub(crate) proof fn lemma_concat_assoc4(a: Seq<u8>, b: Seq<u8>, c: Seq<u8>, d: Seq<u8>)
    ensures
        ((a + b) + c) + d == a + (b + (c + d)),
{
    assert(((a + b) + c) + d =~= a + (b + (c + d)));
}

pub(crate) proof fn lemma_concat_assoc5(a: Seq<u8>, b: Seq<u8>, c: Seq<u8>, d: Seq<u8>, e: Seq<u8>)
    ensures
        (((a + b) + c) + d) + e == a + (b + (c + (d + e))),
{
    assert((((a + b) + c) + d) + e =~= a + (b + (c + (d + e))));
}

pub(crate) proof fn lemma_concat_assoc6(a: Seq<u8>, b: Seq<u8>, c: Seq<u8>, d: Seq<u8>, e: Seq<u8>, f: Seq<u8>)
    ensures
        ((((a + b) + c) + d) + e) + f == a + (b + (c + (d + (e + f)))),
{
    assert(((((a + b) + c) + d) + e) + f =~= a + (b + (c + (d + (e + f)))));
}

/// A 32-bit fixed-width field.
pub open spec fn field_fixed32(tag: nat, v: u32) -> Seq<u8> {
    key_bytes(tag, WIRE_FIXED32 as nat) + crate::mac::packet::u32_le_bytes(v)
}

/// Appends a 32-bit fixed-width field.
pub(crate) fn put_fixed32_field(buf: &mut Vec<u8>, tag: u32, v: u32)
    requires
        1 <= tag <= 15,
    ensures
        final(buf)@ == old(buf)@ + field_fixed32(tag as nat, v),
{
    pb_encode_varint((tag * 8 + 5) as u64, buf);
    buf.push((v & 0xff) as u8);
    buf.push(((v >> 8u32) & 0xff) as u8);
    buf.push(((v >> 16u32) & 0xff) as u8);
    buf.push(((v >> 24u32) & 0xff) as u8);
    assert(final(buf)@ =~= old(buf)@ + field_fixed32(tag as nat, v));
}

/// `fixed32_field` reads back a value written as four little-endian bytes.
pub(crate) proof fn lemma_fixed32_field(v: u32, x: Seq<u8>)
    ensures
        fixed32_field(WIRE_FIXED32, crate::mac::packet::u32_le_bytes(v) + x) == Some((v, x.len())),
{
    crate::mac::packet::lemma_u32_le_round_trip(v);
    let s = crate::mac::packet::u32_le_bytes(v) + x;
    assert(s[0] == (v & 0xff) as u8);
}

/// Appends a varint-typed field.
pub(crate) fn put_varint_field(buf: &mut Vec<u8>, tag: u32, v: u64)
    requires
        1 <= tag <= 15,
    ensures
        final(buf)@ == old(buf)@ + field_varint(tag as nat, v as nat),
{
    pb_encode_varint((tag * 8) as u64, buf);
    pb_encode_varint(v, buf);
    assert(final(buf)@ =~= old(buf)@ + field_varint(tag as nat, v as nat));
}

/// Appends a length-delimited field.
pub(crate) fn put_bytes_field(buf: &mut Vec<u8>, tag: u32, b: &[u8])
    requires
        1 <= tag <= 15,
    ensures
        final(buf)@ == old(buf)@ + field_bytes(tag as nat, b@),
{
    pb_encode_varint((tag * 8 + 2) as u64, buf);
    pb_encode_varint(b.len() as u64, buf);
    crate::mac::packet::extend_bytes(buf, b);
    assert(final(buf)@ =~= old(buf)@ + field_bytes(tag as nat, b@));
}

/// Generic application-layer payload (meshtastic/mesh.proto `Data`).
#[derive(Clone, Debug, PartialEq, Eq)]
pub struct Data {
    /// Which application owns this payload (a `PortNum` number).
    pub portnum: i32,
    /// Raw bytes: interpretation depends on `portnum`.
    pub payload: Vec<u8>,
    /// Ask the remote to send a response packet.
    pub want_response: bool,
    /// Explicit unicast destination (0 = broadcast).
    pub dest: u32,
    /// Originating node (set when relayed through the app layer).
    pub source: u32,
    /// Packet ID this is a reply to.
    pub request_id: u32,
}

/// The value of a [`Data`].
pub ghost struct DataView {
    pub portnum: i32,
    pub payload: Seq<u8>,
    pub want_response: bool,
    pub dest: u32,
    pub source: u32,
    pub request_id: u32,
}

impl View for Data {
    type V = DataView;

    open spec fn view(&self) -> DataView {
        DataView {
            portnum: self.portnum,
            payload: self.payload@,
            want_response: self.want_response,
            dest: self.dest,
            source: self.source,
            request_id: self.request_id,
        }
    }
}

/// The message with every field at its default.
pub open spec fn empty_data() -> DataView {
    DataView {
        portnum: 0,
        payload: Seq::empty(),
        want_response: false,
        dest: 0,
        source: 0,
        request_id: 0,
    }
}

/// The wire encoding of a `Data`: its non-default fields in tag order.
pub open spec fn data_bytes(d: DataView) -> Seq<u8> {
    opt(d.portnum != 0, field_varint(1, (d.portnum as u64) as nat)) + (opt(
        d.payload.len() > 0,
        field_bytes(2, d.payload),
    ) + (opt(d.want_response, field_varint(3, 1)) + (opt(d.dest != 0, field_varint(4, d.dest as nat))
        + (opt(d.source != 0, field_varint(5, d.source as nat)) + opt(
        d.request_id != 0,
        field_varint(6, d.request_id as nat),
    )))))
}

/// One field of a `Data` read from `s`: the updated message and what is left.
pub open spec fn data_field(d: DataView, tag: u32, wire: u8, s: Seq<u8>) -> Option<(DataView, nat)> {
    if tag == 1 {
        match varint_field(wire, s) {
            Some((v, r)) => Some((DataView { portnum: v as i32, ..d }, r)),
            None => None,
        }
    } else if tag == 2 {
        match bytes_field(wire, s) {
            Some((b, r)) => Some((DataView { payload: b, ..d }, r)),
            None => None,
        }
    } else if tag == 3 {
        match varint_field(wire, s) {
            Some((v, r)) => Some((DataView { want_response: v != 0, ..d }, r)),
            None => None,
        }
    } else if tag == 4 {
        match varint_field(wire, s) {
            Some((v, r)) => Some((DataView { dest: v as u32, ..d }, r)),
            None => None,
        }
    } else if tag == 5 {
        match varint_field(wire, s) {
            Some((v, r)) => Some((DataView { source: v as u32, ..d }, r)),
            None => None,
        }
    } else if tag == 6 {
        match varint_field(wire, s) {
            Some((v, r)) => Some((DataView { request_id: v as u32, ..d }, r)),
            None => None,
        }
    } else {
        match skip_field_len(wire, tag, s) {
            Some(r) => Some((d, r)),
            None => None,
        }
    }
}

/// The fields of a `Data` read from `s` in turn, starting from `d`; a later
/// occurrence of a field replaces an earlier one.
#[verifier::opaque]
pub open spec fn data_fields(s: Seq<u8>, d: DataView) -> Option<DataView>
    decreases s.len(),
{
    if s.len() == 0 {
        Some(d)
    } else {
        match key_decode(s) {
            Some((tag, wire, rest)) => if rest >= s.len() {
                None
            } else {
                match data_field(d, tag, wire, tail(s, rest)) {
                    Some((d2, rest2)) => if rest2 < s.len() {
                        data_fields(tail(s, rest2), d2)
                    } else {
                        None
                    },
                    None => None,
                }
            },
            None => None,
        }
    }
}

/// The `Data` that the bytes `s` decode to, if any.
pub open spec fn data_decode(s: Seq<u8>) -> Option<DataView> {
    data_fields(s, empty_data())
}

/// The text of a `TEXT_MESSAGE_APP` payload that is valid UTF-8.
pub open spec fn data_text(d: DataView) -> Option<Seq<char>> {
    if d.portnum == TEXT_MESSAGE_APP && valid_utf8(d.payload) {
        Some(decode_utf8(d.payload))
    } else {
        None
    }
}

/// Reads `b` as UTF-8 text.
///
/// Calls `std::str::from_utf8`, which succeeds exactly when the bytes are
/// valid UTF-8, and then returns the text they encode.
#[verifier::external_body]
pub(crate) fn utf8_str(b: &[u8]) -> (r: Option<&str>)
    ensures
        r is Some <==> valid_utf8(b@),
        r matches Some(s) ==> s@ == decode_utf8(b@),
{
    std::str::from_utf8(b).ok()
}

pub proof fn lemma_varint_bounds(s: Seq<u8>, budget: nat)
    ensures
        varint_decode(s, budget) matches Some((v, n)) ==> 1 <= n <= s.len() && 0 <= v,
    decreases budget,
{
    if budget > 0 && s.len() > 0 && s[0] >= 0x80 {
        lemma_varint_bounds(s.drop_first(), (budget - 1) as nat);
    }
}

impl Default for Data {
    fn default() -> (d: Self)
        ensures
            d@ == empty_data(),
    {
        Data {
            portnum: 0,
            payload: Vec::new(),
            want_response: false,
            dest: 0,
            source: 0,
            request_id: 0,
        }
    }
}

impl Data {
    /// A field-by-field copy.
    pub fn copy_data(&self) -> (r: Data)
        ensures
            r@ == self@,
    {
        let mut payload: Vec<u8> = Vec::new();
        crate::mac::packet::extend_bytes(&mut payload, self.payload.as_slice());
        assert(payload@ =~= self.payload@);
        Data {
            portnum: self.portnum,
            payload,
            want_response: self.want_response,
            dest: self.dest,
            source: self.source,
            request_id: self.request_id,
        }
    }

    /// Encode this message in the protobuf wire format.
    pub fn encode_to_vec(&self) -> (r: Vec<u8>)
        ensures
            r@ == data_bytes(self@),
    {
        let mut buf: Vec<u8> = Vec::new();
        let ghost d = self@;
        if self.portnum != 0 {
            put_varint_field(&mut buf, 1, self.portnum as u64);
        }
        let ghost b1 = buf@;
        assert(b1 == opt(d.portnum != 0, field_varint(1, (d.portnum as u64) as nat)));
        if self.payload.len() > 0 {
            put_bytes_field(&mut buf, 2, self.payload.as_slice());
        }
        let ghost b2 = buf@;
        assert(b2 == b1 + opt(d.payload.len() > 0, field_bytes(2, d.payload)));
        if self.want_response {
            put_varint_field(&mut buf, 3, 1);
        }
        let ghost b3 = buf@;
        assert(b3 == b2 + opt(d.want_response, field_varint(3, 1)));
        if self.dest != 0 {
            put_varint_field(&mut buf, 4, self.dest as u64);
        }
        let ghost b4 = buf@;
        assert(b4 == b3 + opt(d.dest != 0, field_varint(4, d.dest as nat)));
        if self.source != 0 {
            put_varint_field(&mut buf, 5, self.source as u64);
        }
        let ghost b5 = buf@;
        assert(b5 == b4 + opt(d.source != 0, field_varint(5, d.source as nat)));
        if self.request_id != 0 {
            put_varint_field(&mut buf, 6, self.request_id as u64);
        }
        assert(buf@ == b5 + opt(d.request_id != 0, field_varint(6, d.request_id as nat)));
        proof {
            lemma_concat_assoc6(
                opt(d.portnum != 0, field_varint(1, (d.portnum as u64) as nat)),
                opt(d.payload.len() > 0, field_bytes(2, d.payload)),
                opt(d.want_response, field_varint(3, 1)),
                opt(d.dest != 0, field_varint(4, d.dest as nat)),
                opt(d.source != 0, field_varint(5, d.source as nat)),
                opt(d.request_id != 0, field_varint(6, d.request_id as nat)),
            );
        }
        buf
    }

    /// Decode a message from the protobuf wire format.
    pub fn decode(buf: &[u8]) -> (r: Result<Data, prost::DecodeError>)
        ensures
            r matches Ok(d) ==> data_decode(buf@) == Some(d@),
            r is Err ==> data_decode(buf@) is None,
    {
        Data::merge_from(buf, Data::default())
    }

    /// Read the fields of `buf` into `start`, as protobuf merging does: a
    /// field that occurs replaces its value.
    pub fn merge_from(buf: &[u8], start: Data) -> (r: Result<Data, prost::DecodeError>)
        ensures
            r matches Ok(d) ==> data_fields(buf@, start@) == Some(d@),
            r is Err ==> data_fields(buf@, start@) is None,
    {
        let mut d = start;
        let mut rem: usize = buf.len();
        assert(tail(buf@, rem as nat) =~= buf@);
        while rem > 0
            invariant
                rem <= buf@.len(),
                data_fields(buf@, start@) == data_fields(tail(buf@, rem as nat), d@),
            decreases rem,
        {
            proof {
                reveal(data_fields);
            }
            let cur = slice_subrange(buf, buf.len() - rem, buf.len());
            let (tag, wire, after_key) = pb_decode_key(cur)?;
            proof {
                lemma_varint_bounds(cur@, 10);
            }
            let field = slice_subrange(buf, buf.len() - after_key, buf.len());
            assert(field@ =~= tail(cur@, after_key as nat));
            let rest = if tag == 1 {
                let (v, r) = pb_merge_varint(wire, field)?;
                proof { lemma_varint_bounds(field@, 10); }
                assert(r <= field@.len());
                d.portnum = #[verifier::truncate] (v as i32);
                r
            } else if tag == 2 {
                let (b, r) = pb_merge_bytes(wire, field)?;
                proof { lemma_varint_bounds(field@, 10); }
                assert(r <= field@.len());
                d.payload = b;
                r
            } else if tag == 3 {
                let (v, r) = pb_merge_varint(wire, field)?;
                proof { lemma_varint_bounds(field@, 10); }
                d.want_response = v != 0;
                r
            } else if tag == 4 {
                let (v, r) = pb_merge_varint(wire, field)?;
                proof { lemma_varint_bounds(field@, 10); }
                d.dest = #[verifier::truncate] (v as u32);
                r
            } else if tag == 5 {
                let (v, r) = pb_merge_varint(wire, field)?;
                proof { lemma_varint_bounds(field@, 10); }
                d.source = #[verifier::truncate] (v as u32);
                r
            } else if tag == 6 {
                let (v, r) = pb_merge_varint(wire, field)?;
                proof { lemma_varint_bounds(field@, 10); }
                d.request_id = #[verifier::truncate] (v as u32);
                r
            } else {
                pb_skip_field(wire, tag, field)?
            };
            assert(rest <= field@.len());
            assert(tail(cur@, rest as nat) =~= tail(buf@, rest as nat));
            assert(cur@ =~= tail(buf@, rem as nat));
            rem = rest;
        }
        proof {
            reveal(data_fields);
        }
        Ok(d)
    }

    /// Interpret a `TEXT_MESSAGE_APP` payload as a UTF-8 string.
    pub fn text(&self) -> (r: Option<&str>)
        ensures
            r is Some <==> data_text(self@) is Some,
            r matches Some(s) ==> data_text(self@) == Some(s@),
    {
        if self.portnum == TEXT_MESSAGE_APP {
            utf8_str(self.payload.as_slice())
        } else {
            None
        }
    }
}


/// Node identity beacon (meshtastic/mesh.proto `User`).
#[derive(Clone, Debug, PartialEq, Eq)]
pub struct User {
    /// Unique node ID string (e.g. `"!aabbccdd"`).
    pub id: String,
    /// Human-readable long name.
    pub long_name: String,
    /// Short name shown on the map.
    pub short_name: String,
    /// MAC address bytes (6 bytes, optional).
    pub macaddr: Vec<u8>,
}

/// The value of a [`User`].
pub ghost struct UserView {
    pub id: Seq<char>,
    pub long_name: Seq<char>,
    pub short_name: Seq<char>,
    pub macaddr: Seq<u8>,
}

impl View for User {
    type V = UserView;

    open spec fn view(&self) -> UserView {
        UserView {
            id: self.id@,
            long_name: self.long_name@,
            short_name: self.short_name@,
            macaddr: self.macaddr@,
        }
    }
}

pub open spec fn empty_user() -> UserView {
    UserView {
        id: Seq::empty(),
        long_name: Seq::empty(),
        short_name: Seq::empty(),
        macaddr: Seq::empty(),
    }
}

/// The wire encoding of a `User`: its non-empty fields in tag order.
pub open spec fn user_bytes(u: UserView) -> Seq<u8> {
    opt(u.id.len() > 0, field_bytes(1, encode_utf8(u.id))) + (opt(
        u.long_name.len() > 0,
        field_bytes(2, encode_utf8(u.long_name)),
    ) + (opt(u.short_name.len() > 0, field_bytes(3, encode_utf8(u.short_name))) + opt(
        u.macaddr.len() > 0,
        field_bytes(4, u.macaddr),
    )))
}

/// One field of a `User` read from `s`: the updated message and what is left.
pub open spec fn user_field(u: UserView, tag: u32, wire: u8, s: Seq<u8>) -> Option<(UserView, nat)> {
    if tag == 1 {
        match string_field(wire, s) {
            Some((c, r)) => Some((UserView { id: c, ..u }, r)),
            None => None,
        }
    } else if tag == 2 {
        match string_field(wire, s) {
            Some((c, r)) => Some((UserView { long_name: c, ..u }, r)),
            None => None,
        }
    } else if tag == 3 {
        match string_field(wire, s) {
            Some((c, r)) => Some((UserView { short_name: c, ..u }, r)),
            None => None,
        }
    } else if tag == 4 {
        match bytes_field(wire, s) {
            Some((b, r)) => Some((UserView { macaddr: b, ..u }, r)),
            None => None,
        }
    } else {
        match skip_field_len(wire, tag, s) {
            Some(r) => Some((u, r)),
            None => None,
        }
    }
}

/// The fields of a `User` read from `s` in turn, starting from `u`.
#[verifier::opaque]
pub open spec fn user_fields(s: Seq<u8>, u: UserView) -> Option<UserView>
    decreases s.len(),
{
    if s.len() == 0 {
        Some(u)
    } else {
        match key_decode(s) {
            Some((tag, wire, rest)) => if rest >= s.len() {
                None
            } else {
                match user_field(u, tag, wire, tail(s, rest)) {
                    Some((u2, rest2)) => if rest2 < s.len() {
                        user_fields(tail(s, rest2), u2)
                    } else {
                        None
                    },
                    None => None,
                }
            },
            None => None,
        }
    }
}

/// The `User` that the bytes `s` decode to, if any.
pub open spec fn user_decode(s: Seq<u8>) -> Option<UserView> {
    user_fields(s, empty_user())
}

/// A `NODEINFO_APP` payload carrying the encoded user.
pub open spec fn user_data(u: UserView) -> DataView {
    DataView { portnum: NODEINFO_APP, payload: user_bytes(u), ..empty_data() }
}

impl User {
    /// Encode this message in the protobuf wire format.
    pub fn encode_to_vec(&self) -> (r: Vec<u8>)
        ensures
            r@ == user_bytes(self@),
    {
        let mut buf: Vec<u8> = Vec::new();
        let ghost u = self@;
        if !self.id.as_str().is_empty() {
            put_bytes_field(&mut buf, 1, self.id.as_str().as_bytes());
        }
        let ghost b1 = buf@;
        assert(b1 == opt(u.id.len() > 0, field_bytes(1, encode_utf8(u.id))));
        if !self.long_name.as_str().is_empty() {
            put_bytes_field(&mut buf, 2, self.long_name.as_str().as_bytes());
        }
        let ghost b2 = buf@;
        assert(b2 == b1 + opt(u.long_name.len() > 0, field_bytes(2, encode_utf8(u.long_name))));
        if !self.short_name.as_str().is_empty() {
            put_bytes_field(&mut buf, 3, self.short_name.as_str().as_bytes());
        }
        let ghost b3 = buf@;
        assert(b3 == b2 + opt(u.short_name.len() > 0, field_bytes(3, encode_utf8(u.short_name))));
        if self.macaddr.len() > 0 {
            put_bytes_field(&mut buf, 4, self.macaddr.as_slice());
        }
        assert(buf@ == b3 + opt(u.macaddr.len() > 0, field_bytes(4, u.macaddr)));
        proof {
            lemma_concat_assoc4(
                opt(u.id.len() > 0, field_bytes(1, encode_utf8(u.id))),
                opt(u.long_name.len() > 0, field_bytes(2, encode_utf8(u.long_name))),
                opt(u.short_name.len() > 0, field_bytes(3, encode_utf8(u.short_name))),
                opt(u.macaddr.len() > 0, field_bytes(4, u.macaddr)),
            );
        }
        buf
    }

    /// Decode a message from the protobuf wire format.
    pub fn decode(buf: &[u8]) -> (r: Result<User, prost::DecodeError>)
        ensures
            r matches Ok(u) ==> user_decode(buf@) == Some(u@),
            r is Err ==> user_decode(buf@) is None,
    {
        let u = User {
            id: String::new(),
            long_name: String::new(),
            short_name: String::new(),
            macaddr: Vec::new(),
        };
        assert(u@ == empty_user());
        User::merge_from(buf, u)
    }

    /// Read the fields of `buf` into `start`, as protobuf merging does.
    pub fn merge_from(buf: &[u8], start: User) -> (r: Result<User, prost::DecodeError>)
        ensures
            r matches Ok(u) ==> user_fields(buf@, start@) == Some(u@),
            r is Err ==> user_fields(buf@, start@) is None,
    {
        let mut u = start;
        let mut rem: usize = buf.len();
        assert(tail(buf@, rem as nat) =~= buf@);
        while rem > 0
            invariant
                rem <= buf@.len(),
                user_fields(buf@, start@) == user_fields(tail(buf@, rem as nat), u@),
            decreases rem,
        {
            proof {
                reveal(user_fields);
            }
            let cur = slice_subrange(buf, buf.len() - rem, buf.len());
            let (tag, wire, after_key) = pb_decode_key(cur)?;
            proof {
                lemma_varint_bounds(cur@, 10);
            }
            let field = slice_subrange(buf, buf.len() - after_key, buf.len());
            assert(field@ =~= tail(cur@, after_key as nat));
            proof {
                lemma_varint_bounds(field@, 10);
            }
            let rest = if tag == 1 {
                let (c, r) = pb_merge_string(wire, field)?;
                u.id = c;
                r
            } else if tag == 2 {
                let (c, r) = pb_merge_string(wire, field)?;
                u.long_name = c;
                r
            } else if tag == 3 {
                let (c, r) = pb_merge_string(wire, field)?;
                u.short_name = c;
                r
            } else if tag == 4 {
                let (b, r) = pb_merge_bytes(wire, field)?;
                u.macaddr = b;
                r
            } else {
                pb_skip_field(wire, tag, field)?
            };
            assert(tail(cur@, rest as nat) =~= tail(buf@, rest as nat));
            assert(cur@ =~= tail(buf@, rem as nat));
            rem = rest;
        }
        proof {
            reveal(user_fields);
        }
        Ok(u)
    }

    /// Wrap this user in a `NODEINFO_APP` payload.
    pub fn encode_to_data(&self) -> (d: Data)
        ensures
            d@ == user_data(self@),
    {
        let payload = self.encode_to_vec();
        Data { portnum: NODEINFO_APP, payload, want_response: false, dest: 0, source: 0, request_id: 0 }
    }
}

impl Data {
    /// Decode a `User` from a `NODEINFO_APP` payload.
    pub fn decode_user(&self) -> (r: Result<User, prost::DecodeError>)
        ensures
            r matches Ok(u) ==> user_decode(self@.payload) == Some(u@),
            r is Err ==> user_decode(self@.payload) is None,
    {
        User::decode(self.payload.as_slice())
    }
}

/// After a key for `tag`/`wire` and a field body, `data_fields` goes on with
/// the rest and the updated message.
proof fn lemma_data_step(d: DataView, tag: u32, wire: u8, body: Seq<u8>, x: Seq<u8>, d2: DataView)
    requires
        1 <= tag <= 15,
        wire <= 5,
        data_field(d, tag, wire, body + x) == Some((d2, x.len())),
    ensures
        data_fields(key_bytes(tag as nat, wire as nat) + body + x, d) == data_fields(x, d2),
{
    reveal(data_fields);
    let k = key_bytes(tag as nat, wire as nat);
    let s = k + body + x;
    assert(s =~= k + (body + x));
    lemma_key_round_trip(tag, wire, body + x);
    assert(tail(s, (body + x).len()) =~= body + x);
    assert(tail(s, x.len()) =~= x);
}

proof fn lemma_user_step(u: UserView, tag: u32, wire: u8, body: Seq<u8>, x: Seq<u8>, u2: UserView)
    requires
        1 <= tag <= 15,
        wire <= 5,
        user_field(u, tag, wire, body + x) == Some((u2, x.len())),
    ensures
        user_fields(key_bytes(tag as nat, wire as nat) + body + x, u) == user_fields(x, u2),
{
    reveal(user_fields);
    let k = key_bytes(tag as nat, wire as nat);
    let s = k + body + x;
    assert(s =~= k + (body + x));
    lemma_key_round_trip(tag, wire, body + x);
    assert(tail(s, (body + x).len()) =~= body + x);
    assert(tail(s, x.len()) =~= x);
}

pub(crate) proof fn lemma_varint_field(v: u64, x: Seq<u8>)
    ensures
        varint_field(WIRE_VARINT, varint_bytes(v as nat) + x) == Some((v, x.len())),
{
    lemma_varint_round_trip(v, x);
}

pub(crate) proof fn lemma_bytes_field(b: Seq<u8>, x: Seq<u8>)
    requires
        b.len() <= u64::MAX,
    ensures
        bytes_field(WIRE_LEN, varint_bytes(b.len()) + b + x) == Some((b, x.len())),
{
    let len = b.len() as u64;
    let s = varint_bytes(b.len()) + b + x;
    assert(s =~= varint_bytes(len as nat) + (b + x));
    lemma_varint_round_trip(len, b + x);
    let n = varint_bytes(len as nat).len();
    assert(s.subrange(n as int, (n + b.len()) as int) =~= b);
}

pub(crate) proof fn lemma_string_field(c: Seq<char>, x: Seq<u8>)
    requires
        encode_utf8(c).len() <= u64::MAX,
    ensures
        string_field(WIRE_LEN, varint_bytes(encode_utf8(c).len()) + encode_utf8(c) + x) == Some(
            (c, x.len()),
        ),
{
    lemma_bytes_field(encode_utf8(c), x);
    vstd::utf8::encode_utf8_valid_utf8(c);
    vstd::utf8::encode_utf8_decode_utf8(c);
}

/// The `Data` after reading the varint `v` into field `tag`.
pub open spec fn data_set_varint(d: DataView, tag: u32, v: u64) -> DataView {
    if tag == 1 {
        DataView { portnum: v as i32, ..d }
    } else if tag == 3 {
        DataView { want_response: v != 0, ..d }
    } else if tag == 4 {
        DataView { dest: v as u32, ..d }
    } else if tag == 5 {
        DataView { source: v as u32, ..d }
    } else {
        DataView { request_id: v as u32, ..d }
    }
}

proof fn lemma_data_varint_opt(present: bool, tag: u32, v: u64, x: Seq<u8>, d: DataView)
    requires
        tag == 1 || tag == 3 || tag == 4 || tag == 5 || tag == 6,
    ensures
        data_fields(opt(present, field_varint(tag as nat, v as nat)) + x, d) == data_fields(
            x,
            if present {
                data_set_varint(d, tag, v)
            } else {
                d
            },
        ),
{
    if present {
        lemma_varint_field(v, x);
        lemma_data_step(d, tag, WIRE_VARINT, varint_bytes(v as nat), x, data_set_varint(d, tag, v));
        assert(opt(present, field_varint(tag as nat, v as nat)) + x =~= key_bytes(tag as nat, 0)
            + varint_bytes(v as nat) + x);
    } else {
        assert(opt(present, field_varint(tag as nat, v as nat)) + x =~= x);
    }
}

proof fn lemma_data_payload_opt(b: Seq<u8>, x: Seq<u8>, d: DataView)
    requires
        b.len() <= u64::MAX,
        d.payload.len() == 0,
    ensures
        data_fields(opt(b.len() > 0, field_bytes(2, b)) + x, d) == data_fields(
            x,
            DataView { payload: b, ..d },
        ),
{
    if b.len() > 0 {
        lemma_bytes_field(b, x);
        lemma_data_step(d, 2, WIRE_LEN, varint_bytes(b.len()) + b, x, DataView { payload: b, ..d });
        assert(opt(b.len() > 0, field_bytes(2, b)) + x =~= key_bytes(2, 2) + (varint_bytes(b.len())
            + b) + x);
    } else {
        assert(opt(b.len() > 0, field_bytes(2, b)) + x =~= x);
        assert(b =~= d.payload);
    }
}

/// Decoding the encoding of a `Data` gives it back.
pub proof fn lemma_data_round_trip(d: DataView)
    requires
        d.payload.len() <= u64::MAX,
    ensures
        data_decode(data_bytes(d)) == Some(d),
{
    let e = empty_data();
    let p = d.portnum;
    let f1 = opt(p != 0, field_varint(1, (p as u64) as nat));
    let f2 = opt(d.payload.len() > 0, field_bytes(2, d.payload));
    let f3 = opt(d.want_response, field_varint(3, 1));
    let f4 = opt(d.dest != 0, field_varint(4, d.dest as nat));
    let f5 = opt(d.source != 0, field_varint(5, d.source as nat));
    let f6 = opt(d.request_id != 0, field_varint(6, d.request_id as nat));
    let nil = Seq::<u8>::empty();
    let s6 = f6;
    let s5 = f5 + s6;
    let s4 = f4 + s5;
    let s3 = f3 + s4;
    let s2 = f2 + s3;
    let s1 = f1 + s2;
    let d1 = DataView { portnum: p, ..e };
    let d2 = DataView { payload: d.payload, ..d1 };
    let d3 = DataView { want_response: d.want_response, ..d2 };
    let d4 = DataView { dest: d.dest, ..d3 };
    let d5 = DataView { source: d.source, ..d4 };
    let d6 = DataView { request_id: d.request_id, ..d5 };
    assert(((p as u64) as i32) == p) by (bit_vector);
    lemma_data_varint_opt(p != 0, 1, p as u64, s2, e);
    lemma_data_payload_opt(d.payload, s3, d1);
    lemma_data_varint_opt(d.want_response, 3, 1, s4, d2);
    lemma_data_varint_opt(d.dest != 0, 4, d.dest as u64, s5, d3);
    lemma_data_varint_opt(d.source != 0, 5, d.source as u64, s6, d4);
    lemma_data_varint_opt(d.request_id != 0, 6, d.request_id as u64, nil, d5);
    assert(f6 + nil =~= f6);
    assert(data_fields(nil, d6) == Some(d6)) by {
        reveal(data_fields);
    }
    assert(d6 == d);
}

/// The `User` after reading the text `c` into field `tag`.
pub open spec fn user_set_string(u: UserView, tag: u32, c: Seq<char>) -> UserView {
    if tag == 1 {
        UserView { id: c, ..u }
    } else if tag == 2 {
        UserView { long_name: c, ..u }
    } else {
        UserView { short_name: c, ..u }
    }
}

proof fn lemma_user_string_opt(tag: u32, c: Seq<char>, x: Seq<u8>, u: UserView)
    requires
        1 <= tag <= 3,
        encode_utf8(c).len() <= u64::MAX,
    ensures
        user_fields(opt(c.len() > 0, field_bytes(tag as nat, encode_utf8(c))) + x, u) == user_fields(
            x,
            if c.len() > 0 {
                user_set_string(u, tag, c)
            } else {
                u
            },
        ),
{
    let b = encode_utf8(c);
    if c.len() > 0 {
        lemma_string_field(c, x);
        lemma_user_step(u, tag, WIRE_LEN, varint_bytes(b.len()) + b, x, user_set_string(u, tag, c));
        assert(opt(c.len() > 0, field_bytes(tag as nat, b)) + x =~= key_bytes(tag as nat, 2) + (
        varint_bytes(b.len()) + b) + x);
    } else {
        assert(opt(c.len() > 0, field_bytes(tag as nat, b)) + x =~= x);
    }
}

proof fn lemma_user_mac_opt(b: Seq<u8>, x: Seq<u8>, u: UserView)
    requires
        b.len() <= u64::MAX,
    ensures
        user_fields(opt(b.len() > 0, field_bytes(4, b)) + x, u) == user_fields(
            x,
            if b.len() > 0 {
                UserView { macaddr: b, ..u }
            } else {
                u
            },
        ),
{
    if b.len() > 0 {
        lemma_bytes_field(b, x);
        lemma_user_step(u, 4, WIRE_LEN, varint_bytes(b.len()) + b, x, UserView { macaddr: b, ..u });
        assert(opt(b.len() > 0, field_bytes(4, b)) + x =~= key_bytes(4, 2) + (varint_bytes(b.len())
            + b) + x);
    } else {
        assert(opt(b.len() > 0, field_bytes(4, b)) + x =~= x);
    }
}

/// Decoding the encoding of a `User` gives it back.
pub proof fn lemma_user_round_trip(u: UserView)
    requires
        encode_utf8(u.id).len() <= u64::MAX,
        encode_utf8(u.long_name).len() <= u64::MAX,
        encode_utf8(u.short_name).len() <= u64::MAX,
        u.macaddr.len() <= u64::MAX,
    ensures
        user_decode(user_bytes(u)) == Some(u),
{
    let e = empty_user();
    let nil = Seq::<u8>::empty();
    let f4 = opt(u.macaddr.len() > 0, field_bytes(4, u.macaddr));
    let s3 = opt(u.short_name.len() > 0, field_bytes(3, encode_utf8(u.short_name))) + f4;
    let s2 = opt(u.long_name.len() > 0, field_bytes(2, encode_utf8(u.long_name))) + s3;
    let u1 = UserView { id: u.id, ..e };
    let u2 = UserView { long_name: u.long_name, ..u1 };
    let u3 = UserView { short_name: u.short_name, ..u2 };
    let u4 = UserView { macaddr: u.macaddr, ..u3 };
    lemma_user_string_opt(1, u.id, s2, e);
    lemma_user_string_opt(2, u.long_name, s3, u1);
    lemma_user_string_opt(3, u.short_name, f4, u2);
    lemma_user_mac_opt(u.macaddr, nil, u3);
    assert(f4 + nil =~= f4);
    if u.id.len() == 0 {
        assert(u.id =~= Seq::<char>::empty());
    }
    if u.long_name.len() == 0 {
        assert(u.long_name =~= Seq::<char>::empty());
    }
    if u.short_name.len() == 0 {
        assert(u.short_name =~= Seq::<char>::empty());
    }
    if u.macaddr.len() == 0 {
        assert(u.macaddr =~= Seq::<u8>::empty());
    }
    assert(user_fields(nil, u4) == Some(u4)) by {
        reveal(user_fields);
    }
    assert(u4 == u);
}

/// The schema's field numbers of `Data` (`portnum` 1 as a varint, negative
/// numbers sign-extended to 64 bits; `payload` 2 as bytes;
/// `want_response` 3, `dest` 4, `source` 5 and `request_id` 6 as varints)
/// and of `User` (`id` 1, `long_name` 2, `short_name` 3 as UTF-8 bytes,
/// `macaddr` 4 as bytes): a message whose only non-default field is one of
/// these encodes to that field's key byte and value.
pub proof fn lemma_data_user_field_numbers(n: i32, v: u32, b: Seq<u8>, t: Seq<char>)
    ensures
        data_bytes(empty_data()) == Seq::<u8>::empty(),
        n != 0 ==> data_bytes(DataView { portnum: n, ..empty_data() }) == seq![0x08u8] + varint_bytes((n as u64) as nat),
        b.len() > 0 ==> data_bytes(DataView { payload: b, ..empty_data() }) == seq![0x12u8] + varint_bytes(b.len()) + b,
        data_bytes(DataView { want_response: true, ..empty_data() }) == seq![0x18u8, 0x01u8],
        v != 0 ==> data_bytes(DataView { dest: v, ..empty_data() }) == seq![0x20u8] + varint_bytes(v as nat),
        v != 0 ==> data_bytes(DataView { source: v, ..empty_data() }) == seq![0x28u8] + varint_bytes(v as nat),
        v != 0 ==> data_bytes(DataView { request_id: v, ..empty_data() }) == seq![0x30u8] + varint_bytes(v as nat),
        user_bytes(empty_user()) == Seq::<u8>::empty(),
        t.len() > 0 ==> user_bytes(UserView { id: t, ..empty_user() }) == seq![0x0au8] + varint_bytes(
            encode_utf8(t).len(),
        ) + encode_utf8(t),
        t.len() > 0 ==> user_bytes(UserView { long_name: t, ..empty_user() }) == seq![0x12u8] + varint_bytes(
            encode_utf8(t).len(),
        ) + encode_utf8(t),
        t.len() > 0 ==> user_bytes(UserView { short_name: t, ..empty_user() }) == seq![0x1au8] + varint_bytes(
            encode_utf8(t).len(),
        ) + encode_utf8(t),
        b.len() > 0 ==> user_bytes(UserView { macaddr: b, ..empty_user() }) == seq![0x22u8] + varint_bytes(b.len()) + b,
{
    lemma_key_byte(1, 0);
    lemma_key_byte(2, 2);
    lemma_key_byte(3, 0);
    lemma_key_byte(4, 0);
    lemma_key_byte(5, 0);
    lemma_key_byte(6, 0);
    lemma_key_byte(1, 2);
    lemma_key_byte(3, 2);
    lemma_key_byte(4, 2);
    assert(varint_bytes(1) == seq![1u8]);
    let d = empty_data();
    let nil = Seq::<u8>::empty();
    assert(data_bytes(d) =~= nil);
    assert(n != 0 ==> data_bytes(DataView { portnum: n, ..d }) =~= seq![0x08u8] + varint_bytes((n as u64) as nat));
    assert(b.len() > 0 ==> data_bytes(DataView { payload: b, ..d }) =~= seq![0x12u8] + varint_bytes(b.len()) + b);
    assert(data_bytes(DataView { want_response: true, ..d }) =~= seq![0x18u8, 0x01u8]);
    assert(v != 0 ==> data_bytes(DataView { dest: v, ..d }) =~= seq![0x20u8] + varint_bytes(v as nat));
    assert(v != 0 ==> data_bytes(DataView { source: v, ..d }) =~= seq![0x28u8] + varint_bytes(v as nat));
    assert(v != 0 ==> data_bytes(DataView { request_id: v, ..d }) =~= seq![0x30u8] + varint_bytes(v as nat));
    let u = empty_user();
    assert(user_bytes(u) =~= nil);
    let w = encode_utf8(t);
    assert(t.len() > 0 ==> user_bytes(UserView { id: t, ..u }) =~= seq![0x0au8] + varint_bytes(w.len()) + w);
    assert(t.len() > 0 ==> user_bytes(UserView { long_name: t, ..u }) =~= seq![0x12u8] + varint_bytes(w.len()) + w);
    assert(t.len() > 0 ==> user_bytes(UserView { short_name: t, ..u }) =~= seq![0x1au8] + varint_bytes(w.len()) + w);
    assert(b.len() > 0 ==> user_bytes(UserView { macaddr: b, ..u }) =~= seq![0x22u8] + varint_bytes(b.len()) + b);
}

/// A `Data`'s encoding is the encodings of its fields, each on its own, in
/// the order of their field numbers: `portnum`, `payload`,
/// `want_response`, `dest`, `source`, `request_id`.
pub proof fn lemma_data_fields_in_order(d: DataView)
    ensures
        ({
            let x = empty_data();
            data_bytes(d) == data_bytes(DataView { portnum: d.portnum, ..x }) + data_bytes(
                DataView { payload: d.payload, ..x },
            ) + data_bytes(DataView { want_response: d.want_response, ..x }) + data_bytes(
                DataView { dest: d.dest, ..x },
            ) + data_bytes(DataView { source: d.source, ..x }) + data_bytes(DataView { request_id: d.request_id, ..x })
        }),
{
    let x = empty_data();
    let nil = Seq::<u8>::empty();
    let c1 = data_bytes(DataView { portnum: d.portnum, ..x });
    let c2 = data_bytes(DataView { payload: d.payload, ..x });
    let c3 = data_bytes(DataView { want_response: d.want_response, ..x });
    let c4 = data_bytes(DataView { dest: d.dest, ..x });
    let c5 = data_bytes(DataView { source: d.source, ..x });
    let c6 = data_bytes(DataView { request_id: d.request_id, ..x });
    assert(c1 =~= opt(d.portnum != 0, field_varint(1, (d.portnum as u64) as nat)));
    assert(c2 =~= opt(d.payload.len() > 0, field_bytes(2, d.payload)));
    assert(c3 =~= opt(d.want_response, field_varint(3, 1)));
    assert(c4 =~= opt(d.dest != 0, field_varint(4, d.dest as nat)));
    assert(c5 =~= opt(d.source != 0, field_varint(5, d.source as nat)));
    assert(c6 =~= opt(d.request_id != 0, field_varint(6, d.request_id as nat)));
    lemma_concat_flat6(c1, c2, c3, c4, c5, c6);
}

proof fn lemma_concat_flat6(a: Seq<u8>, b: Seq<u8>, c: Seq<u8>, d: Seq<u8>, e: Seq<u8>, f: Seq<u8>)
    ensures
        a + (b + (c + (d + (e + f)))) == a + b + c + d + e + f,
{
    assert(a + (b + (c + (d + (e + f)))) =~= a + b + c + d + e + f);
}

/// A `User`'s encoding is the encodings of its fields, each on its own, in
/// the order of their field numbers: `id`, `long_name`, `short_name`,
/// `macaddr`.
pub proof fn lemma_user_fields_in_order(u: UserView)
    ensures
        ({
            let x = empty_user();
            user_bytes(u) == user_bytes(UserView { id: u.id, ..x }) + user_bytes(UserView { long_name: u.long_name, ..x })
                + user_bytes(UserView { short_name: u.short_name, ..x }) + user_bytes(UserView { macaddr: u.macaddr, ..x })
        }),
{
    let x = empty_user();
    let c1 = user_bytes(UserView { id: u.id, ..x });
    let c2 = user_bytes(UserView { long_name: u.long_name, ..x });
    let c3 = user_bytes(UserView { short_name: u.short_name, ..x });
    let c4 = user_bytes(UserView { macaddr: u.macaddr, ..x });
    assert(c1 =~= opt(u.id.len() > 0, field_bytes(1, encode_utf8(u.id))));
    assert(c2 =~= opt(u.long_name.len() > 0, field_bytes(2, encode_utf8(u.long_name))));
    assert(c3 =~= opt(u.short_name.len() > 0, field_bytes(3, encode_utf8(u.short_name))));
    assert(c4 =~= opt(u.macaddr.len() > 0, field_bytes(4, u.macaddr)));
    assert(c1 + (c2 + (c3 + c4)) =~= c1 + c2 + c3 + c4);
}

} // verus!
