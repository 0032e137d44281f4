//! Meshtastic over-the-air packet framing.
//!
//! ```text
//! Byte offset  Field           Size  Notes
//!  0           to              4     destination node number (LE)
//!  4           from            4     sender node number (LE)
//!  8           id              4     random packet ID (LE)
//! 12           flags           1     hop_limit[2:0] | want_ack[3]
//!                                    | via_mqtt[4] | hop_start[7:5]
//! 13           channel_hash    1     truncated hash of channel PSK
//! 14           reserved        2     0x0000
//! 16           payload        <=237  AES-256-CTR encrypted Data proto
//! ```
use vstd::prelude::*;
use vstd::slice::slice_subrange;

verus! {

pub const HEADER_LEN: usize = 16;

/// 253 bytes LoRa maximum minus the 16-byte header.
pub const MAX_PAYLOAD: usize = 237;

pub const BROADCAST: u32 = 0xFFFF_FFFF;

/// The little-endian bytes of a `u32`.
pub open spec fn u32_le_bytes(x: u32) -> Seq<u8> {
    seq![
        (x & 0xff) as u8,
        ((x >> 8u32) & 0xff) as u8,
        ((x >> 16u32) & 0xff) as u8,
        ((x >> 24u32) & 0xff) as u8,
    ]
}

/// The `u32` whose little-endian bytes are `b0 b1 b2 b3`.
pub open spec fn u32_from_le(b0: u8, b1: u8, b2: u8, b3: u8) -> u32 {
    (b0 as u32) | ((b1 as u32) << 8u32) | ((b2 as u32) << 16u32) | ((b3 as u32) << 24u32)
}

pub proof fn lemma_u32_le_round_trip(x: u32)
    ensures
        u32_from_le(
            (x & 0xff) as u8,
            ((x >> 8u32) & 0xff) as u8,
            ((x >> 16u32) & 0xff) as u8,
            ((x >> 24u32) & 0xff) as u8,
        ) == x,
{
    assert(((x & 0xff) as u8 as u32) | ((((x >> 8u32) & 0xff) as u8 as u32) << 8u32) | ((((x
        >> 16u32) & 0xff) as u8 as u32) << 16u32) | ((((x >> 24u32) & 0xff) as u8 as u32) << 24u32)
        == x) by (bit_vector);
}

pub proof fn lemma_u32_from_le_bytes(b0: u8, b1: u8, b2: u8, b3: u8)
    ensures
        u32_le_bytes(u32_from_le(b0, b1, b2, b3)) == seq![b0, b1, b2, b3],
{
    let x = u32_from_le(b0, b1, b2, b3);
    assert(x == (b0 as u32) | ((b1 as u32) << 8u32) | ((b2 as u32) << 16u32) | ((b3 as u32)
        << 24u32));
    assert((x & 0xff) as u8 == b0 && ((x >> 8u32) & 0xff) as u8 == b1 && ((x >> 16u32) & 0xff) as u8
        == b2 && ((x >> 24u32) & 0xff) as u8 == b3) by (bit_vector)
        requires
            x == (b0 as u32) | ((b1 as u32) << 8u32) | ((b2 as u32) << 16u32) | ((b3 as u32)
                << 24u32),
    ;
    assert(u32_le_bytes(x) =~= seq![b0, b1, b2, b3]);
}

/// Decoded OTA header.
#[derive(Debug, Clone, Copy, PartialEq, Eq, Structural)]
pub struct MeshHeader {
    pub to: u32,
    pub from: u32,
    pub id: u32,
    pub hop_limit: u8,
    pub want_ack: bool,
    pub via_mqtt: bool,
    pub hop_start: u8,
    pub channel_hash: u8,
}

/// The flags byte: `hop_limit[2:0] | want_ack[3] | via_mqtt[4] | hop_start[7:5]`.
pub open spec fn flags_byte(hop_limit: u8, want_ack: bool, via_mqtt: bool, hop_start: u8) -> u8 {
    (hop_limit & 0x07) | (if want_ack { 0x08u8 } else { 0u8 }) | (if via_mqtt { 0x10u8 } else { 0u8 })
        | ((hop_start & 0x07) << 5u8)
}

impl MeshHeader {
    /// The 16 bytes that `encode` produces for this header.
    pub open spec fn spec_bytes(self) -> Seq<u8> {
        u32_le_bytes(self.to) + u32_le_bytes(self.from) + u32_le_bytes(self.id) + seq![
            flags_byte(self.hop_limit, self.want_ack, self.via_mqtt, self.hop_start),
            self.channel_hash,
            0u8,
            0u8,
        ]
    }

    /// The header that `decode` reads from the first 16 bytes of `b`.
    pub open spec fn spec_parse(b: Seq<u8>) -> MeshHeader
        recommends
            b.len() >= 16,
    {
        MeshHeader {
            to: u32_from_le(b[0], b[1], b[2], b[3]),
            from: u32_from_le(b[4], b[5], b[6], b[7]),
            id: u32_from_le(b[8], b[9], b[10], b[11]),
            hop_limit: b[12] & 0x07,
            want_ack: b[12] & 0x08 != 0,
            via_mqtt: b[12] & 0x10 != 0,
            hop_start: (b[12] >> 5u8) & 0x07,
            channel_hash: b[13],
        }
    }

    /// The flag fields fit in their 3-bit slots.
    pub open spec fn well_formed(self) -> bool {
        self.hop_limit < 8 && self.hop_start < 8
    }

    /// The header with `hop_limit` and `hop_start` cut to their 3-bit slots.
    pub open spec fn masked(self) -> MeshHeader {
        MeshHeader { hop_limit: self.hop_limit & 0x07, hop_start: self.hop_start & 0x07, ..self }
    }

    /// Serialise into a 16-byte on-air header.
    pub fn encode(&self) -> (buf: [u8; HEADER_LEN])
        ensures
            buf@ == self.spec_bytes(),
    {
        let flags: u8 = (self.hop_limit & 0x07) | (if self.want_ack { 0x08u8 } else { 0u8 }) | (
        if self.via_mqtt { 0x10u8 } else { 0u8 }) | ((self.hop_start & 0x07) << 5u8);
        let buf: [u8; HEADER_LEN] = [
            (self.to & 0xff) as u8,
            ((self.to >> 8u32) & 0xff) as u8,
            ((self.to >> 16u32) & 0xff) as u8,
            ((self.to >> 24u32) & 0xff) as u8,
            (self.from & 0xff) as u8,
            ((self.from >> 8u32) & 0xff) as u8,
            ((self.from >> 16u32) & 0xff) as u8,
            ((self.from >> 24u32) & 0xff) as u8,
            (self.id & 0xff) as u8,
            ((self.id >> 8u32) & 0xff) as u8,
            ((self.id >> 16u32) & 0xff) as u8,
            ((self.id >> 24u32) & 0xff) as u8,
            flags,
            self.channel_hash,
            0u8,
            0u8,
        ];
        assert(buf@ =~= self.spec_bytes());
        buf
    }

    /// Deserialise from a 16-byte on-air header; `None` when `buf` is shorter.
    pub fn decode(buf: &[u8]) -> (r: Option<Self>)
        ensures
            buf@.len() < HEADER_LEN ==> r is None,
            buf@.len() >= HEADER_LEN ==> r == Some(MeshHeader::spec_parse(buf@)),
    {
        if buf.len() < HEADER_LEN {
            return None;
        }
        let flags = buf[12];
        Some(
            MeshHeader {
                to: (buf[0] as u32) | ((buf[1] as u32) << 8u32) | ((buf[2] as u32) << 16u32) | ((
                buf[3] as u32) << 24u32),
                from: (buf[4] as u32) | ((buf[5] as u32) << 8u32) | ((buf[6] as u32) << 16u32) | ((
                buf[7] as u32) << 24u32),
                id: (buf[8] as u32) | ((buf[9] as u32) << 8u32) | ((buf[10] as u32) << 16u32) | ((
                buf[11] as u32) << 24u32),
                hop_limit: flags & 0x07,
                want_ack: flags & 0x08 != 0,
                via_mqtt: flags & 0x10 != 0,
                hop_start: (flags >> 5u8) & 0x07,
                channel_hash: buf[13],
            },
        )
    }
}

/// Decoding an encoded header gives the header back, with `hop_limit` and
/// `hop_start` cut to the three bits the flags byte has room for.
pub proof fn lemma_header_round_trip(h: MeshHeader)
    ensures
        h.spec_bytes().len() == HEADER_LEN,
        MeshHeader::spec_parse(h.spec_bytes()) == h.masked(),
        h.well_formed() ==> MeshHeader::spec_parse(h.spec_bytes()) == h,
{
    let b = h.spec_bytes();
    lemma_u32_le_round_trip(h.to);
    lemma_u32_le_round_trip(h.from);
    lemma_u32_le_round_trip(h.id);
    let hl = h.hop_limit;
    let hs = h.hop_start;
    let wa = h.want_ack;
    let vm = h.via_mqtt;
    let f = flags_byte(hl, wa, vm, hs);
    assert(f & 0x07 == hl & 0x07 && (f & 0x08 != 0) == wa && (f & 0x10 != 0) == vm && (f >> 5u8)
        & 0x07 == hs & 0x07) by (bit_vector)
        requires
            f == (hl & 0x07) | (if wa { 0x08u8 } else { 0u8 }) | (if vm { 0x10u8 } else { 0u8 }) | ((hs
                & 0x07) << 5u8),
    ;
    assert(hl < 8 ==> hl & 0x07 == hl) by (bit_vector);
    assert(hs < 8 ==> hs & 0x07 == hs) by (bit_vector);
    assert(b[12] == f);
}

/// Re-encoding a decoded header gives back its 16 bytes whenever the two
/// reserved bytes are zero.
pub proof fn lemma_header_bytes_round_trip(b: Seq<u8>)
    requires
        b.len() == HEADER_LEN,
        b[14] == 0,
        b[15] == 0,
    ensures
        MeshHeader::spec_parse(b).spec_bytes() == b,
{
    let h = MeshHeader::spec_parse(b);
    lemma_u32_from_le_bytes(b[0], b[1], b[2], b[3]);
    lemma_u32_from_le_bytes(b[4], b[5], b[6], b[7]);
    lemma_u32_from_le_bytes(b[8], b[9], b[10], b[11]);
    let f = b[12];
    assert(flags_byte(f & 0x07, f & 0x08 != 0, f & 0x10 != 0, (f >> 5u8) & 0x07) == f)
        by (bit_vector);
    assert(h.spec_bytes() =~= b);
}


/// Append `src` to `out`.
pub fn extend_bytes(out: &mut Vec<u8>, src: &[u8])
    ensures
        final(out)@ == old(out)@ + src@,
{
    let ghost start = out@;
    let mut i: usize = 0;
    while i < src.len()
        invariant
            i <= src@.len(),
            out@ == start + src@.subrange(0, i as int),
        decreases src@.len() - i,
    {
        out.push(src[i]);
        i = i + 1;
        assert(out@ =~= start + src@.subrange(0, i as int));
    }
    assert(src@.subrange(0, i as int) =~= src@);
}

/// A complete Meshtastic OTA frame (header + encrypted body).
#[derive(Debug, Clone)]
pub struct MeshFrame {
    pub header: MeshHeader,
    /// Encrypted payload bytes (up to `MAX_PAYLOAD`).
    pub payload: Vec<u8>,
}

impl MeshFrame {
    /// The raw bytes of this frame: header followed by payload.
    pub open spec fn spec_bytes(&self) -> Seq<u8> {
        self.header.spec_bytes() + self.payload@
    }

    /// Encode to raw bytes ready for the LoRa TX pipeline.
    pub fn to_bytes(&self) -> (out: Vec<u8>)
        ensures
            out@ == self.spec_bytes(),
    {
        let mut out: Vec<u8> = Vec::new();
        let header = self.header.encode();
        extend_bytes(&mut out, &header);
        extend_bytes(&mut out, self.payload.as_slice());
        assert(out@ =~= self.spec_bytes());
        out
    }

    /// Decode from raw bytes received from the LoRa RX pipeline; `None` when
    /// the bytes are shorter than a header.
    pub fn from_bytes(raw: &[u8]) -> (r: Option<Self>)
        ensures
            raw@.len() < HEADER_LEN ==> r is None,
            raw@.len() >= HEADER_LEN ==> (r matches Some(f) && f.header == MeshHeader::spec_parse(raw@)
                && f.payload@ == raw@.skip(HEADER_LEN as int)),
    {
        let header = match MeshHeader::decode(raw) {
            Some(h) => h,
            None => return None,
        };
        let mut payload: Vec<u8> = Vec::new();
        extend_bytes(&mut payload, slice_subrange(raw, HEADER_LEN, raw.len()));
        assert(payload@ =~= raw@.skip(HEADER_LEN as int));
        Some(MeshFrame { header, payload })
    }
}

/// The little-endian bytes of `x`, least significant first.
pub proof fn lemma_u32_le_digits(x: u32)
    ensures
        u32_le_bytes(x).len() == 4,
        u32_le_bytes(x)[0] == x % 256,
        u32_le_bytes(x)[1] == (x / 256) % 256,
        u32_le_bytes(x)[2] == (x / 65536) % 256,
        u32_le_bytes(x)[3] == x / 16777216,
{
    assert((x & 0xff) as u8 == x % 256) by (bit_vector);
    assert(((x >> 8u32) & 0xff) as u8 == (x / 256) % 256) by (bit_vector);
    assert(((x >> 16u32) & 0xff) as u8 == (x / 65536) % 256) by (bit_vector);
    assert(((x >> 24u32) & 0xff) as u8 == x / 16777216) by (bit_vector);
}

/// The on-air header layout: 16 bytes, `to`, `from` and `id` little-endian
/// at offsets 0, 4 and 8; at 12 the flags, `hop_limit` in bits 0-2,
/// `want_ack` bit 3, `via_mqtt` bit 4, `hop_start` in bits 5-7; at 13 the
/// channel hash; two zero bytes.
pub proof fn lemma_header_layout(h: MeshHeader)
    ensures
        h.spec_bytes().len() == 16,
        h.spec_bytes()[0] == h.to % 256 && h.spec_bytes()[1] == (h.to / 256) % 256,
        h.spec_bytes()[2] == (h.to / 65536) % 256 && h.spec_bytes()[3] == h.to / 16777216,
        h.spec_bytes()[4] == h.from % 256 && h.spec_bytes()[5] == (h.from / 256) % 256,
        h.spec_bytes()[6] == (h.from / 65536) % 256 && h.spec_bytes()[7] == h.from / 16777216,
        h.spec_bytes()[8] == h.id % 256 && h.spec_bytes()[9] == (h.id / 256) % 256,
        h.spec_bytes()[10] == (h.id / 65536) % 256 && h.spec_bytes()[11] == h.id / 16777216,
        h.spec_bytes()[12] == h.hop_limit % 8 + (if h.want_ack { 8int } else { 0 }) + (if h.via_mqtt { 16int } else { 0 })
            + (h.hop_start % 8) * 32,
        h.spec_bytes()[13] == h.channel_hash,
        h.spec_bytes()[14] == 0 && h.spec_bytes()[15] == 0,
{
    lemma_u32_le_digits(h.to);
    lemma_u32_le_digits(h.from);
    lemma_u32_le_digits(h.id);
    let hl = h.hop_limit;
    let hs = h.hop_start;
    assert((hl & 0x07) | 0u8 | 0u8 | ((hs & 0x07) << 5u8) == hl % 8 + (hs % 8) * 32) by (bit_vector);
    assert((hl & 0x07) | 0x08u8 | 0u8 | ((hs & 0x07) << 5u8) == hl % 8 + 8 + (hs % 8) * 32) by (bit_vector);
    assert((hl & 0x07) | 0u8 | 0x10u8 | ((hs & 0x07) << 5u8) == hl % 8 + 16 + (hs % 8) * 32) by (bit_vector);
    assert((hl & 0x07) | 0x08u8 | 0x10u8 | ((hs & 0x07) << 5u8) == hl % 8 + 24 + (hs % 8) * 32) by (bit_vector);
}

/// Parsing the bytes of a frame gives back its payload, and its header up to
/// the three-bit hop fields (exactly, for a well-formed header).
pub proof fn lemma_frame_round_trip(h: MeshHeader, payload: Seq<u8>)
    ensures
        (h.spec_bytes() + payload).len() >= HEADER_LEN,
        MeshHeader::spec_parse(h.spec_bytes() + payload) == h.masked(),
        (h.spec_bytes() + payload).skip(HEADER_LEN as int) == payload,
{
    lemma_header_round_trip(h);
    let b = h.spec_bytes() + payload;
    assert(b.subrange(0, 16) =~= h.spec_bytes());
    assert(MeshHeader::spec_parse(b) == MeshHeader::spec_parse(h.spec_bytes()));
    assert(b.skip(HEADER_LEN as int) =~= payload);
}

} // verus!
