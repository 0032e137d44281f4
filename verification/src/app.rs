//! `MeshNode`: the application-layer API.
//!
//! Owns the crypto, the dedup cache and the neighbour table.  The caller
//! hands it raw frames from the PHY and gets back decoded messages and frames
//! to relay; it builds frames ready for the PHY TX pipeline.
use vstd::prelude::*;
use vstd::string::StringExecFns;
use vstd::utf8::{encode_utf8, is_ascii_chars};
use crate::mac::crypto::{MeshCrypto, ctr_cipher, public_psk_bytes};
use crate::mac::packet::{BROADCAST, HEADER_LEN, MAX_PAYLOAD, MeshFrame, MeshHeader};
use crate::mesh::node::{LocalNode, NeighbourTable, NodeInfo, keyed_by_id, lists_table, random_u32};
use crate::mesh::router::{DedupCache, RouteDecision, dedup_after, route, route_ok, forwarded_header, addressed_to};
use crate::proto::{
    Data, DataView, NODEINFO_APP, TEXT_MESSAGE_APP, User, UserView, data_bytes, data_decode,
    empty_data, user_bytes, user_data, user_decode,
};
use crate::text::{hex8, push_hex8};

verus! {

broadcast use vstd::std_specs::hash::group_hash_axioms;

/// The wrapping sum of `bytes`.
pub open spec fn byte_sum(bytes: Seq<u8>) -> u8
    decreases bytes.len(),
{
    if bytes.len() == 0 {
        0
    } else {
        vstd::wrapping::u8_specs::wrapping_add(byte_sum(bytes.drop_last()), bytes.last())
    }
}

/// The channel hash of a channel named `name` with key `psk`: the wrapping
/// sum of the name's UTF-8 bytes, XOR the last byte of the key.
pub open spec fn channel_hash_of(name: Seq<char>, psk: Seq<u8>) -> u8 {
    byte_sum(encode_utf8(name)) ^ psk[31]
}

/// The wrapping byte sum is the sum of the bytes modulo 256: nothing sums
/// to 0, and summing two parts in turn sums the whole.
pub proof fn lemma_byte_sum_adds(a: Seq<u8>, b: Seq<u8>, x: u8)
    ensures
        byte_sum(Seq::<u8>::empty()) == 0,
        byte_sum(a + b) == (byte_sum(a) + byte_sum(b)) % 256,
        byte_sum(seq![x]) == x,
    decreases b.len(),
{
    let one = seq![x];
    assert(one.drop_last() =~= Seq::<u8>::empty());
    assert(byte_sum(Seq::<u8>::empty()) == 0);
    assert(one.last() == x);
    assert(byte_sum(one) == vstd::wrapping::u8_specs::wrapping_add(0, x));
    if b.len() == 0 {
        assert(a + b =~= a);
    } else {
        lemma_byte_sum_adds(a, b.drop_last(), x);
        assert((a + b).drop_last() =~= a + b.drop_last());
        assert(byte_sum(b.drop_last()) + b.last() >= 0);
    }
}

/// The channel hash is the sum of the channel name's UTF-8 bytes modulo
/// 256, XOR the last byte of the key.
pub proof fn lemma_channel_hash_sum(name: Seq<char>, psk: Seq<u8>, bytes: Seq<u8>)
    requires
        encode_utf8(name) == bytes,
    ensures
        channel_hash_of(name, psk) == byte_sum(bytes) ^ psk[31],
        bytes.len() == 0 ==> channel_hash_of(name, psk) == psk[31],
        bytes.len() > 0 ==> channel_hash_of(name, psk) == ((byte_sum(bytes.drop_last()) + bytes.last()) % 256) as u8
            ^ psk[31],
{
    lemma_byte_sum_adds(Seq::<u8>::empty(), Seq::<u8>::empty(), 0);
    let k = psk[31];
    assert(0u8 ^ k == k) by (bit_vector);
}

/// Identifies a Meshtastic channel (name + PSK).
#[derive(Clone)]
pub struct ChannelConfig {
    pub name: String,
    pub psk: [u8; 32],
}

impl Default for ChannelConfig {
    /// The built-in public channel ("LongFast", key `0x01` padded).
    fn default() -> (c: Self)
        ensures
            c.name@ == "LongFast"@,
            c.psk@ == public_psk_bytes(),
    {
        ChannelConfig { name: "LongFast".to_owned(), psk: MeshCrypto::public_psk() }
    }
}

impl ChannelConfig {
    /// The single-byte `channel_hash` stored in every frame header: the
    /// channel name's bytes summed (wrapping), XOR the last byte of the PSK.
    pub fn channel_hash(&self) -> (h: u8)
        ensures
            h == channel_hash_of(self.name@, self.psk@),
    {
        let bytes = self.name.as_str().as_bytes();
        let mut acc: u8 = 0;
        let mut i: usize = 0;
        while i < bytes.len()
            invariant
                i <= bytes@.len(),
                bytes@ == encode_utf8(self.name@),
                acc == byte_sum(bytes@.subrange(0, i as int)),
            decreases bytes@.len() - i,
        {
            assert(bytes@.subrange(0, i + 1).drop_last() =~= bytes@.subrange(0, i as int));
            acc = acc.wrapping_add(bytes[i]);
            i = i + 1;
        }
        assert(bytes@.subrange(0, i as int) =~= bytes@);
        acc ^ self.psk[31]
    }
}

/// An application-layer message received from the mesh.
#[derive(Debug, Clone)]
pub struct MeshMessage {
    /// Sender node ID.
    pub from: u32,
    /// Destination node ID (`BROADCAST` if not unicast).
    pub to: u32,
    /// Decoded application payload.
    pub data: Data,
    /// Number of hops remaining when received (informational).
    pub hop_limit: u8,
}

/// Why a received frame was refused.
#[derive(Debug)]
pub enum ProcessError {
    /// Raw bytes too short to contain a valid header.
    Malformed,
    /// Frame's `channel_hash` does not match this node's channel.
    WrongChannel,
    /// Protobuf decoding failed.
    Proto(prost::DecodeError),
}

/// The text `prost` gives for a decode error (its `Display`).
///
/// Calls `format!` on the error; nothing is claimed of the text.
#[verifier::external_body]
fn decode_error_text(e: &prost::DecodeError) -> String {
    format!("{e}")
}

impl ProcessError {
    /// A one-line description of the error.
    pub fn to_string(&self) -> (s: String)
        ensures
            self is Malformed ==> s@ == "malformed frame"@,
            self is WrongChannel ==> s@ == "wrong channel"@,
            self is Proto ==> s@.len() >= 14 && s@.subrange(0, 14) == "proto decode: "@,
    {
        match self {
            ProcessError::Malformed => "malformed frame".to_owned(),
            ProcessError::WrongChannel => "wrong channel".to_owned(),
            ProcessError::Proto(e) => {
                let mut s = "proto decode: ".to_owned();
                let text = decode_error_text(e);
                s.append(text.as_str());
                proof {
                    reveal_strlit("proto decode: ");
                }
                assert(s@.subrange(0, 14) =~= "proto decode: "@);
                s
            },
        }
    }
}

/// The header of a frame this node sends: three hops, no ack, not via MQTT.
pub open spec fn tx_header(to: u32, from: u32, id: u32, channel_hash: u8) -> MeshHeader {
    MeshHeader {
        to,
        from,
        id,
        hop_limit: 3,
        want_ack: false,
        via_mqtt: false,
        hop_start: 3,
        channel_hash,
    }
}

/// The `TEXT_MESSAGE_APP` payload carrying `text`.
pub open spec fn text_data(text: Seq<char>) -> DataView {
    DataView { portnum: TEXT_MESSAGE_APP, payload: encode_utf8(text), ..empty_data() }
}

/// The node-id text of a node: `!` and eight lowercase hex digits.
pub open spec fn node_id_text(id: u32) -> Seq<char> {
    seq!['!'] + hex8(id)
}

/// The node-id text of `id`, as `format!("!{:08x}", id)` writes it.
pub fn node_id_string(id: u32) -> (s: String)
    ensures
        s@ == node_id_text(id),
{
    let mut s = "!".to_owned();
    proof {
        reveal_strlit("!");
    }
    push_hex8(&mut s, id);
    assert(s@ =~= node_id_text(id));
    s
}

/// The node-id text is nine ASCII characters, so nine bytes of UTF-8.
proof fn lemma_node_id_text_len(id: u32)
    ensures
        encode_utf8(node_id_text(id)).len() == 9,
{
    let t = node_id_text(id);
    crate::text::lemma_hex_digits_ascii(id as nat, 8);
    assert(is_ascii_chars(t)) by {
        assert forall|i: int| 0 <= i < t.len() implies '\0' <= #[trigger] t[i] <= '\u{7f}' by {
            if i > 0 {
                assert(t[i] == hex8(id)[i - 1]);
            }
        }
    }
    vstd::utf8::is_ascii_chars_encode_utf8(t);
}

/// `info` is the neighbour-table entry for a node-info beacon from `from`
/// that carries the user `u`.
pub open spec fn is_beacon_info(info: NodeInfo, from: u32, u: UserView) -> bool {
    &&& info.node_id == from
    &&& info.short_name@ == u.short_name
    &&& info.long_name@ == u.long_name
    &&& info.last_rssi is None
}

/// The neighbour table `after` is `before` once a delivered message `d` from
/// `from` is seen: a `NODEINFO_APP` message whose payload decodes to a user
/// records that user under `from`; any other message changes nothing.
pub open spec fn neighbours_after(
    before: Map<u32, NodeInfo>,
    after: Map<u32, NodeInfo>,
    from: u32,
    d: DataView,
) -> bool {
    if d.portnum == NODEINFO_APP && user_decode(d.payload) is Some {
        &&& after == before.insert(from, after[from])
        &&& is_beacon_info(after[from], from, user_decode(d.payload)->0)
    } else {
        after == before
    }
}

/// `m` is the message delivered for a frame with header `h` and body `d`.
pub open spec fn is_delivered(m: MeshMessage, h: MeshHeader, d: DataView) -> bool {
    m.from == h.from && m.to == h.to && m.hop_limit == h.hop_limit && m.data@ == d
}

/// The relay copy that accompanies a delivery: one when hops remain.
pub open spec fn relay_ok(fwd: Option<MeshFrame>, h: MeshHeader, payload: Seq<u8>) -> bool {
    if h.hop_limit > 0 {
        fwd matches Some(f) && crate::mesh::router::is_forward_of(f, h, payload)
    } else {
        fwd is None
    }
}

/// The top-level mesh node handle.
pub struct MeshNode {
    local: LocalNode,
    crypto: MeshCrypto,
    channel: ChannelConfig,
    dedup: DedupCache,
    neighbours: NeighbourTable,
}


impl MeshNode {
    /// Frames are encrypted with the key of the node's channel.
    #[verifier::type_invariant]
    spec fn keyed_by_channel(self) -> bool {
        self.crypto.key() == self.channel.psk@
    }

    pub closed spec fn spec_node_id(&self) -> u32 {
        self.local.node_id
    }

    pub closed spec fn spec_short_name(&self) -> Seq<char> {
        self.local.short_name@
    }

    pub closed spec fn spec_long_name(&self) -> Seq<char> {
        self.local.long_name@
    }

    /// The key frames are encrypted and decrypted with.
    pub closed spec fn spec_key(&self) -> Seq<u8> {
        self.crypto.key()
    }

    pub closed spec fn spec_channel(&self) -> ChannelConfig {
        self.channel
    }

    /// The recently seen `(from, id)` pairs.
    pub closed spec fn spec_dedup(&self) -> Seq<(u32, u32)> {
        self.dedup@
    }

    pub closed spec fn spec_neighbours(&self) -> Map<u32, NodeInfo> {
        self.neighbours@
    }

    /// The channel hash of this node's channel.
    pub open spec fn spec_channel_hash(&self) -> u8 {
        channel_hash_of(self.spec_channel().name@, self.spec_channel().psk@)
    }

    /// Frames are encrypted with the channel's key, and the neighbour table
    /// files every entry under its own node ID and has finitely many entries.
    pub open spec fn well_formed(&self) -> bool {
        &&& self.spec_key() == self.spec_channel().psk@
        &&& keyed_by_id(self.spec_neighbours())
        &&& self.spec_neighbours().dom().finite()
    }

    /// A node fresh on `channel` with the given names: key from the channel,
    /// nothing seen, no neighbours.
    pub open spec fn fresh(&self, channel: ChannelConfig, short_name: Seq<char>, long_name: Seq<char>) -> bool {
        &&& self.spec_channel() == channel
        &&& self.spec_key() == channel.psk@
        &&& self.spec_short_name() == short_name
        &&& self.spec_long_name() == long_name
        &&& self.spec_dedup() == Seq::<(u32, u32)>::empty()
        &&& self.spec_neighbours() == Map::<u32, NodeInfo>::empty()
    }

    /// `f` is the frame this node sends to `to` with body `d` under packet id `id`.
    pub open spec fn is_tx_frame(&self, to: u32, d: DataView, id: u32, f: MeshFrame) -> bool {
        &&& f.header == tx_header(to, self.spec_node_id(), id, self.spec_channel_hash())
        &&& f.payload@ == ctr_cipher(self.spec_key(), id, self.spec_node_id(), data_bytes(d))
    }

    /// Create a new node with a random node ID.
    pub fn new(channel: ChannelConfig) -> (n: Self)
        ensures
            n.fresh(channel, "mesh"@, "Meshtastic-rs node"@),
            n.well_formed(),
    {
        MeshNode::with_id(channel, random_u32(), "mesh", "Meshtastic-rs node")
    }

    /// Create a node with explicit names and a random node ID.
    pub fn with_identity(channel: ChannelConfig, short_name: &str, long_name: &str) -> (n: Self)
        ensures
            n.fresh(channel, short_name@, long_name@),
            n.well_formed(),
    {
        MeshNode::with_id(channel, random_u32(), short_name, long_name)
    }

    /// Create a node with an explicit identity.
    pub fn with_id(channel: ChannelConfig, node_id: u32, short_name: &str, long_name: &str) -> (n:
        Self)
        ensures
            n.fresh(channel, short_name@, long_name@),
            n.well_formed(),
            n.spec_node_id() == node_id,
    {
        let local = LocalNode::with_id(node_id, short_name, long_name);
        let crypto = MeshCrypto::new(channel.psk);
        MeshNode {
            local,
            crypto,
            channel,
            dedup: DedupCache::new(),
            neighbours: NeighbourTable::default(),
        }
    }

    /// This node's 32-bit ID.
    pub fn node_id(&self) -> (id: u32)
        ensures
            id == self.spec_node_id(),
    {
        self.local.node_id
    }

    /// Snapshot of the current neighbour table: one entry per node ID, in
    /// no particular order.
    pub fn neighbours(&self) -> (r: Vec<NodeInfo>)
        ensures
            lists_table(self.spec_neighbours(), r@),
    {
        let all = self.neighbours.all();
        let mut r: Vec<NodeInfo> = Vec::new();
        let mut i: usize = 0;
        while i < all.len()
            invariant
                i <= all@.len(),
                r@.len() == i,
                forall|j: int| 0 <= j < i ==> r@[j] == *all@[j],
            decreases all@.len() - i,
        {
            r.push(all[i].copy_info());
            i = i + 1;
        }
        assert(r@ =~= all@.map_values(|p: &NodeInfo| *p));
        r
    }

    /// Encode `data`, encrypt it under packet id `id`, and return the frame;
    /// `None` when the encoded body exceeds `MAX_PAYLOAD`.
    pub fn build_frame_with_id(&self, to: u32, data: &Data, id: u32) -> (r: Option<MeshFrame>)
        ensures
            data_bytes(data@).len() > MAX_PAYLOAD ==> r is None,
            data_bytes(data@).len() <= MAX_PAYLOAD ==> (r matches Some(f) && self.is_tx_frame(
                to,
                data@,
                id,
                f,
            )),
    {
        let plaintext = data.encode_to_vec();
        if plaintext.len() > MAX_PAYLOAD {
            return None;
        }
        let header = MeshHeader {
            to,
            from: self.local.node_id,
            id,
            hop_limit: 3,
            hop_start: 3,
            want_ack: false,
            via_mqtt: false,
            channel_hash: self.channel.channel_hash(),
        };
        let ciphertext = self.crypto.encrypt(id, self.local.node_id, plaintext.as_slice());
        Some(MeshFrame { header, payload: ciphertext })
    }

    /// Encode `data`, encrypt it under a random packet id, and return the
    /// frame; `None` when the encoded body exceeds `MAX_PAYLOAD`.
    pub fn build_frame(&self, to: u32, data: &Data) -> (r: Option<MeshFrame>)
        ensures
            data_bytes(data@).len() > MAX_PAYLOAD ==> r is None,
            data_bytes(data@).len() <= MAX_PAYLOAD ==> (r matches Some(f) && self.is_tx_frame(
                to,
                data@,
                f.header.id,
                f,
            )),
    {
        let id = random_u32();
        self.build_frame_with_id(to, data, id)
    }

    /// Build a `TEXT_MESSAGE_APP` frame; `None` if the encoded text exceeds
    /// `MAX_PAYLOAD`.
    pub fn build_text_frame(&self, to: u32, text: &str) -> (r: Option<MeshFrame>)
        ensures
            data_bytes(text_data(text@)).len() > MAX_PAYLOAD ==> r is None,
            data_bytes(text_data(text@)).len() <= MAX_PAYLOAD ==> (r matches Some(f)
                && self.is_tx_frame(to, text_data(text@), f.header.id, f)),
    {
        let mut payload: Vec<u8> = Vec::new();
        crate::mac::packet::extend_bytes(&mut payload, text.as_bytes());
        let data = Data {
            portnum: TEXT_MESSAGE_APP,
            payload,
            want_response: false,
            dest: 0,
            source: 0,
            request_id: 0,
        };
        assert(data@ == text_data(text@));
        self.build_frame(to, &data)
    }

    /// The user this node announces in its node-info beacon.
    pub open spec fn own_user(&self) -> UserView {
        UserView {
            id: node_id_text(self.spec_node_id()),
            long_name: self.spec_long_name(),
            short_name: self.spec_short_name(),
            macaddr: Seq::empty(),
        }
    }

    /// Build a `NODEINFO_APP` beacon frame (broadcast).
    pub fn build_nodeinfo_frame(&self) -> (r: Option<MeshFrame>)
        ensures
            data_bytes(user_data(self.own_user())).len() > MAX_PAYLOAD ==> r is None,
            data_bytes(user_data(self.own_user())).len() <= MAX_PAYLOAD ==> (r matches Some(f)
                && self.is_tx_frame(BROADCAST, user_data(self.own_user()), f.header.id, f)),
    {
        let id = node_id_string(self.local.node_id);
        let user = User {
            id,
            long_name: self.local.long_name.clone(),
            short_name: self.local.short_name.clone(),
            macaddr: Vec::new(),
        };
        assert(user.id@ =~= node_id_text(self.local.node_id));
        assert(user@.macaddr =~= Seq::<u8>::empty());
        assert(user@ =~= self.own_user());
        let data = user.encode_to_data();
        self.build_frame(BROADCAST, &data)
    }

    /// The frame `raw` is accepted for routing: long enough for a header, and
    /// on this node's channel (or relayed from MQTT, which carries no hash).
    pub open spec fn accepts(&self, raw: Seq<u8>) -> bool {
        raw.len() >= HEADER_LEN && {
            let h = MeshHeader::spec_parse(raw);
            h.via_mqtt || h.channel_hash == self.spec_channel_hash()
        }
    }

    /// Process a raw LoRa frame received from the PHY pipeline.
    ///
    /// Returns `Ok((message, relay))`: the decoded message when the frame is
    /// for this node (or broadcast), and the copy to relay when hops remain;
    /// both `None` for a duplicate or an exhausted frame for another node.
    /// `Err` when the frame is malformed, on another channel, or its body
    /// does not decode.
    pub fn process_rx_frame(&mut self, raw: &[u8]) -> (r: Result<
        (Option<MeshMessage>, Option<MeshFrame>),
        ProcessError,
    >)
        ensures
            final(self).spec_node_id() == old(self).spec_node_id(),
            final(self).spec_short_name() == old(self).spec_short_name(),
            final(self).spec_long_name() == old(self).spec_long_name(),
            final(self).spec_key() == old(self).spec_key(),
            final(self).spec_channel() == old(self).spec_channel(),
            raw@.len() < HEADER_LEN ==> r matches Err(ProcessError::Malformed),
            raw@.len() >= HEADER_LEN && !old(self).accepts(raw@) ==> r matches Err(
                ProcessError::WrongChannel,
            ),
            !old(self).accepts(raw@) ==> final(self).spec_dedup() == old(self).spec_dedup()
                && final(self).spec_neighbours() == old(self).spec_neighbours(),
            old(self).accepts(raw@) ==> old(self).rx_ok(raw@, r, final(self).spec_dedup(), final(self).spec_neighbours()),
            final(self).well_formed(),
    {
        proof {
            use_type_invariant(&*self);
            use_type_invariant(&self.neighbours);
        }
        let frame = match MeshFrame::from_bytes(raw) {
            Some(f) => f,
            None => return Err(ProcessError::Malformed),
        };
        if !frame.header.via_mqtt && frame.header.channel_hash != self.channel.channel_hash() {
            return Err(ProcessError::WrongChannel);
        }
        let h = frame.header;
        let plaintext = self.crypto.decrypt(h.id, h.from, frame.payload.as_slice());
        let mut dedup = DedupCache::new();
        std::mem::swap(&mut dedup, &mut self.dedup);
        let decision = route(&frame, self.local.node_id, plaintext, &mut dedup);
        self.dedup = dedup;
        match decision {
            RouteDecision::Drop => Ok((None, None)),
            RouteDecision::Forward { frame: fwd } => Ok((None, Some(fwd))),
            RouteDecision::Deliver { plaintext } => {
                let msg = self.decode_payload(h.to, h.from, h.hop_limit, plaintext.as_slice())?;
                Ok((Some(msg), None))
            },
            RouteDecision::DeliverAndForward { plaintext, frame: fwd } => {
                let msg = self.decode_payload(h.to, h.from, h.hop_limit, plaintext.as_slice())?;
                Ok((Some(msg), Some(fwd)))
            },
        }
    }

    /// What `process_rx_frame` does with an accepted frame `raw`: the dedup
    /// cache becomes `dedup`, the neighbour table `nb`, and `r` is returned.
    pub open spec fn rx_ok(
        &self,
        raw: Seq<u8>,
        r: Result<(Option<MeshMessage>, Option<MeshFrame>), ProcessError>,
        dedup: Seq<(u32, u32)>,
        nb: Map<u32, NodeInfo>,
    ) -> bool {
        let h = MeshHeader::spec_parse(raw);
        let payload = raw.skip(HEADER_LEN as int);
        let plaintext = ctr_cipher(self.spec_key(), h.id, h.from, payload);
        let seen = self.spec_dedup().contains((h.from, h.id));
        &&& dedup == dedup_after(self.spec_dedup(), h.from, h.id)
        &&& if seen {
            r matches Ok((None, None)) && nb == self.spec_neighbours()
        } else if addressed_to(h, self.spec_node_id()) {
            match data_decode(plaintext) {
                Some(d) => {
                    &&& r matches Ok((Some(m), fwd)) && is_delivered(m, h, d) && relay_ok(fwd, h, payload)
                    &&& neighbours_after(self.spec_neighbours(), nb, h.from, d)
                },
                None => r matches Err(ProcessError::Proto(_)) && nb == self.spec_neighbours(),
            }
        } else {
            &&& nb == self.spec_neighbours()
            &&& if h.hop_limit > 0 {
                r matches Ok((None, Some(f))) && crate::mesh::router::is_forward_of(f, h, payload)
            } else {
                r matches Ok((None, None))
            }
        }
    }

    fn decode_payload(&mut self, to: u32, from: u32, hop_limit: u8, plaintext: &[u8]) -> (r: Result<
        MeshMessage,
        ProcessError,
    >)
        ensures
            final(self).spec_node_id() == old(self).spec_node_id(),
            final(self).spec_short_name() == old(self).spec_short_name(),
            final(self).spec_long_name() == old(self).spec_long_name(),
            final(self).spec_key() == old(self).spec_key(),
            final(self).spec_channel() == old(self).spec_channel(),
            final(self).spec_dedup() == old(self).spec_dedup(),
            match data_decode(plaintext@) {
                Some(d) => (r matches Ok(m) && m.from == from && m.to == to && m.hop_limit == hop_limit
                    && m.data@ == d) && neighbours_after(
                    old(self).spec_neighbours(),
                    final(self).spec_neighbours(),
                    from,
                    d,
                ),
                None => r matches Err(ProcessError::Proto(_)) && final(self).spec_neighbours() == old(
                    self,
                ).spec_neighbours(),
            },
            final(self).well_formed(),
    {
        proof {
            use_type_invariant(&*self);
            use_type_invariant(&self.neighbours);
        }
        let data = match Data::decode(plaintext) {
            Ok(d) => d,
            Err(e) => return Err(ProcessError::Proto(e)),
        };
        if data.portnum == NODEINFO_APP {
            match data.decode_user() {
                Ok(user) => {
                    let info = NodeInfo {
                        node_id: from,
                        short_name: user.short_name,
                        long_name: user.long_name,
                        last_rssi: None,
                    };
                    let mut table = NeighbourTable::default();
                    std::mem::swap(&mut table, &mut self.neighbours);
                    table.update(info);
                    self.neighbours = table;
                    proof {
                        use_type_invariant(&self.neighbours);
                    }
                },
                Err(_) => {},
            }
        }
        Ok(MeshMessage { from, to, data, hop_limit })
    }
}


/// A frame built by one node and received by another node built on an equal
/// channel configuration, addressed to it (or broadcast) and not seen
/// before, is accepted and delivers the body that was sent, from the sender,
/// with three hops left, and is relayed with two.
pub proof fn lemma_sent_frame_delivered(
    sender: &MeshNode,
    receiver: &MeshNode,
    to: u32,
    d: DataView,
    id: u32,
    f: MeshFrame,
    r: Result<(Option<MeshMessage>, Option<MeshFrame>), ProcessError>,
    dedup: Seq<(u32, u32)>,
    nb: Map<u32, NodeInfo>,
)
    requires
        sender.is_tx_frame(to, d, id, f),
        sender.well_formed(),
        receiver.well_formed(),
        sender.spec_channel() == receiver.spec_channel(),
        !receiver.spec_dedup().contains((sender.spec_node_id(), id)),
        to == receiver.spec_node_id() || to == BROADCAST,
        d.payload.len() <= u64::MAX,
    ensures
        receiver.accepts(f.spec_bytes()),
        receiver.rx_ok(f.spec_bytes(), r, dedup, nb) ==> {
            &&& r matches Ok((Some(m), Some(g)))
            &&& m.data@ == d
            &&& m.from == sender.spec_node_id()
            &&& m.to == to
            &&& m.hop_limit == 3
            &&& g.header.hop_limit == 2
            &&& neighbours_after(receiver.spec_neighbours(), nb, sender.spec_node_id(), d)
        },
{
    let raw = f.spec_bytes();
    crate::mac::packet::lemma_frame_round_trip(f.header, f.payload@);
    crate::mac::packet::lemma_header_round_trip(f.header);
    assert(f.header.well_formed());
    assert(MeshHeader::spec_parse(raw) == f.header);
    assert(raw.skip(HEADER_LEN as int) == f.payload@);
    crate::mac::crypto::lemma_decrypt_encrypt(sender.spec_key(), id, sender.spec_node_id(), data_bytes(d));
    crate::proto::lemma_data_round_trip(d);
}

/// After receiving another node's beacon, a node built on an equal channel
/// configuration that had not seen it lists the sender under its ID with the
/// sender's short and long names.
pub proof fn lemma_beacon_recorded(
    sender: &MeshNode,
    receiver: &MeshNode,
    id: u32,
    f: MeshFrame,
    r: Result<(Option<MeshMessage>, Option<MeshFrame>), ProcessError>,
    dedup: Seq<(u32, u32)>,
    nb: Map<u32, NodeInfo>,
)
    requires
        sender.is_tx_frame(BROADCAST, user_data(sender.own_user()), id, f),
        sender.well_formed(),
        receiver.well_formed(),
        sender.spec_channel() == receiver.spec_channel(),
        !receiver.spec_dedup().contains((sender.spec_node_id(), id)),
        encode_utf8(sender.spec_short_name()).len() <= u64::MAX,
        encode_utf8(sender.spec_long_name()).len() <= u64::MAX,
        user_bytes(sender.own_user()).len() <= u64::MAX,
        receiver.rx_ok(f.spec_bytes(), r, dedup, nb),
    ensures
        nb.contains_key(sender.spec_node_id()),
        nb[sender.spec_node_id()].node_id == sender.spec_node_id(),
        nb[sender.spec_node_id()].short_name@ == sender.spec_short_name(),
        nb[sender.spec_node_id()].long_name@ == sender.spec_long_name(),
        nb[sender.spec_node_id()].last_rssi is None,
        forall|k: u32| k != sender.spec_node_id() ==> #[trigger] nb.contains_key(k) == receiver.spec_neighbours().contains_key(k),
{
    let u = sender.own_user();
    let d = user_data(u);
    lemma_sent_frame_delivered(sender, receiver, BROADCAST, d, id, f, r, dedup, nb);
    assert(encode_utf8(u.id).len() <= u64::MAX) by {
        lemma_node_id_text_len(sender.spec_node_id());
    }
    crate::proto::lemma_user_round_trip(u);
}

/// A frame that a node has accepted once is dropped as a duplicate when it
/// arrives again: no message, nothing to relay, and neither the dedup cache
/// nor the neighbour table changes.
pub proof fn lemma_duplicate_dropped(
    before: &MeshNode,
    after: &MeshNode,
    raw: Seq<u8>,
    r1: Result<(Option<MeshMessage>, Option<MeshFrame>), ProcessError>,
    r2: Result<(Option<MeshMessage>, Option<MeshFrame>), ProcessError>,
    dedup: Seq<(u32, u32)>,
    nb: Map<u32, NodeInfo>,
)
    requires
        before.accepts(raw),
        before.rx_ok(raw, r1, after.spec_dedup(), after.spec_neighbours()),
        after.spec_node_id() == before.spec_node_id(),
        after.spec_key() == before.spec_key(),
        after.spec_channel() == before.spec_channel(),
        after.rx_ok(raw, r2, dedup, nb),
    ensures
        after.accepts(raw),
        r2 matches Ok((None, None)),
        dedup == after.spec_dedup(),
        nb == after.spec_neighbours(),
{
    let h = MeshHeader::spec_parse(raw);
    crate::mesh::router::lemma_seen_is_duplicate(before.spec_dedup(), h.from, h.id);
}

/// The relayed copy of a frame still carries its message: a node with the
/// same key that accepts the copy, had not seen the packet and is addressed
/// gets the same body from the same sender, with one hop fewer, and relays
/// it on while hops remain.
pub proof fn lemma_relayed_frame_delivered(
    receiver: &MeshNode,
    f: MeshFrame,
    g: MeshFrame,
    d: DataView,
    r: Result<(Option<MeshMessage>, Option<MeshFrame>), ProcessError>,
    dedup: Seq<(u32, u32)>,
    nb: Map<u32, NodeInfo>,
)
    requires
        f.header.well_formed(),
        f.header.hop_limit > 0,
        f.payload@ == ctr_cipher(receiver.spec_key(), f.header.id, f.header.from, data_bytes(d)),
        crate::mesh::router::is_forward_of(g, f.header, f.payload@),
        receiver.accepts(g.spec_bytes()),
        !receiver.spec_dedup().contains((f.header.from, f.header.id)),
        addressed_to(f.header, receiver.spec_node_id()),
        d.payload.len() <= u64::MAX,
        receiver.rx_ok(g.spec_bytes(), r, dedup, nb),
    ensures
        r matches Ok((Some(m), fwd)) && m.data@ == d && m.from == f.header.from && m.to
            == f.header.to && m.hop_limit == f.header.hop_limit - 1,
        f.header.hop_limit > 1 ==> (r matches Ok((_, Some(h))) && h.header.hop_limit
            == f.header.hop_limit - 2),
        f.header.hop_limit == 1 ==> (r matches Ok((_, None))),
        neighbours_after(receiver.spec_neighbours(), nb, f.header.from, d),
{
    crate::mac::packet::lemma_frame_round_trip(g.header, g.payload@);
    crate::mac::packet::lemma_header_round_trip(g.header);
    assert(g.header.well_formed());
    crate::mac::crypto::lemma_decrypt_encrypt(receiver.spec_key(), f.header.id, f.header.from, data_bytes(d));
    crate::proto::lemma_data_round_trip(d);
}

/// A node refuses frames from a node whose channel has another channel
/// hash (unless relayed via MQTT, which frames a node sends are not).
pub proof fn lemma_other_channel_refused(sender: &MeshNode, receiver: &MeshNode, to: u32, d: DataView, id: u32, f: MeshFrame)
    requires
        sender.is_tx_frame(to, d, id, f),
        sender.spec_channel_hash() != receiver.spec_channel_hash(),
    ensures
        f.spec_bytes().len() >= HEADER_LEN,
        !receiver.accepts(f.spec_bytes()),
{
    crate::mac::packet::lemma_frame_round_trip(f.header, f.payload@);
    crate::mac::packet::lemma_header_round_trip(f.header);
    assert(f.header.well_formed());
}

/// After receiving another node's beacon, the receiver's neighbour list
/// (any listing of its new table, such as `neighbours()` returns) holds
/// exactly one entry with the sender's ID, carrying the sender's names and
/// no RSSI.
pub proof fn lemma_beacon_listed_once(
    sender: &MeshNode,
    receiver: &MeshNode,
    id: u32,
    f: MeshFrame,
    r: Result<(Option<MeshMessage>, Option<MeshFrame>), ProcessError>,
    dedup: Seq<(u32, u32)>,
    nb: Map<u32, NodeInfo>,
    listed: Seq<NodeInfo>,
)
    requires
        sender.is_tx_frame(BROADCAST, user_data(sender.own_user()), id, f),
        sender.well_formed(),
        receiver.well_formed(),
        sender.spec_channel() == receiver.spec_channel(),
        !receiver.spec_dedup().contains((sender.spec_node_id(), id)),
        encode_utf8(sender.spec_short_name()).len() <= u64::MAX,
        encode_utf8(sender.spec_long_name()).len() <= u64::MAX,
        user_bytes(sender.own_user()).len() <= u64::MAX,
        receiver.rx_ok(f.spec_bytes(), r, dedup, nb),
        lists_table(nb, listed),
    ensures
        exists|i: int|
            0 <= i < listed.len() && listed[i].node_id == sender.spec_node_id() && listed[i].short_name@
                == sender.spec_short_name() && listed[i].long_name@ == sender.spec_long_name()
                && listed[i].last_rssi is None,
        forall|i: int, j: int|
            0 <= i < listed.len() && 0 <= j < listed.len() && listed[i].node_id == sender.spec_node_id()
                && listed[j].node_id == sender.spec_node_id() ==> i == j,
{
    let k = sender.spec_node_id();
    lemma_beacon_recorded(sender, receiver, id, f, r, dedup, nb);
    assert(nb.contains_key(k));
    let i = choose|i: int| 0 <= i < listed.len() && listed[i].node_id == k;
    assert(nb[listed[i].node_id] == listed[i]);
    assert forall|i: int, j: int|
        0 <= i < listed.len() && 0 <= j < listed.len() && listed[i].node_id == k && listed[j].node_id == k
            implies i == j by {
        if i < j {
            assert(listed[i].node_id != listed[j].node_id);
        } else if j < i {
            assert(listed[j].node_id != listed[i].node_id);
        }
    }
}

} // verus!

