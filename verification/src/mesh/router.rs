//! Flood router with hop-limit and dedup cache.
//!
//! RX path: decode the frame; drop it when `(from, id)` was already seen;
//! remember it; deliver when it is addressed to this node or broadcast;
//! forward it with `hop_limit` one lower while `hop_limit > 0`.
use vstd::prelude::*;
use std::collections::VecDeque;
use crate::mac::packet::{BROADCAST, MeshFrame, MeshHeader, extend_bytes};

verus! {

/// Capacity of the packet deduplication ring buffer.
pub const DEDUP_CAPACITY: usize = 50;

/// The cache after seeing `(from, id)`: unchanged when already present, else
/// the pair appended, after dropping the oldest entry when the cache is full.
pub open spec fn dedup_after(entries: Seq<(u32, u32)>, from: u32, id: u32) -> Seq<(u32, u32)> {
    if entries.contains((from, id)) {
        entries
    } else if entries.len() == DEDUP_CAPACITY {
        entries.drop_first().push((from, id))
    } else {
        entries.push((from, id))
    }
}

/// Ring buffer of recently-seen (from_node, packet_id) pairs.
pub struct DedupCache {
    entries: VecDeque<(u32, u32)>,
}

impl View for DedupCache {
    type V = Seq<(u32, u32)>;

    closed spec fn view(&self) -> Seq<(u32, u32)> {
        self.entries@
    }
}

impl DedupCache {
    pub fn new() -> (c: Self)
        ensures
            c@ == Seq::<(u32, u32)>::empty(),
    {
        DedupCache { entries: VecDeque::with_capacity(DEDUP_CAPACITY) }
    }

    /// Returns `true` if the packet was already seen (duplicate).
    /// Inserts the entry on a cache miss.
    pub fn check_and_insert(&mut self, from: u32, id: u32) -> (dup: bool)
        ensures
            dup == old(self)@.contains((from, id)),
            final(self)@ == dedup_after(old(self)@, from, id),
    {
        let n = self.entries.len();
        let mut i: usize = 0;
        while i < n
            invariant
                n == self.entries@.len(),
                i <= n,
                forall|j: int| 0 <= j < i ==> self.entries@[j] != (from, id),
            decreases n - i,
        {
            let e = self.entries[i];
            if e.0 == from && e.1 == id {
                assert(self.entries@.contains((from, id))) by {
                    assert(self.entries@[i as int] == (from, id));
                }
                return true;
            }
            i = i + 1;
        }
        assert(!self.entries@.contains((from, id)));
        if self.entries.len() == DEDUP_CAPACITY {
            self.entries.pop_front();
        }
        self.entries.push_back((from, id));
        proof {
            if old(self)@.len() == DEDUP_CAPACITY {
                assert(old(self)@.subrange(1, old(self)@.len() as int) =~= old(self)@.drop_first());
            }
        }
        false
    }
}

/// Seeing a pair that is already cached changes nothing.  Seeing a new
/// pair remembers it as the newest entry and keeps every earlier entry, in
/// order, except that a full cache (50 entries) forgets exactly one, its
/// oldest: the cache grows by one up to 50 entries and then stays there.
pub proof fn lemma_dedup_forgets_only_oldest(entries: Seq<(u32, u32)>, from: u32, id: u32)
    requires
        entries.len() <= 50,
    ensures
        entries.contains((from, id)) ==> dedup_after(entries, from, id) == entries,
        !entries.contains((from, id)) ==> {
            let after = dedup_after(entries, from, id);
            let dropped: int = if entries.len() == 50 { 1 } else { 0 };
            &&& after.len() == entries.len() + 1 - dropped
            &&& after.len() <= 50
            &&& after[after.len() - 1] == (from, id)
            &&& forall|i: int| dropped <= i < entries.len() ==> #[trigger] entries[i] == after[i - dropped]
            &&& forall|i: int| dropped <= i < entries.len() ==> after.contains(#[trigger] entries[i])
            &&& forall|x: (u32, u32)| #[trigger] after.contains(x) ==> x == (from, id) || entries.contains(x)
        },
{
    if !entries.contains((from, id)) {
        let after = dedup_after(entries, from, id);
        let dropped: int = if entries.len() == 50 { 1 } else { 0 };
        assert forall|i: int| dropped <= i < entries.len() implies after.contains(#[trigger] entries[i]) by {
            assert(after[i - dropped] == entries[i]);
        }
        assert forall|x: (u32, u32)| #[trigger] after.contains(x) implies x == (from, id) || entries.contains(x) by {
            let j = choose|j: int| 0 <= j < after.len() && after[j] == x;
            if j < after.len() - 1 {
                assert(entries[j + dropped] == x);
            }
        }
    }
}

/// The cache never holds more than `DEDUP_CAPACITY` entries, nor any pair twice.
pub proof fn lemma_dedup_bounded(entries: Seq<(u32, u32)>, from: u32, id: u32)
    requires
        entries.len() <= DEDUP_CAPACITY,
        entries.no_duplicates(),
    ensures
        dedup_after(entries, from, id).len() <= DEDUP_CAPACITY,
        dedup_after(entries, from, id).no_duplicates(),
{
    let after = dedup_after(entries, from, id);
    if !entries.contains((from, id)) {
        let base = if entries.len() == DEDUP_CAPACITY { entries.drop_first() } else { entries };
        assert forall|i: int, j: int| 0 <= i < after.len() && 0 <= j < after.len() && i != j implies
            after[i] != after[j] by {
            if i < base.len() && j < base.len() {
                if entries.len() == DEDUP_CAPACITY {
                    assert(base[i] == entries[i + 1] && base[j] == entries[j + 1]);
                }
            } else if i < base.len() {
                if entries.len() == DEDUP_CAPACITY {
                    assert(base[i] == entries[i + 1]);
                }
                assert(after[j] == (from, id));
            } else {
                if entries.len() == DEDUP_CAPACITY {
                    assert(base[j] == entries[j + 1]);
                }
                assert(after[i] == (from, id));
            }
        }
    }
}

/// Once `(from, id)` has been seen, the next check of the same pair reports
/// a duplicate.
pub proof fn lemma_seen_is_duplicate(entries: Seq<(u32, u32)>, from: u32, id: u32)
    ensures
        dedup_after(entries, from, id).contains((from, id)),
{
    let after = dedup_after(entries, from, id);
    if !entries.contains((from, id)) {
        assert(after[after.len() - 1] == (from, id));
    }
}

/// Decision returned by the router for each received frame.
pub enum RouteDecision {
    /// Deliver plaintext body to the application layer.
    Deliver { plaintext: Vec<u8> },
    /// Re-broadcast with decremented hop_limit (after jitter delay).
    Forward { frame: MeshFrame },
    /// Deliver AND forward (this node is the destination but should also relay).
    DeliverAndForward { plaintext: Vec<u8>, frame: MeshFrame },
    /// Drop silently (duplicate or hop_limit exhausted).
    Drop,
}

/// The header a relayed copy carries: one hop fewer, all else the same.
pub open spec fn forwarded_header(h: MeshHeader) -> MeshHeader {
    MeshHeader { hop_limit: (h.hop_limit - 1) as u8, ..h }
}

/// The frame is addressed to `node_id` or broadcast.
pub open spec fn addressed_to(h: MeshHeader, node_id: u32) -> bool {
    h.to == node_id || h.to == BROADCAST
}

/// `f` is the relayed copy of a frame with header `h` and payload `payload`.
pub open spec fn is_forward_of(f: MeshFrame, h: MeshHeader, payload: Seq<u8>) -> bool {
    f.header == forwarded_header(h) && f.payload@ == payload
}

/// What `route` decides for a frame with header `h`, given whether
/// `(h.from, h.id)` was already seen.
pub open spec fn route_ok(
    r: RouteDecision,
    h: MeshHeader,
    payload: Seq<u8>,
    node_id: u32,
    plaintext: Seq<u8>,
    seen: bool,
) -> bool {
    if seen {
        r is Drop
    } else if h.hop_limit == 0 {
        if addressed_to(h, node_id) {
            r matches RouteDecision::Deliver { plaintext: p } && p@ == plaintext
        } else {
            r is Drop
        }
    } else if addressed_to(h, node_id) {
        r matches RouteDecision::DeliverAndForward { plaintext: p, frame: f } && p@ == plaintext
            && is_forward_of(f, h, payload)
    } else {
        r matches RouteDecision::Forward { frame: f } && is_forward_of(f, h, payload)
    }
}

/// Stateless routing function: does not hold crypto or node state.
/// Callers supply the decrypted body and the local node_id.
pub fn route(frame: &MeshFrame, node_id: u32, plaintext: Vec<u8>, dedup: &mut DedupCache) -> (r:
    RouteDecision)
    ensures
        final(dedup)@ == dedup_after(old(dedup)@, frame.header.from, frame.header.id),
        route_ok(
            r,
            frame.header,
            frame.payload@,
            node_id,
            plaintext@,
            old(dedup)@.contains((frame.header.from, frame.header.id)),
        ),
{
    let h = &frame.header;
    if dedup.check_and_insert(h.from, h.id) {
        return RouteDecision::Drop;
    }
    let for_us = h.to == node_id || h.to == BROADCAST;
    if h.hop_limit == 0 {
        return if for_us {
            RouteDecision::Deliver { plaintext }
        } else {
            RouteDecision::Drop
        };
    }
    let fwd_header = MeshHeader { hop_limit: h.hop_limit - 1, ..*h };
    let mut payload: Vec<u8> = Vec::new();
    extend_bytes(&mut payload, frame.payload.as_slice());
    assert(payload@ =~= frame.payload@);
    let fwd_frame = MeshFrame { header: fwd_header, payload };
    if for_us {
        RouteDecision::DeliverAndForward { plaintext, frame: fwd_frame }
    } else {
        RouteDecision::Forward { frame: fwd_frame }
    }
}

/// What the router decides, in terms of the frame alone: a pair seen before
/// is dropped; otherwise the body is delivered exactly when the frame is
/// for this node or for everyone (`0xFFFFFFFF`), and a copy is relayed
/// exactly when hops are left — the same frame, same payload, with one hop
/// fewer and every other header field unchanged.
pub proof fn lemma_route_decides(
    r: RouteDecision,
    h: MeshHeader,
    payload: Seq<u8>,
    node_id: u32,
    plaintext: Seq<u8>,
    seen: bool,
)
    requires
        route_ok(r, h, payload, node_id, plaintext, seen),
    ensures
        seen ==> r is Drop,
        !seen ==> ((r is Deliver || r is DeliverAndForward) <==> (h.to == node_id || h.to == 0xFFFF_FFFFu32)),
        !seen ==> ((r is Forward || r is DeliverAndForward) <==> h.hop_limit > 0),
        r matches RouteDecision::Deliver { plaintext: p } ==> p@ == plaintext,
        r matches RouteDecision::DeliverAndForward { plaintext: p, .. } ==> p@ == plaintext,
        ({
            let relayed = match r {
                RouteDecision::Forward { frame: f } => Some(f),
                RouteDecision::DeliverAndForward { frame: f, .. } => Some(f),
                _ => None,
            };
            relayed matches Some(f) ==> {
                &&& f.payload@ == payload
                &&& f.header.hop_limit + 1 == h.hop_limit
                &&& f.header.to == h.to && f.header.from == h.from && f.header.id == h.id
                &&& f.header.want_ack == h.want_ack && f.header.via_mqtt == h.via_mqtt
                &&& f.header.hop_start == h.hop_start && f.header.channel_hash == h.channel_hash
            }
        }),
{
}

} // verus!
