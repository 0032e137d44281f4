//! Meshtastic serial framing protocol.
//!
//! ```text
//! [0x94] [0xC3] [len_msb] [len_lsb] [protobuf_payload...]
//! ```
//!
//! - Magic bytes `0x94 0xC3` mark the start of a frame.
//! - `len` is a big-endian u16 giving the length of the protobuf payload.
//! - Maximum payload: 512 bytes (Meshtastic firmware limit).
use vstd::prelude::*;
use std::collections::VecDeque;

verus! {

/// Magic bytes that precede every serial frame.
pub const MAGIC: [u8; 2] = [0x94, 0xC3];

/// Maximum protobuf payload per frame (Meshtastic firmware limit).
pub const MAX_FRAME_PAYLOAD: usize = 512;

/// The serial frame that wraps `payload`.
pub open spec fn frame_bytes(payload: Seq<u8>) -> Seq<u8> {
    seq![0x94u8, 0xC3u8, (payload.len() / 256) as u8, (payload.len() % 256) as u8] + payload
}

/// A serial frame is the magic bytes `0x94 0xC3`, the payload length as two
/// big-endian bytes, then the payload itself, for payloads up to 512 bytes.
pub proof fn lemma_frame_layout(p: Seq<u8>)
    requires
        p.len() <= 512,
    ensures
        frame_bytes(p).len() == p.len() + 4,
        frame_bytes(p)[0] == 0x94 && frame_bytes(p)[1] == 0xC3,
        frame_bytes(p)[2] * 256 + frame_bytes(p)[3] == p.len(),
        frame_bytes(p).skip(4) == p,
{
    assert(frame_bytes(p).skip(4) =~= p);
}

/// Wrap a protobuf-encoded payload into a serial frame.
///
/// Returns `None` if `payload` exceeds [`MAX_FRAME_PAYLOAD`].
pub fn encode(payload: &[u8]) -> (r: Option<Vec<u8>>)
    ensures
        payload@.len() > MAX_FRAME_PAYLOAD ==> r is None,
        payload@.len() <= MAX_FRAME_PAYLOAD ==> (r matches Some(v) && v@ == frame_bytes(payload@)),
{
    if payload.len() > MAX_FRAME_PAYLOAD {
        return None;
    }
    let len = payload.len() as u16;
    let hi = (len >> 8u16) as u8;
    let lo = (len & 0xFF) as u8;
    assert(hi == len / 256 && lo == len % 256) by (bit_vector)
        requires
            hi == (len >> 8u16) as u8,
            lo == (len & 0xFF) as u8,
    ;
    let mut buf: Vec<u8> = Vec::with_capacity(4 + payload.len());
    buf.push(MAGIC[0]);
    buf.push(MAGIC[1]);
    buf.push(hi);
    buf.push(lo);
    crate::mac::packet::extend_bytes(&mut buf, payload);
    assert(buf@ =~= frame_bytes(payload@));
    Some(buf)
}

/// Where the decoder stands in the current frame.
#[derive(Clone, Copy, PartialEq, Eq, Structural, Debug)]
pub enum State {
    /// Waiting for first magic byte (0x94).
    Magic0,
    /// Got 0x94, waiting for 0xC3.
    Magic1,
    /// Got magic, waiting for length MSB.
    LenMsb,
    /// Got MSB, waiting for length LSB.
    LenLsb,
    /// Accumulating payload bytes.
    Payload,
}

/// The abstract state of a [`StreamDecoder`].
pub ghost struct DecoderView {
    pub state: State,
    pub len: u16,
    pub buf: Seq<u8>,
    /// Complete frames not yet taken, oldest first.
    pub frames: Seq<Seq<u8>>,
}

/// The decoder's reaction to one byte.
pub open spec fn step(s: DecoderView, b: u8) -> DecoderView {
    match s.state {
        State::Magic0 => if b == 0x94 {
            DecoderView { state: State::Magic1, ..s }
        } else {
            s
        },
        State::Magic1 => if b == 0xC3 {
            DecoderView { state: State::LenMsb, ..s }
        } else if b == 0x94 {
            s
        } else {
            DecoderView { state: State::Magic0, ..s }
        },
        State::LenMsb => DecoderView { state: State::LenLsb, len: ((b as u16) << 8u16) as u16, ..s },
        State::LenLsb => {
            let len = s.len | (b as u16);
            if len == 0 || len > 512 {
                DecoderView { state: State::Magic0, len: len, ..s }
            } else {
                DecoderView { state: State::Payload, len: len, buf: Seq::empty(), ..s }
            }
        },
        State::Payload => {
            let buf = s.buf.push(b);
            if buf.len() == s.len {
                DecoderView {
                    state: State::Magic0,
                    buf: Seq::empty(),
                    frames: s.frames.push(buf),
                    ..s
                }
            } else {
                DecoderView { buf: buf, ..s }
            }
        },
    }
}

/// The decoder's state after each byte of `bytes` in turn.
pub open spec fn feed(s: DecoderView, bytes: Seq<u8>) -> DecoderView
    decreases bytes.len(),
{
    if bytes.len() == 0 {
        s
    } else {
        step(feed(s, bytes.drop_last()), bytes.last())
    }
}

/// The state with its oldest complete frame taken (unchanged when there is none).
pub open spec fn without_first_frame(s: DecoderView) -> DecoderView {
    if s.frames.len() == 0 {
        s
    } else {
        DecoderView { frames: s.frames.drop_first(), ..s }
    }
}

/// Incremental serial frame decoder.
///
/// Feed bytes one-at-a-time or in chunks via [`push`](StreamDecoder::push).
/// Complete frames are returned by [`next_frame`](StreamDecoder::next_frame).
pub struct StreamDecoder {
    state: State,
    len: u16,
    buf: Vec<u8>,
    frames: VecDeque<Vec<u8>>,
}

/// The decoder is between frames: waiting for a magic byte, nothing buffered.
pub open spec fn idle(s: DecoderView) -> bool {
    s.state == State::Magic0 && s.buf.len() == 0
}

/// The invariant every decoder state keeps.
pub open spec fn decoder_inv(s: DecoderView) -> bool {
    &&& s.state == State::Payload ==> 1 <= s.len <= 512 && s.buf.len() < s.len
    &&& s.state != State::Payload ==> s.buf.len() == 0
}

impl View for StreamDecoder {
    type V = DecoderView;

    closed spec fn view(&self) -> DecoderView {
        DecoderView {
            state: self.state,
            len: self.len,
            buf: self.buf@,
            frames: self.frames@.map_values(|f: Vec<u8>| f@),
        }
    }
}

impl StreamDecoder {
    pub fn new() -> (d: Self)
        ensures
            idle(d@),
            d@.frames.len() == 0,
    {
        let d = StreamDecoder { state: State::Magic0, len: 0, buf: Vec::new(), frames: VecDeque::new() };
        assert(d@.frames =~= Seq::<Seq<u8>>::empty());
        d
    }

    /// Feed raw bytes into the decoder.
    pub fn push(&mut self, data: &[u8])
        ensures
            final(self)@ == feed(old(self)@, data@),
    {
        let mut i: usize = 0;
        while i < data.len()
            invariant
                i <= data@.len(),
                self@ == feed(old(self)@, data@.subrange(0, i as int)),
            decreases data@.len() - i,
        {
            let ghost before = data@.subrange(0, i as int);
            self.feed_byte(data[i]);
            i = i + 1;
            assert(data@.subrange(0, i as int).drop_last() =~= before);
        }
        assert(data@.subrange(0, i as int) =~= data@);
    }

    /// Retrieve the next complete frame payload (if any), oldest first.
    pub fn next_frame(&mut self) -> (r: Option<Vec<u8>>)
        ensures
            old(self)@.frames.len() == 0 ==> r is None,
            old(self)@.frames.len() > 0 ==> (r matches Some(f) && f@ == old(self)@.frames[0]),
            final(self)@ == without_first_frame(old(self)@),
    {
        let r = self.frames.pop_front();
        proof {
            if old(self)@.frames.len() > 0 {
                assert(self@.frames =~= old(self)@.frames.drop_first());
            }
        }
        r
    }

    fn feed_byte(&mut self, b: u8)
        ensures
            final(self)@ == step(old(self)@, b),
    {
        match self.state {
            State::Magic0 => {
                if b == MAGIC[0] {
                    self.state = State::Magic1;
                }
            },
            State::Magic1 => {
                if b == MAGIC[1] {
                    self.state = State::LenMsb;
                } else if b == MAGIC[0] {
                } else {
                    self.state = State::Magic0;
                }
            },
            State::LenMsb => {
                self.len = (b as u16) << 8u16;
                self.state = State::LenLsb;
            },
            State::LenLsb => {
                self.len = self.len | (b as u16);
                if self.len == 0 || self.len as usize > MAX_FRAME_PAYLOAD {
                    self.state = State::Magic0;
                } else {
                    self.buf.clear();
                    self.state = State::Payload;
                }
            },
            State::Payload => {
                self.buf.push(b);
                if self.buf.len() == self.len as usize {
                    let mut done: Vec<u8> = Vec::new();
                    std::mem::swap(&mut done, &mut self.buf);
                    self.frames.push_back(done);
                    self.state = State::Magic0;
                }
            },
        }
        proof {
            let o = old(self)@;
            if o.state == State::Payload {
                assert(self@.buf =~= step(o, b).buf);
                assert(self@.frames =~= step(o, b).frames);
            }
        }
    }
}


/// Feeding `a` and then `b` is feeding `a + b`: how the bytes are split
/// across calls of `push` does not matter.
pub proof fn lemma_feed_concat(s: DecoderView, a: Seq<u8>, b: Seq<u8>)
    ensures
        feed(s, a + b) == feed(feed(s, a), b),
    decreases b.len(),
{
    if b.len() == 0 {
        assert(a + b =~= a);
    } else {
        assert((a + b).drop_last() =~= a + b.drop_last());
        assert((a + b).last() == b.last());
        lemma_feed_concat(s, a, b.drop_last());
    }
}

/// Every step keeps the decoder invariant.
pub proof fn lemma_step_keeps_inv(s: DecoderView, b: u8)
    requires
        decoder_inv(s),
    ensures
        decoder_inv(step(s, b)),
{
    if s.state == State::LenLsb {
        let len = s.len | (b as u16);
        assert(len == 0 || len > 512 || (1 <= len <= 512));
    }
}

/// Feeding any bytes keeps the decoder invariant.
pub proof fn lemma_feed_keeps_inv(s: DecoderView, bytes: Seq<u8>)
    requires
        decoder_inv(s),
    ensures
        decoder_inv(feed(s, bytes)),
    decreases bytes.len(),
{
    if bytes.len() > 0 {
        lemma_feed_keeps_inv(s, bytes.drop_last());
        lemma_step_keeps_inv(feed(s, bytes.drop_last()), bytes.last());
    }
}

/// Between frames, bytes other than the first magic byte are discarded.
pub proof fn lemma_garbage_ignored(s: DecoderView, garbage: Seq<u8>)
    requires
        s.state == State::Magic0,
        forall|i: int| 0 <= i < garbage.len() ==> garbage[i] != 0x94,
    ensures
        feed(s, garbage) == s,
    decreases garbage.len(),
{
    if garbage.len() > 0 {
        lemma_garbage_ignored(s, garbage.drop_last());
    }
}

proof fn lemma_payload_prefix(s: DecoderView, p: Seq<u8>, k: int)
    requires
        s.state == State::Payload,
        s.buf.len() == 0,
        s.len == p.len(),
        0 <= k < p.len(),
    ensures
        feed(s, p.subrange(0, k)) == (DecoderView { buf: p.subrange(0, k), ..s }),
    decreases k,
{
    if k == 0 {
        assert(p.subrange(0, 0) =~= Seq::<u8>::empty());
        assert(s.buf =~= p.subrange(0, 0));
    } else {
        assert(p.subrange(0, k).drop_last() =~= p.subrange(0, k - 1));
        lemma_payload_prefix(s, p, k - 1);
        assert(p.subrange(0, k - 1).push(p[k - 1]) =~= p.subrange(0, k));
    }
}

/// A decoder between frames turns the serial frame of a payload of 1 to 512
/// bytes back into that payload, and ends between frames again.
pub proof fn lemma_frame_round_trip(s: DecoderView, p: Seq<u8>)
    requires
        idle(s),
        1 <= p.len() <= MAX_FRAME_PAYLOAD,
    ensures
        feed(s, frame_bytes(p)) == (DecoderView {
            state: State::Magic0,
            len: p.len() as u16,
            buf: Seq::empty(),
            frames: s.frames.push(p),
        }),
{
    let n = p.len();
    let hi = (n / 256) as u8;
    let lo = (n % 256) as u8;
    let hdr = seq![0x94u8, 0xC3u8, hi, lo];
    assert(frame_bytes(p) =~= hdr + p);
    lemma_feed_concat(s, hdr, p);
    reveal_with_fuel(feed, 5);
    assert(hdr.drop_last() =~= seq![0x94u8, 0xC3u8, hi]);
    assert(seq![0x94u8, 0xC3u8, hi].drop_last() =~= seq![0x94u8, 0xC3u8]);
    assert(seq![0x94u8, 0xC3u8].drop_last() =~= seq![0x94u8]);
    assert(seq![0x94u8].drop_last() =~= Seq::<u8>::empty());
    let n16 = n as u16;
    assert(((((n16 / 256) as u8) as u16) << 8u16) | (((n16 % 256) as u8) as u16) == n16)
        by (bit_vector);
    let s1 = feed(s, hdr);
    assert(s1 == (DecoderView { state: State::Payload, len: n16, buf: Seq::empty(), ..s }));
    lemma_payload_prefix(s1, p, n - 1);
    assert(p.drop_last() =~= p.subrange(0, n - 1));
    assert(p.subrange(0, n - 1).push(p.last()) =~= p);
}

/// The serial frames of `payloads`, one after another.
pub open spec fn frames_bytes(payloads: Seq<Seq<u8>>) -> Seq<u8>
    decreases payloads.len(),
{
    if payloads.len() == 0 {
        Seq::empty()
    } else {
        frames_bytes(payloads.drop_last()) + frame_bytes(payloads.last())
    }
}

/// A decoder between frames that is fed the serial frames of several
/// payloads of 1 to 512 bytes each, in one stream, queues every payload, in
/// order, after the frames it already held, invents none, and ends between
/// frames again.  (Any payload may hold the magic bytes.)
pub proof fn lemma_frames_round_trip(s: DecoderView, payloads: Seq<Seq<u8>>)
    requires
        idle(s),
        forall|i: int| 0 <= i < payloads.len() ==> 1 <= #[trigger] payloads[i].len() <= MAX_FRAME_PAYLOAD,
    ensures
        idle(feed(s, frames_bytes(payloads))),
        feed(s, frames_bytes(payloads)).frames == s.frames + payloads,
    decreases payloads.len(),
{
    if payloads.len() == 0 {
        assert(frames_bytes(payloads) =~= Seq::<u8>::empty());
        assert(s.frames + payloads =~= s.frames);
    } else {
        let init = payloads.drop_last();
        let p = payloads.last();
        assert forall|i: int| 0 <= i < init.len() implies 1 <= #[trigger] init[i].len() <= MAX_FRAME_PAYLOAD by {
            assert(init[i] == payloads[i]);
        }
        lemma_frames_round_trip(s, init);
        lemma_feed_concat(s, frames_bytes(init), frame_bytes(p));
        assert(p == payloads[payloads.len() - 1]);
        lemma_frame_round_trip(feed(s, frames_bytes(init)), p);
        assert((s.frames + init).push(p) =~= s.frames + payloads);
    }
}

} // verus!
