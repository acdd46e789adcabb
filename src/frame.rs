//! Length-prefixed framing: a frame is a 4-byte little-endian unsigned length
//! followed by exactly that many payload bytes.
use vstd::prelude::*;

verus! {

/// The four little-endian bytes of `n`.
pub open spec fn le_bytes(n: u32) -> Seq<u8> {
    seq![
        (n & 0xff) as u8,
        ((n >> 8u32) & 0xff) as u8,
        ((n >> 16u32) & 0xff) as u8,
        ((n >> 24u32) & 0xff) as u8,
    ]
}

/// The unsigned integer that four little-endian bytes stand for.
pub open spec fn le_value(b0: u8, b1: u8, b2: u8, b3: u8) -> u32 {
    (b0 as u32) | ((b1 as u32) << 8u32) | ((b2 as u32) << 16u32) | ((b3 as u32) << 24u32)
}

/// The length announced by the header at the start of `s` (at least 4 bytes).
pub open spec fn header_value(s: Seq<u8>) -> int
    recommends
        s.len() >= 4,
{
    le_value(s[0], s[1], s[2], s[3]) as int
}

/// The frame that carries `payload`.
pub open spec fn frame_of(payload: Seq<u8>) -> Seq<u8>
    recommends
        payload.len() <= u32::MAX,
{
    le_bytes(payload.len() as u32) + payload
}

/// `s` starts with a complete frame: a full header and the full payload it announces.
pub open spec fn has_frame(s: Seq<u8>) -> bool {
    s.len() >= 4 && s.len() - 4 >= header_value(s)
}

/// The payload of the frame at the start of `s`.
pub open spec fn first_payload(s: Seq<u8>) -> Seq<u8> {
    s.subrange(4, 4 + header_value(s))
}

/// What follows the frame at the start of `s`.
pub open spec fn after_first(s: Seq<u8>) -> Seq<u8> {
    s.subrange(4 + header_value(s), s.len() as int)
}

/// The payloads of the complete frames at the start of `s`, in stream order.
pub open spec fn payloads_of(s: Seq<u8>) -> Seq<Seq<u8>>
    decreases s.len(),
{
    if has_frame(s) {
        seq![first_payload(s)] + payloads_of(after_first(s))
    } else {
        Seq::empty()
    }
}

/// The bytes left over once every complete frame at the start of `s` is taken.
pub open spec fn remainder_of(s: Seq<u8>) -> Seq<u8>
    decreases s.len(),
{
    if has_frame(s) {
        remainder_of(after_first(s))
    } else {
        s
    }
}

/// The stream that carries `payloads` as consecutive frames.
pub open spec fn stream_of(payloads: Seq<Seq<u8>>) -> Seq<u8>
    decreases payloads.len(),
{
    if payloads.len() == 0 {
        Seq::empty()
    } else {
        frame_of(payloads[0]) + stream_of(payloads.drop_first())
    }
}

/// Every payload fits the 4-byte length header.
pub open spec fn all_fit(payloads: Seq<Seq<u8>>) -> bool {
    forall|i: int| 0 <= i < payloads.len() ==> #[trigger] payloads[i].len() <= u32::MAX
}

/// Why a frame could not be read.
#[derive(Debug, Clone, Copy, PartialEq, Eq)]
pub enum FrameError {
    /// The stream ended before a full header or a full payload.
    StreamClosed,
}

/// Reading back the header of a frame gives the payload's length.
pub proof fn lemma_le_round_trip(n: u32)
    ensures
        le_value(le_bytes(n)[0], le_bytes(n)[1], le_bytes(n)[2], le_bytes(n)[3]) == n,
{
    assert(((n & 0xff) as u8 as u32) | ((((n >> 8u32) & 0xff) as u8 as u32) << 8u32) | ((((n
        >> 16u32) & 0xff) as u8 as u32) << 16u32) | ((((n >> 24u32) & 0xff) as u8 as u32)
        << 24u32) == n) by (bit_vector);
}

/// A frame followed by any bytes: its payload is read back whole, and the
/// bytes after it are left as they were.
pub proof fn lemma_frame_then(payload: Seq<u8>, rest: Seq<u8>)
    requires
        payload.len() <= u32::MAX,
    ensures
        has_frame(frame_of(payload) + rest),
        first_payload(frame_of(payload) + rest) == payload,
        after_first(frame_of(payload) + rest) == rest,
{
    let s = frame_of(payload) + rest;
    lemma_le_round_trip(payload.len() as u32);
    assert(header_value(s) == payload.len());
    assert(first_payload(s) =~= payload);
    assert(after_first(s) =~= rest);
}

/// Decoding the frame that carries a payload gives that payload back, with
/// nothing left over.
pub proof fn lemma_frame_round_trip(payload: Seq<u8>)
    requires
        payload.len() <= u32::MAX,
    ensures
        has_frame(frame_of(payload)),
        first_payload(frame_of(payload)) == payload,
        after_first(frame_of(payload)).len() == 0,
{
    lemma_frame_then(payload, Seq::empty());
    assert(frame_of(payload) + Seq::<u8>::empty() =~= frame_of(payload));
}

/// Frames written one after another, followed by any bytes, are read back in
/// the order they were written, and the bytes after them are left as they were.
pub proof fn lemma_stream_then(payloads: Seq<Seq<u8>>, rest: Seq<u8>)
    requires
        all_fit(payloads),
    ensures
        payloads_of(stream_of(payloads) + rest) == payloads + payloads_of(rest),
        remainder_of(stream_of(payloads) + rest) == remainder_of(rest),
    decreases payloads.len(),
{
    if payloads.len() == 0 {
        assert(stream_of(payloads) + rest =~= rest);
        assert(payloads + payloads_of(rest) =~= payloads_of(rest));
    } else {
        let tail = payloads.drop_first();
        assert(all_fit(tail)) by {
            assert forall|i: int| 0 <= i < tail.len() implies #[trigger] tail[i].len()
                <= u32::MAX by {
                assert(tail[i] == payloads[i + 1]);
            }
        }
        lemma_stream_then(tail, rest);
        let s = stream_of(payloads) + rest;
        assert(s =~= frame_of(payloads[0]) + (stream_of(tail) + rest));
        lemma_frame_then(payloads[0], stream_of(tail) + rest);
        assert(payloads =~= seq![payloads[0]] + tail);
        assert(payloads + payloads_of(rest) =~= seq![payloads[0]] + (tail + payloads_of(rest)));
    }
}

/// Order is kept: the frames of a stream are read back exactly as they were
/// written, with nothing left over.
pub proof fn lemma_stream_round_trip(payloads: Seq<Seq<u8>>)
    requires
        all_fit(payloads),
    ensures
        payloads_of(stream_of(payloads)) == payloads,
        remainder_of(stream_of(payloads)).len() == 0,
{
    lemma_stream_then(payloads, Seq::empty());
    assert(stream_of(payloads) + Seq::<u8>::empty() =~= stream_of(payloads));
    assert(!has_frame(Seq::<u8>::empty()));
    assert(payloads + Seq::<Seq<u8>>::empty() =~= payloads);
}

/// Frames that arrive cut at any point: the complete frames among the bytes
/// received so far are the first of those written, in the order written.
pub proof fn lemma_cut_stream_in_order(payloads: Seq<Seq<u8>>, k: int)
    requires
        all_fit(payloads),
        0 <= k <= stream_of(payloads).len(),
    ensures
        payloads_of(stream_of(payloads).subrange(0, k)).len() <= payloads.len(),
        payloads_of(stream_of(payloads).subrange(0, k)) == payloads.subrange(
            0,
            payloads_of(stream_of(payloads).subrange(0, k)).len() as int,
        ),
    decreases payloads.len(),
{
    let s = stream_of(payloads);
    let pre = s.subrange(0, k);
    if payloads.len() == 0 {
        assert(!has_frame(pre));
        assert(payloads.subrange(0, 0) =~= Seq::<Seq<u8>>::empty());
    } else {
        let first = payloads[0];
        let tail = payloads.drop_first();
        assert(all_fit(tail)) by {
            assert forall|i: int| 0 <= i < tail.len() implies #[trigger] tail[i].len()
                <= u32::MAX by {
                assert(tail[i] == payloads[i + 1]);
            }
        }
        assert(first.len() <= u32::MAX);
        lemma_frame_then(first, stream_of(tail));
        assert(s == frame_of(first) + stream_of(tail));
        if k < 4 + first.len() {
            if k >= 4 {
                assert(pre[0] == s[0] && pre[1] == s[1] && pre[2] == s[2] && pre[3] == s[3]);
                assert(header_value(pre) == header_value(s));
            }
            assert(!has_frame(pre));
            assert(payloads.subrange(0, 0) =~= Seq::<Seq<u8>>::empty());
        } else {
            let k2 = k - 4 - first.len();
            assert(pre[0] == s[0] && pre[1] == s[1] && pre[2] == s[2] && pre[3] == s[3]);
            assert(header_value(pre) == header_value(s));
            assert(has_frame(pre));
            assert(first_payload(pre) =~= first);
            assert(after_first(pre) =~= stream_of(tail).subrange(0, k2));
            lemma_cut_stream_in_order(tail, k2);
            let m: int = payloads_of(stream_of(tail).subrange(0, k2)).len() as int;
            assert(payloads_of(pre) == seq![first] + tail.subrange(0, m));
            assert(seq![first] + tail.subrange(0, m) =~= payloads.subrange(0, m + 1));
        }
    }
}

/// The header and payload of one frame.
pub fn encode_frame(payload: &[u8]) -> (r: Vec<u8>)
    requires
        payload@.len() <= u32::MAX,
    ensures
        r@ == frame_of(payload@),
{
    let n: u32 = payload.len() as u32;
    let mut r: Vec<u8> = Vec::new();
    r.push((n & 0xff) as u8);
    r.push(((n >> 8u32) & 0xff) as u8);
    r.push(((n >> 16u32) & 0xff) as u8);
    r.push(((n >> 24u32) & 0xff) as u8);
    let mut i: usize = 0;
    while i < payload.len()
        invariant
            i <= payload@.len(),
            r@ == le_bytes(n) + payload@.subrange(0, i as int),
        decreases payload@.len() - i,
    {
        r.push(payload[i]);
        i = i + 1;
        assert(r@ =~= le_bytes(n) + payload@.subrange(0, i as int));
    }
    assert(payload@.subrange(0, i as int) =~= payload@);
    r
}

/// Where the frame starting at `start` of `bytes` ends, if it is complete.
fn frame_end(bytes: &Vec<u8>, start: usize) -> (r: Option<usize>)
    requires
        start <= bytes@.len(),
    ensures
        match r {
            Some(end) => has_frame(bytes@.subrange(start as int, bytes@.len() as int)) && end
                == start + 4 + header_value(bytes@.subrange(start as int, bytes@.len() as int)),
            None => !has_frame(bytes@.subrange(start as int, bytes@.len() as int)),
        },
{
    let ghost s = bytes@.subrange(start as int, bytes@.len() as int);
    let avail: usize = bytes.len() - start;
    if avail < 4 {
        return None;
    }
    let n: u32 = le_u32(bytes[start], bytes[start + 1], bytes[start + 2], bytes[start + 3]);
    assert(n == header_value(s));
    if (n as usize) <= avail - 4 {
        Some(start + 4 + n as usize)
    } else {
        None
    }
}

fn le_u32(b0: u8, b1: u8, b2: u8, b3: u8) -> (r: u32)
    ensures
        r == le_value(b0, b1, b2, b3),
{
    (b0 as u32) | ((b1 as u32) << 8u32) | ((b2 as u32) << 16u32) | ((b3 as u32) << 24u32)
}

/// A copy of `bytes[from..to]`.
fn copy_range(bytes: &Vec<u8>, from: usize, to: usize) -> (r: Vec<u8>)
    requires
        from <= to <= bytes@.len(),
    ensures
        r@ == bytes@.subrange(from as int, to as int),
{
    let mut r: Vec<u8> = Vec::new();
    let mut i: usize = from;
    while i < to
        invariant
            from <= i <= to <= bytes@.len(),
            r@ == bytes@.subrange(from as int, i as int),
        decreases to - i,
    {
        r.push(bytes[i]);
        i = i + 1;
        assert(r@ =~= bytes@.subrange(from as int, i as int));
    }
    r
}

/// Reads the frame at the start of `stream`, which holds every byte that the
/// stream will ever deliver: its payload, or `StreamClosed` when the stream
/// ends before a full header or a full payload.
pub fn decode_frame(stream: &Vec<u8>) -> (r: Result<Vec<u8>, FrameError>)
    ensures
        match r {
            Ok(p) => has_frame(stream@) && p@ == first_payload(stream@),
            Err(e) => !has_frame(stream@) && e == FrameError::StreamClosed,
        },
{
    assert(stream@.subrange(0, stream@.len() as int) =~= stream@);
    match frame_end(stream, 0) {
        Some(end) => Ok(copy_range(stream, 4, end)),
        None => Err(FrameError::StreamClosed),
    }
}

/// Collects the bytes of an input stream as they arrive, in pieces of any
/// size, and hands out the complete frames among them in order.
pub struct FrameDecoder {
    buf: Vec<u8>,
    pos: usize,
}

impl View for FrameDecoder {
    type V = Seq<u8>;

    /// The bytes received and not yet handed out.
    closed spec fn view(&self) -> Seq<u8> {
        self.buf@.subrange(self.pos as int, self.buf@.len() as int)
    }
}

impl FrameDecoder {
    pub closed spec fn wf(&self) -> bool {
        self.pos <= self.buf@.len()
    }

    pub fn new() -> (r: FrameDecoder)
        ensures
            r.wf(),
            r@.len() == 0,
    {
        FrameDecoder { buf: Vec::new(), pos: 0 }
    }

    /// How many bytes have been received and not yet handed out.
    pub fn pending_len(&self) -> (r: usize)
        requires
            self.wf(),
        ensures
            r == self@.len(),
    {
        self.buf.len() - self.pos
    }

    /// Takes the next piece of the stream, as one read returned it.
    pub fn push(&mut self, bytes: &[u8])
        requires
            old(self).wf(),
            old(self)@.len() + bytes@.len() <= usize::MAX,
        ensures
            final(self).wf(),
            final(self)@ == old(self)@ + bytes@,
    {
        let ghost start = self@;
        if self.pos > 0 {
            let rest = self.buf.split_off(self.pos);
            self.buf = rest;
            self.pos = 0;
        }
        assert(self.buf@ =~= start);
        let mut i: usize = 0;
        while i < bytes.len()
            invariant
                self.pos == 0,
                i <= bytes@.len(),
                start.len() + bytes@.len() <= usize::MAX,
                self.buf@ == start + bytes@.subrange(0, i as int),
            decreases bytes@.len() - i,
        {
            self.buf.push(bytes[i]);
            i = i + 1;
            assert(self.buf@ =~= start + bytes@.subrange(0, i as int));
        }
        assert(bytes@.subrange(0, i as int) =~= bytes@);
        assert(self@ =~= self.buf@);
    }

    /// Hands out the payload of the next complete frame, if one has arrived
    /// in full.
    pub fn next_frame(&mut self) -> (r: Option<Vec<u8>>)
        requires
            old(self).wf(),
        ensures
            final(self).wf(),
            match r {
                Some(p) => has_frame(old(self)@) && p@ == first_payload(old(self)@) && final(self)@
                    == after_first(old(self)@),
                None => !has_frame(old(self)@) && final(self)@ == old(self)@,
            },
    {
        let ghost s = self@;
        match frame_end(&self.buf, self.pos) {
            Some(end) => {
                let p = copy_range(&self.buf, self.pos + 4, end);
                assert(p@ =~= first_payload(s));
                self.pos = end;
                assert(self@ =~= after_first(s));
                Some(p)
            },
            None => None,
        }
    }
}

} // verus!
