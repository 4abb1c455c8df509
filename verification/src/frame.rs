//! Frames of the telemetry stream: two bytes of length, least significant
//! first, then that many bytes of payload.

use vstd::prelude::*;
use vstd::slice::slice_to_vec;

verus! {

/// The longest payload that a frame can announce.
pub const MAX_PAYLOAD: usize = 65535;

/// The frame that carries `payload`.
pub open spec fn frame(payload: Seq<u8>) -> Seq<u8>
    recommends
        payload.len() <= MAX_PAYLOAD,
{
    seq![(payload.len() % 256) as u8, (payload.len() / 256) as u8] + payload
}

/// The payload length that the first two bytes of `buffer` announce.
pub open spec fn announced(buffer: Seq<u8>) -> int
    recommends
        buffer.len() >= 2,
{
    buffer[0] + 256 * buffer[1]
}

/// Whether `buffer` begins with a whole frame: the two bytes of length and
/// all of the payload that they announce.
pub open spec fn has_frame(buffer: Seq<u8>) -> bool {
    buffer.len() >= 2 && buffer.len() >= 2 + announced(buffer)
}

/// The payload of the frame that `buffer` begins with.
pub open spec fn first_payload(buffer: Seq<u8>) -> Seq<u8>
    recommends
        has_frame(buffer),
{
    buffer.subrange(2, 2 + announced(buffer))
}

/// What follows the frame that `buffer` begins with.
pub open spec fn after_first(buffer: Seq<u8>) -> Seq<u8>
    recommends
        has_frame(buffer),
{
    buffer.skip(2 + announced(buffer))
}

/// The payloads of the whole frames in `buffer`, in order.
pub open spec fn payloads(buffer: Seq<u8>) -> Seq<Seq<u8>>
    decreases buffer.len(),
{
    if has_frame(buffer) {
        seq![first_payload(buffer)] + payloads(after_first(buffer))
    } else {
        Seq::empty()
    }
}

/// What is left of `buffer` behind its whole frames: the beginning of a
/// frame that has not fully come, or nothing.
pub open spec fn pending(buffer: Seq<u8>) -> Seq<u8>
    decreases buffer.len(),
{
    if has_frame(buffer) {
        pending(after_first(buffer))
    } else {
        buffer
    }
}

/// Puts `payload` in a frame, as `frame` says. A payload of more than
/// 65535 bytes fits no frame.
pub fn encode_frame(payload: &[u8]) -> (framed: Option<Vec<u8>>)
    ensures
        framed is Some <==> payload@.len() <= MAX_PAYLOAD,
        framed matches Some(bytes) ==> bytes@ == frame(payload@),
{
    let len: usize = payload.len();
    if len > MAX_PAYLOAD {
        return None;
    }
    let mut framed: Vec<u8> = Vec::new();
    framed.push((len % 256) as u8);
    framed.push((len / 256) as u8);
    let mut body = slice_to_vec(payload);
    framed.append(&mut body);
    assert(framed@ =~= frame(payload@));
    Some(framed)
}

/// The bytes of the stream that no frame has been taken from yet.
#[derive(Debug)]
pub struct FrameBuffer {
    bytes: Vec<u8>,
}

impl View for FrameBuffer {
    type V = Seq<u8>;

    closed spec fn view(&self) -> Seq<u8> {
        self.bytes@
    }
}

impl FrameBuffer {
    /// A buffer with no bytes.
    pub fn new() -> (buffer: FrameBuffer)
        ensures
            buffer@ == Seq::<u8>::empty(),
    {
        FrameBuffer { bytes: Vec::new() }
    }

    /// Number of bytes held.
    pub fn len(&self) -> (len: usize)
        ensures
            len == self@.len(),
    {
        self.bytes.len()
    }

    /// Adds bytes that were read from the stream.
    pub fn push(&mut self, bytes: &[u8])
        ensures
            final(self)@ == old(self)@ + bytes@,
    {
        let mut read = slice_to_vec(bytes);
        self.bytes.append(&mut read);
    }

    /// Takes the first frame off the buffer and returns its payload. While
    /// the frame has not fully come, nothing is returned and the buffer
    /// keeps what it has.
    pub fn next_frame(&mut self) -> (payload: Option<Vec<u8>>)
        ensures
            match payload {
                Some(bytes) => {
                    &&& has_frame(old(self)@)
                    &&& bytes@ == first_payload(old(self)@)
                    &&& final(self)@ == after_first(old(self)@)
                },
                None => !has_frame(old(self)@) && final(self)@ == old(self)@,
            },
    {
        let have: usize = self.bytes.len();
        if have < 2 {
            return None;
        }
        let announced: usize = self.bytes[0] as usize + 256 * (self.bytes[1] as usize);
        if have - 2 < announced {
            return None;
        }
        let mut payload = self.bytes.split_off(2);
        let rest = payload.split_off(announced);
        self.bytes = rest;
        assert(payload@ =~= first_payload(old(self)@));
        assert(self.bytes@ =~= after_first(old(self)@));
        Some(payload)
    }
}

/// A frame is read back as it was written: a buffer that begins with the
/// frame of a payload has that payload first, and what follows the frame
/// after it.
pub proof fn lemma_frame_round_trip(payload: Seq<u8>, rest: Seq<u8>)
    requires
        payload.len() <= MAX_PAYLOAD,
    ensures
        has_frame(frame(payload) + rest),
        first_payload(frame(payload) + rest) == payload,
        after_first(frame(payload) + rest) == rest,
        payloads(frame(payload) + rest) == seq![payload] + payloads(rest),
        pending(frame(payload) + rest) == pending(rest),
{
    let buffer = frame(payload) + rest;
    assert(buffer[0] == (payload.len() % 256) as u8);
    assert(buffer[1] == (payload.len() / 256) as u8);
    assert(announced(buffer) == payload.len());
    assert(first_payload(buffer) =~= payload);
    assert(after_first(buffer) =~= rest);
}

/// No part of a frame is taken for a frame: a buffer that holds only the
/// beginning of a frame, be it a single byte short, has no frame to give.
pub proof fn lemma_no_partial_frame(payload: Seq<u8>, have: int)
    requires
        payload.len() <= MAX_PAYLOAD,
        0 <= have < frame(payload).len(),
    ensures
        !has_frame(frame(payload).take(have)),
        payloads(frame(payload).take(have)) == Seq::<Seq<u8>>::empty(),
        pending(frame(payload).take(have)) == frame(payload).take(have),
{
    let part = frame(payload).take(have);
    if have >= 2 {
        assert(part[0] == (payload.len() % 256) as u8);
        assert(part[1] == (payload.len() / 256) as u8);
        assert(announced(part) == payload.len());
    }
}

/// Frames do not depend on how the stream was cut into reads: reading `more`
/// after `read` gives the frames of `read`, then the frames of what `read`
/// left behind followed by `more`.
pub proof fn lemma_frames_of_reads(read: Seq<u8>, more: Seq<u8>)
    ensures
        payloads(read + more) == payloads(read) + payloads(pending(read) + more),
        pending(read + more) == pending(pending(read) + more),
    decreases read.len(),
{
    if has_frame(read) {
        let whole = read + more;
        assert(whole[0] == read[0] && whole[1] == read[1]);
        assert(has_frame(whole));
        assert(first_payload(whole) =~= first_payload(read));
        assert(after_first(whole) =~= after_first(read) + more);
        lemma_frames_of_reads(after_first(read), more);
        assert(payloads(whole) =~= payloads(read) + payloads(pending(read) + more));
    } else {
        assert(payloads(read) + payloads(read + more) =~= payloads(read + more));
    }
}

} // verus!
