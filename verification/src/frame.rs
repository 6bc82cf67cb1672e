//! The wire format of a message.
//!
//! A message travels as a frame: one opening guard byte, the payload's
//! length in two bytes (high byte first), the payload, one closing guard
//! byte. Frames are cut out of a receive buffer and written by the
//! `simple-stream` crate; this module states what that means for a buffer
//! as a whole and proves the laws that the rest of the server relies on.

use simple_stream::frame::{Frame, FrameBuilder, SimpleFrame, SimpleFrameBuilder};
use vstd::prelude::*;

verus! {

/// The opening guard byte that a written frame starts with.
pub const START_GUARD: u8 = 0x01;

/// The closing guard byte that a written frame ends with.
pub const END_GUARD: u8 = 0x17;

/// Bytes of a frame besides its payload.
pub const OVERHEAD: usize = 4;

/// The longest payload that fits a frame: frame lengths are computed in
/// sixteen bits, overhead included.
pub const MAX_PAYLOAD: usize = 65531;

/// The payload length that the header of `b` declares.
pub open spec fn declared_len(b: Seq<u8>) -> int
    recommends
        b.len() >= 3,
{
    b[1] as int * 256 + b[2] as int
}

/// Whether `x` is taken as the closing guard of a frame: no bit outside
/// the two guard bytes may be set.
pub open spec fn closes_frame(x: u8) -> bool {
    x & 0xE8 == 0
}

/// Whether `b` starts with a complete frame.
pub open spec fn has_frame(b: Seq<u8>) -> bool {
    &&& b.len() >= OVERHEAD
    &&& declared_len(b) <= MAX_PAYLOAD
    &&& b.len() >= declared_len(b) + OVERHEAD
    &&& closes_frame(b[declared_len(b) + 3])
}

/// The payload of the frame that `b` starts with.
pub open spec fn first_payload(b: Seq<u8>) -> Seq<u8>
    recommends
        has_frame(b),
{
    b.subrange(3, 3 + declared_len(b))
}

/// What follows the frame that `b` starts with.
pub open spec fn after_first(b: Seq<u8>) -> Seq<u8>
    recommends
        has_frame(b),
{
    b.subrange(declared_len(b) + OVERHEAD as int, b.len() as int)
}

/// The payloads of all complete frames at the front of `b`, in order.
pub open spec fn frames_of(b: Seq<u8>) -> Seq<Seq<u8>>
    decreases b.len(),
{
    if has_frame(b) {
        seq![first_payload(b)] + frames_of(after_first(b))
    } else {
        Seq::empty()
    }
}

/// What is left of `b` once all complete frames at its front are gone.
pub open spec fn remainder_of(b: Seq<u8>) -> Seq<u8>
    decreases b.len(),
{
    if has_frame(b) {
        remainder_of(after_first(b))
    } else {
        b
    }
}

/// The frame that carries `payload`.
pub open spec fn encoding(payload: Seq<u8>) -> Seq<u8>
    recommends
        payload.len() <= MAX_PAYLOAD,
{
    seq![START_GUARD, (payload.len() / 256) as u8, (payload.len() % 256) as u8] + payload
        + seq![END_GUARD]
}

/// The frames of `payloads` one after another.
pub open spec fn wire_of(payloads: Seq<Seq<u8>>) -> Seq<u8>
    decreases payloads.len(),
{
    if payloads.len() == 0 {
        Seq::empty()
    } else {
        encoding(payloads[0]) + wire_of(payloads.drop_first())
    }
}

/// The byte sequences that a vector of buffers holds.
pub open spec fn contents(v: Seq<Vec<u8>>) -> Seq<Seq<u8>> {
    Seq::new(v.len(), |i: int| v[i]@)
}

/// `SimpleFrameBuilder::from_bytes` of simple-stream, followed by
/// `Frame::payload` on the frame it built.
///
/// Claimed of it, for a buffer of five bytes or more whose header declares
/// no more than `MAX_PAYLOAD`: if the buffer holds the declared payload
/// and a closing guard behind it, the payload is returned and the frame is
/// cut off the front of the buffer; otherwise nothing is returned and the
/// buffer is left as it was. The opening guard is not examined.
#[verifier::external_body]
fn from_bytes(buf: &mut Vec<u8>) -> (frame: Option<Vec<u8>>)
    requires
        old(buf)@.len() >= 5,
        declared_len(old(buf)@) <= MAX_PAYLOAD,
    ensures
        has_frame(old(buf)@) ==> frame.is_some() && frame.unwrap()@ == first_payload(old(buf)@)
            && final(buf)@ == after_first(old(buf)@),
        !has_frame(old(buf)@) ==> frame.is_none() && final(buf)@ == old(buf)@,
{
    match SimpleFrameBuilder::from_bytes(buf) {
        Some(built) => Some(built.payload()),
        None => None,
    }
}

/// `SimpleFrame::new` of simple-stream, followed by `Frame::to_bytes`.
///
/// Claimed of it, for a payload of no more than `MAX_PAYLOAD` bytes: the
/// result is the opening guard, the payload's length in two bytes, the
/// payload and the closing guard.
#[verifier::external_body]
fn to_bytes(payload: &Vec<u8>) -> (wire: Vec<u8>)
    requires
        payload@.len() <= MAX_PAYLOAD,
    ensures
        wire@ == encoding(payload@),
{
    SimpleFrame::new(payload.as_slice()).to_bytes()
}

/// Frames `payload` for the wire, or returns `None` where it is longer
/// than a frame can carry.
pub fn encode_frame(payload: &Vec<u8>) -> (wire: Option<Vec<u8>>)
    ensures
        payload@.len() <= MAX_PAYLOAD ==> wire.is_some() && wire.unwrap()@ == encoding(payload@),
        payload@.len() > MAX_PAYLOAD ==> wire.is_none(),
{
    if payload.len() <= MAX_PAYLOAD {
        Some(to_bytes(payload))
    } else {
        None
    }
}

/// Cuts the first complete frame off the front of `buf` and returns its
/// payload; where `buf` does not start with one, leaves it alone.
///
/// The frame builder asks for five bytes before it looks at a buffer, so a
/// frame without payload that ends the buffer is cut off here.
pub fn next_frame(buf: &mut Vec<u8>) -> (frame: Option<Vec<u8>>)
    ensures
        has_frame(old(buf)@) ==> frame.is_some() && frame.unwrap()@ == first_payload(old(buf)@)
            && final(buf)@ == after_first(old(buf)@),
        !has_frame(old(buf)@) ==> frame.is_none() && final(buf)@ == old(buf)@,
{
    let n: usize = buf.len();
    if n < OVERHEAD {
        return None;
    }
    let declared: usize = (buf[1] as usize) * 256 + (buf[2] as usize);
    if declared > MAX_PAYLOAD {
        return None;
    }
    if n == OVERHEAD {
        if declared == 0 && buf[3] & 0xE8 == 0 {
            buf.clear();
            let empty: Vec<u8> = Vec::new();
            assert(empty@ =~= first_payload(old(buf)@));
            assert(buf@ =~= after_first(old(buf)@));
            return Some(empty);
        }
        return None;
    }
    from_bytes(buf)
}

/// Cuts every complete frame off the front of `buf` and returns the
/// payloads in the order in which they arrived. A partial frame stays in
/// `buf` for the bytes that are still to come.
pub fn split_frames(buf: &mut Vec<u8>) -> (frames: Vec<Vec<u8>>)
    ensures
        contents(frames@) == frames_of(old(buf)@),
        final(buf)@ == remainder_of(old(buf)@),
{
    let ghost start = buf@;
    let mut frames: Vec<Vec<u8>> = Vec::new();
    assert(contents(frames@) =~= Seq::<Seq<u8>>::empty());
    loop
        invariant
            frames_of(start) == contents(frames@) + frames_of(buf@),
            remainder_of(start) == remainder_of(buf@),
        ensures
            frames_of(start) == contents(frames@),
            remainder_of(start) == buf@,
        decreases buf@.len(),
    {
        let ghost before = buf@;
        let ghost had = frames@;
        match next_frame(buf) {
            Some(payload) => {
                frames.push(payload);
                assert(contents(frames@) =~= contents(had).push(first_payload(before)));
                assert(frames_of(start) =~= contents(frames@) + frames_of(buf@));
            },
            None => {
                assert(frames_of(start) =~= contents(frames@));
                break ;
            },
        }
    }
    frames
}

/// The header that `encoding` writes declares the payload's length, and
/// its closing guard closes the frame: a buffer that starts with the
/// encoding of `payload` starts with a frame whose payload it is.
pub proof fn lemma_encoding_starts(payload: Seq<u8>, rest: Seq<u8>)
    requires
        payload.len() <= MAX_PAYLOAD,
    ensures
        has_frame(encoding(payload) + rest),
        first_payload(encoding(payload) + rest) == payload,
        after_first(encoding(payload) + rest) == rest,
{
    let b = encoding(payload) + rest;
    let n = payload.len() as int;
    assert(b[1] == (n / 256) as u8);
    assert(b[2] == (n % 256) as u8);
    assert(declared_len(b) == n);
    assert(b[n + 3] == END_GUARD);
    assert(0x17u8 & 0xE8 == 0) by (bit_vector);
    assert(first_payload(b) =~= payload);
    assert(after_first(b) =~= rest);
}

/// Framing round trip: the frames of any payloads, written one after
/// another, are cut apart into exactly those payloads, and nothing is
/// left over.
pub proof fn law_round_trip(payloads: Seq<Seq<u8>>)
    requires
        forall|i: int| 0 <= i < payloads.len() ==> (#[trigger] payloads[i]).len() <= MAX_PAYLOAD,
    ensures
        frames_of(wire_of(payloads)) == payloads,
        remainder_of(wire_of(payloads)) == Seq::<u8>::empty(),
    decreases payloads.len(),
{
    if payloads.len() == 0 {
        assert(frames_of(wire_of(payloads)) =~= payloads);
    } else {
        let tail = payloads.drop_first();
        assert forall|i: int| 0 <= i < tail.len() implies (#[trigger] tail[i]).len()
            <= MAX_PAYLOAD by {
            assert(tail[i] == payloads[i + 1]);
        }
        law_round_trip(tail);
        lemma_encoding_starts(payloads[0], wire_of(tail));
        assert(frames_of(wire_of(payloads)) =~= payloads);
    }
}

/// Cutting frames is idempotent: what one pass leaves behind holds no
/// complete frame, so a second pass yields nothing and leaves the same
/// bytes.
pub proof fn law_split_idempotent(b: Seq<u8>)
    ensures
        frames_of(remainder_of(b)) == Seq::<Seq<u8>>::empty(),
        remainder_of(remainder_of(b)) == remainder_of(b),
    decreases b.len(),
{
    if has_frame(b) {
        law_split_idempotent(after_first(b));
    }
}

/// Cutting frames does not depend on how the bytes were chunked: cutting
/// `a`, then cutting what was left together with the later bytes `b`,
/// yields what cutting `a + b` at once yields.
pub proof fn law_chunking(a: Seq<u8>, b: Seq<u8>)
    ensures
        frames_of(a + b) == frames_of(a) + frames_of(remainder_of(a) + b),
        remainder_of(a + b) == remainder_of(remainder_of(a) + b),
    decreases a.len(),
{
    if has_frame(a) {
        let whole = a + b;
        assert(whole[1] == a[1] && whole[2] == a[2]);
        assert(whole[declared_len(a) + 3] == a[declared_len(a) + 3]);
        assert(has_frame(whole));
        assert(first_payload(whole) =~= first_payload(a));
        assert(after_first(whole) =~= after_first(a) + b);
        law_chunking(after_first(a), b);
        assert(frames_of(whole) =~= frames_of(a) + frames_of(remainder_of(a) + b));
    } else {
        assert(frames_of(a + b) =~= frames_of(a) + frames_of(remainder_of(a) + b));
    }
}

/// The frames cut from the bytes received so far are a prefix of the
/// frames cut from those bytes and any that follow.
pub proof fn law_frames_prefix(a: Seq<u8>, b: Seq<u8>)
    ensures
        frames_of(a).is_prefix_of(frames_of(a + b)),
{
    law_chunking(a, b);
}

} // verus!
