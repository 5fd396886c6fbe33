//! Frame codec interface.
//!
//! A codec capability turns frames (opaque byte payloads) into wire bytes
//! and back. The runtime only relies on the interface: an encoder appends
//! the wire bytes of one frame to a buffer, and a decoder recognises,
//! extracts and removes one complete frame from the front of a buffer. A
//! simple length-prefixed codec is provided and proved to round-trip.

use vstd::arithmetic::div_mod::{
    lemma_div_denominator,
    lemma_div_is_ordered,
    lemma_fundamental_div_mod,
    lemma_small_mod,
};
use vstd::prelude::*;

verus! {

/// Error from encoding or decoding a frame.
#[derive(Clone, Copy, Debug, PartialEq, Eq, Structural)]
pub enum CodecError {
    /// The frame is too large for the wire format's length field.
    Oversize,
    /// The stream ended in the middle of a frame.
    Truncated,
}

/// Encoder half of a codec capability.
pub trait FrameEncoder: Sized {
    /// The wire bytes of one frame.
    spec fn encoding(&self, f: Seq<u8>) -> Seq<u8>;

    /// Appends the encoding of `item` to `buf`; on error the buffer is
    /// left untouched.
    fn encode(&mut self, item: &Vec<u8>, buf: &mut Vec<u8>) -> (r: Result<(), CodecError>)
        ensures
            (match r {
                Ok(()) => final(buf)@ == old(buf)@ + old(self).encoding(item@),
                Err(_) => final(buf)@ == old(buf)@,
            }),
    ;
}

/// Decoder half of a codec capability. The framing rule is a fixed
/// property of the decoder type: which byte sequences start with a
/// complete frame, what that frame is, and how many bytes it occupies.
pub trait FrameDecoder: Sized {
    /// Whether a complete frame sits at the front of `b`.
    spec fn has_frame(b: Seq<u8>) -> bool;

    /// The frame at the front of `b`.
    spec fn front_frame(b: Seq<u8>) -> Seq<u8>;

    /// How many bytes that frame occupies at the front of `b`.
    spec fn frame_size(b: Seq<u8>) -> int;

    /// A complete frame occupies at least one byte and no more than the
    /// whole buffer.
    proof fn lemma_frame_size(b: Seq<u8>)
        requires
            Self::has_frame(b),
        ensures
            0 < Self::frame_size(b) <= b.len(),
    ;

    /// Framing is decided by the front of the stream alone: extending a
    /// buffer that already starts with a complete frame changes nothing
    /// about that frame.
    proof fn lemma_frame_prefix(b: Seq<u8>, c: Seq<u8>)
        requires
            Self::has_frame(b),
            b.len() <= c.len(),
            c.take(b.len() as int) == b,
        ensures
            Self::has_frame(c),
            Self::frame_size(c) == Self::frame_size(b),
            Self::front_frame(c) == Self::front_frame(b),
    ;

    /// Attempts to decode one frame from the front of `buf`, removing its
    /// bytes; `Ok(None)` means the buffered bytes do not yet hold a
    /// complete frame, and leaves them untouched for a later attempt.
    fn decode(&mut self, buf: &mut Vec<u8>) -> (r: Result<Option<Vec<u8>>, CodecError>)
        ensures
            (match r {
                Ok(Some(f)) => Self::has_frame(old(buf)@) && f@ == Self::front_frame(old(buf)@)
                    && final(buf)@ == old(buf)@.skip(Self::frame_size(old(buf)@)),
                Ok(None) => final(buf)@ == old(buf)@ && !Self::has_frame(old(buf)@),
                Err(_) => final(buf)@ == old(buf)@,
            }),
    ;

    /// Like `decode`, for a stream known to have ended: no further bytes
    /// will arrive, so leftover bytes that do not hold a complete frame
    /// are an error rather than something to wait on.
    fn decode_eof(&mut self, buf: &mut Vec<u8>) -> (r: Result<Option<Vec<u8>>, CodecError>)
        ensures
            (match r {
                Ok(Some(f)) => Self::has_frame(old(buf)@) && f@ == Self::front_frame(old(buf)@)
                    && final(buf)@ == old(buf)@.skip(Self::frame_size(old(buf)@)),
                Ok(None) => final(buf)@ == old(buf)@ && !Self::has_frame(old(buf)@),
                Err(_) => final(buf)@ == old(buf)@,
            }),
    ;
}

/// The payload length announced by the first four bytes of `b`, read
/// little-endian.
pub open spec fn payload_len(b: Seq<u8>) -> int
    recommends
        b.len() >= 4,
{
    b[0] + 256 * b[1] + 65536 * b[2] + 16777216 * b[3]
}

/// Whether `b` starts with a complete length-prefixed frame.
pub open spec fn length_has_frame(b: Seq<u8>) -> bool {
    b.len() >= 4 && b.len() - 4 >= payload_len(b)
}

/// The bytes that frame occupies: the prefix plus the payload.
pub open spec fn length_frame_size(b: Seq<u8>) -> int {
    4 + payload_len(b)
}

/// The payload of the frame at the front of `b`.
pub open spec fn length_front_frame(b: Seq<u8>) -> Seq<u8> {
    b.subrange(4, 4 + payload_len(b))
}

/// The wire bytes of one frame: a four-byte little-endian length prefix,
/// then the payload.
pub open spec fn frame_encoding(f: Seq<u8>) -> Seq<u8> {
    seq![
        (f.len() % 256) as u8,
        ((f.len() / 256) % 256) as u8,
        ((f.len() / 65536) % 256) as u8,
        ((f.len() / 16777216) % 256) as u8,
    ] + f
}

/// A value below two to the thirty-second is recovered exactly from its
/// four little-endian base-256 digits.
proof fn lemma_le32(n: int)
    requires
        0 <= n <= 0xFFFF_FFFF,
    ensures
        (n % 256) + 256 * ((n / 256) % 256) + 65536 * ((n / 65536) % 256) + 16777216 * ((n
            / 16777216) % 256) == n,
{
    lemma_fundamental_div_mod(n, 256);
    lemma_fundamental_div_mod(n / 256, 256);
    lemma_div_denominator(n, 256, 256);
    lemma_fundamental_div_mod(n / 65536, 256);
    lemma_div_denominator(n, 65536, 256);
    lemma_div_is_ordered(n, 0xFFFF_FFFF, 16777216);
    lemma_div_is_ordered(0, n, 16777216);
    assert(0xFFFF_FFFFint / 16777216 == 255) by (nonlinear_arith);
    lemma_small_mod((n / 16777216) as nat, 256);
}

/// Law: framing round-trips. The encoding of any frame, followed by any
/// rest of the stream, starts with a complete frame that decodes back to
/// exactly that frame and occupies exactly the encoding's bytes, leaving
/// the rest of the stream in place.
pub proof fn lemma_round_trip(f: Seq<u8>, rest: Seq<u8>)
    requires
        f.len() <= 0xFFFF_FFFF,
    ensures
        ({
            let b = frame_encoding(f) + rest;
            &&& length_has_frame(b)
            &&& length_front_frame(b) == f
            &&& length_frame_size(b) == frame_encoding(f).len()
            &&& b.skip(length_frame_size(b)) == rest
        }),
{
    let e = frame_encoding(f);
    let b = e + rest;
    let n = f.len() as int;
    assert(b[0] == (n % 256) as u8);
    assert(b[1] == ((n / 256) % 256) as u8);
    assert(b[2] == ((n / 65536) % 256) as u8);
    assert(b[3] == ((n / 16777216) % 256) as u8);
    lemma_le32(n);
    assert(payload_len(b) == n);
    assert(b.subrange(4, 4 + n) =~= f);
    assert(b.skip(4 + n) =~= rest);
}

/// The wire bytes of a whole frame sequence, in order.
pub open spec fn stream_encoding(frames: Seq<Seq<u8>>) -> Seq<u8>
    decreases frames.len(),
{
    if frames.len() == 0 {
        Seq::empty()
    } else {
        frame_encoding(frames[0]) + stream_encoding(frames.skip(1))
    }
}

/// Law: a byte stream holding the encodings of a sequence of frames
/// round-trips with no loss, duplication or reordering: while frames
/// remain, the stream starts with a complete frame, that frame is the
/// first of the sequence, and consuming it leaves exactly the encoding of
/// the remaining frames; the stream of no frames is empty and holds no
/// frame.
pub proof fn lemma_stream_round_trip(frames: Seq<Seq<u8>>)
    requires
        forall|i: int| 0 <= i < frames.len() ==> (#[trigger] frames[i]).len() <= 0xFFFF_FFFF,
    ensures
        frames.len() == 0 ==> stream_encoding(frames) == Seq::<u8>::empty()
            && !length_has_frame(stream_encoding(frames)),
        frames.len() > 0 ==> ({
            let b = stream_encoding(frames);
            &&& length_has_frame(b)
            &&& length_front_frame(b) == frames[0]
            &&& b.skip(length_frame_size(b)) == stream_encoding(frames.skip(1))
        }),
{
    if frames.len() > 0 {
        lemma_round_trip(frames[0], stream_encoding(frames.skip(1)));
    }
}

/// A simple length-prefixed frame codec: four little-endian length bytes,
/// then the payload, with nothing else on the wire.
#[derive(Clone, Copy)]
pub struct LengthCodec {}

impl LengthCodec {
    /// The codec; it carries no state.
    pub fn new() -> (r: LengthCodec) {
        LengthCodec {}
    }
}

impl FrameEncoder for LengthCodec {
    open spec fn encoding(&self, f: Seq<u8>) -> Seq<u8> {
        frame_encoding(f)
    }

    fn encode(&mut self, item: &Vec<u8>, buf: &mut Vec<u8>) -> (r: Result<(), CodecError>) {
        if item.len() > 0xFFFF_FFFFusize {
            return Err(CodecError::Oversize);
        }
        let l = item.len();
        buf.push((l % 256) as u8);
        buf.push(((l / 256) % 256) as u8);
        buf.push(((l / 65536) % 256) as u8);
        buf.push(((l / 16777216) % 256) as u8);
        let ghost mid = buf@;
        let mut k: usize = 0;
        while k < item.len()
            invariant
                k <= item@.len(),
                buf@ == mid + item@.take(k as int),
            decreases item@.len() - k,
        {
            buf.push(item[k]);
            proof {
                assert(mid + item@.take(k as int) + seq![item@[k as int]] =~= mid + item@.take(
                    k as int + 1,
                ));
            }
            k = k + 1;
        }
        proof {
            assert(buf@ =~= old(buf)@ + frame_encoding(item@));
        }
        Ok(())
    }
}

impl FrameDecoder for LengthCodec {
    open spec fn has_frame(b: Seq<u8>) -> bool {
        length_has_frame(b)
    }

    open spec fn front_frame(b: Seq<u8>) -> Seq<u8> {
        length_front_frame(b)
    }

    open spec fn frame_size(b: Seq<u8>) -> int {
        length_frame_size(b)
    }

    proof fn lemma_frame_size(b: Seq<u8>) {
    }

    proof fn lemma_frame_prefix(b: Seq<u8>, c: Seq<u8>) {
        assert forall|i: int| 0 <= i < b.len() implies c[i] == b[i] by {
            assert(c.take(b.len() as int)[i] == c[i]);
        }
        assert(payload_len(c) == payload_len(b));
        assert(length_front_frame(c) =~= length_front_frame(b));
    }

    fn decode(&mut self, buf: &mut Vec<u8>) -> (r: Result<Option<Vec<u8>>, CodecError>) {
        if buf.len() < 4 {
            return Ok(None);
        }
        let l: u64 = buf[0] as u64 + 256 * (buf[1] as u64) + 65536 * (buf[2] as u64) + 16777216
            * (buf[3] as u64);
        if ((buf.len() - 4) as u64) < l {
            return Ok(None);
        }
        let n = l as usize;
        let mut f: Vec<u8> = Vec::new();
        let mut k: usize = 0;
        while k < n
            invariant
                k <= n,
                buf@.len() <= usize::MAX,
                n + 4 <= buf@.len(),
                buf@ == old(buf)@,
                f@ == buf@.subrange(4, 4 + k as int),
            decreases n - k,
        {
            f.push(buf[4 + k]);
            proof {
                assert(buf@.subrange(4, 4 + k as int) + seq![buf@[4 + k]] =~= buf@.subrange(
                    4,
                    4 + k as int + 1,
                ));
            }
            k = k + 1;
        }
        let mut rest: Vec<u8> = Vec::new();
        let mut j: usize = 4 + n;
        while j < buf.len()
            invariant
                buf@.len() <= usize::MAX,
                4 + n <= j <= buf@.len(),
                buf@ == old(buf)@,
                rest@ == buf@.subrange(4 + n as int, j as int),
            decreases buf@.len() - j,
        {
            rest.push(buf[j]);
            proof {
                assert(buf@.subrange(4 + n as int, j as int) + seq![buf@[j as int]]
                    =~= buf@.subrange(4 + n as int, j as int + 1));
            }
            j = j + 1;
        }
        proof {
            assert(f@ =~= length_front_frame(old(buf)@));
            assert(rest@ =~= old(buf)@.skip(length_frame_size(old(buf)@)));
        }
        *buf = rest;
        Ok(Some(f))
    }

    fn decode_eof(&mut self, buf: &mut Vec<u8>) -> (r: Result<Option<Vec<u8>>, CodecError>) {
        if buf.len() == 0 {
            return Ok(None);
        }
        match self.decode(buf) {
            Ok(Some(f)) => Ok(Some(f)),
            Ok(None) => Err(CodecError::Truncated),
            Err(e) => Err(e),
        }
    }
}

} // verus!
