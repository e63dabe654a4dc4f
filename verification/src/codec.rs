//! The streaming codec: frames in and out of a byte buffer.
//!
//! The buffer is a `bytes::BytesMut`.  What the buffer does is taken on trust
//! from the `bytes` crate, through the three small functions at the top of
//! this module; what the codec does with it is proved.

use vstd::prelude::*;
use bytes::{Buf, BufMut, BytesMut};
use crate::error::{ErrorView, ProtocolError};
use crate::frame::{spec_u32_from_be, Frame, FrameView};
use crate::parser::{parse_frame_within, spec_decode_frame};
use crate::roundtrip::lemma_decode_frame_consumed;
use crate::serialize::{spec_encode_body, spec_encode_frame};
use crate::varint::taken;

verus! {

/// Makes `bytes::BytesMut` known to the verifier, as a type whose inside it
/// does not see.
#[verifier::external_type_specification]
#[verifier::external_body]
pub struct ExBytesMut(BytesMut);

/// The bytes that a buffer holds, oldest first.
pub uninterp spec fn buffer_bytes(buf: BytesMut) -> Seq<u8>;

/// `BytesMut::new`.
///
/// Trusted: a new buffer is empty.
#[verifier::external_body]
pub(crate) fn buffer_new() -> (buf: BytesMut)
    ensures
        buffer_bytes(buf) == Seq::<u8>::empty(),
{
    BytesMut::new()
}

/// `BytesMut`'s `Deref` to a byte slice.
///
/// Trusted: the slice is the whole content of the buffer.
#[verifier::external_body]
pub(crate) fn buffer_as_slice(buf: &BytesMut) -> (s: &[u8])
    ensures
        s@ == buffer_bytes(*buf),
{
    &buf[..]
}

/// `Buf::advance` on a `BytesMut`.
///
/// Trusted: the first `cnt` bytes leave the buffer and the others stay in
/// order.  The call panics where `cnt` exceeds the length, which the
/// precondition rules out.
#[verifier::external_body]
pub(crate) fn buffer_advance(buf: &mut BytesMut, cnt: usize)
    requires
        cnt <= buffer_bytes(*old(buf)).len(),
    ensures
        buffer_bytes(*final(buf)) == buffer_bytes(*old(buf)).skip(cnt as int),
{
    buf.advance(cnt);
}

/// `BufMut::put_slice` on a `BytesMut`.
///
/// Trusted: the bytes of `src` are added at the end, after growing the buffer
/// as needed.  No allocation holds more than `isize::MAX` bytes, and the call
/// panics where the new length would; the precondition rules that out.
#[verifier::external_body]
pub(crate) fn buffer_put_slice(buf: &mut BytesMut, src: &[u8])
    requires
        buffer_bytes(*old(buf)).len() + src@.len() <= isize::MAX,
    ensures
        buffer_bytes(*final(buf)) == buffer_bytes(*old(buf)) + src@,
{
    buf.put_slice(src);
}

/// What one call of [`SpopCodec::decode`] does to a buffer that holds `s`:
/// how many bytes leave it.  A frame that was read leaves, and so does a frame
/// that carries ABORT; otherwise the buffer stays as it is.
pub open spec fn spec_decode_advance(s: Seq<u8>, limit: u32) -> nat {
    match spec_decode_frame(s, limit) {
        Ok((_, n)) => n,
        Err(ErrorView::AbortRequested { .. }) => (4 + spec_u32_from_be(s)) as nat,
        Err(_) => 0,
    }
}

/// The frame can be added to a buffer that holds `held` bytes by a codec with
/// the given limit: its body is within the limit, and the buffer stays
/// within what a buffer can hold.
pub open spec fn spec_fits(f: FrameView, limit: u32, held: nat) -> bool {
    spec_encode_body(f).len() <= limit && held + spec_encode_frame(f).len() <= isize::MAX
}

/// Reads frames from, and writes frames to, a byte buffer.
#[derive(Debug, Clone, Copy, PartialEq, Eq)]
pub struct SpopCodec {
    /// The longest frame body that is accepted or produced.
    pub max_frame_size: u32,
}

impl SpopCodec {
    /// A codec that accepts frames of any length that the prefix can state.
    pub fn new() -> (res: Self)
        ensures
            res.max_frame_size == u32::MAX,
    {
        SpopCodec { max_frame_size: u32::MAX }
    }

    /// A codec that accepts and produces frame bodies of up to
    /// `max_frame_size` bytes.
    pub fn with_max_frame_size(max_frame_size: u32) -> (res: Self)
        ensures
            res.max_frame_size == max_frame_size,
    {
        SpopCodec { max_frame_size }
    }

    /// Takes one frame off the front of `src`.
    ///
    /// `Ok(None)` means that the frame is not all there yet, and `src` is then
    /// left exactly as it was.  A frame that is read leaves the buffer.  A
    /// frame that carries ABORT leaves the buffer too and is reported as the
    /// error `AbortRequested`.  Any other error leaves `src` as it was.
    pub fn decode(&self, src: &mut BytesMut) -> (res: Result<Option<Frame>, ProtocolError>)
        ensures
            buffer_bytes(*final(src)) == buffer_bytes(*old(src)).skip(
                spec_decode_advance(buffer_bytes(*old(src)), self.max_frame_size) as int,
            ),
            match res {
                Ok(Some(frame)) => spec_decode_frame(
                    buffer_bytes(*old(src)),
                    self.max_frame_size,
                ) matches Ok((f, _)) && f == frame@,
                Ok(None) => spec_decode_frame(buffer_bytes(*old(src)), self.max_frame_size) == Err::<
                    (FrameView, nat),
                    ErrorView,
                >(ErrorView::NeedMore) && buffer_bytes(*final(src)) == buffer_bytes(*old(src)),
                Err(e) => e@ != ErrorView::NeedMore && spec_decode_frame(
                    buffer_bytes(*old(src)),
                    self.max_frame_size,
                ) == Err::<(FrameView, nat), ErrorView>(e@),
            },
    {
        let ghost before = buffer_bytes(*src);
        proof {
            lemma_decode_frame_consumed(before, self.max_frame_size);
            assert(before.skip(0) =~= before);
        }
        let input = buffer_as_slice(src);
        let initial_len = input.len();
        match parse_frame_within(input, self.max_frame_size) {
            Ok((remaining, frame)) => {
                let parsed_len = initial_len - remaining.len();
                buffer_advance(src, parsed_len);
                Ok(Some(frame))
            },
            Err(ProtocolError::NeedMore) => Ok(None),
            Err(ProtocolError::AbortRequested { stream_id, frame_id }) => {
                let frame_length = crate::frame::u32_from_be_bytes(input) as usize;
                buffer_advance(src, 4 + frame_length);
                Err(ProtocolError::AbortRequested { stream_id, frame_id })
            },
            Err(e) => Err(e),
        }
    }

    /// Adds the wire form of `frame` at the end of `dst`.
    ///
    /// The frame is refused, and `dst` left as it was, if its body is longer
    /// than the codec allows or if `dst` cannot grow by the length of the
    /// frame (no buffer holds more than `isize::MAX` bytes).
    pub fn encode(&self, frame: &Frame, dst: &mut BytesMut) -> (res: Result<(), ProtocolError>)
        ensures
            match res {
                Ok(()) => spec_fits(frame@, self.max_frame_size, buffer_bytes(*old(dst)).len())
                    && buffer_bytes(*final(dst)) == buffer_bytes(*old(dst)) + spec_encode_frame(
                    frame@,
                ),
                Err(e) => e == ProtocolError::FrameTooLarge && !spec_fits(
                    frame@,
                    self.max_frame_size,
                    buffer_bytes(*old(dst)).len(),
                ) && buffer_bytes(*final(dst)) == buffer_bytes(*old(dst)),
            },
    {
        match frame.serialize_within(self.max_frame_size) {
            Ok(serialized) => {
                let held = buffer_as_slice(dst).len();
                if held > isize::MAX as usize || serialized.len() > isize::MAX as usize - held {
                    return Err(ProtocolError::FrameTooLarge);
                }
                buffer_put_slice(dst, serialized.as_slice());
                Ok(())
            },
            Err(e) => Err(e),
        }
    }
}

} // verus!
