//! Frame codec and session layer for the Stream Processing Offload Protocol
//! (SPOP), the length-prefixed binary protocol spoken between a load balancer
//! and an external processing agent.
//!
//! Every function in this crate carries a contract that is checked by Verus.
//! The wire format is stated once, as mathematical functions over byte
//! sequences, and the executable encoders and decoders are proved against it.
//!
//! * [`varint`] and [`types`]: variable-length integers and typed values.
//! * [`kv`], [`actions`], [`frame`]: the data model, up to the well-formed
//!   [`Frame`].
//! * [`serialize`] and [`parser`]: the wire form and its reading;
//!   [`roundtrip`] and [`rejection`] hold the laws that tie the two together.
//! * [`codec`]: frames in and out of a byte buffer.
//! * [`frames`]: the frame kinds as typed records, versions, capabilities.
//! * [`session`]: the handshake and the NOTIFY/ACK exchange as a state
//!   machine.
//! * [`text`], [`error`]: helpers for text, and the error taxonomy.
//!
//! What is taken on trust is little and marked as such: a handful of calls
//! into the standard library for text, the `bytes` buffer, and the `semver`
//! parser.

use vstd::prelude::*;

pub mod actions;
pub mod codec;
pub mod error;
pub mod frame;
pub mod frames;
pub mod kv;
pub mod parser;
pub mod rejection;
pub mod roundtrip;
pub mod serialize;
pub mod session;
pub mod text;
pub mod types;
pub mod varint;

pub use crate::actions::{Action, VarScope};
pub use crate::codec::SpopCodec;
pub use crate::error::ProtocolError;
pub use crate::frame::{Frame, FrameFlags, FramePayload, FrameType, Metadata};
pub use crate::types::TypedData;
pub use crate::varint::{decode_varint, encode_varint};

use crate::error::ErrorView;
use crate::frame::{spec_validate, FrameView, PayloadView};
use crate::serialize::{spec_encode_body, spec_encode_frame};

verus! {

/// Anything that can be sent as a frame: it names its type, its metadata and
/// its payload.
pub trait SpopFrame {
    /// The type of the frame.
    spec fn spec_frame_type(&self) -> FrameType;

    /// The metadata of the frame.
    spec fn spec_metadata(&self) -> Metadata;

    /// The payload of the frame.
    spec fn spec_payload(&self) -> PayloadView;

    fn frame_type(&self) -> (res: &FrameType)
        ensures
            *res == self.spec_frame_type(),
    ;

    fn metadata(&self) -> (res: Metadata)
        ensures
            res == self.spec_metadata(),
    ;

    fn payload(&self) -> (res: FramePayload)
        ensures
            res@ == self.spec_payload(),
    ;
}

/// The frame that the three parts of `x` describe.
pub open spec fn spec_frame_of<T: SpopFrame>(x: &T) -> FrameView {
    FrameView {
        frame_type: x.spec_frame_type(),
        metadata: x.spec_metadata(),
        payload: x.spec_payload(),
    }
}

/// Why the frame `f` cannot be written, if it cannot: what is wrong with its
/// parts, or else that its body is too long for the length prefix.
pub open spec fn spec_serialize_error(f: FrameView) -> Option<ErrorView> {
    if spec_validate(f) is Some {
        spec_validate(f)
    } else if spec_encode_body(f).len() > u32::MAX {
        Some(ErrorView::FrameTooLarge)
    } else {
        None
    }
}

/// Serialization for everything that can be sent as a frame.
pub trait SpopFrameExt: SpopFrame + Sized {
    /// The wire form of the frame: the length of the body in four bytes, then
    /// the type, the metadata and the payload.
    fn serialize(&self) -> (res: Result<Vec<u8>, ProtocolError>)
        ensures
            match res {
                Ok(out) => spec_serialize_error(spec_frame_of(self)) is None && out@
                    == spec_encode_frame(spec_frame_of(self)),
                Err(e) => spec_serialize_error(spec_frame_of(self)) == Some(e@),
            },
    {
        let frame_type = *self.frame_type();
        match Frame::new(frame_type, self.metadata(), self.payload()) {
            Ok(frame) => frame.serialize(),
            Err(e) => Err(e),
        }
    }
}

impl<T: SpopFrame> SpopFrameExt for T {

}

} // verus!
