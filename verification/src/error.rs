//! The error taxonomy shared by the codec and the session layer.

use vstd::prelude::*;
use vstd::string::StringExecFns;
use crate::frame::FrameType;
use crate::session::SessionState;
use crate::text::str_eq;

verus! {

/// Everything that can go wrong while decoding, encoding or sequencing frames.
#[derive(Debug, Clone, PartialEq, Eq)]
pub enum ProtocolError {
    /// The input ends before the value does; the caller may retry with more bytes.
    NeedMore,
    /// A field runs past the end of the frame body that was announced.
    Truncated,
    /// A variable-length integer does not terminate within ten bytes, or its
    /// value does not fit in 64 bits.
    VarintOverflow,
    /// The frame type byte is none of the six known identifiers.
    UnknownFrameType(u8),
    /// FIN is missing or a reserved flag bit is set.
    InvalidFlags,
    /// The frame carries ABORT: processing of the identified exchange must be cancelled.
    AbortRequested { stream_id: u64, frame_id: u64 },
    /// A handshake or disconnect frame carries a non-zero stream or frame identifier.
    NonZeroIds,
    /// The type nibble of a typed value is in the reserved range 10..=15.
    UnknownValueType(u8),
    /// A name, or a string under strict checking, is not valid UTF-8.
    InvalidUtf8,
    /// A key occurs twice in one key/value list.
    DuplicateKey(String),
    /// A key that the frame kind requires is absent.
    MissingRequiredKey(String),
    /// A required key is present with a value of the wrong type.
    WrongTypeForKey(String),
    /// The action type byte is neither set-var nor unset-var.
    UnknownActionType(u8),
    /// The argument count of an action does not match its type.
    ActionArgCount { action_type: u8, nb_args: u8 },
    /// The variable scope byte is outside 0..=4.
    UnknownScope(u8),
    /// The payload shape does not belong to the frame type.
    PayloadMismatch,
    /// A message carries more arguments than its one-byte count can express.
    TooManyArgs,
    /// The frame is longer than the size limit in force.
    FrameTooLarge,
    /// An announced protocol version is not a version number.
    InvalidVersion(String),
    /// A peer announces a maximum frame size below the 256 bytes that the
    /// protocol demands.
    InvalidFrameSize(u32),
    /// No protocol version is supported by both peers.
    VersionMismatch,
    /// A frame arrived that the session state has no place for.
    UnexpectedFrame(SessionState, FrameType),
    /// The handler of a NOTIFY reported a failure.
    HandlerFailed,
}

/// Mathematical counterpart of [`ProtocolError`]: strings are character sequences.
pub enum ErrorView {
    NeedMore,
    Truncated,
    VarintOverflow,
    UnknownFrameType(u8),
    InvalidFlags,
    AbortRequested { stream_id: u64, frame_id: u64 },
    NonZeroIds,
    UnknownValueType(u8),
    InvalidUtf8,
    DuplicateKey(Seq<char>),
    MissingRequiredKey(Seq<char>),
    WrongTypeForKey(Seq<char>),
    UnknownActionType(u8),
    ActionArgCount { action_type: u8, nb_args: u8 },
    UnknownScope(u8),
    PayloadMismatch,
    TooManyArgs,
    FrameTooLarge,
    InvalidVersion(Seq<char>),
    InvalidFrameSize(u32),
    VersionMismatch,
    UnexpectedFrame(SessionState, FrameType),
    HandlerFailed,
}

impl View for ProtocolError {
    type V = ErrorView;

    open spec fn view(&self) -> ErrorView {
        match *self {
            ProtocolError::NeedMore => ErrorView::NeedMore,
            ProtocolError::Truncated => ErrorView::Truncated,
            ProtocolError::VarintOverflow => ErrorView::VarintOverflow,
            ProtocolError::UnknownFrameType(t) => ErrorView::UnknownFrameType(t),
            ProtocolError::InvalidFlags => ErrorView::InvalidFlags,
            ProtocolError::AbortRequested { stream_id, frame_id } => ErrorView::AbortRequested {
                stream_id,
                frame_id,
            },
            ProtocolError::NonZeroIds => ErrorView::NonZeroIds,
            ProtocolError::UnknownValueType(t) => ErrorView::UnknownValueType(t),
            ProtocolError::InvalidUtf8 => ErrorView::InvalidUtf8,
            ProtocolError::DuplicateKey(k) => ErrorView::DuplicateKey(k@),
            ProtocolError::MissingRequiredKey(k) => ErrorView::MissingRequiredKey(k@),
            ProtocolError::WrongTypeForKey(k) => ErrorView::WrongTypeForKey(k@),
            ProtocolError::UnknownActionType(t) => ErrorView::UnknownActionType(t),
            ProtocolError::ActionArgCount { action_type, nb_args } => ErrorView::ActionArgCount {
                action_type,
                nb_args,
            },
            ProtocolError::UnknownScope(s) => ErrorView::UnknownScope(s),
            ProtocolError::PayloadMismatch => ErrorView::PayloadMismatch,
            ProtocolError::TooManyArgs => ErrorView::TooManyArgs,
            ProtocolError::FrameTooLarge => ErrorView::FrameTooLarge,
            ProtocolError::InvalidVersion(t) => ErrorView::InvalidVersion(t@),
            ProtocolError::InvalidFrameSize(n) => ErrorView::InvalidFrameSize(n),
            ProtocolError::VersionMismatch => ErrorView::VersionMismatch,
            ProtocolError::UnexpectedFrame(s, t) => ErrorView::UnexpectedFrame(s, t),
            ProtocolError::HandlerFailed => ErrorView::HandlerFailed,
        }
    }
}

/// Status code of a disconnect frame: no error.
pub const STATUS_NORMAL: u32 = 0;

/// Status code of a disconnect frame: a frame is too big.
pub const STATUS_TOO_BIG: u32 = 3;

/// Status code of a disconnect frame: an invalid frame was received.
pub const STATUS_INVALID: u32 = 4;

/// Status code of a disconnect frame: the hello frame names no version.
pub const STATUS_NO_VERSION: u32 = 5;

/// Status code of a disconnect frame: the hello frame names no maximum frame size.
pub const STATUS_NO_FRAME_SIZE: u32 = 6;

/// Status code of a disconnect frame: the hello frame names no capabilities.
pub const STATUS_NO_CAPABILITIES: u32 = 7;

/// Status code of a disconnect frame: no announced version is supported.
pub const STATUS_BAD_VERSION: u32 = 8;

/// Status code of a disconnect frame: the maximum frame size is out of range.
pub const STATUS_BAD_FRAME_SIZE: u32 = 9;

/// Status code of a disconnect frame: frames are interlaced without pipelining.
pub const STATUS_INTERLACED: u32 = 11;

/// Status code of a disconnect frame: an unknown error occurred.
pub const STATUS_UNKNOWN: u32 = 99;

/// The status code with which a disconnect frame reports the error.
pub open spec fn spec_status_of(e: ErrorView) -> u32 {
    match e {
        ErrorView::FrameTooLarge => STATUS_TOO_BIG,
        ErrorView::MissingRequiredKey(key) => if key == "supported-versions"@ {
            STATUS_NO_VERSION
        } else if key == "max-frame-size"@ {
            STATUS_NO_FRAME_SIZE
        } else if key == "capabilities"@ {
            STATUS_NO_CAPABILITIES
        } else {
            STATUS_INVALID
        },
        ErrorView::InvalidVersion(_) => STATUS_BAD_VERSION,
        ErrorView::VersionMismatch => STATUS_BAD_VERSION,
        ErrorView::InvalidFrameSize(_) => STATUS_BAD_FRAME_SIZE,
        ErrorView::UnexpectedFrame(SessionState::Established, FrameType::Notify) => STATUS_INTERLACED,
        ErrorView::HandlerFailed => STATUS_UNKNOWN,
        _ => STATUS_INVALID,
    }
}

/// The text with which a disconnect frame explains the error.
pub open spec fn spec_describe(e: ErrorView) -> Seq<char> {
    match e {
        ErrorView::NeedMore => "more bytes are needed"@,
        ErrorView::Truncated => "a field runs past the end of the frame"@,
        ErrorView::VarintOverflow => "a variable-length integer is too long"@,
        ErrorView::UnknownFrameType(_) => "unknown frame type"@,
        ErrorView::InvalidFlags => "FIN is missing or a reserved flag is set"@,
        ErrorView::AbortRequested { .. } => "the frame carries ABORT"@,
        ErrorView::NonZeroIds => "stream and frame identifiers must be zero"@,
        ErrorView::UnknownValueType(_) => "unknown value type"@,
        ErrorView::InvalidUtf8 => "a name is not valid UTF-8"@,
        ErrorView::DuplicateKey(key) => "duplicate key: "@ + key,
        ErrorView::MissingRequiredKey(key) => "missing required key: "@ + key,
        ErrorView::WrongTypeForKey(key) => "wrong type for key: "@ + key,
        ErrorView::UnknownActionType(_) => "unknown action type"@,
        ErrorView::ActionArgCount { .. } => "wrong number of arguments for action"@,
        ErrorView::UnknownScope(_) => "unknown variable scope"@,
        ErrorView::PayloadMismatch => "the payload does not belong to the frame type"@,
        ErrorView::TooManyArgs => "a message has too many arguments"@,
        ErrorView::FrameTooLarge => "frame is too big"@,
        ErrorView::InvalidVersion(token) => "invalid version: "@ + token,
        ErrorView::InvalidFrameSize(_) => "max-frame-size too big or too small"@,
        ErrorView::VersionMismatch => "unsupported version"@,
        ErrorView::UnexpectedFrame(_, _) => "invalid frame received"@,
        ErrorView::HandlerFailed => "the handler failed"@,
    }
}

impl ProtocolError {
    /// The status code with which a disconnect frame reports the error.
    pub fn status_code(&self) -> (code: u32)
        ensures
            code == spec_status_of(self@),
    {
        match self {
            ProtocolError::FrameTooLarge => STATUS_TOO_BIG,
            ProtocolError::MissingRequiredKey(key) => {
                if str_eq(key.as_str(), "supported-versions") {
                    STATUS_NO_VERSION
                } else if str_eq(key.as_str(), "max-frame-size") {
                    STATUS_NO_FRAME_SIZE
                } else if str_eq(key.as_str(), "capabilities") {
                    STATUS_NO_CAPABILITIES
                } else {
                    STATUS_INVALID
                }
            },
            ProtocolError::InvalidVersion(_) => STATUS_BAD_VERSION,
            ProtocolError::VersionMismatch => STATUS_BAD_VERSION,
            ProtocolError::InvalidFrameSize(_) => STATUS_BAD_FRAME_SIZE,
            ProtocolError::UnexpectedFrame(SessionState::Established, FrameType::Notify) => {
                STATUS_INTERLACED
            },
            ProtocolError::HandlerFailed => STATUS_UNKNOWN,
            _ => STATUS_INVALID,
        }
    }

    /// The text with which a disconnect frame explains the error.
    pub fn to_string(&self) -> (text: String)
        ensures
            text@ == spec_describe(self@),
    {
        match self {
            ProtocolError::NeedMore => String::from_str("more bytes are needed"),
            ProtocolError::Truncated => String::from_str("a field runs past the end of the frame"),
            ProtocolError::VarintOverflow => String::from_str(
                "a variable-length integer is too long",
            ),
            ProtocolError::UnknownFrameType(_) => String::from_str("unknown frame type"),
            ProtocolError::InvalidFlags => String::from_str(
                "FIN is missing or a reserved flag is set",
            ),
            ProtocolError::AbortRequested { .. } => String::from_str("the frame carries ABORT"),
            ProtocolError::NonZeroIds => String::from_str(
                "stream and frame identifiers must be zero",
            ),
            ProtocolError::UnknownValueType(_) => String::from_str("unknown value type"),
            ProtocolError::InvalidUtf8 => String::from_str("a name is not valid UTF-8"),
            ProtocolError::DuplicateKey(key) => String::from_str("duplicate key: ").concat(
                key.as_str(),
            ),
            ProtocolError::MissingRequiredKey(key) => String::from_str(
                "missing required key: ",
            ).concat(key.as_str()),
            ProtocolError::WrongTypeForKey(key) => String::from_str("wrong type for key: ").concat(
                key.as_str(),
            ),
            ProtocolError::UnknownActionType(_) => String::from_str("unknown action type"),
            ProtocolError::ActionArgCount { .. } => String::from_str(
                "wrong number of arguments for action",
            ),
            ProtocolError::UnknownScope(_) => String::from_str("unknown variable scope"),
            ProtocolError::PayloadMismatch => String::from_str(
                "the payload does not belong to the frame type",
            ),
            ProtocolError::TooManyArgs => String::from_str("a message has too many arguments"),
            ProtocolError::FrameTooLarge => String::from_str("frame is too big"),
            ProtocolError::InvalidVersion(token) => String::from_str("invalid version: ").concat(
                token.as_str(),
            ),
            ProtocolError::InvalidFrameSize(_) => String::from_str(
                "max-frame-size too big or too small",
            ),
            ProtocolError::VersionMismatch => String::from_str("unsupported version"),
            ProtocolError::UnexpectedFrame(_, _) => String::from_str("invalid frame received"),
            ProtocolError::HandlerFailed => String::from_str("the handler failed"),
        }
    }
}

} // verus!
