use spop::error::ProtocolError;
use spop::session::SessionState;
use spop::frame::FrameType;

fn all_errors() -> Vec<(ProtocolError, u32, &'static str)> {
    vec![
        (ProtocolError::NeedMore, 4, "more bytes are needed"),
        (
            ProtocolError::Truncated,
            4,
            "a field runs past the end of the frame",
        ),
        (
            ProtocolError::VarintOverflow,
            4,
            "a variable-length integer is too long",
        ),
        (ProtocolError::UnknownFrameType(9), 4, "unknown frame type"),
        (
            ProtocolError::InvalidFlags,
            4,
            "FIN is missing or a reserved flag is set",
        ),
        (
            ProtocolError::AbortRequested {
                stream_id: 1,
                frame_id: 2,
            },
            4,
            "the frame carries ABORT",
        ),
        (
            ProtocolError::NonZeroIds,
            4,
            "stream and frame identifiers must be zero",
        ),
        (ProtocolError::UnknownValueType(12), 4, "unknown value type"),
        (ProtocolError::InvalidUtf8, 4, "a name is not valid UTF-8"),
        (
            ProtocolError::DuplicateKey("k".to_string()),
            4,
            "duplicate key: k",
        ),
        (
            ProtocolError::MissingRequiredKey("supported-versions".to_string()),
            5,
            "missing required key: supported-versions",
        ),
        (
            ProtocolError::MissingRequiredKey("max-frame-size".to_string()),
            6,
            "missing required key: max-frame-size",
        ),
        (
            ProtocolError::MissingRequiredKey("capabilities".to_string()),
            7,
            "missing required key: capabilities",
        ),
        (
            ProtocolError::MissingRequiredKey("message".to_string()),
            4,
            "missing required key: message",
        ),
        (
            ProtocolError::WrongTypeForKey("max-frame-size".to_string()),
            4,
            "wrong type for key: max-frame-size",
        ),
        (ProtocolError::UnknownActionType(3), 4, "unknown action type"),
        (
            ProtocolError::ActionArgCount {
                action_type: 1,
                nb_args: 2,
            },
            4,
            "wrong number of arguments for action",
        ),
        (ProtocolError::UnknownScope(5), 4, "unknown variable scope"),
        (
            ProtocolError::PayloadMismatch,
            4,
            "the payload does not belong to the frame type",
        ),
        (
            ProtocolError::TooManyArgs,
            4,
            "a message has too many arguments",
        ),
        (ProtocolError::FrameTooLarge, 3, "frame is too big"),
        (
            ProtocolError::InvalidVersion("x.y".to_string()),
            8,
            "invalid version: x.y",
        ),
        (
            ProtocolError::InvalidFrameSize(100),
            9,
            "max-frame-size too big or too small",
        ),
        (ProtocolError::VersionMismatch, 8, "unsupported version"),
        (
            ProtocolError::UnexpectedFrame(SessionState::Established, FrameType::Notify),
            11,
            "invalid frame received",
        ),
        (
            ProtocolError::UnexpectedFrame(SessionState::AwaitHello, FrameType::Notify),
            4,
            "invalid frame received",
        ),
        (
            ProtocolError::UnexpectedFrame(SessionState::Established, FrameType::Ack),
            4,
            "invalid frame received",
        ),
        (ProtocolError::HandlerFailed, 99, "the handler failed"),
    ]
}

#[test]
fn errors_have_a_status_code_and_a_text() {
    for (error, code, text) in all_errors() {
        assert_eq!(error.status_code(), code, "{:?}", error);
        assert_eq!(error.to_string(), text, "{:?}", error);
        assert_ne!(error.status_code(), 0);
    }
}
