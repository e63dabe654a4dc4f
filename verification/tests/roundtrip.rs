use spop::actions::{Action, VarScope};
use spop::error::ProtocolError;
use spop::frame::{Frame, FrameFlags, FramePayload, FrameType, Message, Metadata};
use spop::frames::ack::Ack;
use spop::frames::agent_disconnect::AgentDisconnect;
use spop::frames::agent_hello::AgentHello;
use spop::frames::capabilities::FrameCapabilities;
use spop::kv::KvList;
use spop::parser::{parse_frame, parse_frame_within};
use spop::types::TypedData;

fn meta(stream_id: u64, frame_id: u64) -> Metadata {
    Metadata {
        flags: FrameFlags::new(true, false),
        stream_id,
        frame_id,
    }
}

fn sample_values() -> Vec<TypedData> {
    vec![
        TypedData::Null,
        TypedData::Bool(true),
        TypedData::Int32(-7),
        TypedData::UInt32(16380),
        TypedData::Int64(i64::MIN),
        TypedData::UInt64(u64::MAX),
        TypedData::IPv4([10, 1, 2, 3]),
        TypedData::IPv6([1, 2, 3, 4, 5, 6, 7, 8, 9, 10, 11, 12, 13, 14, 15, 16]),
        TypedData::String("tequila".to_string()),
        TypedData::Binary(vec![0, 255, 128]),
    ]
}

fn sample_list(prefix: &str) -> KvList {
    let mut list = KvList::new();
    for (i, value) in sample_values().into_iter().enumerate() {
        list.insert(format!("{}{}", prefix, i), value);
    }
    list
}

fn disconnect_list(extra: bool) -> KvList {
    let mut list = KvList::new();
    list.insert("status-code".to_string(), TypedData::UInt32(4));
    list.insert(
        "message".to_string(),
        TypedData::String("invalid frame received".to_string()),
    );
    if extra {
        list.insert("detail".to_string(), TypedData::Binary(vec![1, 2, 3]));
    }
    list
}

fn hello_list(first: &str) -> KvList {
    let mut list = KvList::new();
    list.insert(first.to_string(), TypedData::String("2.0".to_string()));
    list.insert("max-frame-size".to_string(), TypedData::UInt32(16380));
    list.insert(
        "capabilities".to_string(),
        TypedData::String("pipelining".to_string()),
    );
    list
}

fn sample_frames() -> Vec<Frame> {
    let messages = vec![
        Message {
            name: "check-client-ip".to_string(),
            args: sample_list("arg-"),
        },
        Message {
            name: "".to_string(),
            args: KvList::new(),
        },
        Message {
            name: "log-request".to_string(),
            args: sample_list(""),
        },
    ];
    let actions = vec![
        Action::SetVar {
            scope: VarScope::Process,
            name: "ip_score".to_string(),
            value: TypedData::UInt32(99),
        },
        Action::UnSetVar {
            scope: VarScope::Transaction,
            name: "my_var".to_string(),
        },
        Action::SetVar {
            scope: VarScope::Request,
            name: "s".to_string(),
            value: TypedData::String("x".repeat(500)),
        },
        Action::SetVar {
            scope: VarScope::Response,
            name: "b".to_string(),
            value: TypedData::Binary(vec![]),
        },
        Action::UnSetVar {
            scope: VarScope::Session,
            name: "".to_string(),
        },
    ];
    vec![
        Frame::new(
            FrameType::HaproxyHello,
            meta(0, 0),
            FramePayload::KVList(hello_list("supported-versions")),
        )
        .unwrap(),
        Frame::new(
            FrameType::AgentHello,
            meta(0, 0),
            FramePayload::KVList(hello_list("version")),
        )
        .unwrap(),
        Frame::new(
            FrameType::HaproxyDisconnect,
            meta(0, 0),
            FramePayload::KVList(disconnect_list(true)),
        )
        .unwrap(),
        Frame::new(
            FrameType::AgentDisconnect,
            meta(0, 0),
            FramePayload::KVList(disconnect_list(false)),
        )
        .unwrap(),
        Frame::new(
            FrameType::Notify,
            meta(7, 1),
            FramePayload::ListOfMessages(messages),
        )
        .unwrap(),
        Frame::new(
            FrameType::Notify,
            meta(u64::MAX, 240),
            FramePayload::ListOfMessages(vec![]),
        )
        .unwrap(),
        Frame::new(
            FrameType::Ack,
            meta(2288, 264432),
            FramePayload::ListOfActions(actions),
        )
        .unwrap(),
        Frame::new(FrameType::Ack, meta(0, 0), FramePayload::ListOfActions(vec![])).unwrap(),
        Ack::new(5, 6)
            .set_var(VarScope::Session, "x", TypedData::UInt32(42))
            .unset_var(VarScope::Request, "y")
            .to_frame(),
        AgentHello {
            version: "2.0".to_string(),
            max_frame_size: 16380,
            capabilities: vec![FrameCapabilities::Pipelining],
        }
        .to_frame(),
        AgentDisconnect {
            status_code: 0,
            message: "Goodbye".to_string(),
        }
        .to_frame(),
    ]
}

#[test]
fn frame_round_trip() {
    for frame in sample_frames() {
        let bytes = frame.serialize().unwrap();
        let (rest, back) = parse_frame(&bytes).unwrap();
        assert!(rest.is_empty(), "{:?}", frame);
        assert_eq!(back, frame);
        assert_eq!(bytes.len(), 4 + u32::from_be_bytes([bytes[0], bytes[1], bytes[2], bytes[3]]) as usize);
    }
}

#[test]
fn frame_round_trip_with_bytes_after() {
    for frame in sample_frames() {
        let mut bytes = frame.serialize().unwrap();
        let len = bytes.len();
        bytes.extend_from_slice(&[1, 2, 3]);
        let (rest, back) = parse_frame(&bytes).unwrap();
        assert_eq!(rest, &[1, 2, 3]);
        assert_eq!(bytes.len() - rest.len(), len);
        assert_eq!(back, frame);
    }
}

#[test]
fn frame_prefixes_need_more() {
    for frame in sample_frames() {
        let bytes = frame.serialize().unwrap();
        for cut in 0..bytes.len() {
            assert_eq!(parse_frame(&bytes[..cut]), Err(ProtocolError::NeedMore));
        }
    }
}

#[test]
fn stream_of_frames_in_any_chunking() {
    let frames = sample_frames();
    let mut stream = Vec::new();
    for frame in &frames {
        stream.extend_from_slice(&frame.serialize().unwrap());
    }
    for chunk in [1usize, 2, 3, 4, 5, 11, 64, 1000, stream.len()] {
        let mut buffer: Vec<u8> = Vec::new();
        let mut seen = Vec::new();
        for piece in stream.chunks(chunk) {
            buffer.extend_from_slice(piece);
            loop {
                match parse_frame(&buffer) {
                    Ok((rest, frame)) => {
                        let taken = buffer.len() - rest.len();
                        seen.push(frame);
                        buffer.drain(..taken);
                    }
                    Err(ProtocolError::NeedMore) => break,
                    Err(e) => panic!("unexpected error {:?}", e),
                }
            }
        }
        assert!(buffer.is_empty());
        assert_eq!(seen, frames, "chunks of {}", chunk);
    }
}

#[test]
fn abort_frame_reads_back_as_abort_request() {
    let frame = Frame::new(
        FrameType::Notify,
        Metadata {
            flags: FrameFlags::new(true, true),
            stream_id: 300,
            frame_id: 5,
        },
        FramePayload::ListOfMessages(vec![]),
    )
    .unwrap();
    let bytes = frame.serialize().unwrap();
    assert_eq!(
        parse_frame(&bytes),
        Err(ProtocolError::AbortRequested {
            stream_id: 300,
            frame_id: 5
        })
    );
}

#[test]
fn frame_larger_than_the_limit_is_not_written() {
    let frame = Ack::new(1, 1)
        .set_var(VarScope::Session, "big", TypedData::Binary(vec![7; 300]))
        .to_frame();
    let bytes = frame.serialize().unwrap();
    let body = bytes.len() - 4;
    assert_eq!(
        frame.serialize_within(body as u32 - 1),
        Err(ProtocolError::FrameTooLarge)
    );
    assert_eq!(frame.serialize_within(body as u32), Ok(bytes.clone()));
    assert_eq!(
        parse_frame_within(&bytes, body as u32 - 1),
        Err(ProtocolError::FrameTooLarge)
    );
    assert_eq!(parse_frame_within(&bytes, body as u32).unwrap().1, frame);
}

#[test]
fn frame_builder_rejects_what_is_not_a_frame() {
    let kv = || FramePayload::KVList(disconnect_list(false));
    let messages = || FramePayload::ListOfMessages(vec![]);
    let actions = || FramePayload::ListOfActions(vec![]);
    for t in [
        FrameType::HaproxyHello,
        FrameType::HaproxyDisconnect,
        FrameType::AgentHello,
        FrameType::AgentDisconnect,
    ] {
        assert_eq!(
            Frame::new(t, meta(0, 0), messages()),
            Err(ProtocolError::PayloadMismatch)
        );
        assert_eq!(
            Frame::new(t, meta(0, 0), actions()),
            Err(ProtocolError::PayloadMismatch)
        );
    }
    assert_eq!(
        Frame::new(FrameType::Notify, meta(1, 1), kv()),
        Err(ProtocolError::PayloadMismatch)
    );
    assert_eq!(
        Frame::new(FrameType::Notify, meta(1, 1), actions()),
        Err(ProtocolError::PayloadMismatch)
    );
    assert_eq!(
        Frame::new(FrameType::Ack, meta(1, 1), messages()),
        Err(ProtocolError::PayloadMismatch)
    );
    assert_eq!(
        Frame::new(FrameType::Ack, Metadata::default(), actions()),
        Err(ProtocolError::InvalidFlags)
    );
    assert_eq!(
        Frame::new(
            FrameType::Ack,
            Metadata {
                flags: FrameFlags(5),
                stream_id: 0,
                frame_id: 0
            },
            actions()
        ),
        Err(ProtocolError::InvalidFlags)
    );
    assert_eq!(
        Frame::new(FrameType::AgentDisconnect, meta(0, 1), kv()),
        Err(ProtocolError::NonZeroIds)
    );
    assert_eq!(
        Frame::new(FrameType::AgentHello, meta(0, 0), kv()),
        Err(ProtocolError::MissingRequiredKey("version".to_string()))
    );
    let mut args = KvList::new();
    for i in 0..256 {
        args.insert(format!("k{}", i), TypedData::Null);
    }
    let crowded = vec![Message {
        name: "m".to_string(),
        args,
    }];
    assert_eq!(
        Frame::new(
            FrameType::Notify,
            meta(1, 1),
            FramePayload::ListOfMessages(crowded)
        ),
        Err(ProtocolError::TooManyArgs)
    );
}

#[test]
fn message_with_255_arguments_round_trips() {
    let mut args = KvList::new();
    for i in 0..255 {
        args.insert(format!("k{}", i), TypedData::UInt32(i));
    }
    let frame = Frame::new(
        FrameType::Notify,
        meta(1, 1),
        FramePayload::ListOfMessages(vec![Message {
            name: "m".to_string(),
            args,
        }]),
    )
    .unwrap();
    let bytes = frame.serialize().unwrap();
    assert_eq!(parse_frame(&bytes).unwrap().1, frame);
}

#[test]
fn frame_parts_can_be_taken_out() {
    let frame = Ack::new(1, 2).to_frame();
    let copy = frame.clone();
    assert_eq!(copy, frame);
    let (frame_type, metadata, payload) = frame.into_parts();
    assert_eq!(frame_type, FrameType::Ack);
    assert_eq!(metadata, meta(1, 2));
    assert_eq!(payload, FramePayload::ListOfActions(vec![]));
}
