use spop::actions::{Action, VarScope};
use spop::error::ProtocolError;
use spop::frame::{FrameFlags, FramePayload, FrameType, Message, Metadata};
use spop::frames::ack::Ack;
use spop::frames::agent_disconnect::AgentDisconnect;
use spop::frames::agent_hello::AgentHello;
use spop::frames::capabilities::FrameCapabilities;
use spop::frames::haproxy_hello::{HaproxyHello, HaproxyHelloFrame};
use spop::frames::notify::NotifyFrame;
use spop::kv::KvList;
use spop::parser::parse_frame;
use spop::serialize::{encode_payload, serialize_ack};
use spop::types::TypedData;
use spop::{SpopFrame, SpopFrameExt};

#[test]
fn metadata_serialize_is_flags_then_ids() {
    let metadata = Metadata {
        flags: FrameFlags::new(true, false),
        stream_id: 7,
        frame_id: 2288,
    };
    assert_eq!(metadata.serialize(), vec![0, 0, 0, 1, 7, 0xf0, 0x80, 0x00]);
    assert_eq!(Metadata::default().serialize(), vec![0, 0, 0, 0, 0, 0]);
    assert_eq!(FrameFlags(0x0102_0304).to_be_bytes(), [1, 2, 3, 4]);
    assert_eq!(FrameFlags::new(true, true).to_be_bytes(), [0, 0, 0, 3]);
}

#[test]
fn flags_from_u32() {
    assert_eq!(FrameFlags::from_u32(1), Ok(FrameFlags(1)));
    assert_eq!(FrameFlags::from_u32(3), Ok(FrameFlags(3)));
    assert_eq!(FrameFlags::from_u32(0), Err(ProtocolError::InvalidFlags));
    assert_eq!(FrameFlags::from_u32(2), Err(ProtocolError::InvalidFlags));
    assert_eq!(FrameFlags::from_u32(5), Err(ProtocolError::InvalidFlags));
    assert_eq!(
        FrameFlags::from_u32(0x8000_0001),
        Err(ProtocolError::InvalidFlags)
    );
}

#[test]
fn serialize_ack_is_an_empty_ack_frame() {
    assert_eq!(
        serialize_ack(7, 1),
        vec![0, 0, 0, 7, 103, 0, 0, 0, 1, 7, 1]
    );
    let bytes = serialize_ack(u64::MAX, 2288);
    let (rest, frame) = parse_frame(&bytes).unwrap();
    assert!(rest.is_empty());
    assert_eq!(frame.frame_type(), &FrameType::Ack);
    assert_eq!(frame.metadata().stream_id, u64::MAX);
    assert_eq!(frame.metadata().frame_id, 2288);
    assert!(frame.metadata().flags.is_fin());
    assert_eq!(frame.payload(), FramePayload::ListOfActions(vec![]));
    assert_eq!(bytes, Ack::new(u64::MAX, 2288).serialize().unwrap());
}

#[test]
fn agent_hello_wire_form() {
    let hello = AgentHello {
        version: "2.0".to_string(),
        max_frame_size: 16380,
        capabilities: vec![FrameCapabilities::Pipelining],
    };
    let mut expected = vec![101u8, 0, 0, 0, 1, 0, 0];
    expected.push(7);
    expected.extend_from_slice(b"version");
    expected.extend_from_slice(&[0x08, 3]);
    expected.extend_from_slice(b"2.0");
    expected.push(14);
    expected.extend_from_slice(b"max-frame-size");
    expected.extend_from_slice(&[0x03, 0xfc, 0xf0, 0x06]);
    expected.push(12);
    expected.extend_from_slice(b"capabilities");
    expected.extend_from_slice(&[0x08, 10]);
    expected.extend_from_slice(b"pipelining");
    let mut framed = (expected.len() as u32).to_be_bytes().to_vec();
    framed.extend_from_slice(&expected);
    assert_eq!(hello.serialize().unwrap(), framed);
    assert_eq!(hello.to_frame().serialize().unwrap(), framed);

    let frame = hello.to_frame();
    assert_eq!(frame.frame_type(), &FrameType::AgentHello);
    assert_eq!(frame.metadata().stream_id, 0);
    assert_eq!(frame.metadata().frame_id, 0);
    assert!(frame.metadata().flags.is_fin());
    assert_eq!(frame.payload(), hello.payload());
}

#[test]
fn agent_disconnect_wire_form() {
    let disconnect = AgentDisconnect {
        status_code: 0,
        message: "Goodbye".to_string(),
    };
    let mut expected = vec![102u8, 0, 0, 0, 1, 0, 0];
    expected.push(11);
    expected.extend_from_slice(b"status-code");
    expected.extend_from_slice(&[0x03, 0]);
    expected.push(7);
    expected.extend_from_slice(b"message");
    expected.extend_from_slice(&[0x08, 7]);
    expected.extend_from_slice(b"Goodbye");
    let mut framed = (expected.len() as u32).to_be_bytes().to_vec();
    framed.extend_from_slice(&expected);
    assert_eq!(disconnect.serialize().unwrap(), framed);
    assert_eq!(disconnect.frame_type(), &FrameType::AgentDisconnect);
    assert!(disconnect.metadata().flags.is_fin());
}

#[test]
fn ack_wire_form() {
    let ack = Ack::new(7, 1)
        .set_var(VarScope::Session, "x", TypedData::UInt32(42))
        .unset_var(VarScope::Transaction, "yy");
    assert_eq!(ack.actions.len(), 2);
    let expected = vec![
        0, 0, 0, 20, 103, 0, 0, 0, 1, 7, 1, // header
        1, 3, 1, 1, b'x', 0x03, 42, // set-var
        2, 2, 2, 2, b'y', b'y', // unset-var
    ];
    assert_eq!(ack.serialize().unwrap(), expected);
    assert_eq!(ack.frame_type(), &FrameType::Ack);
    assert_eq!(ack.metadata().stream_id, 7);
    assert_eq!(ack.metadata().frame_id, 1);
    assert_eq!(
        ack.payload(),
        FramePayload::ListOfActions(vec![
            Action::SetVar {
                scope: VarScope::Session,
                name: "x".to_string(),
                value: TypedData::UInt32(42)
            },
            Action::UnSetVar {
                scope: VarScope::Transaction,
                name: "yy".to_string()
            },
        ])
    );
}

#[test]
fn scopes_have_their_wire_numbers() {
    let scopes = [
        (VarScope::Process, 0u8),
        (VarScope::Session, 1),
        (VarScope::Transaction, 2),
        (VarScope::Request, 3),
        (VarScope::Response, 4),
    ];
    for (scope, number) in scopes {
        assert_eq!(scope.to_u8(), number);
        assert_eq!(VarScope::from_u8(number), Ok(scope));
    }
    assert_eq!(VarScope::from_u8(5), Err(ProtocolError::UnknownScope(5)));
}

#[test]
fn encode_payload_writes_every_value_type() {
    let mut list = KvList::new();
    list.insert("b".to_string(), TypedData::Bool(true));
    list.insert("n".to_string(), TypedData::Null);
    list.insert("i".to_string(), TypedData::IPv4([1, 2, 3, 4]));
    let mut buf = vec![0xAA];
    encode_payload(&FramePayload::KVList(list), &mut buf).unwrap();
    assert_eq!(
        buf,
        vec![0xAA, 1, b'b', 0x11, 1, b'n', 0x00, 1, b'i', 0x06, 1, 2, 3, 4]
    );
}

#[test]
fn encode_payload_writes_messages() {
    let mut args = KvList::new();
    args.insert("k".to_string(), TypedData::UInt32(1));
    let payload = FramePayload::ListOfMessages(vec![
        Message {
            name: "a".to_string(),
            args,
        },
        Message {
            name: "bc".to_string(),
            args: KvList::new(),
        },
    ]);
    let mut buf = Vec::new();
    encode_payload(&payload, &mut buf).unwrap();
    assert_eq!(buf, vec![1, b'a', 1, 1, b'k', 0x03, 1, 2, b'b', b'c', 0]);
}

#[test]
fn encode_payload_refuses_too_many_arguments() {
    let mut args = KvList::new();
    for i in 0..256 {
        args.insert(format!("k{}", i), TypedData::Null);
    }
    let payload = FramePayload::ListOfMessages(vec![
        Message {
            name: "fine".to_string(),
            args: KvList::new(),
        },
        Message {
            name: "crowded".to_string(),
            args,
        },
    ]);
    let mut buf = vec![1, 2, 3];
    assert_eq!(
        encode_payload(&payload, &mut buf),
        Err(ProtocolError::TooManyArgs)
    );
    assert_eq!(buf, vec![1, 2, 3]);
}

#[test]
fn typed_frames_that_are_not_well_formed_do_not_serialize() {
    let hello = HaproxyHelloFrame {
        metadata: Metadata::default(),
        payload: HaproxyHello {
            supported_versions: vec![],
            max_frame_size: 1024,
            capabilities: vec![],
            healthcheck: None,
            engine_id: None,
        },
    };
    assert_eq!(hello.serialize(), Err(ProtocolError::InvalidFlags));
    let notify = NotifyFrame {
        metadata: Metadata {
            flags: FrameFlags(9),
            stream_id: 1,
            frame_id: 1,
        },
        messages: vec![],
    };
    assert_eq!(notify.serialize(), Err(ProtocolError::InvalidFlags));
    assert_eq!(notify.frame_type(), &FrameType::Notify);
    assert_eq!(notify.payload(), FramePayload::ListOfMessages(vec![]));
}
